//! Pages over the output of Git's own commands.
//!
//! Nothing here runs a command. The functions say which arguments a command is
//! given, how much of its output is kept, what its end means, and what page its
//! output makes; a caller that has Git at hand runs it in between.

pub mod command;
pub mod index;
pub mod pages;
pub mod rows;
