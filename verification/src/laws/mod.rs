//! What holds of the library as a whole: statements that relate several of its
//! functions, proved over the descriptions that their contracts use.

pub mod access;
pub mod admission;
pub mod answers;
pub mod branches;
pub mod browsing;
pub mod chains;
pub mod commands;
pub mod commits;
pub mod deltas;
pub mod encodings;
pub mod escaping;
pub mod faults;
pub mod headers;
pub mod history;
pub mod links;
pub mod lists;
pub mod objects;
pub mod overview;
pub mod packs;
pub mod pages;
pub mod reading;
pub mod refs;
pub mod requests;
pub mod responses;
pub mod serving;
pub mod texts;
pub mod urls;
pub mod views;
