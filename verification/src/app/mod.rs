//! Application routing and page rendering.

pub mod clone;
pub mod index;
pub mod log;
pub mod objects;
pub mod parts;
pub mod route;
pub mod session;
pub mod summary;

pub use self::session::{App, FileRequest, Site, Step};
