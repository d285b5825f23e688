//! Read-only access to a set of code base projects.
//!
//! Each project has a key and a root directory. Clients list directories, read files
//! page by page, and search for files and for text. The library decides what a request
//! may look at and what it is answered; it asks its host for everything that only the
//! system can tell, one [`session::Effect`] at a time.

pub mod access;
pub mod encoding;
pub mod error;
pub mod hosts;
pub mod laws;
pub mod listing;
pub mod order;
pub mod path;
pub mod path_laws;
pub mod projects;
pub mod read;
pub mod search;
pub mod server;
pub mod session;
pub mod text;
pub mod types;
