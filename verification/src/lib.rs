//! The decisions of a small configurable web server, with their contracts proved.

pub mod cache;
pub mod config;
pub mod decimal;
pub mod files;
pub mod headers;
pub mod laws;
pub mod proxy;
pub mod reply;
pub mod request_context;
pub mod server;
pub mod text;
pub mod uri;
pub mod url;
