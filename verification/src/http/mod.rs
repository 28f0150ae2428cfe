//! HTTP message pieces: header collections and codings.
pub mod body;
pub mod compress;
pub mod header;
pub mod headers;
pub mod http11;
pub mod ws_handler;
pub mod message;

pub use headers::Headers;
