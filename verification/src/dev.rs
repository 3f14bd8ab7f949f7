//! Development-viewer protocol and server state.
pub mod http;
pub mod protocol;
pub mod server;
