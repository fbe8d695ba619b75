//! The relay itself and the values it works on.

pub mod body;
pub mod config;
pub mod http_request;
pub mod outbox;
pub mod upstream;
pub mod wire_format;
