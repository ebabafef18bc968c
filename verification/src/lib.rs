//! A minimal, single-threaded, event-driven HTTP server core: a byte-level
//! request parser and response serializer, a connection registry that drives
//! incremental reads and writes under edge-triggered readiness, a connection
//! identifier allocator, and the chat service the server hosts.
//!
//! Everything here is verified; the binary around it supplies the sockets and
//! the readiness events.

pub mod bytes;
pub mod chat;
pub mod chat_http;
pub mod http;
pub mod json;
pub mod script;
pub mod server;
pub mod tokens;
