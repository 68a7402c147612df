//! A connection-oriented broadcast server core: envelopes, the command
//! protocol between connections and the server, line framing, the
//! connection actor, the server's dispatch and the serialized handler host.

pub mod address;
pub mod commands;
pub mod conn;
pub mod error;
pub mod frame;
pub mod handler;
pub mod message;
pub mod server;
