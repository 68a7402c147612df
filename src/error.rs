//! Per-connection errors.

use vstd::prelude::*;

verus! {

/// What can go wrong on one connection. Such an error stays with its
/// connection: it never reaches the server or another connection.
#[derive(Clone, Copy, Debug, PartialEq, Eq, Structural)]
pub enum ConnectionError {
    /// Writing to the peer failed.
    TimedOut,
    /// The peer aborted the connection early.
    Aborted,
    /// The peer broke the wire protocol (a frame too long, for one).
    ProtocolError,
    /// The peer is not authorized on this server.
    Unauthorized,
}

impl ConnectionError {
    /// A short human-readable description of the error.
    pub fn describe(&self) -> (r: &'static str)
        ensures
            *self == ConnectionError::TimedOut ==> r@ == "Connection Time Out"@,
            *self == ConnectionError::Aborted ==> r@ == "Connection was aborted"@,
            *self == ConnectionError::ProtocolError ==> r@ == "Unexpected protocol used"@,
            *self == ConnectionError::Unauthorized ==> r@ == "Client is not authorized on network"@,
    {
        match self {
            ConnectionError::TimedOut => "Connection Time Out",
            ConnectionError::Aborted => "Connection was aborted",
            ConnectionError::ProtocolError => "Unexpected protocol used",
            ConnectionError::Unauthorized => "Client is not authorized on network",
        }
    }
}

/// What can go wrong outside a single connection's traffic.
#[derive(Clone, Copy, Debug, PartialEq, Eq, Structural)]
pub enum ServerError {
    /// The listener could not be bound (address in use, no permission).
    BindError,
    /// A frame's bytes are not a well-formed envelope. The connection
    /// drops that frame and carries on.
    MalformedEnvelope,
}

impl ServerError {
    /// A short human-readable description of the error.
    pub fn describe(&self) -> (r: &'static str)
        ensures
            *self == ServerError::BindError ==> r@ == "Could not bind the listener"@,
            *self == ServerError::MalformedEnvelope ==> r@ == "Malformed envelope"@,
    {
        match self {
            ServerError::BindError => "Could not bind the listener",
            ServerError::MalformedEnvelope => "Malformed envelope",
        }
    }
}

} // verus!
