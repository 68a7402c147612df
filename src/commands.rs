//! The typed command protocol between connection actors and the server.

use vstd::prelude::*;

use crate::address::Address;
use crate::message::Message;

verus! {

/// A command for the server, produced by the handler's callbacks.
#[derive(Debug)]
pub enum ServerCMD {
    /// Shut the server down with the given code.
    ShutDown(u32),
    /// Send an envelope to every connected client.
    SendAll(Message),
    /// Disconnect the client at the given address.
    Kick(Address),
}

/// A command for one connection actor, produced by the server.
#[derive(Debug)]
pub enum ConnCMD {
    /// Close the connection.
    Kick,
    /// Send an envelope to the connection's client.
    Send(Message),
}

impl Clone for ServerCMD {
    fn clone(&self) -> (r: ServerCMD)
        ensures
            r == *self,
    {
        match self {
            ServerCMD::ShutDown(code) => ServerCMD::ShutDown(*code),
            ServerCMD::SendAll(m) => ServerCMD::SendAll(m.clone()),
            ServerCMD::Kick(a) => ServerCMD::Kick(*a),
        }
    }
}

impl Clone for ConnCMD {
    fn clone(&self) -> (r: ConnCMD)
        ensures
            r == *self,
    {
        match self {
            ConnCMD::Kick => ConnCMD::Kick,
            ConnCMD::Send(m) => ConnCMD::Send(m.clone()),
        }
    }
}

} // verus!
