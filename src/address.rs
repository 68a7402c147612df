//! Peer addresses, which identify connections.

use vstd::prelude::*;

verus! {

/// The socket address of a peer: an IPv4 address as its 32-bit value, or an
/// IPv6 address as its 128-bit value, each with a port.
#[derive(Clone, Copy, Debug, PartialEq, Eq, Structural, Hash)]
pub enum Address {
    V4(u32, u16),
    V6(u128, u16),
}

impl Address {
    /// The port of the address.
    pub fn port(&self) -> (r: u16)
        ensures
            r == match *self {
                Address::V4(_, p) => p,
                Address::V6(_, p) => p,
            },
    {
        match *self {
            Address::V4(_, p) => p,
            Address::V6(_, p) => p,
        }
    }
}

} // verus!
