//! Network addresses and connection directions.

use vstd::prelude::*;

verus! {

/// An IP address and port pair, identifying a peer uniquely within a run.
///
/// The address is held as plain values: the IP as at most 128 bits (an
/// IPv4 address occupies the low 32), a flag for the address family — so an
/// IPv4 address and the IPv6 address with the same numeric value stay two
/// distinct peers — and the port as 16 bits. The embedding program converts
/// between this form and the operating system's own socket-address type.
#[derive(Clone, Copy, PartialEq, Eq, Structural, Hash, Debug)]
pub struct Addr {
    pub ip: u128,
    pub ipv6: bool,
    pub port: u16,
}

/// The direction of a connection: accepted or dialed.
#[derive(Clone, Copy, PartialEq, Eq, Structural, Hash, Debug)]
pub enum Link {
    /// The peer connected to us.
    Inbound,
    /// We connected to the peer.
    Outbound,
}

} // verus!
