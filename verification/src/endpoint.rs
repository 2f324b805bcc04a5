//! Network addresses as plain values.

use vstd::prelude::*;

verus! {

/// The port on which a receiver listens.
pub const LISTEN_PORT: u16 = 526;

/// The host part of an address: an IP address as one number, its first octet
/// the most significant.
#[derive(Clone, Copy, Debug, PartialEq, Eq, Structural)]
pub enum Host {
    /// An IPv4 address: its four octets.
    V4 { octets: u32 },
    /// An IPv6 address: its eight segments, with flow information and scope.
    V6 { segments: u128, flowinfo: u32, scope_id: u32 },
}

/// A resolved network address: a host and a port.
#[derive(Clone, Copy, Debug, PartialEq, Eq, Structural)]
pub struct Endpoint {
    pub host: Host,
    pub port: u16,
}

impl Endpoint {
    /// The address a receiver binds: every interface, port 526.
    pub open spec fn any_interface() -> Endpoint {
        Endpoint { host: Host::V4 { octets: 0 }, port: LISTEN_PORT }
    }

    /// The address a receiver binds.
    pub fn listening() -> (endpoint: Endpoint)
        ensures
            endpoint == Endpoint::any_interface(),
            endpoint.port == 526,
    {
        Endpoint { host: Host::V4 { octets: 0 }, port: LISTEN_PORT }
    }
}

} // verus!
