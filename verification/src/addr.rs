//! Socket addresses, held as plain values.
use vstd::prelude::*;

verus! {

/// An IP address and port, as a connection's endpoint is named in errors.
#[allow(inconsistent_fields)]
#[derive(Debug, Clone, Copy, PartialEq, Eq)]
pub enum SocketAddress {
    /// An IPv4 address (four octets) and a port.
    V4 { ip: [u8; 4], port: u16 },
    /// An IPv6 address (sixteen octets), a port, and the flow and scope
    /// identifiers of the socket address.
    V6 { ip: [u8; 16], port: u16, flowinfo: u32, scope_id: u32 },
}

} // verus!
