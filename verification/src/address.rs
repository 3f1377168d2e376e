//! The remote address that identifies a connection.

use vstd::prelude::*;

verus! {

/// The remote socket address of a client, which stays the same for as long as
/// the connection lives. It holds what a socket address holds, as plain
/// integers, so that two addresses are the same exactly where every part is.
#[derive(Clone, Copy, Debug, PartialEq, Eq, Hash, Structural)]
#[allow(inconsistent_fields)]
pub enum PeerAddr {
    /// An IPv4 address, its four octets read as one big-endian number, and a port.
    V4 { ip: u32, port: u16 },
    /// An IPv6 address, its sixteen octets read as one big-endian number, a
    /// port, the flow information and the scope.
    V6 { ip: u128, port: u16, flowinfo: u32, scope_id: u32 },
}

} // verus!
