//! Who a connected client is.

use vstd::prelude::*;

verus! {

/// A connected client, known by the remote address of its connection: an
/// IPv4 or IPv6 address with its port and, for IPv6, flow information and
/// scope. Two peers are the same exactly if all of these agree.
#[derive(Copy, Clone, Debug, PartialEq, Eq, Hash, Structural)]
#[allow(inconsistent_fields)]
pub enum Peer {
    V4 { ip: u32, port: u16 },
    V6 { ip: u128, port: u16, flowinfo: u32, scope_id: u32 },
}

} // verus!
