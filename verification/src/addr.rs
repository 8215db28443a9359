//! Addresses of peers.

use vstd::prelude::*;

verus! {

/// The address and port of a peer.
#[derive(Debug, Clone, Copy, PartialEq, Eq, Structural)]
pub enum PeerAddr {
    /// An address of IP version 4, as a number.
    V4 { ip: u32, port: u16 },
    /// An address of IP version 6, as a number.
    V6 { ip6: u128, port: u16, flowinfo: u32, scope_id: u32 },
}

} // verus!
