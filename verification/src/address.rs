//! Remote peer addresses.

use vstd::prelude::*;

verus! {

/// An IPv4 socket address: the key under which the engine tracks a remote
/// peer. Two addresses are equal exactly when both fields are equal.
#[derive(Clone, Copy, PartialEq, Eq, Structural, Debug, Hash)]
pub struct PeerAddr {
    pub ip: u32,
    pub port: u16,
}

} // verus!
