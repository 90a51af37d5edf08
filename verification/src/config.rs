//! Immutable startup parameters of one engine instance.

use vstd::prelude::*;
use crate::address::PeerAddr;

verus! {

/// The engine's configuration: read-only after construction. The stage
/// flags say which optional protocol stages the node implementation has
/// enabled; a disabled stage imposes no behavior at all. The timeouts are
/// enforced by the caller's timers: on expiry the caller reports the
/// corresponding failure event to the engine.
#[derive(Clone, Copy, PartialEq, Eq, Structural, Debug)]
pub struct Config {
    /// The local address the listener binds to.
    pub listen_addr: PeerAddr,
    /// The most live entries (connecting and connected together) the
    /// registry accepts.
    pub max_connections: u32,
    /// Whether the handshake stage gates promotion to `Connected`.
    pub handshake_enabled: bool,
    /// Whether a reader stage consumes inbound frames.
    pub reader_enabled: bool,
    /// Whether a writer stage produces outbound frames.
    pub writer_enabled: bool,
    /// Whether the node wants connection-established notifications.
    pub on_connect_enabled: bool,
    /// Whether the node wants connection-closed notifications.
    pub on_disconnect_enabled: bool,
    /// How long a handshake may run before it is failed, in milliseconds.
    pub handshake_timeout_ms: u64,
    /// How long a single read may block before the stream is failed.
    pub read_timeout_ms: u64,
    /// How long a single write may block before the stream is failed.
    pub write_timeout_ms: u64,
}

} // verus!
