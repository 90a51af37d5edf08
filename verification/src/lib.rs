//! A protocol-agnostic peer-to-peer TCP connection engine.
//!
//! The engine tracks every in-flight and established connection of one node:
//! outbound dials, inbound accepts, the handshake stage that gates promotion
//! from `Connecting` to `Connected`, and the bookkeeping of known remote
//! peers and traffic statistics. All socket and timer work is left to the
//! caller, which drives the engine through events carrying plain values;
//! every decision the engine makes is verified.

pub mod address;
pub mod config;
pub mod connection;
pub mod known_peers;
pub mod laws;
pub mod span;
pub mod stats;
pub mod tcp;

pub use address::PeerAddr;
pub use config::Config;
pub use connection::{Connection, ConnectionSide, ConnectionState};
pub use known_peers::KnownPeers;
pub use span::create_span;
pub use stats::Stats;
pub use tcp::Tcp;
