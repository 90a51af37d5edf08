//! The leaves: peer records, counters, and span selection.

use tcp_engine::address::PeerAddr;
use tcp_engine::known_peers::KnownPeers;
use tcp_engine::span::{create_span, EnabledLevels, LogLevel};
use tcp_engine::stats::Stats;

fn addr(ip: u32, port: u16) -> PeerAddr {
    PeerAddr { ip, port }
}

#[test]
fn test_known_peers_observe_and_restrict() {
    let mut peers = KnownPeers::new();
    let a = addr(1, 1);
    let b = addr(1, 2);
    assert_eq!(peers.last_seen(a), None);

    peers.observe(a, 100);
    assert_eq!(peers.last_seen(a), Some(100));
    assert!(!peers.is_restricted(a));

    // A later observation moves the timestamp, only for that address.
    peers.observe(b, 150);
    peers.observe(a, 200);
    assert_eq!(peers.last_seen(a), Some(200));
    assert_eq!(peers.last_seen(b), Some(150));
    assert_eq!(peers.len(), 2);

    // Restriction persists across observations; records are never removed.
    peers.restrict(a, 250);
    assert!(peers.is_restricted(a));
    assert!(!peers.is_restricted(b));
    peers.observe(a, 300);
    assert!(peers.is_restricted(a));
    assert_eq!(peers.last_seen(a), Some(300));
    assert_eq!(peers.len(), 2);

    // Restricting an unseen address creates its record.
    let c = addr(1, 3);
    peers.restrict(c, 400);
    assert!(peers.is_restricted(c));
    assert_eq!(peers.last_seen(c), Some(400));
    assert_eq!(peers.len(), 3);
}

#[test]
fn test_stats_count_exactly() {
    let mut stats = Stats::new();
    stats.record_sent(10);
    stats.record_sent(32);
    stats.record_received(7);
    assert_eq!(stats.bytes_sent, 42);
    assert_eq!(stats.msgs_sent, 2);
    assert_eq!(stats.bytes_received, 7);
    assert_eq!(stats.msgs_received, 1);
    assert_eq!(stats.connections_opened, 0);

    stats.record_connection_opened();
    stats.record_connections_closed(3);
    assert_eq!(stats.connections_opened, 1);
    assert_eq!(stats.connections_closed, 3);
}

#[test]
fn test_stats_saturate_instead_of_panicking() {
    let mut stats = Stats::new();
    stats.record_sent(u64::MAX);
    let bytes_before = stats.bytes_sent;
    stats.record_sent(u64::MAX);
    assert_eq!(bytes_before, u64::MAX);
    assert_eq!(stats.bytes_sent, u64::MAX);
    assert_eq!(stats.msgs_sent, 2);
}

#[test]
fn test_create_span_picks_the_most_verbose_level() {
    let all = EnabledLevels { trace: true, debug: true, info: true, warn: true };
    assert_eq!(create_span("tcp", all).level, LogLevel::Trace);

    let debug_up = EnabledLevels { trace: false, debug: true, info: true, warn: true };
    assert_eq!(create_span("tcp", debug_up).level, LogLevel::Debug);

    let info_up = EnabledLevels { trace: false, debug: false, info: true, warn: true };
    assert_eq!(create_span("tcp", info_up).level, LogLevel::Info);

    let warn_only = EnabledLevels { trace: false, debug: false, info: false, warn: true };
    assert_eq!(create_span("tcp", warn_only).level, LogLevel::Warn);

    let none = EnabledLevels { trace: false, debug: false, info: false, warn: false };
    let span = create_span("node", none);
    assert_eq!(span.level, LogLevel::Error);
    assert_eq!(span.name, "node");
}
