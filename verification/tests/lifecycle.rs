//! Lifecycle edges: restriction, disconnection, failure paths, capacity.

use tcp_engine::address::PeerAddr;
use tcp_engine::config::Config;
use tcp_engine::tcp::{
    AcceptOutcome, BindError, ConnectOutcome, DialOutcome, DisconnectOutcome, HandshakeOutcome,
    Tcp,
};

fn addr(ip: u32, port: u16) -> PeerAddr {
    PeerAddr { ip, port }
}

fn config(handshake: bool, max_connections: u32) -> Config {
    Config {
        listen_addr: addr(0x7f00_0001, 4140),
        max_connections,
        handshake_enabled: handshake,
        reader_enabled: false,
        writer_enabled: false,
        on_connect_enabled: false,
        on_disconnect_enabled: true,
        handshake_timeout_ms: 100,
        read_timeout_ms: 100,
        write_timeout_ms: 100,
    }
}

#[test]
fn test_enable_listener_twice_is_an_error() {
    let mut node = Tcp::new(config(false, 4));
    assert_eq!(node.enable_listener(), Ok(addr(0x7f00_0001, 4140)));
    assert_eq!(node.enable_listener(), Err(BindError::AlreadyListening));
}

#[test]
fn test_restricted_peer_rejected_before_any_stage() {
    let mut node = Tcp::new(config(true, 4));
    let banned = addr(0x0a00_0001, 9000);
    node.known_peers.restrict(banned, 50);
    assert!(node.known_peers.is_restricted(banned));

    // Neither a dial to nor an accept from the address reaches a stage.
    assert!(matches!(node.connect(banned), ConnectOutcome::Restricted));
    assert!(matches!(node.accept_inbound(banned, 60), AcceptOutcome::Restricted));
    assert_eq!(node.num_connected(), 0);
    assert_eq!(node.num_connecting(), 0);

    // Restriction taken while no entry is live keeps the address out for good.
    assert!(matches!(node.connect(banned), ConnectOutcome::Restricted));
    assert_eq!(node.num_connected(), 0);
}

#[test]
fn test_restriction_taken_while_connected_blocks_new_attempts() {
    let mut node = Tcp::new(config(false, 4));
    let remote = addr(0x0a00_0005, 9004);
    let id = match node.connect(remote) {
        ConnectOutcome::Dialing { id } => id,
        other => panic!("dial not begun: {:?}", other),
    };
    assert!(matches!(node.dial_succeeded(id, 10), DialOutcome::Promoted));
    assert_eq!(node.num_connected(), 1);

    // Restriction does not tear down the live connection, but every new
    // attempt is refused before any stage runs.
    node.known_peers.restrict(remote, 20);
    assert_eq!(node.num_connected(), 1);
    assert!(matches!(node.connect(remote), ConnectOutcome::Restricted));
    assert!(matches!(node.accept_inbound(remote, 30), AcceptOutcome::Restricted));
    assert_eq!(node.num_connected(), 1);

    // Once disconnected, the address cannot come back.
    assert!(matches!(node.disconnect(remote, 40), DisconnectOutcome::Closed { .. }));
    assert_eq!(node.num_connected(), 0);
    assert!(matches!(node.connect(remote), ConnectOutcome::Restricted));
    assert_eq!(node.num_connected(), 0);
    assert_eq!(node.num_connecting(), 0);
}

#[test]
fn test_disconnect_unknown_address_is_a_noop() {
    let mut node = Tcp::new(config(false, 4));
    let stranger = addr(0x0a00_0002, 9001);
    assert!(matches!(node.disconnect(stranger, 70), DisconnectOutcome::NotConnected));
    assert_eq!(node.num_connected(), 0);
    assert_eq!(node.num_connecting(), 0);
    assert_eq!(node.stats.connections_closed, 0);
    assert_eq!(node.known_peers.len(), 0);
}

#[test]
fn test_disconnect_closes_and_notifies() {
    let mut node = Tcp::new(config(false, 4));
    let remote = addr(0x0a00_0003, 9002);
    let id = match node.connect(remote) {
        ConnectOutcome::Dialing { id } => id,
        other => panic!("dial not begun: {:?}", other),
    };
    assert!(matches!(node.dial_succeeded(id, 80), DialOutcome::Promoted));
    assert_eq!(node.num_connected(), 1);
    assert_eq!(node.stats.connections_opened, 1);

    match node.disconnect(remote, 90) {
        DisconnectOutcome::Closed { notify } => assert!(notify),
        other => panic!("nothing closed: {:?}", other),
    }
    assert_eq!(node.num_connected(), 0);
    assert_eq!(node.num_connecting(), 0);
    assert_eq!(node.stats.connections_closed, 1);

    // Doing it again is a no-op, not an error.
    assert!(matches!(node.disconnect(remote, 95), DisconnectOutcome::NotConnected));
    assert_eq!(node.stats.connections_closed, 1);
}

#[test]
fn test_disconnect_cancels_a_running_handshake() {
    let mut node = Tcp::new(config(true, 4));
    let remote = addr(0x0a00_0004, 9003);
    let id = match node.connect(remote) {
        ConnectOutcome::Dialing { id } => id,
        other => panic!("dial not begun: {:?}", other),
    };
    assert!(matches!(node.dial_succeeded(id, 10), DialOutcome::AwaitHandshake));
    assert_eq!(node.num_connecting(), 1);

    assert!(matches!(node.disconnect(remote, 11), DisconnectOutcome::Closed { .. }));
    assert_eq!(node.num_connecting(), 0);

    // The handshake's late result applies no side effect.
    assert!(matches!(node.handshake_succeeded(id, 42, 12), HandshakeOutcome::Stale));
    assert_eq!(node.num_connected(), 0);
    assert_eq!(node.num_connecting(), 0);
}

#[test]
fn test_connecting_count_drains_on_every_path() {
    let mut node = Tcp::new(config(true, 8));

    // Dial failure.
    let id = match node.connect(addr(1, 1)) {
        ConnectOutcome::Dialing { id } => id,
        other => panic!("dial not begun: {:?}", other),
    };
    assert_eq!(node.num_connecting(), 1);
    assert!(node.dial_failed(id, 20));
    assert_eq!(node.num_connecting(), 0);

    // Handshake failure (or timeout, reported the same way).
    let id = match node.connect(addr(1, 2)) {
        ConnectOutcome::Dialing { id } => id,
        other => panic!("dial not begun: {:?}", other),
    };
    assert!(matches!(node.dial_succeeded(id, 21), DialOutcome::AwaitHandshake));
    assert_eq!(node.num_connecting(), 1);
    assert!(node.handshake_failed(id, 22));
    assert_eq!(node.num_connecting(), 0);
    assert_eq!(node.num_connected(), 0);

    // Promotion.
    let id = match node.connect(addr(1, 3)) {
        ConnectOutcome::Dialing { id } => id,
        other => panic!("dial not begun: {:?}", other),
    };
    assert!(matches!(node.dial_succeeded(id, 23), DialOutcome::AwaitHandshake));
    assert!(matches!(node.handshake_succeeded(id, 7, 24), HandshakeOutcome::Promoted));
    assert_eq!(node.num_connecting(), 0);
    assert_eq!(node.num_connected(), 1);

    // A late report about a settled attempt changes nothing.
    assert!(!node.dial_failed(id, 25));
    assert!(!node.handshake_failed(id, 25));
    assert_eq!(node.num_connecting(), 0);
    assert_eq!(node.num_connected(), 1);
}

#[test]
fn test_stream_fault_evicts_the_connection() {
    let mut node = Tcp::new(config(false, 4));
    let remote = addr(2, 1);
    let id = match node.connect(remote) {
        ConnectOutcome::Dialing { id } => id,
        other => panic!("dial not begun: {:?}", other),
    };
    assert!(matches!(node.dial_succeeded(id, 30), DialOutcome::Promoted));
    assert_eq!(node.num_connected(), 1);

    assert!(node.connection_closed(id, 31));
    assert_eq!(node.num_connected(), 0);
    assert_eq!(node.stats.connections_closed, 1);

    // The fault was contained to that connection; the address stays dialable.
    assert!(matches!(node.connect(remote), ConnectOutcome::Dialing { .. }));

    // A second report about the same socket changes nothing.
    assert!(!node.connection_closed(id, 32));
}

#[test]
fn test_registry_capacity_refuses_new_attempts() {
    let mut node = Tcp::new(config(false, 1));
    assert!(matches!(
        node.accept_inbound(addr(3, 1), 40),
        AcceptOutcome::Connected { .. }
    ));
    assert!(matches!(node.accept_inbound(addr(3, 2), 41), AcceptOutcome::AtCapacity));
    assert!(matches!(node.connect(addr(3, 3)), ConnectOutcome::AtCapacity));
    assert_eq!(node.num_connected(), 1);
}

#[test]
fn test_inbound_sockets_from_one_address_both_count() {
    // Without a handshake nothing recognizes peer identity: two inbound
    // sockets from the same remote address are two connections.
    let mut node = Tcp::new(config(false, 4));
    let same = addr(4, 1);
    assert!(matches!(node.accept_inbound(same, 50), AcceptOutcome::Connected { .. }));
    assert!(matches!(node.accept_inbound(same, 51), AcceptOutcome::Connected { .. }));
    assert_eq!(node.num_connected(), 2);

    // One disconnect takes down every socket of that address.
    assert!(matches!(node.disconnect(same, 52), DisconnectOutcome::Closed { .. }));
    assert_eq!(node.num_connected(), 0);
    assert_eq!(node.stats.connections_closed, 2);
}
