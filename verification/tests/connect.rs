//! The connect scenarios: dedup is observed exactly when a handshake
//! stage is enabled, and a simultaneous dial settles at one connection
//! per side whichever socket reports first.

use tcp_engine::address::PeerAddr;
use tcp_engine::config::Config;
use tcp_engine::tcp::{
    AcceptOutcome, ConnectOutcome, DialOutcome, HandshakeOutcome, Tcp,
};

fn addr(ip: u32, port: u16) -> PeerAddr {
    PeerAddr { ip, port }
}

fn config(listen: PeerAddr, handshake: bool) -> Config {
    Config {
        listen_addr: listen,
        max_connections: 16,
        handshake_enabled: handshake,
        reader_enabled: true,
        writer_enabled: true,
        on_connect_enabled: false,
        on_disconnect_enabled: true,
        handshake_timeout_ms: 100,
        read_timeout_ms: 100,
        write_timeout_ms: 100,
    }
}

/// Drives one dial from `from` to `to` with no handshake on either side:
/// `to` sees the inbound socket under the dialer's ephemeral address `eph`.
fn dial_plain(from: &mut Tcp, to: &mut Tcp, to_listen: PeerAddr, eph: PeerAddr, now: u64) {
    match from.connect(to_listen) {
        ConnectOutcome::Dialing { id } => {
            assert_eq!(from.num_connecting(), 1);
            assert!(matches!(from.dial_succeeded(id, now), DialOutcome::Promoted));
        }
        other => panic!("dial not begun: {:?}", other),
    }
    assert!(matches!(to.accept_inbound(eph, now), AcceptOutcome::Connected { .. }));
}

#[test]
fn test_connect_without_handshake() {
    let listen0 = addr(0x7f00_0001, 4130);
    let listen1 = addr(0x7f00_0001, 4131);
    let node0 = &mut Tcp::new(config(listen0, false));
    let node1 = &mut Tcp::new(config(listen1, false));
    assert_eq!(node0.num_connected(), 0);
    assert_eq!(node1.num_connected(), 0);

    assert!(node0.enable_listener().is_ok());
    assert!(node1.enable_listener().is_ok());

    {
        // Connect node0 to node1.
        dial_plain(node0, node1, listen1, addr(0x7f00_0001, 49152), 100);

        assert_eq!(node0.num_connected(), 1);
        assert_eq!(node0.num_connecting(), 0);
        assert_eq!(node1.num_connected(), 1);
        assert_eq!(node1.num_connecting(), 0);
    }
    {
        // Connect node0 to node1 again: the dialer coalesces the attempt.
        assert!(matches!(node0.connect(listen1), ConnectOutcome::AlreadyConnected));

        assert_eq!(node0.num_connected(), 1);
        assert_eq!(node0.num_connecting(), 0);
        assert_eq!(node1.num_connected(), 1);
        assert_eq!(node1.num_connecting(), 0);
    }
    {
        // Connect node1 to node0: neither side can dedup the reverse socket.
        dial_plain(node1, node0, listen0, addr(0x7f00_0001, 49153), 100);

        assert_eq!(node0.num_connected(), 2);
        assert_eq!(node0.num_connecting(), 0);
        assert_eq!(node1.num_connected(), 2);
        assert_eq!(node1.num_connecting(), 0);
    }
}

const PEER0: u64 = 10;
const PEER1: u64 = 11;

/// Drives one dial from `from` to `to` with handshakes enabled on both
/// sides; each side negotiates the other's identity and reports whether
/// its socket survived (`true`) or was rejected as a duplicate.
fn dial_handshake(
    from: &mut Tcp,
    to: &mut Tcp,
    to_listen: PeerAddr,
    eph: PeerAddr,
    to_identity: u64,
    from_identity: u64,
    now: u64,
) -> (bool, bool) {
    let survived_out = match from.connect(to_listen) {
        ConnectOutcome::Dialing { id } => {
            assert!(matches!(from.dial_succeeded(id, now), DialOutcome::AwaitHandshake));
            match from.handshake_succeeded(id, to_identity, now) {
                HandshakeOutcome::Promoted => true,
                HandshakeOutcome::RejectedDuplicate => false,
                HandshakeOutcome::Stale => panic!("attempt vanished"),
            }
        }
        other => panic!("dial not begun: {:?}", other),
    };
    let survived_in = match to.accept_inbound(eph, now) {
        AcceptOutcome::AwaitHandshake { id } => {
            match to.handshake_succeeded(id, from_identity, now) {
                HandshakeOutcome::Promoted => true,
                HandshakeOutcome::RejectedDuplicate => false,
                HandshakeOutcome::Stale => panic!("attempt vanished"),
            }
        }
        other => panic!("socket not accepted: {:?}", other),
    };
    (survived_out, survived_in)
}

#[test]
fn test_connect_with_handshake() {
    let listen0 = addr(0x7f00_0001, 4132);
    let listen1 = addr(0x7f00_0001, 4133);
    let node0 = &mut Tcp::new(config(listen0, true));
    let node1 = &mut Tcp::new(config(listen1, true));
    assert_eq!(node0.num_connected(), 0);
    assert_eq!(node1.num_connected(), 0);

    assert!(node0.enable_listener().is_ok());
    assert!(node1.enable_listener().is_ok());

    {
        // Connect node0 to node1.
        let (out, inn) = dial_handshake(
            node0,
            node1,
            listen1,
            addr(0x7f00_0001, 49154),
            PEER1,
            PEER0,
            100,
        );
        assert!(out && inn);

        assert_eq!(node0.num_connected(), 1);
        assert_eq!(node0.num_connecting(), 0);
        assert_eq!(node1.num_connected(), 1);
        assert_eq!(node1.num_connecting(), 0);
    }
    {
        // Connect node0 to node1 again: coalesced at the dialer.
        assert!(matches!(node0.connect(listen1), ConnectOutcome::AlreadyConnected));

        assert_eq!(node0.num_connected(), 1);
        assert_eq!(node0.num_connecting(), 0);
        assert_eq!(node1.num_connected(), 1);
        assert_eq!(node1.num_connecting(), 0);
    }
    {
        // Connect node1 to node0: both handshakes recognize the existing
        // session and reject the redundant sockets.
        let (out, inn) = dial_handshake(
            node1,
            node0,
            listen0,
            addr(0x7f00_0001, 49155),
            PEER0,
            PEER1,
            100,
        );
        assert!(!out && !inn);

        assert_eq!(node0.num_connected(), 1);
        assert_eq!(node0.num_connecting(), 0);
        assert_eq!(node1.num_connected(), 1);
        assert_eq!(node1.num_connecting(), 0);
    }
}

#[test]
fn test_connect_simultaneously_with_handshake() {
    let listen0 = addr(0x7f00_0001, 4134);
    let listen1 = addr(0x7f00_0001, 4135);
    let node0 = &mut Tcp::new(config(listen0, true));
    let node1 = &mut Tcp::new(config(listen1, true));
    assert_eq!(node0.num_connected(), 0);
    assert_eq!(node1.num_connected(), 0);

    // Both dial each other before either attempt completes.
    let a = match node0.connect(listen1) {
        ConnectOutcome::Dialing { id } => id,
        other => panic!("dial not begun: {:?}", other),
    };
    let b = match node1.connect(listen0) {
        ConnectOutcome::Dialing { id } => id,
        other => panic!("dial not begun: {:?}", other),
    };
    assert!(matches!(node0.dial_succeeded(a, 100), DialOutcome::AwaitHandshake));
    assert!(matches!(node1.dial_succeeded(b, 100), DialOutcome::AwaitHandshake));
    let c = match node0.accept_inbound(addr(0x7f00_0001, 49156), 100) {
        AcceptOutcome::AwaitHandshake { id } => id,
        other => panic!("socket not accepted: {:?}", other),
    };
    let d = match node1.accept_inbound(addr(0x7f00_0001, 49157), 100) {
        AcceptOutcome::AwaitHandshake { id } => id,
        other => panic!("socket not accepted: {:?}", other),
    };

    // The handshakes settle in whatever order; one socket survives per side.
    assert!(matches!(node0.handshake_succeeded(a, PEER1, 100), HandshakeOutcome::Promoted));
    assert!(matches!(
        node0.handshake_succeeded(c, PEER1, 100),
        HandshakeOutcome::RejectedDuplicate
    ));
    assert!(matches!(node1.handshake_succeeded(d, PEER0, 100), HandshakeOutcome::Promoted));
    assert!(matches!(
        node1.handshake_succeeded(b, PEER0, 100),
        HandshakeOutcome::RejectedDuplicate
    ));

    assert_eq!(node0.num_connected(), 1);
    assert_eq!(node0.num_connecting(), 0);
    assert_eq!(node1.num_connected(), 1);
    assert_eq!(node1.num_connecting(), 0);
}

#[test]
fn test_simultaneous_dial_either_order() {
    // Whichever of the two racing sockets reports its handshake first is
    // the one that survives; the final counts do not depend on the order.
    for outbound_first in [true, false] {
        let listen1 = addr(0x7f00_0001, 4137);
        let node0 = &mut Tcp::new(config(addr(0x7f00_0001, 4136), true));
        let a = match node0.connect(listen1) {
            ConnectOutcome::Dialing { id } => id,
            other => panic!("dial not begun: {:?}", other),
        };
        assert!(matches!(node0.dial_succeeded(a, 100), DialOutcome::AwaitHandshake));
        let c = match node0.accept_inbound(addr(0x7f00_0001, 49158), 100) {
            AcceptOutcome::AwaitHandshake { id } => id,
            other => panic!("socket not accepted: {:?}", other),
        };
        assert_eq!(node0.num_connecting(), 2);

        let (first, second) = if outbound_first { (a, c) } else { (c, a) };
        assert!(matches!(
            node0.handshake_succeeded(first, PEER1, 100),
            HandshakeOutcome::Promoted
        ));
        assert!(matches!(
            node0.handshake_succeeded(second, PEER1, 100),
            HandshakeOutcome::RejectedDuplicate
        ));
        assert_eq!(node0.num_connected(), 1);
        assert_eq!(node0.num_connecting(), 0);
    }
}
