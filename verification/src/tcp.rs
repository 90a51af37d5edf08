//! The engine facade: the connection registry and its lifecycle events.
//!
//! One `Tcp` value is the whole bookkeeping state of one node. The caller
//! owns the sockets, timers and tasks; it drives the engine by calling
//! `connect`, `accept_inbound` and `disconnect`, and by reporting each
//! outcome — dial success or failure, handshake success or failure, a
//! stream fault — as an event carrying plain values. Every event is total:
//! a report about a connection that is no longer live (for instance one
//! disconnected while its handshake was still running) changes nothing, so
//! no stage can apply side effects after its cancellation.

use vstd::prelude::*;
use crate::address::PeerAddr;
use crate::config::Config;
use crate::connection::{
    accept_entry, addr_pred, both_pred, conn_index, connected_pred, connecting_pred, count,
    count_connected, count_connecting, count_connected_to, count_connecting_to, dial_entry,
    has_conn_addr, has_conn_id, has_connecting_id, ids_unique, lemma_conn_index_unique,
    lemma_count_at_least_one, lemma_count_at_most_one, lemma_count_bounds, lemma_count_filter,
    lemma_count_push, lemma_count_remove, lemma_count_split_addr, lemma_count_take_step,
    lemma_count_update, lemma_count_zero, lemma_filter_take_step, lemma_registry_filter,
    lemma_registry_promote_plain, lemma_registry_promote_with, lemma_registry_push_fresh,
    lemma_registry_remove, lemma_take_all, not_addr_pred, peer_pred, promoted_plain, promoted_with,
    registry_wf, count_peer, Connection, ConnectionSide, ConnectionState,
};
use crate::known_peers::{observed, peer_restricted, KnownPeers};
use crate::stats::{with_closed, with_opened, Stats};

verus! {

/// Whether some connected entry negotiated peer identity `p`.
pub open spec fn has_peer_conn(s: Seq<Connection>, p: u64) -> bool {
    exists|i: int|
        0 <= i < s.len() && s[i].state == ConnectionState::Connected && s[i].peer_id == Some(p)
}

/// What `connect` decided about a dial request.
#[derive(Clone, Copy, PartialEq, Eq, Structural, Debug)]
pub enum ConnectOutcome {
    /// Dial the address; report the result under this socket identity.
    Dialing { id: u64 },
    /// A live entry for this address already exists: the request is
    /// coalesced and nothing is dialed.
    AlreadyConnected,
    /// The address is restricted: rejected before any stage runs.
    Restricted,
    /// The registry is full (or out of socket identities): nothing dialed.
    AtCapacity,
}

/// What `accept_inbound` decided about an accepted socket.
#[derive(Clone, Copy, PartialEq, Eq, Structural, Debug)]
pub enum AcceptOutcome {
    /// No handshake stage gates promotion: the socket is connected at once.
    Connected { id: u64 },
    /// Run the handshake stage and report its result under this identity.
    AwaitHandshake { id: u64 },
    /// The remote address is restricted: close the socket; no stage runs.
    Restricted,
    /// The registry is full: close the socket.
    AtCapacity,
}

/// What `dial_succeeded` decided about a completed dial.
#[derive(Clone, Copy, PartialEq, Eq, Structural, Debug)]
pub enum DialOutcome {
    /// No handshake stage gates promotion: the socket is connected.
    Promoted,
    /// Run the handshake stage and report its result.
    AwaitHandshake,
    /// The attempt is no longer live (it was disconnected meanwhile):
    /// close the socket; nothing changed.
    Stale,
}

/// What `handshake_succeeded` decided about a finished handshake.
#[derive(Clone, Copy, PartialEq, Eq, Structural, Debug)]
pub enum HandshakeOutcome {
    /// The negotiated identity is new: the connection is connected.
    Promoted,
    /// Another live connection already negotiated this identity: the
    /// redundant socket is evicted and must be closed.
    RejectedDuplicate,
    /// The attempt is no longer live: close the socket; nothing changed.
    Stale,
}

/// What `disconnect` decided.
#[derive(Clone, Copy, PartialEq, Eq, Structural, Debug)]
pub enum DisconnectOutcome {
    /// Entries were removed; run the on-disconnect stage iff `notify`.
    Closed { notify: bool },
    /// The address had no live entry: nothing to do, and no error.
    NotConnected,
}

/// Why `enable_listener` refused.
#[derive(Clone, Copy, PartialEq, Eq, Structural, Debug)]
pub enum BindError {
    /// The listener was already enabled: a configuration error, reported
    /// rather than silently ignored.
    AlreadyListening,
}

/// Whether some entry of `v` has remote address `a`.
fn contains_addr(v: &Vec<Connection>, a: PeerAddr) -> (r: bool)
    ensures
        r == has_conn_addr(v@, a),
{
    let n = v.len();
    let mut i: usize = 0;
    while i < n
        invariant
            n == v@.len(),
            i <= n,
            forall|j: int| 0 <= j < i ==> v@[j].addr != a,
        decreases n - i,
    {
        if v[i].addr == a {
            return true;
        }
        i = i + 1;
    }
    false
}

/// Whether some connected entry of `v` negotiated peer identity `p`.
fn contains_peer(v: &Vec<Connection>, p: u64) -> (r: bool)
    ensures
        r == has_peer_conn(v@, p),
{
    let n = v.len();
    let mut i: usize = 0;
    while i < n
        invariant
            n == v@.len(),
            i <= n,
            forall|j: int|
                0 <= j < i ==> !((#[trigger] v@[j]).state == ConnectionState::Connected
                    && v@[j].peer_id == Some(p)),
        decreases n - i,
    {
        let is_match = match v[i].peer_id {
            Some(q) => v[i].state == ConnectionState::Connected && q == p,
            None => false,
        };
        if is_match {
            return true;
        }
        i = i + 1;
    }
    false
}

/// The index of the entry with socket identity `id`, if it is live.
fn find_id(v: &Vec<Connection>, id: u64) -> (r: Option<usize>)
    requires
        ids_unique(v@),
    ensures
        (match r {
            Some(i) => i < v@.len() && v@[i as int].id == id && conn_index(v@, id) == i,
            None => !has_conn_id(v@, id),
        }),
{
    let n = v.len();
    let mut i: usize = 0;
    while i < n
        invariant
            n == v@.len(),
            i <= n,
            ids_unique(v@),
            forall|j: int| 0 <= j < i ==> v@[j].id != id,
        decreases n - i,
    {
        if v[i].id == id {
            proof {
                lemma_conn_index_unique(v@, id, i as int);
            }
            return Some(i);
        }
        i = i + 1;
    }
    None
}

/// How many entries of `v` are in state `Connected`.
fn count_connected_exec(v: &Vec<Connection>) -> (r: usize)
    ensures
        r == count_connected(v@),
{
    let n = v.len();
    let mut r: usize = 0;
    let mut i: usize = 0;
    proof {
        assert(v@.take(0) =~= Seq::<Connection>::empty());
    }
    while i < n
        invariant
            n == v@.len(),
            i <= n,
            r <= i,
            r == count(v@.take(i as int), connected_pred()),
        decreases n - i,
    {
        proof {
            lemma_count_take_step(v@, connected_pred(), i as int);
        }
        if v[i].state == ConnectionState::Connected {
            r = r + 1;
        }
        i = i + 1;
    }
    proof {
        lemma_take_all(v@);
    }
    r
}

/// How many entries of `v` are in state `Connecting`.
fn count_connecting_exec(v: &Vec<Connection>) -> (r: usize)
    ensures
        r == count_connecting(v@),
{
    let n = v.len();
    let mut r: usize = 0;
    let mut i: usize = 0;
    proof {
        assert(v@.take(0) =~= Seq::<Connection>::empty());
    }
    while i < n
        invariant
            n == v@.len(),
            i <= n,
            r <= i,
            r == count(v@.take(i as int), connecting_pred()),
        decreases n - i,
    {
        proof {
            lemma_count_take_step(v@, connecting_pred(), i as int);
        }
        if v[i].state == ConnectionState::Connecting {
            r = r + 1;
        }
        i = i + 1;
    }
    proof {
        lemma_take_all(v@);
    }
    r
}

/// One node's connection engine: its configuration, the registry of live
/// connections, the peers it has seen, and its traffic counters.
pub struct Tcp {
    pub config: Config,
    pub known_peers: KnownPeers,
    pub stats: Stats,
    pub connections: Vec<Connection>,
    pub next_id: u64,
    pub listening: bool,
}

impl Tcp {
    /// The registry as a sequence of live entries.
    pub open spec fn conns(self) -> Seq<Connection> {
        self.connections@
    }

    /// The engine's invariant: the registry and the peer records are well
    /// formed.
    pub open spec fn wf(self) -> bool {
        &&& registry_wf(self.conns(), self.next_id)
        &&& self.known_peers.wf()
    }

    /// A fresh engine: empty registry, no peers seen, zero counters, the
    /// listener not yet enabled.
    pub fn new(config: Config) -> (r: Tcp)
        ensures
            r.wf(),
            r.config == config,
            r.conns() == Seq::<Connection>::empty(),
            r.known_peers.records@ == Seq::<crate::known_peers::PeerRecord>::empty(),
            r.stats == crate::stats::zeroed(),
            !r.listening,
            r.next_id == 0,
    {
        Tcp {
            config,
            known_peers: KnownPeers::new(),
            stats: Stats::new(),
            connections: Vec::new(),
            next_id: 0,
            listening: false,
        }
    }

    /// An instantaneous snapshot of how many connections are connected.
    pub fn num_connected(&self) -> (r: usize)
        ensures
            r == count_connected(self.conns()),
    {
        count_connected_exec(&self.connections)
    }

    /// An instantaneous snapshot of how many connections are still
    /// connecting.
    pub fn num_connecting(&self) -> (r: usize)
        ensures
            r == count_connecting(self.conns()),
    {
        count_connecting_exec(&self.connections)
    }

    /// Marks the listener enabled and returns the address to bind, per the
    /// configuration. Enabling twice is a configuration error, reported
    /// and otherwise without effect; binding the socket itself is the
    /// caller's work and its failure is the caller's to report.
    pub fn enable_listener(&mut self) -> (r: Result<PeerAddr, BindError>)
        ensures
            final(self).wf() == old(self).wf(),
            (match r {
                Ok(a) => !old(self).listening && a == old(self).config.listen_addr
                    && *final(self) == (Tcp { listening: true, ..*old(self) }),
                Err(e) => old(self).listening && e == BindError::AlreadyListening
                    && *final(self) == *old(self),
            }),
    {
        if self.listening {
            Err(BindError::AlreadyListening)
        } else {
            self.listening = true;
            Ok(self.config.listen_addr)
        }
    }

    /// Begins an outbound dial to `addr`, fire and forget: nothing waits on
    /// the outcome; the caller dials and reports back under the returned
    /// identity. A restricted address is rejected before any stage runs; a
    /// request for an address that already has a live entry is coalesced;
    /// a full registry refuses. Otherwise a connecting entry joins the
    /// registry.
    pub fn connect(&mut self, addr: PeerAddr) -> (r: ConnectOutcome)
        requires
            old(self).wf(),
        ensures
            final(self).wf(),
            final(self).config == old(self).config,
            final(self).listening == old(self).listening,
            final(self).stats == old(self).stats,
            final(self).known_peers == old(self).known_peers,
            (match r {
                ConnectOutcome::Restricted => {
                    &&& peer_restricted(old(self).known_peers.records@, addr)
                    &&& *final(self) == *old(self)
                },
                ConnectOutcome::AlreadyConnected => {
                    &&& !peer_restricted(old(self).known_peers.records@, addr)
                    &&& has_conn_addr(old(self).conns(), addr)
                    &&& *final(self) == *old(self)
                },
                ConnectOutcome::AtCapacity => {
                    &&& !peer_restricted(old(self).known_peers.records@, addr)
                    &&& !has_conn_addr(old(self).conns(), addr)
                    &&& old(self).conns().len() >= old(self).config.max_connections
                        || old(self).next_id == u64::MAX
                    &&& *final(self) == *old(self)
                },
                ConnectOutcome::Dialing { id } => {
                    &&& !peer_restricted(old(self).known_peers.records@, addr)
                    &&& !has_conn_addr(old(self).conns(), addr)
                    &&& old(self).conns().len() < old(self).config.max_connections
                    &&& id == old(self).next_id
                    &&& final(self).next_id == old(self).next_id + 1
                    &&& final(self).conns() == old(self).conns().push(dial_entry(id, addr))
                    &&& count_connecting(final(self).conns()) == count_connecting(old(self).conns()) + 1
                    &&& count_connected(final(self).conns()) == count_connected(old(self).conns())
                },
            }),
    {
        if self.known_peers.is_restricted(addr) {
            return ConnectOutcome::Restricted;
        }
        if contains_addr(&self.connections, addr) {
            return ConnectOutcome::AlreadyConnected;
        }
        if self.connections.len() >= self.config.max_connections as usize || self.next_id
            == u64::MAX {
            return ConnectOutcome::AtCapacity;
        }
        let id = self.next_id;
        let c = Connection {
            id,
            addr,
            side: ConnectionSide::Initiator,
            state: ConnectionState::Connecting,
            peer_id: None,
        };
        self.next_id = self.next_id + 1;
        self.connections.push(c);
        proof {
            assert(c == dial_entry(id, addr));
            lemma_registry_push_fresh(old(self).conns(), old(self).next_id, c);
            lemma_count_push(old(self).conns(), connecting_pred(), c);
            lemma_count_push(old(self).conns(), connected_pred(), c);
        }
        ConnectOutcome::Dialing { id }
    }

    /// Registers a socket the listener accepted from `addr`. A restricted
    /// address is rejected before any stage runs, and a full registry
    /// refuses. Otherwise the socket joins the registry; without a
    /// handshake stage it is connected at once — deliberately with no
    /// deduplication, so a second inbound socket from an already-connected
    /// address yields a second connected entry.
    pub fn accept_inbound(&mut self, addr: PeerAddr, now: u64) -> (r: AcceptOutcome)
        requires
            old(self).wf(),
        ensures
            final(self).wf(),
            final(self).config == old(self).config,
            final(self).listening == old(self).listening,
            (match r {
                AcceptOutcome::Restricted => {
                    &&& peer_restricted(old(self).known_peers.records@, addr)
                    &&& *final(self) == *old(self)
                },
                AcceptOutcome::AtCapacity => {
                    &&& !peer_restricted(old(self).known_peers.records@, addr)
                    &&& old(self).conns().len() >= old(self).config.max_connections
                        || old(self).next_id == u64::MAX
                    &&& *final(self) == *old(self)
                },
                AcceptOutcome::AwaitHandshake { id } => {
                    &&& !peer_restricted(old(self).known_peers.records@, addr)
                    &&& old(self).config.handshake_enabled
                    &&& old(self).conns().len() < old(self).config.max_connections
                    &&& id == old(self).next_id
                    &&& final(self).next_id == old(self).next_id + 1
                    &&& final(self).conns() == old(self).conns().push(accept_entry(id, addr))
                    &&& count_connecting(final(self).conns()) == count_connecting(old(self).conns()) + 1
                    &&& count_connected(final(self).conns()) == count_connected(old(self).conns())
                    &&& final(self).known_peers == old(self).known_peers
                    &&& final(self).stats == old(self).stats
                },
                AcceptOutcome::Connected { id } => {
                    &&& !peer_restricted(old(self).known_peers.records@, addr)
                    &&& !old(self).config.handshake_enabled
                    &&& old(self).conns().len() < old(self).config.max_connections
                    &&& id == old(self).next_id
                    &&& final(self).next_id == old(self).next_id + 1
                    &&& final(self).conns() == old(self).conns().push(
                        promoted_plain(accept_entry(id, addr)),
                    )
                    &&& count_connected(final(self).conns()) == count_connected(old(self).conns()) + 1
                    &&& count_connecting(final(self).conns()) == count_connecting(old(self).conns())
                    &&& count(final(self).conns(), addr_pred(addr)) == count(
                        old(self).conns(),
                        addr_pred(addr),
                    ) + 1
                    &&& observed(
                        old(self).known_peers.records@,
                        final(self).known_peers.records@,
                        addr,
                        now,
                    )
                    &&& final(self).stats == with_opened(old(self).stats)
                },
            }),
    {
        if self.known_peers.is_restricted(addr) {
            return AcceptOutcome::Restricted;
        }
        if self.connections.len() >= self.config.max_connections as usize || self.next_id
            == u64::MAX {
            return AcceptOutcome::AtCapacity;
        }
        let id = self.next_id;
        self.next_id = self.next_id + 1;
        if self.config.handshake_enabled {
            let c = Connection {
                id,
                addr,
                side: ConnectionSide::Responder,
                state: ConnectionState::Connecting,
                peer_id: None,
            };
            self.connections.push(c);
            proof {
                assert(c == accept_entry(id, addr));
                lemma_registry_push_fresh(old(self).conns(), old(self).next_id, c);
                lemma_count_push(old(self).conns(), connecting_pred(), c);
                lemma_count_push(old(self).conns(), connected_pred(), c);
            }
            AcceptOutcome::AwaitHandshake { id }
        } else {
            let c = Connection {
                id,
                addr,
                side: ConnectionSide::Responder,
                state: ConnectionState::Connected,
                peer_id: None,
            };
            self.connections.push(c);
            proof {
                assert(c == promoted_plain(accept_entry(id, addr)));
                lemma_registry_push_fresh(old(self).conns(), old(self).next_id, c);
                lemma_count_push(old(self).conns(), connecting_pred(), c);
                lemma_count_push(old(self).conns(), connected_pred(), c);
                lemma_count_push(old(self).conns(), addr_pred(addr), c);
            }
            self.known_peers.observe(addr, now);
            self.stats.record_connection_opened();
            AcceptOutcome::Connected { id }
        }
    }

    /// Reports that the dial for attempt `id` reached the remote side.
    /// Without a handshake stage the connection is promoted to connected
    /// at once; with one, promotion waits for the handshake's result. A
    /// report about an attempt that is no longer live changes nothing.
    pub fn dial_succeeded(&mut self, id: u64, now: u64) -> (r: DialOutcome)
        requires
            old(self).wf(),
        ensures
            final(self).wf(),
            final(self).config == old(self).config,
            final(self).listening == old(self).listening,
            final(self).next_id == old(self).next_id,
            (match r {
                DialOutcome::Stale => {
                    &&& !has_connecting_id(old(self).conns(), id)
                    &&& *final(self) == *old(self)
                },
                DialOutcome::AwaitHandshake => {
                    &&& old(self).config.handshake_enabled
                    &&& has_connecting_id(old(self).conns(), id)
                    &&& *final(self) == *old(self)
                },
                DialOutcome::Promoted => {
                    &&& !old(self).config.handshake_enabled
                    &&& has_connecting_id(old(self).conns(), id)
                    &&& final(self).conns() == old(self).conns().update(
                        conn_index(old(self).conns(), id),
                        promoted_plain(old(self).conns()[conn_index(old(self).conns(), id)]),
                    )
                    &&& count_connected(final(self).conns()) == count_connected(old(self).conns()) + 1
                    &&& count_connecting(final(self).conns()) == count_connecting(old(self).conns()) - 1
                    &&& observed(
                        old(self).known_peers.records@,
                        final(self).known_peers.records@,
                        old(self).conns()[conn_index(old(self).conns(), id)].addr,
                        now,
                    )
                    &&& final(self).stats == with_opened(old(self).stats)
                },
            }),
    {
        match find_id(&self.connections, id) {
            None => DialOutcome::Stale,
            Some(i) => {
                let c = self.connections[i];
                if !(c.state == ConnectionState::Connecting) {
                    proof {
                        assert forall|j: int|
                            0 <= j < old(self).conns().len() && old(self).conns()[j].id == id
                                implies old(self).conns()[j].state != ConnectionState::Connecting by {
                            lemma_conn_index_unique(old(self).conns(), id, j);
                        }
                    }
                    DialOutcome::Stale
                } else if self.config.handshake_enabled {
                    DialOutcome::AwaitHandshake
                } else {
                    let mut c2 = c;
                    c2.state = ConnectionState::Connected;
                    self.connections.set(i, c2);
                    proof {
                        assert(c2 == promoted_plain(c));
                        lemma_registry_promote_plain(old(self).conns(), old(self).next_id, i as int);
                        lemma_count_update(old(self).conns(), connected_pred(), i as int, c2);
                        lemma_count_update(old(self).conns(), connecting_pred(), i as int, c2);
                    }
                    self.known_peers.observe(c.addr, now);
                    self.stats.record_connection_opened();
                    DialOutcome::Promoted
                }
            },
        }
    }

    /// Removes the connecting entry `id`, recording the finished attempt
    /// against the peer's record.
    fn remove_connecting(&mut self, id: u64, now: u64) -> (removed: bool)
        requires
            old(self).wf(),
        ensures
            final(self).wf(),
            final(self).config == old(self).config,
            final(self).listening == old(self).listening,
            final(self).next_id == old(self).next_id,
            final(self).stats == old(self).stats,
            (if removed {
                &&& has_connecting_id(old(self).conns(), id)
                &&& final(self).conns() == old(self).conns().remove(conn_index(old(self).conns(), id))
                &&& count_connecting(final(self).conns()) == count_connecting(old(self).conns()) - 1
                &&& count_connected(final(self).conns()) == count_connected(old(self).conns())
                &&& observed(
                    old(self).known_peers.records@,
                    final(self).known_peers.records@,
                    old(self).conns()[conn_index(old(self).conns(), id)].addr,
                    now,
                )
            } else {
                &&& !has_connecting_id(old(self).conns(), id)
                &&& *final(self) == *old(self)
            }),
    {
        match find_id(&self.connections, id) {
            None => false,
            Some(i) => {
                let c = self.connections[i];
                if !(c.state == ConnectionState::Connecting) {
                    proof {
                        assert forall|j: int|
                            0 <= j < old(self).conns().len() && old(self).conns()[j].id == id
                                implies old(self).conns()[j].state != ConnectionState::Connecting by {
                            lemma_conn_index_unique(old(self).conns(), id, j);
                        }
                    }
                    false
                } else {
                    self.connections.remove(i);
                    proof {
                        lemma_registry_remove(old(self).conns(), old(self).next_id, i as int);
                        lemma_count_remove(old(self).conns(), connecting_pred(), i as int);
                        lemma_count_remove(old(self).conns(), connected_pred(), i as int);
                    }
                    self.known_peers.observe(c.addr, now);
                    true
                }
            },
        }
    }

    /// Reports that the dial for attempt `id` failed or timed out: the
    /// attempt leaves the registry and the finished attempt is recorded
    /// against the peer, which stays dialable later. A report about an
    /// attempt that is no longer live changes nothing.
    pub fn dial_failed(&mut self, id: u64, now: u64) -> (removed: bool)
        requires
            old(self).wf(),
        ensures
            final(self).wf(),
            final(self).config == old(self).config,
            final(self).listening == old(self).listening,
            final(self).next_id == old(self).next_id,
            final(self).stats == old(self).stats,
            (if removed {
                &&& has_connecting_id(old(self).conns(), id)
                &&& final(self).conns() == old(self).conns().remove(conn_index(old(self).conns(), id))
                &&& count_connecting(final(self).conns()) == count_connecting(old(self).conns()) - 1
                &&& count_connected(final(self).conns()) == count_connected(old(self).conns())
                &&& observed(
                    old(self).known_peers.records@,
                    final(self).known_peers.records@,
                    old(self).conns()[conn_index(old(self).conns(), id)].addr,
                    now,
                )
            } else {
                &&& !has_connecting_id(old(self).conns(), id)
                &&& *final(self) == *old(self)
            }),
    {
        self.remove_connecting(id, now)
    }

    /// Reports that the handshake for attempt `id` failed, timed out or
    /// was cancelled: the attempt is evicted from the connecting set and
    /// the failed attempt is recorded against the peer — which is not
    /// thereby restricted; restriction is an application policy. A report
    /// about an attempt that is no longer live changes nothing.
    pub fn handshake_failed(&mut self, id: u64, now: u64) -> (removed: bool)
        requires
            old(self).wf(),
        ensures
            final(self).wf(),
            final(self).config == old(self).config,
            final(self).listening == old(self).listening,
            final(self).next_id == old(self).next_id,
            final(self).stats == old(self).stats,
            (if removed {
                &&& has_connecting_id(old(self).conns(), id)
                &&& final(self).conns() == old(self).conns().remove(conn_index(old(self).conns(), id))
                &&& count_connecting(final(self).conns()) == count_connecting(old(self).conns()) - 1
                &&& count_connected(final(self).conns()) == count_connected(old(self).conns())
                &&& observed(
                    old(self).known_peers.records@,
                    final(self).known_peers.records@,
                    old(self).conns()[conn_index(old(self).conns(), id)].addr,
                    now,
                )
            } else {
                &&& !has_connecting_id(old(self).conns(), id)
                &&& *final(self) == *old(self)
            }),
    {
        self.remove_connecting(id, now)
    }

    /// Reports that the handshake for attempt `id` succeeded, negotiating
    /// the remote identity `peer`. If another connected entry already
    /// negotiated `peer`, the redundant socket is evicted; otherwise the
    /// attempt is promoted to connected. Either way exactly one connected
    /// entry for `peer` remains — whichever of two racing sockets reported
    /// first survives. A report about an attempt that is no longer live
    /// (for instance one cancelled by `disconnect`) changes nothing.
    pub fn handshake_succeeded(&mut self, id: u64, peer: u64, now: u64) -> (r: HandshakeOutcome)
        requires
            old(self).wf(),
        ensures
            final(self).wf(),
            final(self).config == old(self).config,
            final(self).listening == old(self).listening,
            final(self).next_id == old(self).next_id,
            !(r is Stale) ==> count_peer(final(self).conns(), peer) == 1,
            (match r {
                HandshakeOutcome::Stale => {
                    &&& !has_connecting_id(old(self).conns(), id)
                    &&& *final(self) == *old(self)
                },
                HandshakeOutcome::RejectedDuplicate => {
                    &&& has_connecting_id(old(self).conns(), id)
                    &&& has_peer_conn(old(self).conns(), peer)
                    &&& final(self).conns() == old(self).conns().remove(
                        conn_index(old(self).conns(), id),
                    )
                    &&& count_connected(final(self).conns()) == count_connected(old(self).conns())
                    &&& count_connecting(final(self).conns()) == count_connecting(old(self).conns()) - 1
                    &&& observed(
                        old(self).known_peers.records@,
                        final(self).known_peers.records@,
                        old(self).conns()[conn_index(old(self).conns(), id)].addr,
                        now,
                    )
                    &&& final(self).stats == old(self).stats
                },
                HandshakeOutcome::Promoted => {
                    &&& has_connecting_id(old(self).conns(), id)
                    &&& !has_peer_conn(old(self).conns(), peer)
                    &&& final(self).conns() == old(self).conns().update(
                        conn_index(old(self).conns(), id),
                        promoted_with(old(self).conns()[conn_index(old(self).conns(), id)], peer),
                    )
                    &&& count_connected(final(self).conns()) == count_connected(old(self).conns()) + 1
                    &&& count_connecting(final(self).conns()) == count_connecting(old(self).conns()) - 1
                    &&& observed(
                        old(self).known_peers.records@,
                        final(self).known_peers.records@,
                        old(self).conns()[conn_index(old(self).conns(), id)].addr,
                        now,
                    )
                    &&& final(self).stats == with_opened(old(self).stats)
                },
            }),
    {
        match find_id(&self.connections, id) {
            None => HandshakeOutcome::Stale,
            Some(i) => {
                let c = self.connections[i];
                if !(c.state == ConnectionState::Connecting) {
                    proof {
                        assert forall|j: int|
                            0 <= j < old(self).conns().len() && old(self).conns()[j].id == id
                                implies old(self).conns()[j].state != ConnectionState::Connecting by {
                            lemma_conn_index_unique(old(self).conns(), id, j);
                        }
                    }
                    HandshakeOutcome::Stale
                } else if contains_peer(&self.connections, peer) {
                    self.connections.remove(i);
                    proof {
                        let s = old(self).conns();
                        lemma_registry_remove(s, old(self).next_id, i as int);
                        lemma_count_remove(s, connecting_pred(), i as int);
                        lemma_count_remove(s, connected_pred(), i as int);
                        lemma_count_remove(s, peer_pred(peer), i as int);
                        let j = choose|j: int|
                            0 <= j < s.len() && s[j].state == ConnectionState::Connected
                                && s[j].peer_id == Some(peer);
                        assert(peer_pred(peer)(s[j]));
                        lemma_count_at_least_one(s, peer_pred(peer), j);
                        assert forall|k: int, l: int| 0 <= k < l < s.len() implies !(peer_pred(peer)(
                            s[k],
                        ) && peer_pred(peer)(s[l])) by {}
                        lemma_count_at_most_one(s, peer_pred(peer));
                    }
                    self.known_peers.observe(c.addr, now);
                    HandshakeOutcome::RejectedDuplicate
                } else {
                    let mut c2 = c;
                    c2.state = ConnectionState::Connected;
                    c2.peer_id = Some(peer);
                    self.connections.set(i, c2);
                    proof {
                        let s = old(self).conns();
                        assert(c2 == promoted_with(c, peer));
                        lemma_count_zero(s, peer_pred(peer));
                        assert forall|k: int| 0 <= k < s.len() implies !peer_pred(peer)(s[k]) by {}
                        lemma_registry_promote_with(s, old(self).next_id, i as int, peer);
                        lemma_count_update(s, connected_pred(), i as int, c2);
                        lemma_count_update(s, connecting_pred(), i as int, c2);
                        lemma_count_update(s, peer_pred(peer), i as int, c2);
                    }
                    self.known_peers.observe(c.addr, now);
                    self.stats.record_connection_opened();
                    HandshakeOutcome::Promoted
                }
            },
        }
    }

    /// Reports that the socket of connection `id` is gone — a stream
    /// fault, the peer closing, or a timeout: the entry leaves the
    /// registry and the event is recorded against the peer. The engine
    /// does not redial; retry policy belongs to the application. A report
    /// about a connection that is no longer live changes nothing.
    pub fn connection_closed(&mut self, id: u64, now: u64) -> (removed: bool)
        requires
            old(self).wf(),
        ensures
            final(self).wf(),
            final(self).config == old(self).config,
            final(self).listening == old(self).listening,
            final(self).next_id == old(self).next_id,
            (if removed {
                &&& has_conn_id(old(self).conns(), id)
                &&& final(self).conns() == old(self).conns().remove(conn_index(old(self).conns(), id))
                &&& observed(
                    old(self).known_peers.records@,
                    final(self).known_peers.records@,
                    old(self).conns()[conn_index(old(self).conns(), id)].addr,
                    now,
                )
                &&& (old(self).conns()[conn_index(old(self).conns(), id)].state
                    == ConnectionState::Connected ==> {
                    &&& count_connected(final(self).conns()) == count_connected(old(self).conns()) - 1
                    &&& count_connecting(final(self).conns()) == count_connecting(old(self).conns())
                    &&& final(self).stats == with_closed(old(self).stats, 1)
                })
                &&& (old(self).conns()[conn_index(old(self).conns(), id)].state
                    == ConnectionState::Connecting ==> {
                    &&& count_connecting(final(self).conns()) == count_connecting(old(self).conns()) - 1
                    &&& count_connected(final(self).conns()) == count_connected(old(self).conns())
                    &&& final(self).stats == old(self).stats
                })
            } else {
                &&& !has_conn_id(old(self).conns(), id)
                &&& *final(self) == *old(self)
            }),
    {
        match find_id(&self.connections, id) {
            None => false,
            Some(i) => {
                let c = self.connections[i];
                self.connections.remove(i);
                proof {
                    lemma_registry_remove(old(self).conns(), old(self).next_id, i as int);
                    lemma_count_remove(old(self).conns(), connecting_pred(), i as int);
                    lemma_count_remove(old(self).conns(), connected_pred(), i as int);
                }
                self.known_peers.observe(c.addr, now);
                if c.state == ConnectionState::Connected {
                    self.stats.record_connections_closed(1);
                }
                true
            },
        }
    }

    /// Disconnects `addr`: every live entry for it — connected or still in
    /// its handshake, which is thereby cancelled — leaves the registry,
    /// the caller closes the sockets, and the on-disconnect stage runs iff
    /// it is enabled. On an address with no live entry this is a no-op:
    /// no error, and nothing changes.
    pub fn disconnect(&mut self, addr: PeerAddr, now: u64) -> (r: DisconnectOutcome)
        requires
            old(self).wf(),
        ensures
            final(self).wf(),
            final(self).config == old(self).config,
            final(self).listening == old(self).listening,
            final(self).next_id == old(self).next_id,
            (match r {
                DisconnectOutcome::NotConnected => {
                    &&& !has_conn_addr(old(self).conns(), addr)
                    &&& *final(self) == *old(self)
                },
                DisconnectOutcome::Closed { notify } => {
                    &&& has_conn_addr(old(self).conns(), addr)
                    &&& notify == old(self).config.on_disconnect_enabled
                    &&& final(self).conns() == old(self).conns().filter(not_addr_pred(addr))
                    &&& !has_conn_addr(final(self).conns(), addr)
                    &&& count_connected(final(self).conns()) == count_connected(old(self).conns())
                        - count_connected_to(old(self).conns(), addr)
                    &&& count_connecting(final(self).conns()) == count_connecting(old(self).conns())
                        - count_connecting_to(old(self).conns(), addr)
                    &&& observed(
                        old(self).known_peers.records@,
                        final(self).known_peers.records@,
                        addr,
                        now,
                    )
                    &&& final(self).stats == with_closed(
                        old(self).stats,
                        count_connected_to(old(self).conns(), addr) as u64,
                    )
                },
            }),
    {
        if !contains_addr(&self.connections, addr) {
            return DisconnectOutcome::NotConnected;
        }
        let ghost s = self.connections@;
        let n = self.connections.len();
        let mut kept: Vec<Connection> = Vec::new();
        let mut n_closed: usize = 0;
        let mut i: usize = 0;
        proof {
            reveal(Seq::filter);
            assert(s.take(0) =~= Seq::<Connection>::empty());
        }
        while i < n
            invariant
                n == s.len(),
                s == self.connections@,
                i <= n,
                n_closed <= i,
                kept@ == s.take(i as int).filter(not_addr_pred(addr)),
                n_closed == count(s.take(i as int), both_pred(connected_pred(), addr_pred(addr))),
            decreases n - i,
        {
            proof {
                lemma_filter_take_step(s, not_addr_pred(addr), i as int);
                lemma_count_take_step(s, both_pred(connected_pred(), addr_pred(addr)), i as int);
            }
            let c = self.connections[i];
            if c.addr == addr {
                if c.state == ConnectionState::Connected {
                    n_closed = n_closed + 1;
                }
            } else {
                kept.push(c);
            }
            i = i + 1;
        }
        proof {
            lemma_take_all(s);
        }
        self.connections = kept;
        proof {
            lemma_registry_filter(s, self.next_id, not_addr_pred(addr));
            lemma_count_filter(s, connected_pred(), not_addr_pred(addr));
            lemma_count_split_addr(s, connected_pred(), addr);
            lemma_count_filter(s, connecting_pred(), not_addr_pred(addr));
            lemma_count_split_addr(s, connecting_pred(), addr);
            lemma_count_filter(s, addr_pred(addr), not_addr_pred(addr));
            lemma_count_zero(s, both_pred(addr_pred(addr), not_addr_pred(addr)));
            lemma_count_zero(self.connections@, addr_pred(addr));
            lemma_count_bounds(s, both_pred(connected_pred(), addr_pred(addr)));
        }
        self.known_peers.observe(addr, now);
        self.stats.record_connections_closed(n_closed as u64);
        DisconnectOutcome::Closed { notify: self.config.on_disconnect_enabled }
    }
}

} // verus!
