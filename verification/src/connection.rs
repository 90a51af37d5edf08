//! One socket's lifecycle, and the spec-level view of the registry.
//!
//! A `Connection` is the engine's record of one socket. The socket itself
//! stays with the caller, keyed by the connection's `id`; the engine only
//! decides what happens to it. The registry is a sequence of live
//! connections, and the spec functions here say how the engine's contracts
//! count and search that sequence.

use vstd::prelude::*;
use crate::address::PeerAddr;

verus! {

/// Who opened the socket: `Initiator` dialed out, `Responder` accepted.
#[derive(Clone, Copy, PartialEq, Eq, Structural, Debug)]
pub enum ConnectionSide {
    Initiator,
    Responder,
}

/// The lifecycle of a connection. `Disconnected` is terminal: the registry
/// entry is removed in the same step, so no stored entry ever carries it.
#[derive(Clone, Copy, PartialEq, Eq, Structural, Debug)]
pub enum ConnectionState {
    Connecting,
    Connected,
    Disconnected,
}

/// One live connection: the socket's identity, the remote address, who
/// opened it, where it stands in its lifecycle, and — once a handshake has
/// succeeded — the negotiated identity of the remote peer.
#[derive(Clone, Copy, PartialEq, Eq, Structural, Debug)]
pub struct Connection {
    pub id: u64,
    pub addr: PeerAddr,
    pub side: ConnectionSide,
    pub state: ConnectionState,
    pub peer_id: Option<u64>,
}

/// A fresh outbound attempt to `addr` under socket identity `id`.
pub open spec fn dial_entry(id: u64, addr: PeerAddr) -> Connection {
    Connection {
        id,
        addr,
        side: ConnectionSide::Initiator,
        state: ConnectionState::Connecting,
        peer_id: None,
    }
}

/// A fresh inbound attempt from `addr`, still awaiting its handshake.
pub open spec fn accept_entry(id: u64, addr: PeerAddr) -> Connection {
    Connection {
        id,
        addr,
        side: ConnectionSide::Responder,
        state: ConnectionState::Connecting,
        peer_id: None,
    }
}

/// `c` promoted to `Connected` without a negotiated identity (no handshake
/// stage was enabled).
pub open spec fn promoted_plain(c: Connection) -> Connection {
    Connection { state: ConnectionState::Connected, ..c }
}

/// `c` promoted to `Connected` carrying the identity its handshake
/// negotiated.
pub open spec fn promoted_with(c: Connection, peer_id: u64) -> Connection {
    Connection { state: ConnectionState::Connected, peer_id: Some(peer_id), ..c }
}

/// How many entries of `s` satisfy `pred`.
pub open spec fn count(s: Seq<Connection>, pred: spec_fn(Connection) -> bool) -> int
    decreases s.len(),
{
    if s.len() == 0 {
        0
    } else {
        count(s.drop_last(), pred) + if pred(s.last()) {
            1int
        } else {
            0int
        }
    }
}

/// The entries that are connected.
pub open spec fn connected_pred() -> spec_fn(Connection) -> bool {
    |c: Connection| c.state == ConnectionState::Connected
}

/// The entries that are still connecting.
pub open spec fn connecting_pred() -> spec_fn(Connection) -> bool {
    |c: Connection| c.state == ConnectionState::Connecting
}

/// The entries whose remote address is `a`.
pub open spec fn addr_pred(a: PeerAddr) -> spec_fn(Connection) -> bool {
    |c: Connection| c.addr == a
}

/// The connected entries whose remote address is `a`.
pub open spec fn connected_addr_pred(a: PeerAddr) -> spec_fn(Connection) -> bool {
    |c: Connection| c.state == ConnectionState::Connected && c.addr == a
}

/// The connected entries whose negotiated peer identity is `p`.
pub open spec fn peer_pred(p: u64) -> spec_fn(Connection) -> bool {
    |c: Connection| c.state == ConnectionState::Connected && c.peer_id == Some(p)
}

/// How many live connections are connected.
pub open spec fn count_connected(s: Seq<Connection>) -> int {
    count(s, connected_pred())
}

/// How many live connections are still connecting.
pub open spec fn count_connecting(s: Seq<Connection>) -> int {
    count(s, connecting_pred())
}

/// How many live connections go to address `a`.
pub open spec fn count_addr(s: Seq<Connection>, a: PeerAddr) -> int {
    count(s, addr_pred(a))
}

/// How many connected entries negotiated peer identity `p`.
pub open spec fn count_peer(s: Seq<Connection>, p: u64) -> int {
    count(s, peer_pred(p))
}

/// Whether some live entry goes to address `a`.
pub open spec fn has_conn_addr(s: Seq<Connection>, a: PeerAddr) -> bool {
    exists|i: int| 0 <= i < s.len() && s[i].addr == a
}

/// Whether socket identity `id` has a live entry.
pub open spec fn has_conn_id(s: Seq<Connection>, id: u64) -> bool {
    exists|i: int| 0 <= i < s.len() && s[i].id == id
}

/// Whether socket identity `id` has a live entry that is still connecting.
pub open spec fn has_connecting_id(s: Seq<Connection>, id: u64) -> bool {
    exists|i: int| 0 <= i < s.len() && s[i].id == id && s[i].state == ConnectionState::Connecting
}

/// The index of `id`'s entry; meaningful only when `has_conn_id` holds and
/// identities are unique.
pub open spec fn conn_index(s: Seq<Connection>, id: u64) -> int {
    choose|i: int| 0 <= i < s.len() && s[i].id == id
}

/// No two live entries share a socket identity.
pub open spec fn ids_unique(s: Seq<Connection>) -> bool {
    forall|i: int, j: int| 0 <= i < j < s.len() ==> s[i].id != s[j].id
}

/// With unique identities, any index holding `id` is the index `conn_index`
/// picks.
pub proof fn lemma_conn_index_unique(s: Seq<Connection>, id: u64, i: int)
    requires
        ids_unique(s),
        0 <= i < s.len(),
        s[i].id == id,
    ensures
        conn_index(s, id) == i,
{
    assert(has_conn_id(s, id));
    let j = conn_index(s, id);
    assert(0 <= j < s.len() && s[j].id == id);
    if i < j {
        assert(s[i].id != s[j].id);
    } else if j < i {
        assert(s[j].id != s[i].id);
    }
}

/// A count is never negative and never exceeds the sequence's length.
pub proof fn lemma_count_bounds(s: Seq<Connection>, pred: spec_fn(Connection) -> bool)
    ensures
        0 <= count(s, pred) <= s.len(),
    decreases s.len(),
{
    if s.len() > 0 {
        lemma_count_bounds(s.drop_last(), pred);
    }
}

/// Appending one entry raises the count by one exactly when the entry
/// satisfies the predicate.
pub proof fn lemma_count_push(s: Seq<Connection>, pred: spec_fn(Connection) -> bool, c: Connection)
    ensures
        count(s.push(c), pred) == count(s, pred) + if pred(c) {
            1int
        } else {
            0int
        },
{
    assert(s.push(c).drop_last() =~= s);
    assert(s.push(c).last() == c);
}

/// Removing the entry at `i` lowers the count by one exactly when that
/// entry satisfies the predicate.
pub proof fn lemma_count_remove(s: Seq<Connection>, pred: spec_fn(Connection) -> bool, i: int)
    requires
        0 <= i < s.len(),
    ensures
        count(s.remove(i), pred) == count(s, pred) - if pred(s[i]) {
            1int
        } else {
            0int
        },
    decreases s.len(),
{
    if i == s.len() - 1 {
        assert(s.remove(i) =~= s.drop_last());
    } else {
        assert(s.remove(i).drop_last() =~= s.drop_last().remove(i));
        assert(s.remove(i).last() == s.last());
        lemma_count_remove(s.drop_last(), pred, i);
    }
}

/// Replacing the entry at `i` adjusts the count by the difference between
/// the new and the old entry.
pub proof fn lemma_count_update(
    s: Seq<Connection>,
    pred: spec_fn(Connection) -> bool,
    i: int,
    c: Connection,
)
    requires
        0 <= i < s.len(),
    ensures
        count(s.update(i, c), pred) == count(s, pred) + (if pred(c) {
            1int
        } else {
            0int
        }) - (if pred(s[i]) {
            1int
        } else {
            0int
        }),
    decreases s.len(),
{
    if i == s.len() - 1 {
        assert(s.update(i, c).drop_last() =~= s.drop_last());
        assert(s.update(i, c).last() == c);
    } else {
        assert(s.update(i, c).drop_last() =~= s.drop_last().update(i, c));
        assert(s.update(i, c).last() == s.last());
        lemma_count_update(s.drop_last(), pred, i, c);
    }
}

/// One step of counting a prefix: the count over the first `i + 1` entries
/// is the count over the first `i` plus the entry at `i`.
pub proof fn lemma_count_take_step(s: Seq<Connection>, pred: spec_fn(Connection) -> bool, i: int)
    requires
        0 <= i < s.len(),
    ensures
        count(s.take(i + 1), pred) == count(s.take(i), pred) + if pred(s[i]) {
            1int
        } else {
            0int
        },
{
    assert(s.take(i + 1).drop_last() =~= s.take(i));
    assert(s.take(i + 1).last() == s[i]);
}

/// The whole sequence is its own length-long prefix.
pub proof fn lemma_take_all(s: Seq<Connection>)
    ensures
        s.take(s.len() as int) =~= s,
{
}

/// A count is zero exactly when no entry satisfies the predicate.
pub proof fn lemma_count_zero(s: Seq<Connection>, pred: spec_fn(Connection) -> bool)
    ensures
        (count(s, pred) == 0) == (forall|i: int| 0 <= i < s.len() ==> !pred(s[i])),
    decreases s.len(),
{
    if s.len() > 0 {
        lemma_count_zero(s.drop_last(), pred);
        lemma_count_bounds(s.drop_last(), pred);
        if count(s, pred) == 0 {
            assert forall|i: int| 0 <= i < s.len() implies !pred(s[i]) by {
                if i < s.len() - 1 {
                    assert(s.drop_last()[i] == s[i]);
                } else {
                    assert(s.last() == s[i]);
                }
            }
        } else {
            if !pred(s.last()) {
                let i = choose|i: int| 0 <= i < s.drop_last().len() && pred(s.drop_last()[i]);
                assert(pred(s[i]));
            }
        }
    }
}

/// If no two entries both satisfy the predicate, at most one does.
pub proof fn lemma_count_at_most_one(s: Seq<Connection>, pred: spec_fn(Connection) -> bool)
    requires
        forall|i: int, j: int| 0 <= i < j < s.len() ==> !(pred(s[i]) && pred(s[j])),
    ensures
        count(s, pred) <= 1,
    decreases s.len(),
{
    if s.len() > 0 {
        let rest = s.drop_last();
        assert forall|i: int, j: int| 0 <= i < j < rest.len() implies !(pred(rest[i]) && pred(rest[j])) by {
            assert(rest[i] == s[i] && rest[j] == s[j]);
        }
        lemma_count_at_most_one(rest, pred);
        if pred(s.last()) {
            lemma_count_zero(rest, pred);
            assert forall|i: int| 0 <= i < rest.len() implies !pred(rest[i]) by {
                assert(rest[i] == s[i]);
                assert(!(pred(s[i]) && pred(s[s.len() - 1])));
            }
        }
    }
}

/// If some entry satisfies the predicate, the count is at least one.
pub proof fn lemma_count_at_least_one(s: Seq<Connection>, pred: spec_fn(Connection) -> bool, i: int)
    requires
        0 <= i < s.len(),
        pred(s[i]),
    ensures
        count(s, pred) >= 1,
{
    lemma_count_bounds(s, pred);
    lemma_count_zero(s, pred);
}

/// The entries that satisfy both predicates.
pub open spec fn both_pred(
    p: spec_fn(Connection) -> bool,
    q: spec_fn(Connection) -> bool,
) -> spec_fn(Connection) -> bool {
    |c: Connection| p(c) && q(c)
}

/// The entries whose remote address is not `a`: what `disconnect(a)` keeps.
pub open spec fn not_addr_pred(a: PeerAddr) -> spec_fn(Connection) -> bool {
    |c: Connection| c.addr != a
}

/// How many connected entries go to address `a`.
pub open spec fn count_connected_to(s: Seq<Connection>, a: PeerAddr) -> int {
    count(s, both_pred(connected_pred(), addr_pred(a)))
}

/// How many connecting entries go to address `a`.
pub open spec fn count_connecting_to(s: Seq<Connection>, a: PeerAddr) -> int {
    count(s, both_pred(connecting_pred(), addr_pred(a)))
}

/// Counting the kept entries of a filter is counting both predicates at
/// once over the original.
pub proof fn lemma_count_filter(
    s: Seq<Connection>,
    p: spec_fn(Connection) -> bool,
    q: spec_fn(Connection) -> bool,
)
    ensures
        count(s.filter(q), p) == count(s, both_pred(p, q)),
    decreases s.len(),
{
    reveal(Seq::filter);
    if s.len() > 0 {
        lemma_count_filter(s.drop_last(), p, q);
        if q(s.last()) {
            lemma_count_push(s.drop_last().filter(q), p, s.last());
        }
    }
}

/// A count splits over whether the entry's address is `a`.
pub proof fn lemma_count_split_addr(s: Seq<Connection>, p: spec_fn(Connection) -> bool, a: PeerAddr)
    ensures
        count(s, p) == count(s, both_pred(p, addr_pred(a))) + count(s, both_pred(p, not_addr_pred(a))),
    decreases s.len(),
{
    if s.len() > 0 {
        lemma_count_split_addr(s.drop_last(), p, a);
    }
}

/// One step of filtering a prefix: the entry at `i` is kept exactly when it
/// satisfies the predicate.
pub proof fn lemma_filter_take_step(s: Seq<Connection>, q: spec_fn(Connection) -> bool, i: int)
    requires
        0 <= i < s.len(),
    ensures
        s.take(i + 1).filter(q) == if q(s[i]) {
            s.take(i).filter(q).push(s[i])
        } else {
            s.take(i).filter(q)
        },
{
    reveal(Seq::filter);
    assert(s.take(i + 1).drop_last() =~= s.take(i));
    assert(s.take(i + 1).last() == s[i]);
    assert(s.take(i + 1).len() == i + 1);
}

/// Every kept entry satisfies the filter's predicate and is one of the
/// original entries.
pub proof fn lemma_filter_members(s: Seq<Connection>, q: spec_fn(Connection) -> bool)
    ensures
        forall|k: int| 0 <= k < s.filter(q).len() ==> q(#[trigger] s.filter(q)[k]),
        forall|k: int| 0 <= k < s.filter(q).len()
            ==> exists|i: int| 0 <= i < s.len() && s[i] == #[trigger] s.filter(q)[k],
    decreases s.len(),
{
    reveal(Seq::filter);
    if s.len() > 0 {
        let f = s.filter(q);
        let fd = s.drop_last().filter(q);
        lemma_filter_members(s.drop_last(), q);
        assert forall|k: int| 0 <= k < f.len() implies q(#[trigger] f[k]) && exists|i: int|
            0 <= i < s.len() && s[i] == f[k] by {
            if k < fd.len() {
                assert(f[k] == fd[k]);
                let i = choose|i: int| 0 <= i < s.drop_last().len() && s.drop_last()[i] == fd[k];
                assert(s[i] == f[k]);
            } else {
                assert(q(s.last()));
                assert(f[k] == s.last());
                assert(s[s.len() - 1] == f[k]);
            }
        }
    }
}

/// Filtering keeps every pairwise, order-respecting relation that held of
/// the original entries.
pub proof fn lemma_filter_pairwise(
    s: Seq<Connection>,
    q: spec_fn(Connection) -> bool,
    r: spec_fn(Connection, Connection) -> bool,
)
    requires
        forall|i: int, j: int| 0 <= i < j < s.len() ==> r(s[i], s[j]),
    ensures
        forall|i: int, j: int| 0 <= i < j < s.filter(q).len() ==> r(s.filter(q)[i], s.filter(q)[j]),
    decreases s.len(),
{
    reveal(Seq::filter);
    if s.len() > 0 {
        let f = s.filter(q);
        let fd = s.drop_last().filter(q);
        assert forall|i: int, j: int| 0 <= i < j < s.drop_last().len() implies r(
            s.drop_last()[i],
            s.drop_last()[j],
        ) by {
            assert(s.drop_last()[i] == s[i] && s.drop_last()[j] == s[j]);
        }
        lemma_filter_pairwise(s.drop_last(), q, r);
        lemma_filter_members(s.drop_last(), q);
        assert forall|i: int, j: int| 0 <= i < j < f.len() implies r(f[i], f[j]) by {
            if j < fd.len() {
                assert(f[i] == fd[i] && f[j] == fd[j]);
            } else if j == fd.len() && q(s.last()) {
                assert(f[i] == fd[i]);
                assert(f[j] == s.last());
                let k = choose|k: int| 0 <= k < s.drop_last().len() && s.drop_last()[k] == fd[i];
                assert(s[k] == fd[i]);
                assert(r(s[k], s[s.len() - 1]));
            }
        }
    }
}

/// The registry's own invariant: no two live entries share a socket
/// identity, every identity is below the next to be issued, no stored
/// entry is `Disconnected`, a connecting entry has no negotiated identity
/// yet, and no two connected entries share one.
pub open spec fn registry_wf(s: Seq<Connection>, next_id: u64) -> bool {
    &&& ids_unique(s)
    &&& forall|i: int| 0 <= i < s.len() ==> (#[trigger] s[i]).id < next_id
    &&& forall|i: int| 0 <= i < s.len() ==> (#[trigger] s[i]).state != ConnectionState::Disconnected
    &&& forall|i: int|
        0 <= i < s.len() && (#[trigger] s[i]).state == ConnectionState::Connecting
            ==> s[i].peer_id is None
    &&& forall|i: int, j: int|
        0 <= i < j < s.len() && (#[trigger] s[i]).state == ConnectionState::Connected
            && (#[trigger] s[j]).state == ConnectionState::Connected && s[i].peer_id is Some
            ==> s[i].peer_id != s[j].peer_id
}

/// Appending a fresh attempt — its identity the next to be issued, no
/// negotiated identity yet — keeps the registry well formed.
pub proof fn lemma_registry_push_fresh(s: Seq<Connection>, next_id: u64, c: Connection)
    requires
        registry_wf(s, next_id),
        c.id == next_id,
        next_id < u64::MAX,
        c.state != ConnectionState::Disconnected,
        c.peer_id is None,
    ensures
        registry_wf(s.push(c), (next_id + 1) as u64),
{
    let t = s.push(c);
    assert forall|i: int, j: int| 0 <= i < j < t.len() implies t[i].id != t[j].id by {
        if j < s.len() {
            assert(s[i].id != s[j].id);
        } else {
            assert(t[j] == c);
            assert(s[i].id < next_id);
        }
    }
}

/// Promoting a connecting entry without a negotiated identity keeps the
/// registry well formed.
pub proof fn lemma_registry_promote_plain(s: Seq<Connection>, next_id: u64, i: int)
    requires
        registry_wf(s, next_id),
        0 <= i < s.len(),
        s[i].state == ConnectionState::Connecting,
    ensures
        registry_wf(s.update(i, promoted_plain(s[i])), next_id),
{
    let t = s.update(i, promoted_plain(s[i]));
    assert(t[i].peer_id is None);
}

/// Promoting a connecting entry under a negotiated identity that no
/// connected entry holds keeps the registry well formed.
pub proof fn lemma_registry_promote_with(s: Seq<Connection>, next_id: u64, i: int, p: u64)
    requires
        registry_wf(s, next_id),
        0 <= i < s.len(),
        s[i].state == ConnectionState::Connecting,
        count_peer(s, p) == 0,
    ensures
        registry_wf(s.update(i, promoted_with(s[i], p)), next_id),
{
    let t = s.update(i, promoted_with(s[i], p));
    lemma_count_zero(s, peer_pred(p));
    assert forall|k: int, j: int|
        0 <= k < j < t.len() && t[k].state == ConnectionState::Connected
            && t[j].state == ConnectionState::Connected && t[k].peer_id is Some implies t[k].peer_id
        != t[j].peer_id by {
        if k == i {
            assert(!peer_pred(p)(s[j]));
        } else if j == i {
            assert(!peer_pred(p)(s[k]));
        }
    }
}

/// Removing one entry keeps the registry well formed.
pub proof fn lemma_registry_remove(s: Seq<Connection>, next_id: u64, i: int)
    requires
        registry_wf(s, next_id),
        0 <= i < s.len(),
    ensures
        registry_wf(s.remove(i), next_id),
{
    let t = s.remove(i);
    assert forall|k: int| 0 <= k < t.len() implies t[k] == if k < i {
        s[k]
    } else {
        s[k + 1]
    } by {}
    assert forall|k: int, j: int| 0 <= k < j < t.len() implies t[k].id != t[j].id by {
        let k0 = if k < i { k } else { k + 1 };
        let j0 = if j < i { j } else { j + 1 };
        assert(t[k] == s[k0] && t[j] == s[j0]);
        assert(s[k0].id != s[j0].id);
    }
    assert forall|k: int, j: int|
        0 <= k < j < t.len() && t[k].state == ConnectionState::Connected
            && t[j].state == ConnectionState::Connected && t[k].peer_id is Some implies t[k].peer_id
        != t[j].peer_id by {
        let k0 = if k < i { k } else { k + 1 };
        let j0 = if j < i { j } else { j + 1 };
        assert(t[k] == s[k0] && t[j] == s[j0]);
    }
}

/// Keeping a filtered subset of the entries keeps the registry well
/// formed.
pub proof fn lemma_registry_filter(s: Seq<Connection>, next_id: u64, q: spec_fn(Connection) -> bool)
    requires
        registry_wf(s, next_id),
    ensures
        registry_wf(s.filter(q), next_id),
{
    let f = s.filter(q);
    lemma_filter_members(s, q);
    lemma_filter_pairwise(s, q, |a: Connection, b: Connection| a.id != b.id);
    lemma_filter_pairwise(
        s,
        q,
        |a: Connection, b: Connection|
            (a.state == ConnectionState::Connected && b.state == ConnectionState::Connected
                && a.peer_id is Some) ==> a.peer_id != b.peer_id,
    );
    assert forall|i: int| 0 <= i < f.len() implies (#[trigger] f[i]).id < next_id
        && f[i].state != ConnectionState::Disconnected
        && (f[i].state == ConnectionState::Connecting ==> f[i].peer_id is None) by {
        let k = choose|k: int| 0 <= k < s.len() && s[k] == f[i];
    }
}

} // verus!
