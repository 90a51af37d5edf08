//! The engine's cross-function guarantees, stated once and proved.

use vstd::prelude::*;
use crate::address::PeerAddr;
use crate::connection::{
    addr_pred, connecting_pred, count_addr, count_connected_to, count_connecting, count_peer,
    has_conn_addr, lemma_count_at_most_one, lemma_count_push, lemma_count_remove,
    lemma_count_update, lemma_count_zero, peer_pred, promoted_plain, promoted_with, both_pred,
    connected_pred, Connection, ConnectionState,
};
use crate::tcp::Tcp;

verus! {

/// A handshake deduplicates by negotiated identity: a well-formed engine
/// never holds two connected entries for the same peer identity. However
/// often two nodes redial each other, each side keeps at most one
/// connection per remote peer once handshakes gate promotion.
pub proof fn lemma_handshake_dedup(t: Tcp, p: u64)
    requires
        t.wf(),
    ensures
        count_peer(t.conns(), p) <= 1,
{
    let s = t.conns();
    assert forall|k: int, l: int| 0 <= k < l < s.len() implies !(peer_pred(p)(s[k]) && peer_pred(p)(
        s[l],
    )) by {}
    lemma_count_at_most_one(s, peer_pred(p));
}

/// Every connection attempt drains from the connecting count. Beginning an
/// attempt appends one connecting entry, raising the count by one; each
/// way the attempt can later end — removal on dial failure, handshake
/// failure or duplicate rejection, or promotion to connected — lowers it
/// by one again, in whatever registry state the attempt is settled. So
/// once every attempt has settled, the connecting count is back where it
/// stood before the attempts began: no connecting entry leaks.
pub proof fn lemma_connecting_drains(s: Seq<Connection>, e: Connection, t: Seq<Connection>, i: int)
    requires
        e.state == ConnectionState::Connecting,
        0 <= i < t.len(),
        t[i].state == ConnectionState::Connecting,
    ensures
        count_connecting(s.push(e)) == count_connecting(s) + 1,
        count_connecting(t.remove(i)) == count_connecting(t) - 1,
        count_connecting(t.update(i, promoted_plain(t[i]))) == count_connecting(t) - 1,
        forall|p: u64|
            count_connecting(t.update(i, promoted_with(t[i], p))) == count_connecting(t) - 1,
{
    lemma_count_push(s, connecting_pred(), e);
    lemma_count_remove(t, connecting_pred(), i);
    lemma_count_update(t, connecting_pred(), i, promoted_plain(t[i]));
    assert forall|p: u64|
        count_connecting(t.update(i, promoted_with(t[i], p))) == count_connecting(t) - 1 by {
        lemma_count_update(t, connecting_pred(), i, promoted_with(t[i], p));
    }
}

/// An address with no live entry contributes nothing to the connected
/// count. Since the engine refuses every attempt against a restricted
/// address unchanged, a restricted address absent from the registry never
/// appears in `num_connected`, and no stage ever runs for it.
pub proof fn lemma_absent_address_not_counted(t: Tcp, a: PeerAddr)
    requires
        !has_conn_addr(t.conns(), a),
    ensures
        count_addr(t.conns(), a) == 0,
        count_connected_to(t.conns(), a) == 0,
{
    let s = t.conns();
    lemma_count_zero(s, addr_pred(a));
    assert forall|i: int| 0 <= i < s.len() implies !addr_pred(a)(s[i]) by {
        assert(!(exists|j: int| 0 <= j < s.len() && s[j].addr == a));
    }
    lemma_count_zero(s, both_pred(connected_pred(), addr_pred(a)));
}

} // verus!
