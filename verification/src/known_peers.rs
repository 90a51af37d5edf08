//! The record of remote addresses this node has seen.

use vstd::prelude::*;
use crate::address::PeerAddr;

verus! {

/// One remembered remote address: when it was last seen and whether the
/// node has restricted (banned) it. Records are never removed; only the
/// timestamp and the flag change.
#[derive(Clone, Copy, PartialEq, Eq, Structural, Debug)]
pub struct PeerRecord {
    pub addr: PeerAddr,
    pub last_seen: u64,
    pub restricted: bool,
}

/// Each address has at most one record.
pub open spec fn peers_wf(s: Seq<PeerRecord>) -> bool {
    forall|i: int, j: int| 0 <= i < j < s.len() ==> s[i].addr != s[j].addr
}

/// Whether `a` has a record in `s`.
pub open spec fn has_peer(s: Seq<PeerRecord>, a: PeerAddr) -> bool {
    exists|i: int| 0 <= i < s.len() && s[i].addr == a
}

/// The index of `a`'s record; meaningful only when `has_peer` holds and the
/// records are well formed.
pub open spec fn peer_index(s: Seq<PeerRecord>, a: PeerAddr) -> int {
    choose|i: int| 0 <= i < s.len() && s[i].addr == a
}

/// Whether `a` is restricted in `s`.
pub open spec fn peer_restricted(s: Seq<PeerRecord>, a: PeerAddr) -> bool {
    has_peer(s, a) && s[peer_index(s, a)].restricted
}

/// When `a` was last seen; meaningful only when `has_peer` holds.
pub open spec fn peer_last_seen(s: Seq<PeerRecord>, a: PeerAddr) -> u64 {
    s[peer_index(s, a)].last_seen
}

/// How one observation changes the records: `a` now has a record whose
/// timestamp is `now`, no other record's timestamp moved, no record was
/// dropped, and no restriction flag changed.
pub open spec fn observed(pre: Seq<PeerRecord>, post: Seq<PeerRecord>, a: PeerAddr, now: u64) -> bool {
    &&& forall|x: PeerAddr| has_peer(post, x) == (has_peer(pre, x) || x == a)
    &&& forall|x: PeerAddr| peer_restricted(post, x) == peer_restricted(pre, x)
    &&& peer_last_seen(post, a) == now
    &&& forall|x: PeerAddr| x != a && has_peer(pre, x) ==> peer_last_seen(post, x) == peer_last_seen(pre, x)
}

/// In well-formed records, any index holding `a` is the index `peer_index`
/// picks.
proof fn lemma_peer_index_unique(s: Seq<PeerRecord>, a: PeerAddr, i: int)
    requires
        peers_wf(s),
        0 <= i < s.len(),
        s[i].addr == a,
    ensures
        peer_index(s, a) == i,
{
    assert(has_peer(s, a));
    let j = peer_index(s, a);
    assert(0 <= j < s.len() && s[j].addr == a);
    if i < j {
        assert(s[i].addr != s[j].addr);
    } else if j < i {
        assert(s[j].addr != s[i].addr);
    }
}

/// The addresses a node has observed, with their timestamps and restriction
/// flags. One engine instance owns one of these for its whole lifetime.
pub struct KnownPeers {
    pub records: Vec<PeerRecord>,
}

impl KnownPeers {
    /// Each address appears at most once.
    pub open spec fn wf(self) -> bool {
        peers_wf(self.records@)
    }

    /// An empty record set.
    pub fn new() -> (r: KnownPeers)
        ensures
            r.wf(),
            r.records@ == Seq::<PeerRecord>::empty(),
    {
        KnownPeers { records: Vec::new() }
    }

    /// The index of `a`'s record, if any.
    fn find(&self, a: PeerAddr) -> (r: Option<usize>)
        requires
            self.wf(),
        ensures
            (match r {
                Some(i) => i < self.records@.len() && self.records@[i as int].addr == a
                    && peer_index(self.records@, a) == i,
                None => !has_peer(self.records@, a),
            }),
    {
        let n = self.records.len();
        let mut i: usize = 0;
        while i < n
            invariant
                n == self.records@.len(),
                i <= n,
                self.wf(),
                forall|j: int| 0 <= j < i ==> self.records@[j].addr != a,
            decreases n - i,
        {
            if self.records[i].addr == a {
                proof {
                    lemma_peer_index_unique(self.records@, a, i as int);
                }
                return Some(i);
            }
            i = i + 1;
        }
        None
    }

    /// Records that `a` was seen at `now`: its timestamp becomes `now`, a
    /// record is created if none existed, and nothing else changes.
    pub fn observe(&mut self, a: PeerAddr, now: u64)
        requires
            old(self).wf(),
        ensures
            final(self).wf(),
            observed(old(self).records@, final(self).records@, a, now),
    {
        let ghost pre = self.records@;
        match self.find(a) {
            Some(i) => {
                let mut rec = self.records[i];
                rec.last_seen = now;
                self.records.set(i, rec);
                proof {
                    let post = self.records@;
                    assert forall|x: PeerAddr| has_peer(post, x) == (has_peer(pre, x) || x == a) by {
                        if has_peer(pre, x) {
                            let k = peer_index(pre, x);
                            assert(post[k].addr == x);
                        }
                        if x == a {
                            assert(post[i as int].addr == x);
                        }
                        if has_peer(post, x) {
                            let k = choose|k: int| 0 <= k < post.len() && post[k].addr == x;
                            assert(pre[k].addr == x);
                        }
                    }
                    assert forall|x: PeerAddr| #[trigger] peer_restricted(post, x) == peer_restricted(pre, x) by {
                        if has_peer(pre, x) {
                            let k = peer_index(pre, x);
                            lemma_peer_index_unique(post, x, k);
                        }
                    }
                    lemma_peer_index_unique(post, a, i as int);
                    assert forall|x: PeerAddr| x != a && has_peer(pre, x) implies
                        #[trigger] peer_last_seen(post, x) == peer_last_seen(pre, x) by {
                        let k = peer_index(pre, x);
                        lemma_peer_index_unique(post, x, k);
                    }
                }
            },
            None => {
                let ghost n = self.records@.len() as int;
                self.records.push(PeerRecord { addr: a, last_seen: now, restricted: false });
                proof {
                    let post = self.records@;
                    assert forall|i: int, j: int| 0 <= i < j < post.len() implies post[i].addr != post[j].addr by {
                        if j < n {
                            assert(pre[i].addr != pre[j].addr);
                        } else {
                            assert(post[j].addr == a);
                            assert(pre[i].addr != a) by {
                                if pre[i].addr == a {
                                    assert(has_peer(pre, a));
                                }
                            }
                        }
                    }
                    assert forall|x: PeerAddr| has_peer(post, x) == (has_peer(pre, x) || x == a) by {
                        if has_peer(pre, x) {
                            let k = peer_index(pre, x);
                            assert(post[k].addr == x);
                        }
                        if x == a {
                            assert(post[n].addr == x);
                        }
                        if has_peer(post, x) {
                            let k = choose|k: int| 0 <= k < post.len() && post[k].addr == x;
                            if k < n {
                                assert(pre[k].addr == x);
                            }
                        }
                    }
                    assert forall|x: PeerAddr| #[trigger] peer_restricted(post, x) == peer_restricted(pre, x) by {
                        if has_peer(pre, x) {
                            let k = peer_index(pre, x);
                            lemma_peer_index_unique(post, x, k);
                        } else if x == a {
                            lemma_peer_index_unique(post, a, n);
                        }
                    }
                    lemma_peer_index_unique(post, a, n);
                    assert forall|x: PeerAddr| x != a && has_peer(pre, x) implies
                        #[trigger] peer_last_seen(post, x) == peer_last_seen(pre, x) by {
                        let k = peer_index(pre, x);
                        lemma_peer_index_unique(post, x, k);
                    }
                }
            },
        }
    }

    /// Restricts `a`: it will be rejected before any protocol stage runs. A
    /// record is created at `now` if none existed; an existing record keeps
    /// its timestamp. No other record changes.
    pub fn restrict(&mut self, a: PeerAddr, now: u64)
        requires
            old(self).wf(),
        ensures
            final(self).wf(),
            peer_restricted(final(self).records@, a),
            forall|x: PeerAddr| has_peer(final(self).records@, x) == (has_peer(old(self).records@, x) || x == a),
            forall|x: PeerAddr| x != a ==> #[trigger] peer_restricted(final(self).records@, x)
                == peer_restricted(old(self).records@, x),
            forall|x: PeerAddr| x != a && has_peer(old(self).records@, x)
                ==> #[trigger] peer_last_seen(final(self).records@, x) == peer_last_seen(old(self).records@, x),
            has_peer(old(self).records@, a)
                ==> peer_last_seen(final(self).records@, a) == peer_last_seen(old(self).records@, a),
    {
        let ghost pre = self.records@;
        match self.find(a) {
            Some(i) => {
                let mut rec = self.records[i];
                rec.restricted = true;
                self.records.set(i, rec);
                proof {
                    let post = self.records@;
                    assert forall|x: PeerAddr| has_peer(post, x) == (has_peer(pre, x) || x == a) by {
                        if has_peer(pre, x) {
                            let k = peer_index(pre, x);
                            assert(post[k].addr == x);
                        }
                        if has_peer(post, x) {
                            let k = choose|k: int| 0 <= k < post.len() && post[k].addr == x;
                            assert(pre[k].addr == x);
                        }
                    }
                    lemma_peer_index_unique(post, a, i as int);
                    assert forall|x: PeerAddr| x != a implies #[trigger] peer_restricted(post, x)
                        == peer_restricted(pre, x) by {
                        if has_peer(pre, x) {
                            let k = peer_index(pre, x);
                            lemma_peer_index_unique(post, x, k);
                        }
                    }
                    assert forall|x: PeerAddr| x != a && has_peer(pre, x) implies
                        #[trigger] peer_last_seen(post, x) == peer_last_seen(pre, x) by {
                        let k = peer_index(pre, x);
                        lemma_peer_index_unique(post, x, k);
                    }
                }
            },
            None => {
                let ghost n = self.records@.len() as int;
                self.records.push(PeerRecord { addr: a, last_seen: now, restricted: true });
                proof {
                    let post = self.records@;
                    assert forall|i: int, j: int| 0 <= i < j < post.len() implies post[i].addr != post[j].addr by {
                        if j < n {
                            assert(pre[i].addr != pre[j].addr);
                        } else {
                            assert(post[j].addr == a);
                            assert(pre[i].addr != a) by {
                                if pre[i].addr == a {
                                    assert(has_peer(pre, a));
                                }
                            }
                        }
                    }
                    assert forall|x: PeerAddr| has_peer(post, x) == (has_peer(pre, x) || x == a) by {
                        if has_peer(pre, x) {
                            let k = peer_index(pre, x);
                            assert(post[k].addr == x);
                        }
                        if x == a {
                            assert(post[n].addr == x);
                        }
                        if has_peer(post, x) {
                            let k = choose|k: int| 0 <= k < post.len() && post[k].addr == x;
                            if k < n {
                                assert(pre[k].addr == x);
                            }
                        }
                    }
                    lemma_peer_index_unique(post, a, n);
                    assert forall|x: PeerAddr| x != a implies #[trigger] peer_restricted(post, x)
                        == peer_restricted(pre, x) by {
                        if has_peer(pre, x) {
                            let k = peer_index(pre, x);
                            lemma_peer_index_unique(post, x, k);
                        }
                    }
                    assert forall|x: PeerAddr| x != a && has_peer(pre, x) implies
                        #[trigger] peer_last_seen(post, x) == peer_last_seen(pre, x) by {
                        let k = peer_index(pre, x);
                        lemma_peer_index_unique(post, x, k);
                    }
                }
            },
        }
    }

    /// Whether `a` is restricted.
    pub fn is_restricted(&self, a: PeerAddr) -> (r: bool)
        requires
            self.wf(),
        ensures
            r == peer_restricted(self.records@, a),
    {
        match self.find(a) {
            Some(i) => self.records[i].restricted,
            None => false,
        }
    }

    /// When `a` was last seen, if it ever was.
    pub fn last_seen(&self, a: PeerAddr) -> (r: Option<u64>)
        requires
            self.wf(),
        ensures
            (match r {
                Some(t) => has_peer(self.records@, a) && t == peer_last_seen(self.records@, a),
                None => !has_peer(self.records@, a),
            }),
    {
        match self.find(a) {
            Some(i) => Some(self.records[i].last_seen),
            None => None,
        }
    }

    /// How many addresses have been observed.
    pub fn len(&self) -> (r: usize)
        ensures
            r == self.records@.len(),
    {
        self.records.len()
    }
}

} // verus!
