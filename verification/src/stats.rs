//! Traffic and connection counters.

use vstd::prelude::*;

verus! {

/// Addition that stops at `u64::MAX` instead of wrapping.
pub open spec fn sat_add(a: u64, b: u64) -> u64 {
    if a + b > u64::MAX {
        u64::MAX
    } else {
        (a + b) as u64
    }
}

/// Counters fed by the reader and writer stages and by connect and
/// disconnect events. Every operation saturates, so the counters never
/// decrease and never panic; there is no cross-field invariant.
#[derive(Clone, Copy, PartialEq, Eq, Structural, Debug)]
pub struct Stats {
    pub bytes_sent: u64,
    pub bytes_received: u64,
    pub msgs_sent: u64,
    pub msgs_received: u64,
    pub connections_opened: u64,
    pub connections_closed: u64,
}

/// All counters zero.
pub open spec fn zeroed() -> Stats {
    Stats {
        bytes_sent: 0u64,
        bytes_received: 0u64,
        msgs_sent: 0u64,
        msgs_received: 0u64,
        connections_opened: 0u64,
        connections_closed: 0u64,
    }
}

/// `s` with one more opened connection.
pub open spec fn with_opened(s: Stats) -> Stats {
    Stats { connections_opened: sat_add(s.connections_opened, 1), ..s }
}

/// `s` with `n` more closed connections.
pub open spec fn with_closed(s: Stats, n: u64) -> Stats {
    Stats { connections_closed: sat_add(s.connections_closed, n), ..s }
}

/// `a + b` stopped at `u64::MAX`.
fn saturating_add(a: u64, b: u64) -> (r: u64)
    ensures
        r == sat_add(a, b),
{
    if b > u64::MAX - a {
        u64::MAX
    } else {
        a + b
    }
}

impl Stats {
    /// Fresh counters, all zero.
    pub fn new() -> (r: Stats)
        ensures
            r == zeroed(),
    {
        Stats {
            bytes_sent: 0,
            bytes_received: 0,
            msgs_sent: 0,
            msgs_received: 0,
            connections_opened: 0,
            connections_closed: 0,
        }
    }

    /// Records one sent message of `bytes` bytes.
    pub fn record_sent(&mut self, bytes: u64)
        ensures
            final(self).bytes_sent == sat_add(old(self).bytes_sent, bytes),
            final(self).msgs_sent == sat_add(old(self).msgs_sent, 1),
            final(self).bytes_received == old(self).bytes_received,
            final(self).msgs_received == old(self).msgs_received,
            final(self).connections_opened == old(self).connections_opened,
            final(self).connections_closed == old(self).connections_closed,
    {
        self.bytes_sent = saturating_add(self.bytes_sent, bytes);
        self.msgs_sent = saturating_add(self.msgs_sent, 1);
    }

    /// Records one received message of `bytes` bytes.
    pub fn record_received(&mut self, bytes: u64)
        ensures
            final(self).bytes_received == sat_add(old(self).bytes_received, bytes),
            final(self).msgs_received == sat_add(old(self).msgs_received, 1),
            final(self).bytes_sent == old(self).bytes_sent,
            final(self).msgs_sent == old(self).msgs_sent,
            final(self).connections_opened == old(self).connections_opened,
            final(self).connections_closed == old(self).connections_closed,
    {
        self.bytes_received = saturating_add(self.bytes_received, bytes);
        self.msgs_received = saturating_add(self.msgs_received, 1);
    }

    /// Records one opened connection.
    pub fn record_connection_opened(&mut self)
        ensures
            *final(self) == with_opened(*old(self)),
    {
        self.connections_opened = saturating_add(self.connections_opened, 1);
    }

    /// Records `n` closed connections.
    pub fn record_connections_closed(&mut self, n: u64)
        ensures
            *final(self) == with_closed(*old(self), n),
    {
        self.connections_closed = saturating_add(self.connections_closed, n);
    }
}

/// The counters only grow: whatever is added, a counter after a saturating
/// addition is at least what it was before.
pub proof fn lemma_counters_monotonic(a: u64, b: u64)
    ensures
        sat_add(a, b) >= a,
{
}

} // verus!
