//! A ring of per-minute statistics: the latest `capacity` minutes.

use vstd::prelude::*;
use std::collections::VecDeque;

verus! {

/// What was seen in one minute.
#[derive(Debug, Clone, Copy, PartialEq, Eq, Structural)]
pub struct MinuteStats {
    pub timestamp: u64,
    pub requests: u64,
    pub errors: u64,
    pub p95_latency: u64,
}

/// `buf` after `stat` is pushed into a ring of `capacity`: when the ring is
/// full the oldest leaves first (one at most), then `stat` goes at the end.
pub open spec fn push_spec(buf: Seq<MinuteStats>, capacity: nat, stat: MinuteStats) -> Seq<MinuteStats> {
    if buf.len() >= capacity && buf.len() > 0 {
        buf.drop_first().push(stat)
    } else {
        buf.push(stat)
    }
}

/// The latest minutes, oldest first.
pub struct TimeSeriesStore {
    buffer: VecDeque<MinuteStats>,
    capacity: usize,
}

impl TimeSeriesStore {
    /// The minutes held, oldest first.
    pub closed spec fn stats(&self) -> Seq<MinuteStats> {
        self.buffer@
    }

    /// How many minutes the ring keeps.
    pub closed spec fn capacity_spec(&self) -> nat {
        self.capacity as nat
    }

    /// An empty ring of `capacity` minutes.
    pub fn new(capacity: usize) -> (s: Self)
        ensures
            s.stats() == Seq::<MinuteStats>::empty(),
            s.capacity_spec() == capacity,
    {
        TimeSeriesStore { buffer: VecDeque::with_capacity(capacity), capacity }
    }

    /// Adds a minute, as `push_spec` says.
    pub fn push(&mut self, stat: MinuteStats)
        ensures
            final(self).stats() == push_spec(old(self).stats(), old(self).capacity_spec(), stat),
            final(self).capacity_spec() == old(self).capacity_spec(),
    {
        if self.buffer.len() >= self.capacity && self.buffer.len() > 0 {
            self.buffer.pop_front();
        }
        self.buffer.push_back(stat);
    }

    /// The minutes held, oldest first.
    pub fn get_all(&self) -> (v: Vec<MinuteStats>)
        ensures
            v@ == self.stats(),
    {
        let mut v: Vec<MinuteStats> = Vec::new();
        let mut i: usize = 0;
        while i < self.buffer.len()
            invariant
                i <= self.buffer@.len(),
                v@ == self.buffer@.take(i as int),
            decreases self.buffer@.len() - i,
        {
            v.push(self.buffer[i]);
            i = i + 1;
            proof {
                assert(v@ =~= self.buffer@.take(i as int));
            }
        }
        proof {
            assert(self.buffer@.take(self.buffer@.len() as int) =~= self.buffer@);
        }
        v
    }
}

/// A ring with room keeps every minute pushed, and never holds more than its
/// capacity (or one, when its capacity is zero): what is held is the latest
/// minutes, oldest first.
pub proof fn law_ring_keeps_latest(buf: Seq<MinuteStats>, capacity: nat, stat: MinuteStats)
    requires
        buf.len() <= capacity || (capacity == 0 && buf.len() <= 1),
    ensures
        push_spec(buf, capacity, stat).len() <= (if capacity == 0 { 1 } else { capacity }),
        push_spec(buf, capacity, stat).last() == stat,
        buf.len() < capacity ==> push_spec(buf, capacity, stat) == buf.push(stat),
        buf.len() >= capacity && buf.len() > 0 ==> push_spec(buf, capacity, stat) == buf.drop_first().push(stat),
{
}

} // verus!
