//! Counters of the response cache.

use vstd::prelude::*;

verus! {

/// Hit, miss and eviction counts of the cache, and the bytes stored through
/// it.  Every counter wraps past `u64::MAX`.
#[derive(Debug, Default, Clone, Copy, PartialEq, Eq, Structural)]
pub struct CacheMetrics {
    pub hits: u64,
    pub misses: u64,
    pub evictions: u64,
    pub bytes_stored: u64,
}

/// `x + n`, wrapping past `u64::MAX`.
pub open spec fn wrap_add(x: u64, n: int) -> u64 {
    ((x + n) % 0x1_0000_0000_0000_0000) as u64
}

impl CacheMetrics {
    /// All counters at zero.
    pub fn new() -> (m: Self)
        ensures
            m == (CacheMetrics { hits: 0, misses: 0, evictions: 0, bytes_stored: 0 }),
    {
        CacheMetrics { hits: 0, misses: 0, evictions: 0, bytes_stored: 0 }
    }

    pub fn record_hit(&mut self)
        ensures
            *final(self) == (CacheMetrics { hits: wrap_add(old(self).hits, 1), ..*old(self) }),
    {
        self.hits = self.hits.wrapping_add(1);
    }

    pub fn record_miss(&mut self)
        ensures
            *final(self) == (CacheMetrics { misses: wrap_add(old(self).misses, 1), ..*old(self) }),
    {
        self.misses = self.misses.wrapping_add(1);
    }

    pub fn record_eviction(&mut self)
        ensures
            *final(self) == (CacheMetrics { evictions: wrap_add(old(self).evictions, 1), ..*old(self) }),
    {
        self.evictions = self.evictions.wrapping_add(1);
    }

    pub fn add_bytes(&mut self, n: u64)
        ensures
            *final(self) == (CacheMetrics {
                bytes_stored: wrap_add(old(self).bytes_stored, n as int),
                ..*old(self)
            }),
    {
        self.bytes_stored = self.bytes_stored.wrapping_add(n);
    }
}

} // verus!
