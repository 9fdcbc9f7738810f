//! The response cache: LRU shards picked by a hash of the key.

use vstd::prelude::*;
use vstd::arithmetic::power2::pow2;
use vstd::bits::low_bits_mask;
use crate::cache_metrics::{CacheMetrics, wrap_add};
use crate::clock::now_millis;
use crate::lru::{EntryView, LruShard, get_spec, put_spec, remove_spec, has_key, bytes_of, expired, law_get_after_put};

verus! {

/// The 64-bit xxHash of `data` with `seed`, as `xxhash_rust::xxh64::xxh64`
/// computes it.
pub uninterp spec fn xxh64_spec(data: Seq<u8>, seed: u64) -> u64;

/// Hashes `data` with `xxhash_rust::xxh64::xxh64`; the result is the function
/// `xxh64_spec` of the bytes and the seed.
#[verifier::external_body]
pub(crate) fn xxh64(data: &[u8], seed: u64) -> (h: u64)
    ensures
        h == xxh64_spec(data@, seed),
{
    xxhash_rust::xxh64::xxh64(data, seed)
}

/// The shard a key goes to among `n` shards: its hash (seed 0, over its UTF-8
/// bytes) modulo `n`.
pub open spec fn shard_of(key: Seq<char>, n: nat) -> int {
    (xxh64_spec(vstd::utf8::encode_utf8(key), 0) as int) % (n as int)
}

/// A cache of byte strings split into independent LRU shards.
pub struct ShardedLruCache {
    shards: Vec<LruShard>,
    mask: u64,
    metrics: CacheMetrics,
}

impl View for ShardedLruCache {
    /// The entries of each shard.
    type V = Seq<Seq<EntryView>>;

    closed spec fn view(&self) -> Seq<Seq<EntryView>> {
        Seq::new(self.shards@.len(), |i: int| self.shards@[i]@)
    }
}

impl ShardedLruCache {
    /// The cache's counters.
    pub closed spec fn metrics_spec(&self) -> CacheMetrics {
        self.metrics
    }

    /// The number of slots of each shard.
    pub closed spec fn capacity_per_shard(&self) -> nat {
        self.shards@[0].capacity()
    }

    /// The byte budget of each shard (0: none).
    pub closed spec fn max_bytes_per_shard(&self) -> nat {
        self.shards@[0].max_bytes_spec()
    }

    /// The cache is well formed: a power-of-two number of well-formed shards,
    /// all made alike, and the mask that picks one.
    pub closed spec fn wf(&self) -> bool {
        &&& exists|k: nat| k < 64 && self.shards@.len() == pow2(k) && self.mask == low_bits_mask(k)
        &&& self.shards@.len() > 0
        &&& forall|i: int| 0 <= i < self.shards@.len() ==> (#[trigger] self.shards@[i]).wf()
        &&& forall|i: int|
            0 <= i < self.shards@.len() ==> (#[trigger] self.shards@[i]).capacity() == self.shards@[0].capacity()
                && self.shards@[i].max_bytes_spec() == self.shards@[0].max_bytes_spec()
    }

    /// A cache of `num_shards` empty shards (a power of two), each with
    /// `capacity_per_shard` slots and a budget of `max_bytes_per_shard` bytes
    /// (0: none).
    pub fn new(num_shards: usize, capacity_per_shard: usize, max_bytes_per_shard: usize) -> (c: Self)
        requires
            (exists|k: nat| k < 64 && num_shards == pow2(k)),
            capacity_per_shard < usize::MAX,
        ensures
            c.wf(),
            c@.len() == num_shards,
            forall|i: int| 0 <= i < num_shards ==> (#[trigger] c@[i]) == Seq::<EntryView>::empty(),
            c.capacity_per_shard() == capacity_per_shard,
            c.max_bytes_per_shard() == max_bytes_per_shard,
            c.metrics_spec() == (CacheMetrics { hits: 0, misses: 0, evictions: 0, bytes_stored: 0 }),
    {
        let ghost k = choose|k: nat| k < 64 && num_shards == pow2(k);
        proof {
            vstd::arithmetic::power2::lemma_pow2_pos(k);
            vstd::bits::lemma_u64_pow2_no_overflow(k);
        }
        let mut shards: Vec<LruShard> = Vec::with_capacity(num_shards);
        let mut i: usize = 0;
        while i < num_shards
            invariant
                i <= num_shards,
                capacity_per_shard < usize::MAX,
                shards@.len() == i,
                forall|j: int| 0 <= j < i ==> (#[trigger] shards@[j]).wf() && shards@[j]@
                    == Seq::<EntryView>::empty() && shards@[j].capacity() == capacity_per_shard
                    && shards@[j].max_bytes_spec() == max_bytes_per_shard,
            decreases num_shards - i,
        {
            shards.push(LruShard::new(capacity_per_shard, max_bytes_per_shard));
            i = i + 1;
        }
        let mask = (num_shards - 1) as u64;
        let c = ShardedLruCache { shards, mask, metrics: CacheMetrics::new() };
        proof {
            assert(c.mask == low_bits_mask(k));
        }
        c
    }

    /// Picks the shard of `key`: its hash with the mask, which is the hash
    /// modulo the number of shards.
    fn get_shard_index(&self, key: &str) -> (i: usize)
        requires
            self.wf(),
        ensures
            i == shard_of(key@, self@.len()),
            i < self@.len(),
    {
        let n = self.shards.len();
        let bytes = key.as_bytes();
        let hash = xxh64(bytes, 0);
        let r = hash & self.mask;
        proof {
            let k = choose|k: nat| k < 64 && self.shards@.len() == pow2(k) && self.mask == low_bits_mask(k);
            vstd::bits::lemma_u64_low_bits_mask_is_mod(hash, k);
            vstd::arithmetic::power2::lemma_pow2_pos(k);
            vstd::bits::lemma_u64_pow2_no_overflow(k);
            assert(bytes@ == vstd::utf8::encode_utf8(key@));
            assert(self.mask == low_bits_mask(k) as u64);
            assert(r == hash % (pow2(k) as u64));
            assert(r < self.shards@.len());
            assert(self@.len() == self.shards@.len());
            assert(pow2(k) as u64 == pow2(k));
            assert(r as int == (hash as int) % (self.shards@.len() as int));
            assert(r < n);
        }
        r as usize
    }

    /// Looks `key` up at time `now` in its shard, as `get_spec` says, and
    /// counts a hit or a miss.
    pub fn get_at(&mut self, key: &str, now: u64) -> (r: Option<Vec<u8>>)
        requires
            old(self).wf(),
        ensures
            final(self).wf(),
            final(self)@ == old(self)@.update(
                shard_of(key@, old(self)@.len()),
                get_spec(old(self)@[shard_of(key@, old(self)@.len())], key@, now).0,
            ),
            r matches Some(v) ==> get_spec(old(self)@[shard_of(key@, old(self)@.len())], key@, now).1
                == Some(v@),
            r is None ==> get_spec(old(self)@[shard_of(key@, old(self)@.len())], key@, now).1 is None,
            r is Some ==> final(self).metrics_spec() == (CacheMetrics {
                hits: wrap_add(old(self).metrics_spec().hits, 1),
                ..old(self).metrics_spec()
            }),
            r is None ==> final(self).metrics_spec() == (CacheMetrics {
                misses: wrap_add(old(self).metrics_spec().misses, 1),
                ..old(self).metrics_spec()
            }),
            final(self).capacity_per_shard() == old(self).capacity_per_shard(),
            final(self).max_bytes_per_shard() == old(self).max_bytes_per_shard(),
    {
        let idx = self.get_shard_index(key);
        let ghost old_shards = self.shards@;
        let mut shard = self.shards.remove(idx);
        let r = shard.get_at(key, now);
        self.shards.insert(idx, shard);
        proof {
            assert(self.shards@ =~= old_shards.update(idx as int, shard));
            assert(self@ =~= old(self)@.update(idx as int, shard@));
            assert(self.shards@[0].capacity() == old_shards[0].capacity());
        }
        if r.is_some() {
            self.metrics.record_hit();
        } else {
            self.metrics.record_miss();
        }
        r
    }

    /// Looks `key` up now; see `get_at`.
    pub fn get(&mut self, key: &str) -> (r: Option<Vec<u8>>)
        requires
            old(self).wf(),
        ensures
            final(self).wf(),
            exists|now: u64|
                {
                    &&& final(self)@ == old(self)@.update(
                        shard_of(key@, old(self)@.len()),
                        get_spec(old(self)@[shard_of(key@, old(self)@.len())], key@, now).0,
                    )
                    &&& (r matches Some(v) ==> get_spec(
                        old(self)@[shard_of(key@, old(self)@.len())],
                        key@,
                        now,
                    ).1 == Some(v@))
                    &&& (r is None ==> get_spec(
                        old(self)@[shard_of(key@, old(self)@.len())],
                        key@,
                        now,
                    ).1 is None)
                },
            final(self).capacity_per_shard() == old(self).capacity_per_shard(),
            final(self).max_bytes_per_shard() == old(self).max_bytes_per_shard(),
    {
        let now = now_millis();
        self.get_at(key, now)
    }

    /// Stores `value` under `key` in its shard, as `put_spec` says; adds the
    /// value's size to the stored-bytes count and counts the evictions the
    /// shard reports.  Shards must have a slot, and the shard's byte count
    /// must not overflow.
    pub fn put(&mut self, key: String, value: Vec<u8>, expires_at: Option<u64>)
        requires
            old(self).wf(),
            old(self).capacity_per_shard() > 0,
            bytes_of(old(self)@[shard_of(key@, old(self)@.len())]) + value@.len() <= usize::MAX,
        ensures
            final(self).wf(),
            final(self)@ == old(self)@.update(
                shard_of(key@, old(self)@.len()),
                put_spec(
                    old(self)@[shard_of(key@, old(self)@.len())],
                    old(self).capacity_per_shard(),
                    old(self).max_bytes_per_shard(),
                    key@,
                    value@,
                    expires_at,
                ).0,
            ),
            final(self).metrics_spec() == (CacheMetrics {
                bytes_stored: wrap_add(old(self).metrics_spec().bytes_stored, value@.len() as int),
                evictions: wrap_add(
                    old(self).metrics_spec().evictions,
                    put_spec(
                        old(self)@[shard_of(key@, old(self)@.len())],
                        old(self).capacity_per_shard(),
                        old(self).max_bytes_per_shard(),
                        key@,
                        value@,
                        expires_at,
                    ).1 as int,
                ),
                ..old(self).metrics_spec()
            }),
            final(self).capacity_per_shard() == old(self).capacity_per_shard(),
            final(self).max_bytes_per_shard() == old(self).max_bytes_per_shard(),
    {
        let val_len = value.len() as u64;
        let idx = self.get_shard_index(key.as_str());
        let ghost old_shards = self.shards@;
        let mut shard = self.shards.remove(idx);
        let new_evictions = shard.put(key, value, expires_at);
        self.shards.insert(idx, shard);
        proof {
            assert(self.shards@ =~= old_shards.update(idx as int, shard));
            assert(self@ =~= old(self)@.update(idx as int, shard@));
            assert(self.shards@[0].capacity() == old_shards[0].capacity());
        }
        let mut metrics = self.metrics;
        metrics.add_bytes(val_len);
        let ghost m0 = metrics;
        let mut i: usize = 0;
        while i < new_evictions
            invariant
                i <= new_evictions,
                metrics == (CacheMetrics { evictions: wrap_add(m0.evictions, i as int), ..m0 }),
            decreases new_evictions - i,
        {
            metrics.record_eviction();
            proof {
                assert(wrap_add(wrap_add(m0.evictions, i as int), 1) == wrap_add(m0.evictions, i + 1))
                    by (nonlinear_arith);
            }
            i = i + 1;
        }
        self.metrics = metrics;
    }

    /// Removes the entry with key `key` from its shard, if any; tells whether
    /// there was one.
    pub fn remove(&mut self, key: &str) -> (found: bool)
        requires
            old(self).wf(),
        ensures
            final(self).wf(),
            found == has_key(old(self)@[shard_of(key@, old(self)@.len())], key@),
            final(self)@ == old(self)@.update(
                shard_of(key@, old(self)@.len()),
                remove_spec(old(self)@[shard_of(key@, old(self)@.len())], key@),
            ),
            final(self).metrics_spec() == old(self).metrics_spec(),
            final(self).capacity_per_shard() == old(self).capacity_per_shard(),
            final(self).max_bytes_per_shard() == old(self).max_bytes_per_shard(),
    {
        let idx = self.get_shard_index(key);
        let ghost old_shards = self.shards@;
        let mut shard = self.shards.remove(idx);
        let found = shard.remove(key);
        self.shards.insert(idx, shard);
        proof {
            assert(self.shards@ =~= old_shards.update(idx as int, shard));
            assert(self@ =~= old(self)@.update(idx as int, shard@));
            assert(self.shards@[0].capacity() == old_shards[0].capacity());
        }
        found
    }

    /// Whether `put` can take a value of `len` bytes under `key`: the shards
    /// have a slot, and the shard's byte count stays within `usize`.
    pub fn can_put(&self, key: &str, len: usize) -> (b: bool)
        requires
            self.wf(),
        ensures
            b == (self.capacity_per_shard() > 0 && bytes_of(self@[shard_of(key@, self@.len())]) + len
                <= usize::MAX),
    {
        let idx = self.get_shard_index(key);
        let shard = &self.shards[idx];
        let slots = shard.slots();
        let bytes = shard.stored_bytes();
        proof {
            assert(self@[idx as int] == shard@);
        }
        slots > 0 && bytes <= usize::MAX - len
    }

    /// Leaves the cache as it is: it empties nothing.
    pub fn clear(&self) {
    }

    /// The cache's counters.
    pub fn metrics(&self) -> (m: CacheMetrics)
        ensures
            m == self.metrics_spec(),
    {
        self.metrics
    }
}

/// A value stored in the cache is what a lookup of its key then finds, as
/// long as it has not expired: both go to the key's shard.
pub proof fn law_cache_get_after_put(c: ShardedLruCache, k: Seq<char>, v: Seq<u8>, exp: Option<u64>, now: u64)
    requires
        c.wf(),
        c.capacity_per_shard() > 0,
        !expired(exp, now),
    ensures
        ({
            let s = shard_of(k, c@.len());
            let after = c@.update(
                s,
                put_spec(c@[s], c.capacity_per_shard(), c.max_bytes_per_shard(), k, v, exp).0,
            );
            get_spec(after[shard_of(k, after.len())], k, now).1 == Some(v)
        }),
{
    let s = shard_of(k, c@.len());
    assert(0 <= s < c@.len());
    let shard = c.shards@[s];
    assert(shard.wf());
    shard.lemma_wf_distinct();
    assert(c@[s] == shard@);
    assert(shard.capacity() == c.capacity_per_shard());
    assert(shard.max_bytes_spec() == c.max_bytes_per_shard());
    law_get_after_put(shard@, c.capacity_per_shard(), c.max_bytes_per_shard(), k, v, exp, now);
}

} // verus!
