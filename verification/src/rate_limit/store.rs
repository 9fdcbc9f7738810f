//! Per-key request counters: a token bucket and a sliding window, each kept
//! in a `DashMap` from key to state.

use vstd::prelude::*;
use dashmap::DashMap;
use crate::clock::now_millis;
use vstd::string::StringExecFns;
use crate::time::Duration;

verus! {

#[verifier::external_type_specification]
#[verifier::external_body]
#[verifier::reject_recursive_types(K)]
#[verifier::reject_recursive_types(V)]
#[verifier::reject_recursive_types(S)]
pub struct ExDashMap<K, V, S>(DashMap<K, V, S>);

/// The state of one key's bucket: the tokens left, and when it was last
/// refilled (milliseconds on the clock).
#[derive(Clone, Copy, Debug, PartialEq, Eq, Structural)]
pub struct BucketState {
    pub tokens: u64,
    pub last_refill: u64,
}

/// What a bucket map holds: each key's state.
pub uninterp spec fn bucket_states(m: DashMap<String, BucketState>) -> Map<Seq<char>, BucketState>;

/// What a window map holds: each key's request times, oldest first.
pub uninterp spec fn window_entries(m: DashMap<String, Vec<u64>>) -> Map<Seq<char>, Seq<u64>>;

/// `DashMap::new`, for bucket states: an empty map.
#[verifier::external_body]
fn new_bucket_map() -> (map: DashMap<String, BucketState>)
    ensures
        bucket_states(map).dom() == Set::<Seq<char>>::empty(),
{
    DashMap::new()
}

/// `DashMap::get`, for bucket states: a copy of the key's state, if any.
#[verifier::external_body]
fn bucket_get(m: &DashMap<String, BucketState>, key: &str) -> (r: Option<BucketState>)
    ensures
        r == bucket_states(*m).get(key@),
{
    m.get(key).map(|e| *e.value())
}

/// `DashMap::insert`, for bucket states: the key now maps to `state`.
#[verifier::external_body]
fn bucket_insert(m: &mut DashMap<String, BucketState>, key: String, state: BucketState)
    ensures
        bucket_states(*final(m)) == bucket_states(*old(m)).insert(key@, state),
{
    m.insert(key, state);
}

/// `DashMap::new`, for request times: an empty map.
#[verifier::external_body]
fn new_window_map() -> (map: DashMap<String, Vec<u64>>)
    ensures
        window_entries(map).dom() == Set::<Seq<char>>::empty(),
{
    DashMap::new()
}

/// `DashMap::remove`, for request times: takes the key's times out, if any.
#[verifier::external_body]
fn window_take(m: &mut DashMap<String, Vec<u64>>, key: &str) -> (r: Option<Vec<u64>>)
    ensures
        window_entries(*final(m)) == window_entries(*old(m)).remove(key@),
        match r {
            Some(v) => window_entries(*old(m)).contains_key(key@) && v@ == window_entries(
                *old(m),
            )[key@],
            None => !window_entries(*old(m)).contains_key(key@),
        },
{
    m.remove(key).map(|(_, v)| v)
}

/// `DashMap::insert`, for request times: the key now maps to `times`.
#[verifier::external_body]
fn window_insert(m: &mut DashMap<String, Vec<u64>>, key: String, times: Vec<u64>)
    ensures
        window_entries(*final(m)) == window_entries(*old(m)).insert(key@, times@),
{
    m.insert(key, times);
}

/// `a - b`, or 0 when `b` is larger.
pub open spec fn sat_sub(a: int, b: int) -> int {
    if a >= b {
        a - b
    } else {
        0
    }
}

/// `a + b`, or `u64::MAX` when that is larger.
pub open spec fn sat_add_u64(a: int, b: int) -> int {
    if a + b <= u64::MAX {
        a + b
    } else {
        u64::MAX as int
    }
}

/// The tokens earned in `elapsed` milliseconds at `tokens` per `period`
/// milliseconds (whole tokens only); none when the period is zero.
pub open spec fn earned(elapsed: int, tokens: int, period: int) -> int {
    if period == 0 {
        0
    } else {
        elapsed * tokens / period
    }
}

/// A key's bucket after a refill at time `now`: a key seen for the first time
/// starts full; tokens earned since the last refill are added up to the
/// capacity, and the refill time moves to `now` only when one was earned.
pub open spec fn refilled(st: Option<BucketState>, capacity: u64, tokens: u64, period: u64, now: u64) -> BucketState {
    let s0 = match st {
        Some(s) => s,
        None => BucketState { tokens: capacity, last_refill: now },
    };
    let gain = earned(sat_sub(now as int, s0.last_refill as int), tokens as int, period as int);
    if gain > 0 {
        BucketState {
            tokens: (if s0.tokens + gain <= capacity {
                s0.tokens + gain
            } else {
                capacity as int
            }) as u64,
            last_refill: now,
        }
    } else {
        s0
    }
}

/// One request at `now` against a key's bucket: the new state, whether it is
/// let through, and the tokens left.  It is let through when a token is left
/// after the refill, and takes it.
pub open spec fn acquire_spec(st: Option<BucketState>, capacity: u64, tokens: u64, period: u64, now: u64) -> (BucketState, (bool, u64)) {
    let s1 = refilled(st, capacity, tokens, period, now);
    if s1.tokens == 0 {
        (s1, (false, 0))
    } else {
        (BucketState { tokens: (s1.tokens - 1) as u64, last_refill: s1.last_refill }, (true, (s1.tokens - 1) as u64))
    }
}

/// A token bucket per key: `capacity` requests at once, refilled at
/// `refill_tokens` tokens per `refill_period_ms` milliseconds (never, with a
/// zero period).
pub struct TokenBucket {
    capacity: u64,
    refill_tokens: u64,
    refill_period_ms: u64,
    buckets: DashMap<String, BucketState>,
}

impl TokenBucket {
    /// The bucket size.
    pub closed spec fn capacity_spec(&self) -> u64 {
        self.capacity
    }

    /// The tokens earned per period.
    pub closed spec fn refill_tokens_spec(&self) -> u64 {
        self.refill_tokens
    }

    /// The refill period, in milliseconds.
    pub closed spec fn refill_period_spec(&self) -> u64 {
        self.refill_period_ms
    }

    /// Each key's state.
    pub closed spec fn states(&self) -> Map<Seq<char>, BucketState> {
        bucket_states(self.buckets)
    }

    /// A bucket of `capacity` tokens per key, refilled at `refill_tokens`
    /// tokens per `refill_period_ms` milliseconds; no key is known yet.
    pub fn new(capacity: u64, refill_tokens: u64, refill_period_ms: u64) -> (b: Self)
        ensures
            b.capacity_spec() == capacity,
            b.refill_tokens_spec() == refill_tokens,
            b.refill_period_spec() == refill_period_ms,
            b.states().dom() == Set::<Seq<char>>::empty(),
    {
        TokenBucket { capacity, refill_tokens, refill_period_ms, buckets: new_bucket_map() }
    }

    /// Takes one token for `key` at time `now` (milliseconds): whether the
    /// request is let through and the tokens left, as `acquire_spec` says.
    pub fn try_acquire_at(&mut self, key: &str, now: u64) -> (r: (bool, u64))
        ensures
            final(self).capacity_spec() == old(self).capacity_spec(),
            final(self).refill_tokens_spec() == old(self).refill_tokens_spec(),
            final(self).refill_period_spec() == old(self).refill_period_spec(),
            ({
                let (st, res) = acquire_spec(
                    old(self).states().get(key@),
                    old(self).capacity_spec(),
                    old(self).refill_tokens_spec(),
                    old(self).refill_period_spec(),
                    now,
                );
                &&& r == res
                &&& final(self).states() == old(self).states().insert(key@, st)
            }),
    {
        let s0 = match bucket_get(&self.buckets, key) {
            Some(s) => s,
            None => BucketState { tokens: self.capacity, last_refill: now },
        };
        let elapsed: u64 = if now >= s0.last_refill {
            now - s0.last_refill
        } else {
            0
        };
        proof {
            let a = elapsed as int;
            let b = self.refill_tokens as int;
            assert(a * b <= u64::MAX * u64::MAX) by (nonlinear_arith)
                requires
                    0 <= a <= u64::MAX,
                    0 <= b <= u64::MAX,
            ;
        }
        let product: u128 = (elapsed as u128) * (self.refill_tokens as u128);
        let gain: u128 = if self.refill_period_ms == 0 {
            0
        } else {
            product / (self.refill_period_ms as u128)
        };
        let s1 = if gain > 0 {
            let t: u64 = if s0.tokens <= self.capacity && gain <= (self.capacity - s0.tokens) as u128 {
                s0.tokens + (gain as u64)
            } else {
                self.capacity
            };
            BucketState { tokens: t, last_refill: now }
        } else {
            s0
        };
        let res = if s1.tokens == 0 {
            bucket_insert(&mut self.buckets, String::from_str(key), s1);
            (false, 0)
        } else {
            let left = s1.tokens - 1;
            bucket_insert(&mut self.buckets, String::from_str(key), BucketState { tokens: left, last_refill: s1.last_refill });
            (true, left)
        };
        res
    }
}

impl TokenBucket {
    /// Takes one token for `key` at the current time: for some reading `now`
    /// of the clock, what `try_acquire_at` does at `now`.
    pub fn try_acquire(&mut self, key: &str) -> (r: (bool, u64))
        ensures
            final(self).capacity_spec() == old(self).capacity_spec(),
            final(self).refill_tokens_spec() == old(self).refill_tokens_spec(),
            final(self).refill_period_spec() == old(self).refill_period_spec(),
            exists|now: u64|
                {
                    let (st, res) = #[trigger] acquire_spec(
                        old(self).states().get(key@),
                        old(self).capacity_spec(),
                        old(self).refill_tokens_spec(),
                        old(self).refill_period_spec(),
                        now,
                    );
                    &&& r == res
                    &&& final(self).states() == old(self).states().insert(key@, st)
                },
    {
        let now = now_millis();
        self.try_acquire_at(key, now)
    }
}

/// A bucket never holds more tokens than its capacity: a request leaves a
/// key at or below the capacity when it was there before.
pub proof fn law_bucket_within_capacity(st: Option<BucketState>, capacity: u64, tokens: u64, period: u64, now: u64)
    requires
        st matches Some(s) ==> s.tokens <= capacity,
    ensures
        acquire_spec(st, capacity, tokens, period, now).0.tokens <= capacity,
{
}

/// A request is let through exactly when a token is left after the refill;
/// it takes one, and the count reported is what is left.
pub proof fn law_bucket_takes_one_token(st: Option<BucketState>, capacity: u64, tokens: u64, period: u64, now: u64)
    ensures
        ({
            let before = refilled(st, capacity, tokens, period, now);
            let (after, (allowed, remaining)) = acquire_spec(st, capacity, tokens, period, now);
            &&& allowed == (before.tokens > 0)
            &&& allowed ==> after.tokens == before.tokens - 1
            &&& !allowed ==> after.tokens == 0
            &&& remaining == after.tokens
        }),
{
}

/// Without refill, a key's tokens only go down: a key seen for the first
/// time starts with `capacity`, and each request that is let through takes
/// exactly one, so exactly `capacity` requests get through.
pub proof fn law_bucket_without_refill(st: Option<BucketState>, capacity: u64, period: u64, now: u64)
    ensures
        refilled(st, capacity, 0, period, now).tokens == (match st {
            Some(s) => s.tokens,
            None => capacity,
        }),
{
}

/// The request times of `ts` that are later than `cutoff`, in order.
pub open spec fn kept_after(ts: Seq<u64>, cutoff: int) -> Seq<u64>
    decreases ts.len(),
{
    if ts.len() == 0 {
        Seq::empty()
    } else {
        let r = kept_after(ts.drop_last(), cutoff);
        if ts.last() > cutoff {
            r.push(ts.last())
        } else {
            r
        }
    }
}

/// The window in whole milliseconds, cut to 64 bits.
pub open spec fn window_millis(w: Duration) -> u64 {
    (w@ / 1_000_000) as u64
}

/// One request at `now` against a key's request times `ts`: the key's new
/// times and the answer (let through, requests left, milliseconds to wait).
/// Times no later than `now - window` are dropped; with `limit` or more
/// left the request is refused and told to wait until the oldest leaves the
/// window, else its time is recorded.
pub open spec fn window_spec(ts: Option<Seq<u64>>, limit: u64, window_ms: u64, now: u64) -> (Seq<u64>, (bool, u64, Option<u64>)) {
    let all = match ts {
        Some(t) => t,
        None => Seq::empty(),
    };
    let kept = kept_after(all, sat_sub(now as int, window_ms as int));
    if kept.len() >= limit {
        let oldest = if kept.len() > 0 {
            kept[0]
        } else {
            now
        };
        (kept, (false, 0, Some(sat_sub(sat_add_u64(oldest as int, window_ms as int), now as int) as u64)))
    } else {
        (kept.push(now), (true, (limit - kept.len() - 1) as u64, None))
    }
}

/// A sliding window per key: at most `limit` requests in any `window`.
pub struct SlidingWindow {
    limit: u64,
    window: Duration,
    entries: DashMap<String, Vec<u64>>,
}

impl SlidingWindow {
    /// The most requests let through per window.
    pub closed spec fn limit_spec(&self) -> u64 {
        self.limit
    }

    /// The window.
    pub closed spec fn window_spec(&self) -> Duration {
        self.window
    }

    /// Each key's request times.
    pub closed spec fn entries(&self) -> Map<Seq<char>, Seq<u64>> {
        window_entries(self.entries)
    }

    /// A window of `limit` requests per `window`; no key is known yet.
    pub fn new(limit: u64, window: Duration) -> (w: Self)
        ensures
            w.limit_spec() == limit,
            w.window_spec() == window,
            w.entries().dom() == Set::<Seq<char>>::empty(),
    {
        SlidingWindow { limit, window, entries: new_window_map() }
    }

    /// Counts a request for `key` at time `now` (milliseconds), as
    /// `window_spec` says.
    pub fn try_acquire_at(&mut self, key: &str, now: u64) -> (r: (bool, u64, Option<u64>))
        ensures
            final(self).limit_spec() == old(self).limit_spec(),
            final(self).window_spec() == old(self).window_spec(),
            ({
                let (ts, res) = window_spec(
                    old(self).entries().get(key@),
                    old(self).limit_spec(),
                    window_millis(old(self).window_spec()),
                    now,
                );
                &&& r == res
                &&& final(self).entries() == old(self).entries().insert(key@, ts)
            }),
    {
        let millis = self.window.as_millis();
        let window_ms: u64 = millis as u64;
        let cutoff: u64 = if now >= window_ms {
            now - window_ms
        } else {
            0
        };
        let ghost old_entries = window_entries(self.entries);
        let all = match window_take(&mut self.entries, key) {
            Some(v) => v,
            None => Vec::new(),
        };
        let ghost all_v = all@;
        proof {
            assert(all_v == match old_entries.get(key@) {
                Some(t) => t,
                None => Seq::<u64>::empty(),
            });
        }
        let mut kept: Vec<u64> = Vec::new();
        let mut i: usize = 0;
        while i < all.len()
            invariant
                i <= all@.len(),
                kept@ == kept_after(all@.take(i as int), cutoff as int),
            decreases all@.len() - i,
        {
            proof {
                assert(all@.take(i + 1).drop_last() =~= all@.take(i as int));
            }
            if all[i] > cutoff {
                kept.push(all[i]);
            }
            i = i + 1;
        }
        proof {
            assert(all@.take(all@.len() as int) =~= all@);
        }
        let count = kept.len() as u64;
        if count >= self.limit {
            let oldest: u64 = if kept.len() > 0 {
                kept[0]
            } else {
                now
            };
            let sum: u64 = if oldest as u128 + window_ms as u128 <= u64::MAX as u128 {
                oldest + window_ms
            } else {
                u64::MAX
            };
            let retry: u64 = if sum >= now {
                sum - now
            } else {
                0
            };
            window_insert(&mut self.entries, String::from_str(key), kept);
            proof {
                assert(window_entries(self.entries) =~= old_entries.insert(key@, kept@));
            }
            (false, 0, Some(retry))
        } else {
            kept.push(now);
            let remaining = self.limit - count - 1;
            window_insert(&mut self.entries, String::from_str(key), kept);
            proof {
                assert(window_entries(self.entries) =~= old_entries.insert(key@, kept@));
            }
            (true, remaining, None)
        }
    }

    /// Counts a request for `key` at the current time: for some reading
    /// `now` of the clock, what `try_acquire_at` does at `now`.
    pub fn try_acquire(&mut self, key: &str) -> (r: (bool, u64, Option<u64>))
        ensures
            final(self).limit_spec() == old(self).limit_spec(),
            final(self).window_spec() == old(self).window_spec(),
            exists|now: u64|
                {
                    let (ts, res) = #[trigger] window_spec(
                        old(self).entries().get(key@),
                        old(self).limit_spec(),
                        window_millis(old(self).window_spec()),
                        now,
                    );
                    &&& r == res
                    &&& final(self).entries() == old(self).entries().insert(key@, ts)
                },
    {
        let now = now_millis();
        self.try_acquire_at(key, now)
    }
}

proof fn lemma_kept_after_len(ts: Seq<u64>, cutoff: int)
    ensures
        kept_after(ts, cutoff).len() <= ts.len(),
        forall|i: int| 0 <= i < kept_after(ts, cutoff).len() ==> #[trigger] kept_after(ts, cutoff)[i] > cutoff,
        forall|i: int| 0 <= i < kept_after(ts, cutoff).len() ==> ts.contains(#[trigger] kept_after(ts, cutoff)[i]),
    decreases ts.len(),
{
    if ts.len() > 0 {
        lemma_kept_after_len(ts.drop_last(), cutoff);
        let r = kept_after(ts.drop_last(), cutoff);
        assert forall|i: int| 0 <= i < kept_after(ts, cutoff).len() implies ts.contains(#[trigger] kept_after(ts, cutoff)[i]) by {
            if i < r.len() {
                let j = choose|j: int| 0 <= j < ts.drop_last().len() && ts.drop_last()[j] == r[i];
                assert(ts[j] == r[i]);
            } else {
                assert(ts[ts.len() - 1] == ts.last());
            }
        }
    }
}

/// A key never holds more than `limit` request times: a request is let in
/// only while fewer than `limit` fall in the window, and one that is let in
/// leaves `limit` minus those it now holds.
pub proof fn law_window_within_limit(ts: Option<Seq<u64>>, limit: u64, window_ms: u64, now: u64)
    requires
        ts matches Some(t) ==> t.len() <= limit,
    ensures
        window_spec(ts, limit, window_ms, now).0.len() <= limit,
        window_spec(ts, limit, window_ms, now).1.0 ==> window_spec(ts, limit, window_ms, now).1.1
            == limit - window_spec(ts, limit, window_ms, now).0.len(),
{
    let all = match ts {
        Some(t) => t,
        None => Seq::<u64>::empty(),
    };
    lemma_kept_after_len(all, sat_sub(now as int, window_ms as int));
}

/// A refused request is told to wait no longer than the window, when no
/// recorded time is later than `now`.
pub proof fn law_window_retry_within_window(ts: Option<Seq<u64>>, limit: u64, window_ms: u64, now: u64)
    requires
        ts matches Some(t) ==> forall|i: int| 0 <= i < t.len() ==> t[i] <= now,
        !window_spec(ts, limit, window_ms, now).1.0,
    ensures
        window_spec(ts, limit, window_ms, now).1.2 matches Some(ms) && ms <= window_ms,
{
    let all = match ts {
        Some(t) => t,
        None => Seq::<u64>::empty(),
    };
    let cutoff = sat_sub(now as int, window_ms as int);
    lemma_kept_after_len(all, cutoff);
    let kept = kept_after(all, cutoff);
    if kept.len() > 0 {
        assert(all.contains(kept[0]));
    }
}


/// A refill that earns no whole token leaves the bucket as it was, refill
/// time included, so the time it covered still counts towards the next token.
pub proof fn law_refill_without_token_keeps_bucket(s: BucketState, capacity: u64, tokens: u64, period: u64, now: u64)
    requires
        earned(sat_sub(now as int, s.last_refill as int), tokens as int, period as int) == 0,
    ensures
        refilled(Some(s), capacity, tokens, period, now) == s,
{
}

/// With room for a token, a refused request leaves the key's bucket exactly
/// as it found it, so a later request is answered as if the refused one had
/// never been made: tokens accruing across a refusal are not lost.
pub proof fn law_refused_request_changes_nothing(
    s: BucketState,
    capacity: u64,
    tokens: u64,
    period: u64,
    t1: u64,
    t2: u64,
)
    requires
        capacity > 0,
        !acquire_spec(Some(s), capacity, tokens, period, t1).1.0,
    ensures
        acquire_spec(Some(s), capacity, tokens, period, t1).0 == s,
        acquire_spec(Some(acquire_spec(Some(s), capacity, tokens, period, t1).0), capacity, tokens, period, t2)
            == acquire_spec(Some(s), capacity, tokens, period, t2),
{
}

} // verus!
