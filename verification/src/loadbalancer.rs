//! Backends, upstream groups and the strategies that pick a backend for a
//! request.

use vstd::prelude::*;
use vstd::string::StringExecFns;
use crate::health::{BackendHealth, HealthConfig, HealthState, HealthView};
use crate::sharded::{xxh64, xxh64_spec};

verus! {

/// One backend server.
#[derive(Debug)]
pub struct Backend {
    pub url: String,
    pub weight: u32,
    /// Requests in flight to this backend.
    pub active_connections: usize,
    pub health: BackendHealth,
}

/// Whether a backend takes requests: it is healthy (not unhealthy, not draining).
pub open spec fn in_rotation(b: Backend) -> bool {
    b.health@.state == HealthState::Healthy
}

impl Backend {
    /// A healthy backend with no request in flight.
    pub fn new(url: &str, weight: u32) -> (b: Self)
        ensures
            b.url@ == url@,
            b.weight == weight,
            b.active_connections == 0,
            b.health@ == (HealthView { state: HealthState::Healthy, successes: 0, failures: 0 }),
    {
        Backend {
            url: String::from_str(url),
            weight,
            active_connections: 0,
            health: BackendHealth::new(HealthConfig::default()),
        }
    }

    /// A copy of the backend.
    pub fn duplicate(&self) -> (b: Backend)
        ensures
            b.url == self.url,
            b.weight == self.weight,
            b.active_connections == self.active_connections,
            b.health@ == self.health@,
            b.health.config_spec() == self.health.config_spec(),
    {
        Backend {
            url: self.url.clone(),
            weight: self.weight,
            active_connections: self.active_connections,
            health: self.health.duplicate(),
        }
    }
}

/// The index of the first backend in rotation among the `k` backends that
/// follow `start` round the ring (`start`, `start + 1`, ... modulo the count).
pub open spec fn first_in_rotation(bs: Seq<Backend>, start: int, k: nat) -> Option<int>
    decreases k,
{
    if k == 0 || bs.len() == 0 {
        None
    } else {
        match first_in_rotation(bs, start, (k - 1) as nat) {
            Some(i) => Some(i),
            None => {
                let i = (start + k - 1) % (bs.len() as int);
                if in_rotation(bs[i]) {
                    Some(i)
                } else {
                    None
                }
            },
        }
    }
}

/// When every backend is in rotation, the pick from cursor `start` is the
/// backend at `start` round the ring: so successive picks, whose cursor
/// moves one step each, go round the backends in order.
pub proof fn law_round_robin_in_order(bs: Seq<Backend>, start: int, k: nat)
    requires
        bs.len() > 0,
        start >= 0,
        1 <= k,
        forall|i: int| 0 <= i < bs.len() ==> in_rotation(#[trigger] bs[i]),
    ensures
        first_in_rotation(bs, start, k) == Some(start % (bs.len() as int)),
    decreases k,
{
    if k > 1 {
        law_round_robin_in_order(bs, start, (k - 1) as nat);
    } else {
        assert(first_in_rotation(bs, start, 0) is None);
        assert(in_rotation(bs[start % (bs.len() as int)]));
    }
}

/// A named group of backends served round robin.
#[derive(Debug)]
pub struct UpstreamGroup {
    pub name: String,
    pub backends: Vec<Backend>,
    /// The round-robin cursor: where the next pick starts.
    pub current_idx: usize,
}

impl UpstreamGroup {
    pub fn new(name: &str, backends: Vec<Backend>) -> (g: Self)
        ensures
            g.name@ == name@,
            g.backends == backends,
            g.current_idx == 0,
    {
        UpstreamGroup { name: String::from_str(name), backends, current_idx: 0 }
    }

    pub fn add_backend(&mut self, backend: Backend)
        ensures
            final(self).backends@ == old(self).backends@.push(backend),
            final(self).name == old(self).name,
            final(self).current_idx == old(self).current_idx,
    {
        self.backends.push(backend);
    }

    /// The backends of the group, in order.
    pub fn backends(&self) -> (bs: &Vec<Backend>)
        ensures
            bs == &self.backends,
    {
        &self.backends
    }

    /// Picks the index of the next backend in rotation: the first one that is
    /// healthy, looking round the ring from the cursor.  The cursor moves one
    /// step per call (wrapping past `usize::MAX`), whatever is found.
    pub fn next_index(&mut self) -> (r: Option<usize>)
        ensures
            final(self).backends == old(self).backends,
            final(self).name == old(self).name,
            final(self).current_idx == (if old(self).backends@.len() == 0 {
                old(self).current_idx
            } else if old(self).current_idx == usize::MAX {
                0
            } else {
                (old(self).current_idx + 1) as usize
            }),
            r matches Some(i) ==> i < old(self).backends@.len(),
            r matches Some(i) ==> first_in_rotation(
                old(self).backends@,
                old(self).current_idx as int,
                old(self).backends@.len(),
            ) == Some(i as int),
            r is None <==> first_in_rotation(
                old(self).backends@,
                old(self).current_idx as int,
                old(self).backends@.len(),
            ) is None,
    {
        let n = self.backends.len();
        if n == 0 {
            return None;
        }
        let start = self.current_idx;
        self.current_idx = start.wrapping_add(1);
        pick_in_rotation(&self.backends, start)
    }

    /// Picks the next backend in rotation (see `next_index`) and hands out a
    /// copy of it.
    pub fn next(&mut self) -> (r: Option<Backend>)
        ensures
            final(self).backends == old(self).backends,
            final(self).name == old(self).name,
            final(self).current_idx == (if old(self).backends@.len() == 0 {
                old(self).current_idx
            } else if old(self).current_idx == usize::MAX {
                0
            } else {
                (old(self).current_idx + 1) as usize
            }),
            match first_in_rotation(
                old(self).backends@,
                old(self).current_idx as int,
                old(self).backends@.len(),
            ) {
                Some(i) => r matches Some(b) && b.url == old(self).backends@[i].url && b.weight
                    == old(self).backends@[i].weight && b.active_connections
                    == old(self).backends@[i].active_connections && b.health@
                    == old(self).backends@[i].health@ && b.health.config_spec()
                    == old(self).backends@[i].health.config_spec(),
                None => r is None,
            },
    {
        proof {
            lemma_first_in_rotation_in_bounds(
                self.backends@,
                self.current_idx as int,
                self.backends@.len(),
            );
        }
        match self.next_index() {
            Some(i) => {
                let b = self.backends[i].duplicate();
                Some(b)
            },
            None => None,
        }
    }
}

impl UpstreamGroup {
    /// Takes every backend with this URL out of rotation for good (draining);
    /// the others are left as they are.
    pub fn drain_backend(&mut self, url: &str)
        ensures
            final(self).name == old(self).name,
            final(self).current_idx == old(self).current_idx,
            final(self).backends@.len() == old(self).backends@.len(),
            forall|i: int|
                0 <= i < old(self).backends@.len() ==> {
                    let b = old(self).backends@[i];
                    let c = #[trigger] final(self).backends@[i];
                    &&& c.url == b.url
                    &&& c.weight == b.weight
                    &&& c.active_connections == b.active_connections
                    &&& c.health.config_spec() == b.health.config_spec()
                    &&& c.health@ == (if b.url@ == url@ {
                        HealthView { state: HealthState::Draining, ..b.health@ }
                    } else {
                        b.health@
                    })
                },
    {
        let n = self.backends.len();
        let mut i: usize = 0;
        while i < n
            invariant
                n == old(self).backends@.len(),
                self.backends@.len() == n,
                i <= n,
                self.name == old(self).name,
                self.current_idx == old(self).current_idx,
                forall|j: int|
                    0 <= j < n ==> {
                        let b = old(self).backends@[j];
                        let c = #[trigger] self.backends@[j];
                        &&& c.url == b.url
                        &&& c.weight == b.weight
                        &&& c.active_connections == b.active_connections
                        &&& c.health.config_spec() == b.health.config_spec()
                        &&& c.health@ == (if j < i && b.url@ == url@ {
                            HealthView { state: HealthState::Draining, ..b.health@ }
                        } else {
                            b.health@
                        })
                    },
            decreases n - i,
        {
            if self.backends[i].url.eq(&String::from_str(url)) {
                let mut b = self.backends.remove(i);
                b.health.set_draining();
                self.backends.insert(i, b);
            }
            i = i + 1;
        }
    }
}

/// The index of the first backend in rotation looking round the ring from
/// `start`.
fn pick_in_rotation(bs: &Vec<Backend>, start: usize) -> (r: Option<usize>)
    ensures
        r matches Some(i) ==> i < bs@.len(),
        r matches Some(i) ==> first_in_rotation(bs@, start as int, bs@.len()) == Some(i as int),
        r is None <==> first_in_rotation(bs@, start as int, bs@.len()) is None,
{
    let n = bs.len();
    proof {
        lemma_first_in_rotation_in_bounds(bs@, start as int, n as nat);
    }
    if n == 0 {
        return None;
    }
    let base = start % n;
    let mut k: usize = 0;
    while k < n
        invariant
            n == bs@.len(),
            n > 0,
            base == start % n,
            k <= n,
            first_in_rotation(bs@, start as int, k as nat) is None,
        decreases n - k,
    {
        let i = if k >= n - base { k - (n - base) } else { base + k };
        proof {
            assert(i as int == (start as int + k) % (n as int)) by (nonlinear_arith)
                requires
                    base == start % n,
                    n > 0,
                    k < n,
                    i == if k >= n - base { k - (n - base) } else { base + k },
            ;
        }
        if bs[i].health.is_healthy() {
            proof {
                assert(first_in_rotation(bs@, start as int, (k + 1) as nat) == Some(i as int));
                lemma_first_in_rotation_found(bs@, start as int, (k + 1) as nat, n as nat);
            }
            return Some(i);
        }
        k = k + 1;
    }
    None
}

/// A backend found in rotation is one of the group's.
proof fn lemma_first_in_rotation_in_bounds(bs: Seq<Backend>, start: int, k: nat)
    requires
        start >= 0,
    ensures
        first_in_rotation(bs, start, k) matches Some(i) ==> 0 <= i < bs.len(),
    decreases k,
{
    if k > 0 {
        lemma_first_in_rotation_in_bounds(bs, start, (k - 1) as nat);
    }
}

/// Once a backend in rotation is found among the first `k` places, it stays the
/// answer when more places are looked at.
proof fn lemma_first_in_rotation_found(bs: Seq<Backend>, start: int, k: nat, m: nat)
    requires
        k <= m,
        first_in_rotation(bs, start, k) is Some,
    ensures
        first_in_rotation(bs, start, m) == first_in_rotation(bs, start, k),
    decreases m - k,
{
    if k < m {
        lemma_first_in_rotation_found(bs, start, k, (m - 1) as nat);
    }
}

/// What a balancer is told about a request: the key consistent hashing uses.
#[derive(Clone, Debug)]
pub struct LoadBalancerContext {
    pub hash_key: Option<String>,
}

/// A strategy that picks a backend for a request.
pub trait LoadBalancer {
    /// The backend for the request, if any can take it.
    fn next(&mut self, ctx: &LoadBalancerContext) -> Option<Backend>;
}

// ─────────────────────────────────────────────────────────────
//  Smooth weighted round robin
// ─────────────────────────────────────────────────────────────

/// The sum of `s`.
pub open spec fn seq_sum(s: Seq<int>) -> int
    decreases s.len(),
{
    if s.len() == 0 {
        0
    } else {
        seq_sum(s.drop_last()) + s.last()
    }
}

/// The weights of `bs`, in order.
pub open spec fn weights_of(bs: Seq<Backend>) -> Seq<int> {
    Seq::new(bs.len(), |i: int| bs[i].weight as int)
}

/// The index of the first greatest of `s[0..k]` (0 when `k` is 0).
pub open spec fn first_max_upto(s: Seq<int>, k: nat) -> int
    decreases k,
{
    if k <= 1 {
        0
    } else {
        let m = first_max_upto(s, (k - 1) as nat);
        if s[k - 1] > s[m] {
            k - 1
        } else {
            m
        }
    }
}

/// One smooth weighted round-robin pick: every current weight grows by its
/// backend's weight, the first greatest is picked, and the total weight is
/// taken off it.  The new current weights and the index picked.
pub open spec fn wrr_step(cs: Seq<int>, ws: Seq<int>) -> (Seq<int>, int) {
    let added = Seq::new(cs.len(), |i: int| cs[i] + ws[i]);
    let best = first_max_upto(added, added.len());
    (added.update(best, added[best] - seq_sum(ws)), best)
}

proof fn lemma_first_max(s: Seq<int>, k: nat)
    requires
        1 <= k <= s.len(),
    ensures
        0 <= first_max_upto(s, k) < k,
        forall|j: int| 0 <= j < k ==> #[trigger] s[j] <= s[first_max_upto(s, k)],
    decreases k,
{
    if k > 1 {
        lemma_first_max(s, (k - 1) as nat);
    }
}

proof fn lemma_sum_lower(s: Seq<int>, lo: int)
    requires
        forall|j: int| 0 <= j < s.len() ==> lo <= #[trigger] s[j],
    ensures
        s.len() * lo <= seq_sum(s),
    decreases s.len(),
{
    if s.len() > 0 {
        lemma_sum_lower(s.drop_last(), lo);
        assert((s.len() - 1) * lo + lo == s.len() * lo) by (nonlinear_arith);
    }
}

proof fn lemma_sum_upper(s: Seq<int>, hi: int)
    requires
        forall|j: int| 0 <= j < s.len() ==> #[trigger] s[j] <= hi,
    ensures
        seq_sum(s) <= s.len() * hi,
    decreases s.len(),
{
    if s.len() > 0 {
        lemma_sum_upper(s.drop_last(), hi);
        assert((s.len() - 1) * hi + hi == s.len() * hi) by (nonlinear_arith);
    }
}

proof fn lemma_sum_update(s: Seq<int>, i: int, v: int)
    requires
        0 <= i < s.len(),
    ensures
        seq_sum(s.update(i, v)) == seq_sum(s) - s[i] + v,
    decreases s.len(),
{
    if i < s.len() - 1 {
        lemma_sum_update(s.drop_last(), i, v);
        assert(s.update(i, v).drop_last() =~= s.drop_last().update(i, v));
    } else {
        assert(s.update(i, v).drop_last() =~= s.drop_last());
    }
}

proof fn lemma_sum_add(a: Seq<int>, b: Seq<int>)
    requires
        a.len() == b.len(),
    ensures
        seq_sum(Seq::new(a.len(), |i: int| a[i] + b[i])) == seq_sum(a) + seq_sum(b),
    decreases a.len(),
{
    if a.len() > 0 {
        lemma_sum_add(a.drop_last(), b.drop_last());
        assert(Seq::new(a.len(), |i: int| a[i] + b[i]).drop_last() =~= Seq::new(
            a.drop_last().len(),
            |i: int| a.drop_last()[i] + b.drop_last()[i],
        ));
    }
}

proof fn lemma_sum_take(s: Seq<int>, i: int)
    requires
        0 <= i < s.len(),
    ensures
        seq_sum(s.take(i + 1)) == seq_sum(s.take(i)) + s[i],
{
    assert(s.take(i + 1).drop_last() =~= s.take(i));
}

/// An element of a sequence with sum zero, none below `-w`, is at most
/// `(len - 1) * w`.
proof fn lemma_element_upper(s: Seq<int>, w: int, j: int)
    requires
        0 <= j < s.len(),
        w >= 0,
        seq_sum(s) == 0,
        forall|k: int| 0 <= k < s.len() ==> #[trigger] s[k] >= -w,
    ensures
        s[j] <= (s.len() - 1) * w,
{
    let t = s.update(j, -w);
    lemma_sum_update(s, j, -w);
    assert forall|k: int| 0 <= k < t.len() implies -w <= #[trigger] t[k] by {}
    lemma_sum_lower(t, -w);
    assert(t.len() * (-w) == -(s.len() * w)) by (nonlinear_arith)
        requires
            t.len() == s.len(),
    ;
    assert((s.len() - 1) * w == s.len() * w - w) by (nonlinear_arith);
}

/// A weighted round-robin balancer that spreads picks evenly in proportion
/// to the weights (the smooth scheme).
pub struct WeightedRoundRobin {
    backends: Vec<Backend>,
    current: Vec<i128>,
}

impl WeightedRoundRobin {
    /// The backends, in order.
    pub closed spec fn backends_spec(&self) -> Seq<Backend> {
        self.backends@
    }

    /// The current weights.
    pub closed spec fn currents(&self) -> Seq<int> {
        Seq::new(self.current@.len(), |i: int| self.current@[i] as int)
    }

    /// The current weights sum to zero, none is below minus the total
    /// weight, and there are fewer than 2^32 backends.
    #[verifier::type_invariant]
    pub closed spec fn wf(&self) -> bool {
        &&& self.current@.len() == self.backends@.len()
        &&& self.backends@.len() < 0x1_0000_0000
        &&& seq_sum(self.currents()) == 0
        &&& forall|i: int|
            0 <= i < self.current@.len() ==> #[trigger] self.current@[i] >= -seq_sum(
                weights_of(self.backends@),
            )
    }

    /// A balancer over `backends`, every current weight at zero.
    pub fn new(backends: Vec<Backend>) -> (b: Self)
        requires
            backends@.len() < 0x1_0000_0000,
        ensures
            b.backends_spec() == backends@,
            b.currents() == Seq::new(backends@.len(), |i: int| 0int),
    {
        let n = backends.len();
        let mut current: Vec<i128> = Vec::new();
        let mut i: usize = 0;
        while i < n
            invariant
                i <= n,
                current@.len() == i,
                forall|j: int| 0 <= j < i ==> current@[j] == 0,
            decreases n - i,
        {
            current.push(0);
            i = i + 1;
        }
        let ghost cs = Seq::new(current@.len(), |i: int| current@[i] as int);
        proof {
            assert(cs =~= Seq::new(n as nat, |i: int| 0int));
            lemma_sum_lower(cs, 0);
            lemma_sum_upper(cs, 0);
            lemma_weights_nonneg(backends@);
        }
        WeightedRoundRobin { backends, current }
    }
}

proof fn lemma_weights_nonneg(bs: Seq<Backend>)
    ensures
        0 <= seq_sum(weights_of(bs)) <= bs.len() * 0xffff_ffff,
{
    assert forall|j: int| 0 <= j < weights_of(bs).len() implies 0 <= #[trigger] weights_of(bs)[j]
        <= 0xffff_ffff by {}
    lemma_sum_lower(weights_of(bs), 0);
    lemma_sum_upper(weights_of(bs), 0xffff_ffff);
}

/// A sequence whose sum is not negative has a greatest element that is not
/// negative.
proof fn lemma_max_nonneg(s: Seq<int>)
    requires
        s.len() > 0,
        seq_sum(s) >= 0,
    ensures
        s[first_max_upto(s, s.len())] >= 0,
{
    lemma_first_max(s, s.len());
    let m = s[first_max_upto(s, s.len())];
    if m < 0 {
        lemma_sum_upper(s, m);
        assert(s.len() * m < 0) by (nonlinear_arith)
            requires
                s.len() > 0,
                m < 0,
        ;
    }
}

impl LoadBalancer for WeightedRoundRobin {
    /// Picks as `wrr_step` says (the context is not used); none when there is
    /// no backend.
    fn next(&mut self, ctx: &LoadBalancerContext) -> (r: Option<Backend>)
        ensures
            final(self).backends_spec() == old(self).backends_spec(),
            if old(self).backends_spec().len() == 0 {
                r is None && final(self).currents() == old(self).currents()
            } else {
                let (cs, best) = wrr_step(old(self).currents(), weights_of(old(self).backends_spec()));
                &&& final(self).currents() == cs
                &&& r matches Some(b) && b.url == old(self).backends_spec()[best].url
                    && b.weight == old(self).backends_spec()[best].weight
            },
    {
        proof {
            use_type_invariant(&*self);
        }
        let n = self.backends.len();
        if n == 0 {
            return None;
        }
        let ghost cs = self.currents();
        let ghost ws = weights_of(self.backends@);
        let ghost big_w = seq_sum(ws);
        let ghost added = Seq::new(cs.len(), |i: int| cs[i] + ws[i]);
        proof {
            lemma_weights_nonneg(self.backends@);
            assert forall|k: int| 0 <= k < cs.len() implies #[trigger] cs[k] >= -big_w by {
                assert(cs[k] == self.current@[k]);
            }
            assert forall|j: int| 0 <= j < n implies #[trigger] cs[j] <= (n - 1) * big_w by {
                lemma_element_upper(cs, big_w, j);
            }
            assert((n - 1) * big_w <= 0x1_0000_0000 * (0x1_0000_0000 * 0xffff_ffff)) by (nonlinear_arith)
                requires
                    n < 0x1_0000_0000,
                    0 <= big_w <= n * 0xffff_ffff,
                    n >= 1,
            ;
        }
        let mut newc: Vec<i128> = Vec::new();
        let mut total: i128 = 0;
        let mut best: usize = 0;
        let mut i: usize = 0;
        while i < n
            invariant
                n == self.backends@.len(),
                n == self.current@.len(),
                n >= 1,
                i <= n,
                cs == self.currents(),
                cs.len() == n,
                ws == weights_of(self.backends@),
                added == Seq::new(cs.len(), |k: int| cs[k] + ws[k]),
                forall|k: int| 0 <= k < n ==> -big_w <= #[trigger] cs[k] <= (n - 1) * big_w,
                0 <= big_w <= n * 0xffff_ffff,
                (n - 1) * big_w <= 0x1_0000_0000 * (0x1_0000_0000 * 0xffff_ffff),
                big_w == seq_sum(ws),
                newc@.len() == i,
                forall|k: int| 0 <= k < i ==> newc@[k] == added[k],
                total == seq_sum(ws.take(i as int)),
                0 <= total <= i * 0xffff_ffff,
                i > 0 ==> best == first_max_upto(added, i as nat),
                i > 0 ==> best < i,
            decreases n - i,
        {
            let w = self.backends[i].weight;
            proof {
                assert(cs[i as int] == self.current@[i as int]);
                assert(ws[i as int] == w);
                lemma_sum_take(ws, i as int);
                assert(cs[i as int] + w <= (n - 1) * big_w + 0xffff_ffff);
            }
            let v: i128 = self.current[i] + (w as i128);
            newc.push(v);
            total = total + (w as i128);
            if i == 0 || v > newc[best] {
                best = i;
            }
            proof {
                assert(v == added[i as int]);
            }
            i = i + 1;
        }
        proof {
            assert(ws.take(n as int) =~= ws);
            assert(newc@ =~= Seq::new(n as nat, |k: int| added[k] as i128));
            lemma_sum_add(cs, ws);
            lemma_max_nonneg(added);
        }
        let picked: i128 = newc[best] - total;
        newc.set(best, picked);
        let ghost newv = Seq::new(newc@.len(), |k: int| newc@[k] as int);
        proof {
            assert(newv =~= added.update(best as int, added[best as int] - big_w));
            lemma_sum_update(added, best as int, added[best as int] - big_w);
        }
        self.current = newc;
        let b = self.backends[best].duplicate();
        Some(b)
    }
}

/// The current weights after `t` smooth weighted picks from `cs`.
pub open spec fn wrr_run(cs: Seq<int>, ws: Seq<int>, t: nat) -> Seq<int>
    decreases t,
{
    if t == 0 {
        cs
    } else {
        wrr_step(wrr_run(cs, ws, (t - 1) as nat), ws).0
    }
}

/// How many of `t` smooth weighted picks from `cs` chose backend `i`.
pub open spec fn wrr_picks(cs: Seq<int>, ws: Seq<int>, t: nat, i: int) -> nat
    decreases t,
{
    if t == 0 {
        0
    } else {
        wrr_picks(cs, ws, (t - 1) as nat, i) + (if wrr_step(wrr_run(cs, ws, (t - 1) as nat), ws).1 == i {
            1nat
        } else {
            0nat
        })
    }
}

/// The pick counts of every backend after `t` picks from `cs`.
pub open spec fn wrr_pick_counts(cs: Seq<int>, ws: Seq<int>, t: nat) -> Seq<int> {
    Seq::new(ws.len(), |i: int| wrr_picks(cs, ws, t, i) as int)
}

/// A sequence whose sum is positive has a positive greatest element.
proof fn lemma_max_pos(s: Seq<int>)
    requires
        s.len() > 0,
        seq_sum(s) > 0,
    ensures
        s[first_max_upto(s, s.len())] > 0,
{
    lemma_first_max(s, s.len());
    let m = s[first_max_upto(s, s.len())];
    if m <= 0 {
        lemma_sum_upper(s, m);
        assert(s.len() * m <= 0) by (nonlinear_arith)
            requires
                s.len() > 0,
                m <= 0,
        ;
    }
}

/// Along the picks from all-zero current weights, with a positive total
/// weight `W`: the current weights sum to zero, each stays above `-W`, each
/// is `t * w - W * picks`, and the picks add up to `t`.
proof fn lemma_wrr_run(ws: Seq<int>, t: nat)
    requires
        ws.len() > 0,
        forall|i: int| 0 <= i < ws.len() ==> #[trigger] ws[i] >= 0,
        seq_sum(ws) > 0,
    ensures
        ({
            let z = Seq::new(ws.len(), |i: int| 0int);
            let c = wrr_run(z, ws, t);
            &&& c.len() == ws.len()
            &&& seq_sum(c) == 0
            &&& forall|i: int| 0 <= i < ws.len() ==> #[trigger] c[i] > -seq_sum(ws)
            &&& forall|i: int|
                0 <= i < ws.len() ==> #[trigger] c[i] == t * ws[i] - seq_sum(ws) * wrr_picks(z, ws, t, i)
            &&& seq_sum(wrr_pick_counts(z, ws, t)) == t
        }),
    decreases t,
{
    let z = Seq::new(ws.len(), |i: int| 0int);
    let big_w = seq_sum(ws);
    let n = ws.len();
    if t == 0 {
        lemma_sum_lower(z, 0);
        lemma_sum_upper(z, 0);
        let pc = wrr_pick_counts(z, ws, 0);
        assert(pc =~= z);
        assert forall|i: int| 0 <= i < n implies #[trigger] z[i] == 0 * ws[i] - big_w * wrr_picks(z, ws, 0, i) by {
            assert(0 * ws[i] == 0) by (nonlinear_arith);
            assert(big_w * 0 == 0) by (nonlinear_arith);
        }
    } else {
        let tp = (t - 1) as nat;
        lemma_wrr_run(ws, tp);
        let c = wrr_run(z, ws, tp);
        let added = Seq::new(c.len(), |i: int| c[i] + ws[i]);
        let best = first_max_upto(added, added.len());
        lemma_first_max(added, added.len());
        lemma_sum_add(c, ws);
        lemma_max_pos(added);
        let c2 = wrr_run(z, ws, t);
        assert(c2 == added.update(best, added[best] - big_w));
        lemma_sum_update(added, best, added[best] - big_w);
        assert forall|i: int| 0 <= i < n implies #[trigger] c2[i] > -big_w by {
            if i != best {
                assert(c2[i] == c[i] + ws[i]);
            }
        }
        assert forall|i: int| 0 <= i < n implies #[trigger] c2[i] == t * ws[i] - big_w * wrr_picks(
            z,
            ws,
            t,
            i,
        ) by {
            let p = wrr_picks(z, ws, tp, i);
            assert(c[i] == tp * ws[i] - big_w * p);
            assert(t * ws[i] == tp * ws[i] + ws[i]) by (nonlinear_arith)
                requires
                    t == tp + 1,
            ;
            if i == best {
                assert(wrr_picks(z, ws, t, i) == p + 1);
                assert(big_w * (p + 1) == big_w * p + big_w) by (nonlinear_arith);
            } else {
                assert(wrr_picks(z, ws, t, i) == p);
                assert(c2[i] == c[i] + ws[i]);
            }
        }
        let pc = wrr_pick_counts(z, ws, tp);
        let pc2 = wrr_pick_counts(z, ws, t);
        assert(pc2 =~= pc.update(best, pc[best] + 1));
        lemma_sum_update(pc, best, pc[best] + 1);
    }
}

/// Non-negative numbers that sum to zero are all zero.
proof fn lemma_nonneg_sum_zero(s: Seq<int>, j: int)
    requires
        0 <= j < s.len(),
        seq_sum(s) == 0,
        forall|k: int| 0 <= k < s.len() ==> #[trigger] s[k] >= 0,
    ensures
        s[j] == 0,
{
    let t = s.update(j, 0);
    lemma_sum_update(s, j, 0);
    assert forall|k: int| 0 <= k < t.len() implies 0 <= #[trigger] t[k] by {}
    lemma_sum_lower(t, 0);
    assert(t.len() * 0 == 0) by (nonlinear_arith);
}

/// Smooth weighted round robin is exact over a cycle: from every current
/// weight at zero, as many picks as the total weight choose each backend
/// exactly as many times as its weight, and bring every current weight back
/// to zero, so that the next cycle picks alike.
pub proof fn law_wrr_exact_cycle(ws: Seq<int>)
    requires
        forall|i: int| 0 <= i < ws.len() ==> #[trigger] ws[i] >= 0,
    ensures
        ({
            let z = Seq::new(ws.len(), |i: int| 0int);
            let total = seq_sum(ws);
            &&& total >= 0
            &&& wrr_run(z, ws, total as nat) == z
            &&& forall|i: int| 0 <= i < ws.len() ==> wrr_picks(z, ws, total as nat, i) == ws[i]
        }),
{
    let z = Seq::new(ws.len(), |i: int| 0int);
    let big_w = seq_sum(ws);
    lemma_sum_lower(ws, 0);
    assert(ws.len() * 0 == 0) by (nonlinear_arith);
    if big_w == 0 {
        assert forall|i: int| 0 <= i < ws.len() implies wrr_picks(z, ws, 0, i) == ws[i] by {
            lemma_nonneg_sum_zero(ws, i);
        }
    } else {
        let n = ws.len();
        let tw = big_w as nat;
        lemma_wrr_run(ws, tw);
        let c = wrr_run(z, ws, tw);
        let pc = wrr_pick_counts(z, ws, tw);
        let d = Seq::new(n, |i: int| ws[i] - pc[i]);
        assert forall|i: int| 0 <= i < n implies #[trigger] d[i] >= 0 by {
            let p = pc[i];
            assert(c[i] == tw * ws[i] - big_w * p);
            assert(c[i] == big_w * (ws[i] - p)) by (nonlinear_arith)
                requires
                    c[i] == tw * ws[i] - big_w * p,
                    tw == big_w,
            ;
            assert(ws[i] - p > -1) by (nonlinear_arith)
                requires
                    big_w * (ws[i] - p) > -big_w,
                    big_w > 0,
            ;
        }
        lemma_sum_add(pc, d);
        assert(Seq::new(pc.len(), |i: int| pc[i] + d[i]) =~= ws);
        assert forall|i: int| 0 <= i < n implies wrr_picks(z, ws, tw, i) == ws[i] by {
            lemma_nonneg_sum_zero(d, i);
        }
        assert forall|i: int| 0 <= i < n implies #[trigger] c[i] == z[i] by {
            assert(c[i] == tw * ws[i] - big_w * ws[i]);
            assert(tw * ws[i] - big_w * ws[i] == 0) by (nonlinear_arith)
                requires
                    tw == big_w,
            ;
        }
        assert(c =~= z);
    }
}

// ─────────────────────────────────────────────────────────────
//  Least connections
// ─────────────────────────────────────────────────────────────

/// Among the first `k` backends, the first in rotation with the fewest
/// requests in flight.
pub open spec fn least_upto(bs: Seq<Backend>, k: nat) -> Option<int>
    decreases k,
{
    if k == 0 {
        None
    } else {
        let p = least_upto(bs, (k - 1) as nat);
        if in_rotation(bs[k - 1]) && (p is None || bs[k - 1].active_connections
            < bs[p->0].active_connections) {
            Some(k - 1)
        } else {
            p
        }
    }
}

proof fn lemma_least_upto_bounds(bs: Seq<Backend>, k: nat)
    ensures
        least_upto(bs, k) matches Some(i) ==> 0 <= i < k,
    decreases k,
{
    if k > 0 {
        lemma_least_upto_bounds(bs, (k - 1) as nat);
    }
}

/// The least-connections pick among the first `k` backends is a backend in
/// rotation with no more requests in flight than any other in rotation (the
/// first such); there is none only when no backend there is in rotation.
pub proof fn law_least_connections_is_least(bs: Seq<Backend>, k: nat)
    requires
        k <= bs.len(),
    ensures
        match least_upto(bs, k) {
            Some(i) => {
                &&& 0 <= i < k
                &&& in_rotation(bs[i])
                &&& forall|j: int|
                    0 <= j < k && in_rotation(#[trigger] bs[j]) ==> bs[i].active_connections
                        <= bs[j].active_connections
                &&& forall|j: int|
                    0 <= j < i && in_rotation(#[trigger] bs[j]) ==> bs[i].active_connections
                        < bs[j].active_connections
            },
            None => forall|j: int| 0 <= j < k ==> !in_rotation(#[trigger] bs[j]),
        },
    decreases k,
{
    if k > 0 {
        law_least_connections_is_least(bs, (k - 1) as nat);
    }
}

/// A balancer that sends each request to the backend with the fewest
/// requests in flight.
pub struct LeastConnections {
    pub backends: Vec<Backend>,
}

impl LeastConnections {
    /// A balancer over `backends`.
    pub fn new(backends: Vec<Backend>) -> (b: Self)
        ensures
            b.backends == backends,
    {
        LeastConnections { backends }
    }
}

impl LoadBalancer for LeastConnections {
    /// The first backend in rotation with the fewest requests in flight (the
    /// context is not used); none when no backend is in rotation.
    fn next(&mut self, ctx: &LoadBalancerContext) -> (r: Option<Backend>)
        ensures
            final(self).backends == old(self).backends,
            match least_upto(old(self).backends@, old(self).backends@.len()) {
                Some(i) => r matches Some(b) && b.url == old(self).backends@[i].url && b.weight
                    == old(self).backends@[i].weight && b.active_connections
                    == old(self).backends@[i].active_connections,
                None => r is None,
            },
    {
        let n = self.backends.len();
        let mut best: Option<usize> = None;
        let mut i: usize = 0;
        while i < n
            invariant
                n == self.backends@.len(),
                i <= n,
                best == (match least_upto(self.backends@, i as nat) {
                    Some(j) => Some(j as usize),
                    None => None::<usize>,
                }),
                best matches Some(j) ==> j < i,
            decreases n - i,
        {
            proof {
                lemma_least_upto_bounds(self.backends@, i as nat);
            }
            let b = &self.backends[i];
            if b.health.is_healthy() {
                match best {
                    None => {
                        best = Some(i);
                    },
                    Some(j) => {
                        if b.active_connections < self.backends[j].active_connections {
                            best = Some(i);
                        }
                    },
                }
            }
            i = i + 1;
        }
        proof {
            lemma_least_upto_bounds(self.backends@, n as nat);
        }
        match best {
            Some(j) => Some(self.backends[j].duplicate()),
            None => None,
        }
    }
}

// ─────────────────────────────────────────────────────────────
//  Consistent hashing
// ─────────────────────────────────────────────────────────────

/// The four little-endian bytes of `v`.
pub open spec fn le_bytes(v: u32) -> Seq<u8> {
    seq![
        (v & 0xff) as u8,
        ((v >> 8u32) & 0xff) as u8,
        ((v >> 16u32) & 0xff) as u8,
        ((v >> 24u32) & 0xff) as u8,
    ]
}

/// Where virtual node `v` of the backend at `url` sits on the ring: the
/// xxHash (seed 0) of the URL's bytes followed by `v`'s four little-endian
/// bytes.
pub open spec fn vnode_hash(url: Seq<char>, v: u32) -> u64 {
    xxh64_spec(vstd::utf8::encode_utf8(url) + le_bytes(v), 0)
}

/// The first index from `i` on whose point lies above `h`, or the ring's
/// length.
pub open spec fn first_above(ring: Seq<(u64, usize)>, h: u64, i: int) -> int
    decreases ring.len() - i,
{
    if i < 0 || i >= ring.len() {
        ring.len() as int
    } else if ring[i].0 > h {
        i
    } else {
        first_above(ring, h, i + 1)
    }
}

/// The first index from `i` on whose point lies at or above `h`, or the
/// ring's length.
pub open spec fn first_at_or_above(ring: Seq<(u64, usize)>, h: u64, i: int) -> int
    decreases ring.len() - i,
{
    if i < 0 || i >= ring.len() {
        ring.len() as int
    } else if ring[i].0 >= h {
        i
    } else {
        first_at_or_above(ring, h, i + 1)
    }
}

/// `ring` with point `p` put after every point at or below it.
pub open spec fn sorted_insert(ring: Seq<(u64, usize)>, p: (u64, usize)) -> Seq<(u64, usize)> {
    let k = first_above(ring, p.0, 0);
    ring.take(k) + seq![p] + ring.skip(k)
}

/// The ring made by putting `points` in, one after the other.
pub open spec fn build_ring(points: Seq<(u64, usize)>) -> Seq<(u64, usize)>
    decreases points.len(),
{
    if points.len() == 0 {
        Seq::empty()
    } else {
        sorted_insert(build_ring(points.drop_last()), points.last())
    }
}

/// The virtual nodes of the backend at `url`, number `i`.
pub open spec fn backend_points(url: Seq<char>, i: int, vnodes: u32) -> Seq<(u64, usize)> {
    Seq::new(vnodes as nat, |v: int| (vnode_hash(url, v as u32), i as usize))
}

/// The virtual nodes of the first `k` backends, backend by backend.
pub open spec fn all_points(bs: Seq<Backend>, vnodes: u32, k: nat) -> Seq<(u64, usize)>
    decreases k,
{
    if k == 0 {
        Seq::empty()
    } else {
        all_points(bs, vnodes, (k - 1) as nat) + backend_points(bs[k - 1].url@, k - 1, vnodes)
    }
}

/// The hash ring of `bs` with `vnodes` virtual nodes each.
pub open spec fn ring_spec(bs: Seq<Backend>, vnodes: u32) -> Seq<(u64, usize)> {
    build_ring(all_points(bs, vnodes, bs.len()))
}

/// Where a key's walk round the ring starts: the first point at or above its
/// hash, or the first point when none is.
pub open spec fn ring_start(ring: Seq<(u64, usize)>, h: u64) -> int {
    let k = first_at_or_above(ring, h, 0);
    if k == ring.len() {
        0
    } else {
        k
    }
}

/// The backend of the first of the `k` points met walking round the ring
/// from `start` whose backend is in rotation.
pub open spec fn ring_walk(ring: Seq<(u64, usize)>, bs: Seq<Backend>, start: int, k: nat) -> Option<int>
    decreases k,
{
    if k == 0 || ring.len() == 0 {
        None
    } else {
        match ring_walk(ring, bs, start, (k - 1) as nat) {
            Some(i) => Some(i),
            None => {
                let p = ring[(start + k - 1) % (ring.len() as int)];
                if in_rotation(bs[p.1 as int]) {
                    Some(p.1 as int)
                } else {
                    None
                }
            },
        }
    }
}

/// The hash of a request's key (of the empty key when it has none).
pub open spec fn key_hash(key: Option<String>) -> u64 {
    match key {
        Some(k) => xxh64_spec(vstd::utf8::encode_utf8(k@), 0),
        None => xxh64_spec(Seq::empty(), 0),
    }
}

/// A balancer that sends requests with the same key to the same backend,
/// through a ring of virtual nodes.
pub struct ConsistentHash {
    backends: Vec<Backend>,
    vnodes: u32,
    ring: Vec<(u64, usize)>,
}

proof fn lemma_all_points(bs: Seq<Backend>, vnodes: u32, k: nat)
    requires
        k <= bs.len(),
    ensures
        all_points(bs, vnodes, k).len() == k * vnodes,
        forall|j: int| 0 <= j < all_points(bs, vnodes, k).len() ==> (#[trigger] all_points(bs, vnodes, k)[j]).1 < k,
    decreases k,
{
    if k > 0 {
        lemma_all_points(bs, vnodes, (k - 1) as nat);
        assert((k - 1) * vnodes + vnodes == k * vnodes) by (nonlinear_arith);
        let a = all_points(bs, vnodes, (k - 1) as nat);
        let b = backend_points(bs[k - 1].url@, k - 1, vnodes);
        assert forall|j: int| 0 <= j < (a + b).len() implies #[trigger] (a + b)[j].1 < k by {
            if j < a.len() {
                assert((a + b)[j] == a[j]);
            } else {
                assert((a + b)[j] == b[j - a.len()]);
            }
        }
    }
}

proof fn lemma_first_above(ring: Seq<(u64, usize)>, h: u64, i: int)
    requires
        0 <= i <= ring.len(),
    ensures
        i <= first_above(ring, h, i) <= ring.len(),
        forall|j: int| i <= j < first_above(ring, h, i) ==> #[trigger] ring[j].0 <= h,
        first_above(ring, h, i) < ring.len() ==> ring[first_above(ring, h, i)].0 > h,
    decreases ring.len() - i,
{
    if i < ring.len() {
        lemma_first_above(ring, h, i + 1);
    }
}

proof fn lemma_first_at_or_above(ring: Seq<(u64, usize)>, h: u64, i: int)
    requires
        0 <= i <= ring.len(),
    ensures
        i <= first_at_or_above(ring, h, i) <= ring.len(),
        forall|j: int| i <= j < first_at_or_above(ring, h, i) ==> #[trigger] ring[j].0 < h,
        first_at_or_above(ring, h, i) < ring.len() ==> ring[first_at_or_above(ring, h, i)].0 >= h,
    decreases ring.len() - i,
{
    if i < ring.len() {
        lemma_first_at_or_above(ring, h, i + 1);
    }
}

/// The ring holds each point of the list, so its length is the list's, and
/// every backend index on it comes from the list.
proof fn lemma_build_ring(points: Seq<(u64, usize)>, n: int)
    requires
        forall|j: int| 0 <= j < points.len() ==> (#[trigger] points[j]).1 < n,
    ensures
        build_ring(points).len() == points.len(),
        forall|j: int| 0 <= j < build_ring(points).len() ==> (#[trigger] build_ring(points)[j]).1 < n,
    decreases points.len(),
{
    if points.len() > 0 {
        let prev = build_ring(points.drop_last());
        lemma_build_ring(points.drop_last(), n);
        lemma_first_above(prev, points.last().0, 0);
        let k = first_above(prev, points.last().0, 0);
        let r = prev.take(k) + seq![points.last()] + prev.skip(k);
        assert forall|j: int| 0 <= j < r.len() implies (#[trigger] r[j]).1 < n by {
            if j < k {
                assert(r[j] == prev[j]);
            } else if j > k {
                assert(r[j] == prev[j - 1]);
            }
        }
    }
}

impl ConsistentHash {
    /// The backends, in order.
    pub closed spec fn backends_spec(&self) -> Seq<Backend> {
        self.backends@
    }

    /// The virtual nodes per backend.
    pub closed spec fn vnodes_spec(&self) -> u32 {
        self.vnodes
    }

    /// The ring is the one of the backends, and points only at them.
    #[verifier::type_invariant]
    closed spec fn wf(&self) -> bool {
        &&& self.ring@ == ring_spec(self.backends@, self.vnodes)
        &&& forall|j: int| 0 <= j < self.ring@.len() ==> (#[trigger] self.ring@[j]).1 < self.backends@.len()
        &&& self.ring@.len() == self.backends@.len() * self.vnodes
    }

    /// A balancer over `backends` with `vnodes` virtual nodes each, as
    /// `ring_spec` lays them out.
    pub fn new(backends: Vec<Backend>, vnodes: u32) -> (b: Self)
        requires
            backends@.len() * vnodes < usize::MAX,
        ensures
            b.backends_spec() == backends@,
            b.vnodes_spec() == vnodes,
    {
        let n = backends.len();
        let mut ring: Vec<(u64, usize)> = Vec::new();
        let mut i: usize = 0;
        while i < n
            invariant
                n == backends@.len(),
                n * vnodes < usize::MAX,
                i <= n,
                ring@ == build_ring(all_points(backends@, vnodes, i as nat)),
                ring@.len() == i * vnodes,
            decreases n - i,
        {
            let bytes = backends[i].url.as_str().as_bytes();
            let mut v: u32 = 0;
            while v < vnodes
                invariant
                    n == backends@.len(),
                    n * vnodes < usize::MAX,
                    i < n,
                    v <= vnodes,
                    bytes@ == vstd::utf8::encode_utf8(backends@[i as int].url@),
                    ring@ == build_ring(
                        all_points(backends@, vnodes, i as nat) + backend_points(
                            backends@[i as int].url@,
                            i as int,
                            vnodes,
                        ).take(v as int),
                    ),
                    ring@.len() == i * vnodes + v,
                decreases vnodes - v,
            {
                let ghost pts = all_points(backends@, vnodes, i as nat) + backend_points(
                    backends@[i as int].url@,
                    i as int,
                    vnodes,
                ).take(v as int);
                let mut key: Vec<u8> = Vec::new();
                let mut j: usize = 0;
                while j < bytes.len()
                    invariant
                        j <= bytes@.len(),
                        key@ == bytes@.take(j as int),
                    decreases bytes@.len() - j,
                {
                    key.push(bytes[j]);
                    j = j + 1;
                    proof {
                        assert(key@ =~= bytes@.take(j as int));
                    }
                }
                key.push((v & 0xff) as u8);
                key.push(((v >> 8u32) & 0xff) as u8);
                key.push(((v >> 16u32) & 0xff) as u8);
                key.push(((v >> 24u32) & 0xff) as u8);
                proof {
                    assert(bytes@.take(bytes@.len() as int) =~= bytes@);
                    assert(key@ =~= vstd::utf8::encode_utf8(backends@[i as int].url@) + le_bytes(v));
                }
                let h = xxh64(key.as_slice(), 0);
                let ghost p = (h, i);
                let mut k: usize = 0;
                proof {
                    lemma_first_above(ring@, h, 0);
                }
                while k < ring.len() && ring[k].0 <= h
                    invariant
                        k <= ring@.len(),
                        first_above(ring@, h, 0) == first_above(ring@, h, k as int),
                    decreases ring@.len() - k,
                {
                    k = k + 1;
                }
                proof {
                    lemma_first_above(ring@, h, k as int);
                }
                let ghost before = ring@;
                ring.insert(k, (h, i));
                proof {
                    assert(ring@ =~= sorted_insert(before, p));
                    let next = pts.push(p);
                    assert(next.drop_last() =~= pts);
                    assert(next =~= all_points(backends@, vnodes, i as nat) + backend_points(
                        backends@[i as int].url@,
                        i as int,
                        vnodes,
                    ).take(v + 1));
                    assert(i * vnodes + v + 1 <= n * vnodes) by (nonlinear_arith)
                        requires
                            i < n,
                            v < vnodes,
                    ;
                }
                v = v + 1;
            }
            proof {
                assert(backend_points(backends@[i as int].url@, i as int, vnodes).take(vnodes as int)
                    =~= backend_points(backends@[i as int].url@, i as int, vnodes));
                assert(i * vnodes + vnodes == (i + 1) * vnodes) by (nonlinear_arith);
            }
            i = i + 1;
        }
        proof {
            lemma_all_points(backends@, vnodes, n as nat);
            lemma_build_ring(all_points(backends@, vnodes, n as nat), n as int);
        }
        ConsistentHash { backends, vnodes, ring }
    }
}

/// The hash of a request's key, as `key_hash` says.
fn hash_key(key: &Option<String>) -> (h: u64)
    ensures
        h == key_hash(*key),
{
    match key {
        Some(k) => {
            let bytes = k.as_str().as_bytes();
            xxh64(bytes, 0)
        },
        None => {
            let empty: Vec<u8> = Vec::new();
            xxh64(empty.as_slice(), 0)
        },
    }
}

impl LoadBalancer for ConsistentHash {
    /// Walks the ring from the first point at or above the key's hash
    /// (wrapping to the first point) and takes the first backend in rotation;
    /// none when no backend met is in rotation.
    fn next(&mut self, ctx: &LoadBalancerContext) -> (r: Option<Backend>)
        ensures
            final(self).backends_spec() == old(self).backends_spec(),
            final(self).vnodes_spec() == old(self).vnodes_spec(),
            ({
                let ring = ring_spec(old(self).backends_spec(), old(self).vnodes_spec());
                match ring_walk(
                    ring,
                    old(self).backends_spec(),
                    ring_start(ring, key_hash(ctx.hash_key)),
                    ring.len(),
                ) {
                    Some(i) => r matches Some(b) && b.url == old(self).backends_spec()[i].url
                        && b.weight == old(self).backends_spec()[i].weight,
                    None => r is None,
                }
            }),
    {
        proof {
            use_type_invariant(&*self);
        }
        let h = hash_key(&ctx.hash_key);
        let m = self.ring.len();
        if m == 0 {
            return None;
        }
        let mut k: usize = 0;
        proof {
            lemma_first_at_or_above(self.ring@, h, 0);
        }
        while k < m && self.ring[k].0 < h
            invariant
                m == self.ring@.len(),
                k <= m,
                first_at_or_above(self.ring@, h, 0) == first_at_or_above(self.ring@, h, k as int),
            decreases m - k,
        {
            k = k + 1;
        }
        proof {
            lemma_first_at_or_above(self.ring@, h, k as int);
        }
        let start: usize = if k == m {
            0
        } else {
            k
        };
        assert(start as int == ring_start(self.ring@, h));
        let mut step: usize = 0;
        while step < m
            invariant
                m == self.ring@.len(),
                m > 0,
                start < m,
                step <= m,
                forall|j: int| 0 <= j < self.ring@.len() ==> (#[trigger] self.ring@[j]).1 < self.backends@.len(),
                ring_walk(self.ring@, self.backends@, start as int, step as nat) is None,
                start as int == ring_start(self.ring@, h),
                h == key_hash(ctx.hash_key),
                self.ring@ == ring_spec(self.backends@, self.vnodes),
            decreases m - step,
        {
            let pos = if step >= m - start {
                step - (m - start)
            } else {
                start + step
            };
            proof {
                assert(pos as int == (start as int + step) % (m as int)) by (nonlinear_arith)
                    requires
                        start < m,
                        step < m,
                        pos == if step >= m - start { step - (m - start) } else { start + step },
                ;
            }
            let idx = self.ring[pos].1;
            if self.backends[idx].health.is_healthy() {
                proof {
                    assert(ring_walk(self.ring@, self.backends@, start as int, (step + 1) as nat) == Some(idx as int));
                    lemma_ring_walk_found(self.ring@, self.backends@, start as int, (step + 1) as nat, m as nat);
                }
                assert(start as int == ring_start(self.ring@, h));
                assert(h == key_hash(ctx.hash_key));
                return Some(self.backends[idx].duplicate());
            }
            step = step + 1;
        }
        None
    }
}

/// Once the walk finds a backend among its first `k` points, looking at more
/// points keeps it.
proof fn lemma_ring_walk_found(ring: Seq<(u64, usize)>, bs: Seq<Backend>, start: int, k: nat, m: nat)
    requires
        k <= m,
        ring_walk(ring, bs, start, k) is Some,
    ensures
        ring_walk(ring, bs, start, m) == ring_walk(ring, bs, start, k),
    decreases m - k,
{
    if k < m {
        lemma_ring_walk_found(ring, bs, start, k, (m - 1) as nat);
    }
}

} // verus!
