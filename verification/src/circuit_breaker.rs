//! Circuit breaker: after enough consecutive failures an upstream is cut off
//! (open) for a while, then probed (half-open) before it is trusted again.

use vstd::prelude::*;
use vstd::string::StringExecFns;
use dashmap::DashMap;
use crate::time::Duration;
use crate::clock::now_millis;

verus! {

/// Circuit breaker states.
#[derive(Debug, Clone, Copy, PartialEq, Eq, Structural)]
pub enum CbState {
    /// Normal: requests pass through.
    Closed,
    /// Tripped: all requests fail fast.
    Open,
    /// Probe: a limited number of requests test recovery.
    HalfOpen,
}

/// The state a stored number stands for: 0 closed, 1 open, 2 half-open;
/// any other number reads as closed.
pub open spec fn state_of_number(v: u8) -> CbState {
    if v == 1 {
        CbState::Open
    } else if v == 2 {
        CbState::HalfOpen
    } else {
        CbState::Closed
    }
}

impl From<u8> for CbState {
    fn from(v: u8) -> (s: Self) {
        match v {
            1 => CbState::Open,
            2 => CbState::HalfOpen,
            _ => CbState::Closed,
        }
    }
}

impl vstd::std_specs::convert::FromSpecImpl<u8> for CbState {
    open spec fn obeys_from_spec() -> bool {
        true
    }

    open spec fn from_spec(v: u8) -> CbState {
        state_of_number(v)
    }
}

/// Settings of a circuit breaker.
#[derive(Debug, Clone, Copy)]
pub struct CircuitBreakerConfig {
    /// Number of consecutive failures to trip (Closed -> Open).
    pub failure_threshold: u64,
    /// How long to stay Open before probing (Open -> HalfOpen).
    pub open_timeout: Duration,
    /// Number of probe requests allowed in HalfOpen.
    pub half_open_max_calls: u64,
    /// Number of successes in HalfOpen that close the breaker.
    pub success_threshold: u64,
}

impl Default for CircuitBreakerConfig {
    fn default() -> (c: Self)
        ensures
            c.failure_threshold == 5,
            c.open_timeout@ == 30_000_000_000,
            c.half_open_max_calls == 3,
            c.success_threshold == 2,
    {
        CircuitBreakerConfig {
            failure_threshold: 5,
            open_timeout: Duration::from_secs(30),
            half_open_max_calls: 3,
            success_threshold: 2,
        }
    }
}

/// What a breaker holds: its state, its three counters and when it last
/// tripped (milliseconds on the wall clock).
#[derive(Debug, Clone, Copy, PartialEq, Eq, Structural)]
pub struct CbView {
    pub state: CbState,
    pub failures: u64,
    pub successes: u64,
    pub half_open_calls: u64,
    pub last_failure: Option<u64>,
}

/// Whether an open breaker that tripped at `tripped` has waited out
/// `timeout_nanos` by time `now` (both in milliseconds).
pub open spec fn waited_out(tripped: u64, now: u64, timeout_nanos: int) -> bool {
    (if now >= tripped { now - tripped } else { 0 }) * 1_000_000 >= timeout_nanos
}

/// The breaker as it is read at time `now`: an open breaker that has waited
/// out its timeout turns half-open with fresh probe and success counts.
pub open spec fn refreshed(v: CbView, timeout_nanos: int, now: u64) -> CbView {
    if v.state == CbState::Open && v.last_failure is Some && waited_out(
        v.last_failure->0,
        now,
        timeout_nanos,
    ) {
        CbView { state: CbState::HalfOpen, half_open_calls: 0, successes: 0, ..v }
    } else {
        v
    }
}

/// The breaker after a request is asked for at time `now`, and the answer.
pub open spec fn allow_step(v: CbView, cfg: CircuitBreakerConfig, now: u64) -> (
    CbView,
    Result<(), CbState>,
) {
    let r = refreshed(v, cfg.open_timeout@, now);
    match r.state {
        CbState::Closed => (r, Ok(())),
        CbState::Open => (r, Err(CbState::Open)),
        CbState::HalfOpen => {
            let r2 = CbView { half_open_calls: ((r.half_open_calls + 1) % 0x1_0000_0000_0000_0000) as u64, ..r };
            if r.half_open_calls < cfg.half_open_max_calls {
                (r2, Ok(()))
            } else {
                (r2, Err(CbState::HalfOpen))
            }
        },
    }
}

/// The breaker after a successful request at time `now`.
pub open spec fn success_step(v: CbView, cfg: CircuitBreakerConfig, now: u64) -> CbView {
    let r = refreshed(v, cfg.open_timeout@, now);
    match r.state {
        CbState::Closed => CbView { failures: 0, ..r },
        CbState::HalfOpen => {
            let s = ((r.successes + 1) % 0x1_0000_0000_0000_0000) as u64;
            if s >= cfg.success_threshold {
                CbView { state: CbState::Closed, failures: 0, successes: 0, ..r }
            } else {
                CbView { successes: s, ..r }
            }
        },
        CbState::Open => r,
    }
}

/// The breaker after a failed request at time `now`.
pub open spec fn failure_step(v: CbView, cfg: CircuitBreakerConfig, now: u64) -> CbView {
    let r = refreshed(v, cfg.open_timeout@, now);
    match r.state {
        CbState::Closed => {
            let f = ((r.failures + 1) % 0x1_0000_0000_0000_0000) as u64;
            if f >= cfg.failure_threshold {
                CbView { state: CbState::Open, failures: f, last_failure: Some(now), ..r }
            } else {
                CbView { failures: f, ..r }
            }
        },
        CbState::HalfOpen => CbView {
            state: CbState::Open,
            last_failure: Some(now),
            half_open_calls: 0,
            successes: 0,
            ..r
        },
        CbState::Open => r,
    }
}

/// The breaker after `n` failed requests, all at time `now`.
pub open spec fn failures_at(v: CbView, cfg: CircuitBreakerConfig, now: u64, n: nat) -> CbView
    decreases n,
{
    if n == 0 {
        v
    } else {
        failure_step(failures_at(v, cfg, now, (n - 1) as nat), cfg, now)
    }
}

/// The breaker after `n` successful requests, all at time `now`.
pub open spec fn successes_at(v: CbView, cfg: CircuitBreakerConfig, now: u64, n: nat) -> CbView
    decreases n,
{
    if n == 0 {
        v
    } else {
        success_step(successes_at(v, cfg, now, (n - 1) as nat), cfg, now)
    }
}

/// The breaker after `n` requests asked for, all at time `now`, with the
/// answers in order.
pub open spec fn allows_at(v: CbView, cfg: CircuitBreakerConfig, now: u64, n: nat) -> (
    CbView,
    Seq<Result<(), CbState>>,
)
    decreases n,
{
    if n == 0 {
        (v, Seq::empty())
    } else {
        let (w, answers) = allows_at(v, cfg, now, (n - 1) as nat);
        let (x, a) = allow_step(w, cfg, now);
        (x, answers.push(a))
    }
}

/// A single circuit breaker.
#[derive(Debug, Clone, Copy)]
pub struct CircuitBreaker {
    state: CbState,
    failure_count: u64,
    success_count: u64,
    half_open_calls: u64,
    last_failure_time: Option<u64>,
    config: CircuitBreakerConfig,
}

impl View for CircuitBreaker {
    type V = CbView;

    closed spec fn view(&self) -> CbView {
        CbView {
            state: self.state,
            failures: self.failure_count,
            successes: self.success_count,
            half_open_calls: self.half_open_calls,
            last_failure: self.last_failure_time,
        }
    }
}

impl CircuitBreaker {
    /// The settings the breaker was made with.
    pub closed spec fn config_spec(&self) -> CircuitBreakerConfig {
        self.config
    }

    /// A closed breaker with all counters at zero.
    pub fn new(config: CircuitBreakerConfig) -> (cb: Self)
        ensures
            cb@ == (CbView {
                state: CbState::Closed,
                failures: 0,
                successes: 0,
                half_open_calls: 0,
                last_failure: None,
            }),
            cb.config_spec() == config,
    {
        CircuitBreaker {
            state: CbState::Closed,
            failure_count: 0,
            success_count: 0,
            half_open_calls: 0,
            last_failure_time: None,
            config,
        }
    }

    /// Whether an open breaker that tripped at `tripped` has waited out its
    /// timeout at time `now`.
    fn timed_out(&self, tripped: u64, now: u64) -> (b: bool)
        ensures
            b == waited_out(tripped, now, self.config.open_timeout@),
    {
        let elapsed: u64 = if now >= tripped { now - tripped } else { 0 };
        Duration::from_millis(elapsed).at_least(&self.config.open_timeout)
    }

    /// The breaker's state at time `now` (milliseconds); an open breaker that
    /// has waited out its timeout turns half-open here.
    pub fn state_at(&mut self, now: u64) -> (s: CbState)
        ensures
            final(self)@ == refreshed(old(self)@, old(self).config_spec().open_timeout@, now),
            s == final(self)@.state,
            final(self).config_spec() == old(self).config_spec(),
    {
        if self.state == CbState::Open {
            if let Some(t) = self.last_failure_time {
                if self.timed_out(t, now) {
                    self.state = CbState::HalfOpen;
                    self.half_open_calls = 0;
                    self.success_count = 0;
                    return CbState::HalfOpen;
                }
            }
        }
        self.state
    }

    /// The breaker's state now.  Whether an open breaker has waited out its
    /// timeout depends on the clock; either way the state moves as `state_at`
    /// says for the time read.
    pub fn state(&mut self) -> (s: CbState)
        ensures
            exists|now: u64|
                final(self)@ == refreshed(old(self)@, old(self).config_spec().open_timeout@, now),
            s == final(self)@.state,
            final(self).config_spec() == old(self).config_spec(),
    {
        let now = now_millis();
        self.state_at(now)
    }

    /// Whether a request may go through at time `now`: always when closed,
    /// never when open, and for the first `half_open_max_calls` probes when
    /// half-open.
    pub fn allow_request_at(&mut self, now: u64) -> (r: Result<(), CbState>)
        ensures
            (final(self)@, r) == allow_step(old(self)@, old(self).config_spec(), now),
            final(self).config_spec() == old(self).config_spec(),
    {
        match self.state_at(now) {
            CbState::Closed => Ok(()),
            CbState::Open => Err(CbState::Open),
            CbState::HalfOpen => {
                let calls = self.half_open_calls;
                self.half_open_calls = calls.wrapping_add(1);
                if calls < self.config.half_open_max_calls {
                    Ok(())
                } else {
                    Err(CbState::HalfOpen)
                }
            },
        }
    }

    /// Whether a request may go through now; see `allow_request_at`.
    pub fn allow_request(&mut self) -> (r: Result<(), CbState>)
        ensures
            exists|now: u64|
                (final(self)@, r) == allow_step(old(self)@, old(self).config_spec(), now),
            final(self).config_spec() == old(self).config_spec(),
    {
        let now = now_millis();
        self.allow_request_at(now)
    }

    /// Records a successful request at time `now`.
    pub fn record_success_at(&mut self, now: u64)
        ensures
            final(self)@ == success_step(old(self)@, old(self).config_spec(), now),
            final(self).config_spec() == old(self).config_spec(),
    {
        match self.state_at(now) {
            CbState::Closed => {
                self.failure_count = 0;
            },
            CbState::HalfOpen => {
                let successes = self.success_count.wrapping_add(1);
                self.success_count = successes;
                if successes >= self.config.success_threshold {
                    self.state = CbState::Closed;
                    self.failure_count = 0;
                    self.success_count = 0;
                }
            },
            CbState::Open => {},
        }
    }

    /// Records a successful request now; see `record_success_at`.
    pub fn record_success(&mut self)
        ensures
            exists|now: u64| final(self)@ == success_step(old(self)@, old(self).config_spec(), now),
            final(self).config_spec() == old(self).config_spec(),
    {
        let now = now_millis();
        self.record_success_at(now);
    }

    /// Records a failed request at time `now`.
    pub fn record_failure_at(&mut self, now: u64)
        ensures
            final(self)@ == failure_step(old(self)@, old(self).config_spec(), now),
            final(self).config_spec() == old(self).config_spec(),
    {
        match self.state_at(now) {
            CbState::Closed => {
                let failures = self.failure_count.wrapping_add(1);
                self.failure_count = failures;
                if failures >= self.config.failure_threshold {
                    self.state = CbState::Open;
                    self.last_failure_time = Some(now);
                }
            },
            CbState::HalfOpen => {
                self.state = CbState::Open;
                self.last_failure_time = Some(now);
                self.half_open_calls = 0;
                self.success_count = 0;
            },
            CbState::Open => {},
        }
    }

    /// Records a failed request now; see `record_failure_at`.
    pub fn record_failure(&mut self)
        ensures
            exists|now: u64| final(self)@ == failure_step(old(self)@, old(self).config_spec(), now),
            final(self).config_spec() == old(self).config_spec(),
    {
        let now = now_millis();
        self.record_failure_at(now);
    }

    /// The state as stored (no timeout is looked at).
    pub fn current_state(&self) -> (s: CbState)
        ensures
            s == self@.state,
    {
        self.state
    }

    /// The current streak of failures counted while closed.
    pub fn failure_count(&self) -> (n: u64)
        ensures
            n == self@.failures,
    {
        self.failure_count
    }
}

/// From a closed breaker with no failure streak, fewer than
/// `failure_threshold` failures keep it closed and count them; exactly
/// `failure_threshold` failures trip it open, stamped with the time.
pub proof fn law_failures_trip_breaker(v: CbView, cfg: CircuitBreakerConfig, now: u64, n: nat)
    requires
        v.state == CbState::Closed,
        v.failures == 0,
        1 <= cfg.failure_threshold,
        n <= cfg.failure_threshold,
    ensures
        n < cfg.failure_threshold ==> failures_at(v, cfg, now, n) == (CbView {
            failures: n as u64,
            ..v
        }),
        n == cfg.failure_threshold ==> failures_at(v, cfg, now, n) == (CbView {
            state: CbState::Open,
            failures: n as u64,
            last_failure: Some(now),
            ..v
        }),
    decreases n,
{
    if n > 0 {
        law_failures_trip_breaker(v, cfg, now, (n - 1) as nat);
    }
}

/// An open breaker that has not waited out its timeout turns every request
/// away and does not change.
pub proof fn law_open_fails_fast(v: CbView, cfg: CircuitBreakerConfig, now: u64)
    requires
        v.state == CbState::Open,
        v.last_failure is Some,
        !waited_out(v.last_failure->0, now, cfg.open_timeout@),
    ensures
        allow_step(v, cfg, now) == (v, Err::<(), CbState>(CbState::Open)),
{
}

/// Once an open breaker has waited out its timeout, the next `n` requests find
/// it half-open; the first `half_open_max_calls` of them are let through as
/// probes and the rest are turned away.
pub proof fn law_half_open_probe_limit(v: CbView, cfg: CircuitBreakerConfig, now: u64, n: nat)
    requires
        v.state == CbState::Open,
        v.last_failure is Some,
        waited_out(v.last_failure->0, now, cfg.open_timeout@),
        n < 0x1_0000_0000_0000_0000,
    ensures
        allows_at(v, cfg, now, n).1.len() == n,
        forall|i: int|
            0 <= i < n ==> #[trigger] allows_at(v, cfg, now, n).1[i] == if i < cfg.half_open_max_calls {
                Ok::<(), CbState>(())
            } else {
                Err(CbState::HalfOpen)
            },
        n > 0 ==> allows_at(v, cfg, now, n).0 == (CbView {
            state: CbState::HalfOpen,
            half_open_calls: n as u64,
            successes: 0,
            ..v
        }),
    decreases n,
{
    if n > 0 {
        law_half_open_probe_limit(v, cfg, now, (n - 1) as nat);
        let (w, answers) = allows_at(v, cfg, now, (n - 1) as nat);
        if n == 1 {
            assert(w == v);
        }
        assert(allows_at(v, cfg, now, n).1 == answers.push(allow_step(w, cfg, now).1));
    }
}

/// From a half-open breaker with no success streak, fewer than
/// `success_threshold` successes keep it half-open; exactly
/// `success_threshold` successes close it with its failure count reset.
pub proof fn law_successes_close_breaker(v: CbView, cfg: CircuitBreakerConfig, now: u64, n: nat)
    requires
        v.state == CbState::HalfOpen,
        v.successes == 0,
        1 <= cfg.success_threshold,
        n <= cfg.success_threshold,
    ensures
        n < cfg.success_threshold ==> successes_at(v, cfg, now, n) == (CbView {
            successes: n as u64,
            ..v
        }),
        n == cfg.success_threshold ==> successes_at(v, cfg, now, n) == (CbView {
            state: CbState::Closed,
            failures: 0,
            successes: 0,
            ..v
        }),
    decreases n,
{
    if n > 0 {
        law_successes_close_breaker(v, cfg, now, (n - 1) as nat);
    }
}

/// A failure while half-open trips the breaker open again, stamped with the
/// time, with fresh probe and success counts.
pub proof fn law_half_open_failure_reopens(v: CbView, cfg: CircuitBreakerConfig, now: u64)
    requires
        v.state == CbState::HalfOpen,
    ensures
        failure_step(v, cfg, now) == (CbView {
            state: CbState::Open,
            last_failure: Some(now),
            half_open_calls: 0,
            successes: 0,
            ..v
        }),
{
}

/// What a registry map holds: each upstream's breaker.
pub uninterp spec fn breaker_map(m: DashMap<String, CircuitBreaker>) -> Map<Seq<char>, CircuitBreaker>;

/// `DashMap::new`, for breakers: an empty map.
#[verifier::external_body]
fn new_breaker_map() -> (map: DashMap<String, CircuitBreaker>)
    ensures
        breaker_map(map).dom() == Set::<Seq<char>>::empty(),
{
    DashMap::new()
}

/// `DashMap::get`, for breakers: a copy of the name's breaker, if any.
#[verifier::external_body]
fn breaker_get(m: &DashMap<String, CircuitBreaker>, name: &str) -> (r: Option<CircuitBreaker>)
    ensures
        r == breaker_map(*m).get(name@),
{
    m.get(name).map(|e| *e.value())
}

/// `DashMap::insert`, for breakers: the name now maps to `cb`.
#[verifier::external_body]
fn breaker_insert(m: &mut DashMap<String, CircuitBreaker>, name: String, cb: CircuitBreaker)
    ensures
        breaker_map(*final(m)) == breaker_map(*old(m)).insert(name@, cb),
{
    m.insert(name, cb);
}

/// How a registry's breaker stands: its state and failure count, as
/// stored.  A report, not the breaker itself.
#[derive(Debug, Clone, Copy, PartialEq, Eq, Structural)]
pub struct BreakerStatus {
    pub state: CbState,
    pub failures: u64,
}

impl BreakerStatus {
    /// The state reported.
    pub fn state(&self) -> (s: CbState)
        ensures
            s == self.state,
    {
        self.state
    }

    /// The failure count reported.
    pub fn failure_count(&self) -> (n: u64)
        ensures
            n == self.failures,
    {
        self.failures
    }
}

/// Circuit breakers kept by upstream name.
pub struct CircuitBreakerRegistry {
    breakers: DashMap<String, CircuitBreaker>,
    default_config: CircuitBreakerConfig,
}

impl CircuitBreakerRegistry {
    /// Each name's breaker.
    pub closed spec fn breakers(&self) -> Map<Seq<char>, CircuitBreaker> {
        breaker_map(self.breakers)
    }

    /// The settings new breakers get.
    pub closed spec fn default_config_spec(&self) -> CircuitBreakerConfig {
        self.default_config
    }

    /// A registry with no breaker yet.
    pub fn new(default_config: CircuitBreakerConfig) -> (r: Self)
        ensures
            r.breakers().dom() == Set::<Seq<char>>::empty(),
            r.default_config_spec() == default_config,
    {
        CircuitBreakerRegistry { breakers: new_breaker_map(), default_config }
    }

    /// Makes sure `name` has a breaker (closed, with the default settings,
    /// the first time the name is asked for) and reports it as it stands:
    /// its state and failure count.  Other names' breakers are left alone.
    /// There is one breaker per name, kept here: requests and answers are
    /// recorded through the registry (`allow_request`, `record_success`,
    /// `record_failure`, `state`), so every caller of a name shares it.
    pub fn get_or_create(&mut self, name: &str) -> (st: BreakerStatus)
        ensures
            st.state == old(self).current(name@).0.state,
            st.failures == old(self).current(name@).0.failures,
            Self::stored(
                *old(self),
                *final(self),
                name@,
                old(self).current(name@).0,
                old(self).current(name@).1,
            ),
    {
        let cb = self.take_breaker(name);
        let ghost before = *self;
        if breaker_get(&self.breakers, name).is_none() {
            self.put_breaker(name, cb);
        } else {
            proof {
                assert(self.breakers().remove(name@) =~= before.breakers().remove(name@));
            }
        }
        BreakerStatus { state: cb.current_state(), failures: cb.failure_count() }
    }

    /// The breaker `name` starts from: its own, or a fresh closed one with
    /// the default settings.
    pub open spec fn current(&self, name: Seq<char>) -> (CbView, CircuitBreakerConfig) {
        if self.breakers().contains_key(name) {
            (self.breakers()[name]@, self.breakers()[name].config_spec())
        } else {
            (
                CbView { state: CbState::Closed, failures: 0, successes: 0, half_open_calls: 0, last_failure: None },
                self.default_config_spec(),
            )
        }
    }

    /// Whether `after` is `before` with the breaker of `name` now at `v` with
    /// settings `cfg`, every other name left alone.
    pub open spec fn stored(before: Self, after: Self, name: Seq<char>, v: CbView, cfg: CircuitBreakerConfig) -> bool {
        &&& after.default_config_spec() == before.default_config_spec()
        &&& after.breakers().contains_key(name)
        &&& after.breakers()[name]@ == v
        &&& after.breakers()[name].config_spec() == cfg
        &&& after.breakers().remove(name) == before.breakers().remove(name)
    }

    /// The breaker of `name`, taken out to be updated (a fresh one when the
    /// name is new).
    fn take_breaker(&self, name: &str) -> (cb: CircuitBreaker)
        ensures
            (cb@, cb.config_spec()) == self.current(name@),
    {
        match breaker_get(&self.breakers, name) {
            Some(cb) => cb,
            None => CircuitBreaker::new(self.default_config),
        }
    }

    /// Puts the updated breaker of `name` back.
    fn put_breaker(&mut self, name: &str, cb: CircuitBreaker)
        ensures
            Self::stored(*old(self), *final(self), name@, cb@, cb.config_spec()),
    {
        breaker_insert(&mut self.breakers, String::from_str(name), cb);
        proof {
            assert(self.breakers().remove(name@) =~= old(self).breakers().remove(name@));
        }
    }

    /// Asks the breaker of `name` whether a request may go at time `now`, as
    /// `allow_step` says, and keeps the breaker's new state.
    pub fn allow_request_at(&mut self, name: &str, now: u64) -> (r: Result<(), CbState>)
        ensures
            ({
                let (v, cfg) = old(self).current(name@);
                let (w, a) = allow_step(v, cfg, now);
                r == a && Self::stored(*old(self), *final(self), name@, w, cfg)
            }),
    {
        let mut cb = self.take_breaker(name);
        let r = cb.allow_request_at(now);
        self.put_breaker(name, cb);
        r
    }

    /// `allow_request_at` at the time on the clock.
    pub fn allow_request(&mut self, name: &str) -> (r: Result<(), CbState>)
        ensures
            exists|now: u64|
                r == (#[trigger] allow_step(old(self).current(name@).0, old(self).current(name@).1, now)).1
                    && Self::stored(
                    *old(self),
                    *final(self),
                    name@,
                    allow_step(old(self).current(name@).0, old(self).current(name@).1, now).0,
                    old(self).current(name@).1,
                ),
    {
        let now = now_millis();
        self.allow_request_at(name, now)
    }

    /// The state of the breaker of `name` at time `now`: an open breaker that
    /// has waited out its timeout turns half-open, as `refreshed` says, and
    /// the registry keeps that.
    pub fn state_at(&mut self, name: &str, now: u64) -> (st: CbState)
        ensures
            ({
                let (v, cfg) = old(self).current(name@);
                let w = refreshed(v, cfg.open_timeout@, now);
                st == w.state && Self::stored(*old(self), *final(self), name@, w, cfg)
            }),
    {
        let mut cb = self.take_breaker(name);
        let st = cb.state_at(now);
        self.put_breaker(name, cb);
        st
    }

    /// `state_at` at the time on the clock.
    pub fn state(&mut self, name: &str) -> (st: CbState)
        ensures
            exists|now: u64|
                st == (#[trigger] refreshed(old(self).current(name@).0, old(self).current(name@).1.open_timeout@, now)).state
                    && Self::stored(
                    *old(self),
                    *final(self),
                    name@,
                    refreshed(old(self).current(name@).0, old(self).current(name@).1.open_timeout@, now),
                    old(self).current(name@).1,
                ),
    {
        let now = now_millis();
        self.state_at(name, now)
    }

    /// Records a success of the breaker of `name` at time `now`, as
    /// `success_step` says.
    pub fn record_success_at(&mut self, name: &str, now: u64)
        ensures
            ({
                let (v, cfg) = old(self).current(name@);
                Self::stored(*old(self), *final(self), name@, success_step(v, cfg, now), cfg)
            }),
    {
        let mut cb = self.take_breaker(name);
        cb.record_success_at(now);
        self.put_breaker(name, cb);
    }

    /// `record_success_at` at the time on the clock.
    pub fn record_success(&mut self, name: &str)
        ensures
            exists|now: u64|
                Self::stored(
                    *old(self),
                    *final(self),
                    name@,
                    #[trigger] success_step(old(self).current(name@).0, old(self).current(name@).1, now),
                    old(self).current(name@).1,
                ),
    {
        let now = now_millis();
        self.record_success_at(name, now)
    }

    /// Records a failure of the breaker of `name` at time `now`, as
    /// `failure_step` says.
    pub fn record_failure_at(&mut self, name: &str, now: u64)
        ensures
            ({
                let (v, cfg) = old(self).current(name@);
                Self::stored(*old(self), *final(self), name@, failure_step(v, cfg, now), cfg)
            }),
    {
        let mut cb = self.take_breaker(name);
        cb.record_failure_at(now);
        self.put_breaker(name, cb);
    }

    /// `record_failure_at` at the time on the clock.
    pub fn record_failure(&mut self, name: &str)
        ensures
            exists|now: u64|
                Self::stored(
                    *old(self),
                    *final(self),
                    name@,
                    #[trigger] failure_step(old(self).current(name@).0, old(self).current(name@).1, now),
                    old(self).current(name@).1,
                ),
    {
        let now = now_millis();
        self.record_failure_at(name, now)
    }
}

/// One breaker per name, kept between calls: once a call has stored `v`
/// for `name`, the next call on `name` starts from `v` (so a failure recorded
/// through the registry is seen by every later caller of that name), and
/// every other name starts where it did before.
pub proof fn law_registry_keeps_breaker(
    before: CircuitBreakerRegistry,
    after: CircuitBreakerRegistry,
    name: Seq<char>,
    v: CbView,
    cfg: CircuitBreakerConfig,
    other: Seq<char>,
)
    requires
        CircuitBreakerRegistry::stored(before, after, name, v, cfg),
    ensures
        after.current(name) == (v, cfg),
        other != name ==> after.current(other) == before.current(other),
{
    if other != name {
        assert(after.breakers().remove(name).contains_key(other) == after.breakers().contains_key(other));
        assert(before.breakers().remove(name).contains_key(other) == before.breakers().contains_key(other));
        if after.breakers().contains_key(other) {
            assert(after.breakers().remove(name)[other] == after.breakers()[other]);
            assert(before.breakers().remove(name)[other] == before.breakers()[other]);
        }
    }
}


/// A success on a breaker that is closed (after the timeout check) ends its
/// failure streak, so only consecutive failures trip it: right after a
/// success one failure leaves a count of one, and with a threshold above one
/// the breaker stays closed.
pub proof fn law_success_resets_closed_failures(v: CbView, cfg: CircuitBreakerConfig, now: u64)
    requires
        refreshed(v, cfg.open_timeout@, now).state == CbState::Closed,
    ensures
        success_step(v, cfg, now).state == CbState::Closed,
        success_step(v, cfg, now).failures == 0,
        failure_step(success_step(v, cfg, now), cfg, now).failures == 1,
        cfg.failure_threshold > 1 ==> failure_step(success_step(v, cfg, now), cfg, now).state == CbState::Closed,
{
}

} // verus!
