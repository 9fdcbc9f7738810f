//! Retry policy: which requests may be retried and how long to wait.

use vstd::prelude::*;
use rand::Rng;
use crate::http::Method;
use crate::time::{Duration, max_duration_nanos};

verus! {

/// How the wait grows from one attempt to the next.
#[derive(Clone, Copy, Debug)]
pub enum BackoffStrategy {
    /// The same wait every time.
    Constant(Duration),
    /// `base * (attempt + 1)`.
    Linear(Duration),
    /// `base * 2^attempt`.
    Exponential(Duration),
}

/// Settings of retries.
#[derive(Clone, Debug)]
pub struct RetryConfig {
    pub max_retries: u32,
    pub backoff: BackoffStrategy,
    pub jitter: bool,
    /// HTTP status codes that trigger a retry.
    pub retryable_status_codes: Vec<u16>,
    /// Only retry idempotent methods (GET, HEAD, PUT, DELETE, OPTIONS).
    pub idempotent_only: bool,
}

impl Default for RetryConfig {
    fn default() -> (c: Self)
        ensures
            c.max_retries == 3,
            c.backoff matches BackoffStrategy::Exponential(d) && d@ == 100_000_000,
            c.jitter,
            c.retryable_status_codes@ == seq![502u16, 503u16, 504u16],
            c.idempotent_only,
    {
        RetryConfig {
            max_retries: 3,
            backoff: BackoffStrategy::Exponential(Duration::from_millis(100)),
            jitter: true,
            retryable_status_codes: vec![502, 503, 504],
            idempotent_only: true,
        }
    }
}

/// Whether a method is idempotent, hence safe to retry.
pub open spec fn idempotent(m: Method) -> bool {
    match m {
        Method::GET | Method::HEAD | Method::PUT | Method::DELETE | Method::OPTIONS => true,
        _ => false,
    }
}

impl RetryConfig {
    /// Whether a method is idempotent (safe to retry).
    pub fn is_idempotent(method: &Method) -> (b: bool)
        ensures
            b == idempotent(*method),
    {
        match method {
            Method::GET | Method::HEAD | Method::PUT | Method::DELETE | Method::OPTIONS => true,
            _ => false,
        }
    }

    /// Whether a status code triggers a retry: it is one of the configured codes.
    pub fn should_retry_status(&self, status: u16) -> (b: bool)
        ensures
            b == self.retryable_status_codes@.contains(status),
    {
        let mut i: usize = 0;
        while i < self.retryable_status_codes.len()
            invariant
                i <= self.retryable_status_codes.len(),
                forall|j: int| 0 <= j < i ==> self.retryable_status_codes@[j] != status,
            decreases self.retryable_status_codes.len() - i,
        {
            if self.retryable_status_codes[i] == status {
                return true;
            }
            i = i + 1;
        }
        false
    }
}

/// `2^n`.
pub open spec fn two_pow(n: nat) -> nat
    decreases n,
{
    if n == 0 {
        1
    } else {
        2 * two_pow((n - 1) as nat)
    }
}

proof fn lemma_two_pow_monotone(a: nat, b: nat)
    requires
        a <= b,
    ensures
        two_pow(a) <= two_pow(b),
    decreases b,
{
    if a < b {
        lemma_two_pow_monotone(a, (b - 1) as nat);
    }
}

/// The wait before retry `attempt` (counted from 0) without jitter, in
/// nanoseconds: the constant span, `base * (attempt + 1)`, or
/// `base * 2^attempt`.
pub open spec fn base_delay_spec(backoff: BackoffStrategy, attempt: u32) -> int {
    match backoff {
        BackoffStrategy::Constant(d) => d@,
        BackoffStrategy::Linear(b) => b@ * (attempt + 1),
        BackoffStrategy::Exponential(b) => b@ * two_pow(attempt as nat),
    }
}

/// Whether the wait for `attempt` can be computed: the linear step count
/// fits in 32 bits and the product fits in a `Duration`.
pub open spec fn delay_fits(backoff: BackoffStrategy, attempt: u32) -> bool {
    &&& backoff is Linear ==> attempt < u32::MAX
    &&& base_delay_spec(backoff, attempt) <= max_duration_nanos()
}

/// The jitter range for a wait of `base_nanos`: a quarter of its whole
/// milliseconds (cut to 64 bits).
pub open spec fn jitter_range(base_nanos: int) -> u64 {
    (((base_nanos / 1_000_000) as u64) / 4) as u64
}

/// A random number below `n`, from the thread's generator
/// (`rand::thread_rng().gen_range(0..n)`).  Nothing is promised of it but
/// that it lies in the range.
#[verifier::external_body]
fn random_below(n: u64) -> (r: u64)
    requires
        n > 0,
    ensures
        r < n,
{
    rand::thread_rng().gen_range(0..n)
}

/// `base * 2^times`, by doubling; it must fit in a `Duration`.
fn doubled(base: Duration, times: u32) -> (d: Duration)
    requires
        base@ * two_pow(times as nat) <= max_duration_nanos(),
    ensures
        d@ == base@ * two_pow(times as nat),
{
    proof {
        base.lemma_view_nonneg();
    }
    if Duration::zero().at_least(&base) {
        assert(base@ * two_pow(times as nat) == 0) by (nonlinear_arith)
            requires
                base@ == 0,
        ;
        return base;
    }
    let mut d = base;
    let mut i: u32 = 0;
    assert(two_pow(0) == 1);
    assert(base@ * 1 == base@);
    while i < times
        invariant
            i <= times,
            base@ >= 1,
            d@ == base@ * two_pow(i as nat),
            base@ * two_pow(times as nat) <= max_duration_nanos(),
        decreases times - i,
    {
        proof {
            lemma_two_pow_monotone((i + 1) as nat, times as nat);
            let p = two_pow(i as nat);
            assert(two_pow((i + 1) as nat) == 2 * p);
            assert(base@ * (2 * p) <= base@ * two_pow(times as nat)) by (nonlinear_arith)
                requires
                    2 * p <= two_pow(times as nat),
                    base@ >= 1,
            ;
            assert(d@ + d@ == base@ * (2 * p)) by (nonlinear_arith)
                requires
                    d@ == base@ * p,
            ;
        }
        d = d.add(d);
        i = i + 1;
    }
    d
}

impl RetryConfig {
    /// The wait before retry `attempt` without jitter.
    pub fn base_delay(&self, attempt: u32) -> (d: Duration)
        requires
            delay_fits(self.backoff, attempt),
        ensures
            d@ == base_delay_spec(self.backoff, attempt),
    {
        match self.backoff {
            BackoffStrategy::Constant(d) => d,
            BackoffStrategy::Linear(base) => base.mul_u32(attempt + 1),
            BackoffStrategy::Exponential(base) => doubled(base, attempt),
        }
    }

    /// The wait before retry `attempt` with `jitter_ms` milliseconds of
    /// jitter, which count only when jitter is on and the jitter range (a
    /// quarter of the base wait's milliseconds) is not empty.
    pub fn delay_with_jitter(&self, attempt: u32, jitter_ms: u64) -> (d: Duration)
        requires
            delay_fits(self.backoff, attempt),
            (self.jitter && jitter_range(base_delay_spec(self.backoff, attempt)) > 0) ==> base_delay_spec(
                self.backoff,
                attempt,
            ) + jitter_ms * 1_000_000 <= max_duration_nanos(),
        ensures
            d@ == base_delay_spec(self.backoff, attempt) + (if self.jitter && jitter_range(
                base_delay_spec(self.backoff, attempt),
            ) > 0 {
                jitter_ms * 1_000_000
            } else {
                0
            }),
    {
        let base = self.base_delay(attempt);
        let millis = base.as_millis();
        let range: u64 = (millis as u64) / 4;
        if self.jitter && range > 0 {
            base.add(Duration::from_millis(jitter_ms))
        } else {
            base
        }
    }

    /// The wait before retry `attempt`: the base wait, plus, when jitter is on
    /// and the jitter range is not empty, a random number of milliseconds
    /// below that range.
    pub fn delay_for_attempt(&self, attempt: u32) -> (d: Duration)
        requires
            delay_fits(self.backoff, attempt),
            self.jitter ==> base_delay_spec(self.backoff, attempt) + jitter_range(
                base_delay_spec(self.backoff, attempt),
            ) * 1_000_000 <= max_duration_nanos(),
        ensures
            ({
                let base = base_delay_spec(self.backoff, attempt);
                let range = jitter_range(base);
                if self.jitter && range > 0 {
                    &&& base <= d@ < base + range * 1_000_000
                    &&& (d@ - base) % 1_000_000 == 0
                } else {
                    d@ == base
                }
            }),
    {
        let base = self.base_delay(attempt);
        let millis = base.as_millis();
        let range: u64 = (millis as u64) / 4;
        if self.jitter && range > 0 {
            let j = random_below(range);
            let d = self.delay_with_jitter(attempt, j);
            proof {
                let b = base_delay_spec(self.backoff, attempt);
                assert((d@ - b) % 1_000_000 == 0) by (nonlinear_arith)
                    requires
                        d@ - b == j * 1_000_000,
                ;
                assert(j * 1_000_000 < range * 1_000_000) by (nonlinear_arith)
                    requires
                        j < range,
                ;
            }
            d
        } else {
            base
        }
    }
}

/// Without jitter, the linear wait grows by one base step per attempt.
pub proof fn law_linear_backoff_steps(b: Duration, attempt: u32)
    requires
        attempt + 1 < u32::MAX,
    ensures
        base_delay_spec(BackoffStrategy::Linear(b), (attempt + 1) as u32) == base_delay_spec(
            BackoffStrategy::Linear(b),
            attempt,
        ) + b@,
{
    assert(b@ * (attempt + 2) == b@ * (attempt + 1) + b@) by (nonlinear_arith);
}

/// Without jitter, the exponential wait doubles from one attempt to the
/// next: it is `base * 2^attempt`.
pub proof fn law_exponential_backoff_doubles(b: Duration, attempt: u32)
    requires
        attempt < u32::MAX,
    ensures
        base_delay_spec(BackoffStrategy::Exponential(b), (attempt + 1) as u32) == 2
            * base_delay_spec(BackoffStrategy::Exponential(b), attempt),
{
    let p = two_pow(attempt as nat);
    assert(two_pow((attempt + 1) as nat) == 2 * p);
    assert(b@ * (2 * p) == 2 * (b@ * p)) by (nonlinear_arith);
}

/// Without jitter, the exponential wait never shrinks from one attempt to
/// the next.
pub proof fn law_exponential_backoff_never_shrinks(b: Duration, attempt: u32)
    requires
        attempt < u32::MAX,
    ensures
        base_delay_spec(BackoffStrategy::Exponential(b), attempt) <= base_delay_spec(
            BackoffStrategy::Exponential(b),
            (attempt + 1) as u32,
        ),
{
    b.lemma_view_nonneg();
    law_exponential_backoff_doubles(b, attempt);
    let p = two_pow(attempt as nat);
    assert(b@ * p >= 0) by (nonlinear_arith)
        requires
            b@ >= 0,
            p >= 0,
    ;
}

} // verus!
