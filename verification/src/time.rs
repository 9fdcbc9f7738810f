//! A span of time, held as whole seconds plus a sub-second part in nanoseconds.

use vstd::prelude::*;

verus! {

/// Number of nanoseconds in one second.
pub const NANOS_PER_SEC: u32 = 1_000_000_000;

/// Number of nanoseconds in one millisecond.
pub const NANOS_PER_MILLI: u32 = 1_000_000;

/// A span of time.  Its value (`@`) is the whole span in nanoseconds.
#[derive(Clone, Copy, Debug, PartialEq, Eq, Structural, PartialOrd, Ord, Hash)]
pub struct Duration {
    secs: u64,
    nanos: u32,
}

impl View for Duration {
    type V = int;

    closed spec fn view(&self) -> int {
        self.secs * 1_000_000_000 + self.nanos
    }
}

/// The largest span a `Duration` can hold, in nanoseconds.
pub open spec fn max_duration_nanos() -> int {
    u64::MAX * 1_000_000_000 + 999_999_999
}

impl Duration {
    /// A span is never negative.
    pub proof fn lemma_view_nonneg(&self)
        ensures
            self@ >= 0,
    {
    }

    #[verifier::type_invariant]
    closed spec fn nanos_below_one_second(self) -> bool {
        self.nanos < 1_000_000_000
    }

    /// The empty span.
    pub fn zero() -> (d: Duration)
        ensures
            d@ == 0,
    {
        Duration { secs: 0, nanos: 0 }
    }

    /// A span of `secs` whole seconds.
    pub fn from_secs(secs: u64) -> (d: Duration)
        ensures
            d@ == secs * 1_000_000_000,
    {
        Duration { secs, nanos: 0 }
    }

    /// A span of `millis` milliseconds.
    pub fn from_millis(millis: u64) -> (d: Duration)
        ensures
            d@ == millis * 1_000_000,
    {
        let secs = millis / 1000;
        let rest = millis % 1000;
        let nanos = (rest as u32) * NANOS_PER_MILLI;
        assert(secs * 1_000_000_000 + rest * 1_000_000 == millis * 1_000_000) by (nonlinear_arith)
            requires
                secs == millis / 1000,
                rest == millis % 1000,
        ;
        Duration { secs, nanos }
    }

    /// The whole seconds of the span.
    pub fn as_secs(&self) -> (s: u64)
        ensures
            s == self@ / 1_000_000_000,
    {
        proof {
            use_type_invariant(*self);
            let a = self.secs as int;
            let x = self.nanos as int;
            assert((a * 1_000_000_000 + x) / 1_000_000_000 == a) by (nonlinear_arith)
                requires
                    0 <= x < 1_000_000_000,
            ;
        }
        self.secs
    }

    /// The span in whole milliseconds (rounded down).
    pub fn as_millis(&self) -> (m: u128)
        ensures
            m == self@ / 1_000_000,
    {
        proof {
            use_type_invariant(*self);
            let a = self.secs as int;
            let x = self.nanos as int;
            assert((a * 1_000_000_000 + x) / 1_000_000 == a * 1000 + x / 1_000_000) by (nonlinear_arith)
                requires
                    0 <= x < 1_000_000_000,
                    a >= 0,
            ;
            assert(a * 1000 <= u64::MAX * 1000) by (nonlinear_arith)
                requires
                    0 <= a <= u64::MAX,
            ;
        }
        (self.secs as u128) * 1000 + ((self.nanos / NANOS_PER_MILLI) as u128)
    }

    /// Whether this span is at least as long as `other`.
    pub fn at_least(&self, other: &Duration) -> (b: bool)
        ensures
            b == (self@ >= other@),
    {
        proof {
            use_type_invariant(*self);
            use_type_invariant(*other);
            let a = self.secs as int;
            let b = other.secs as int;
            let x = self.nanos as int;
            let y = other.nanos as int;
            assert(a > b ==> a * 1_000_000_000 + x > b * 1_000_000_000 + y) by (nonlinear_arith)
                requires
                    0 <= x < 1_000_000_000,
                    0 <= y < 1_000_000_000,
            ;
            assert(a < b ==> a * 1_000_000_000 + x < b * 1_000_000_000 + y) by (nonlinear_arith)
                requires
                    0 <= x < 1_000_000_000,
                    0 <= y < 1_000_000_000,
            ;
        }
        if self.secs != other.secs {
            self.secs > other.secs
        } else {
            self.nanos >= other.nanos
        }
    }

    /// The sum of two spans.  The sum must be representable.
    pub fn add(self, other: Duration) -> (d: Duration)
        requires
            self@ + other@ <= max_duration_nanos(),
        ensures
            d@ == self@ + other@,
    {
        proof {
            use_type_invariant(self);
            use_type_invariant(other);
        }
        let n = self.nanos + other.nanos;
        if n >= NANOS_PER_SEC {
            proof {
                let a = self.secs as int;
                let b = other.secs as int;
                assert(a + b + 1 <= u64::MAX) by (nonlinear_arith)
                    requires
                        a * 1_000_000_000 + b * 1_000_000_000 + n <= u64::MAX * 1_000_000_000
                            + 999_999_999,
                        n >= 1_000_000_000,
                ;
            }
            Duration { secs: self.secs + other.secs + 1, nanos: n - NANOS_PER_SEC }
        } else {
            proof {
                let a = self.secs as int;
                let b = other.secs as int;
                assert(a + b <= u64::MAX) by (nonlinear_arith)
                    requires
                        a * 1_000_000_000 + b * 1_000_000_000 + n <= u64::MAX * 1_000_000_000
                            + 999_999_999,
                        0 <= n < 1_000_000_000,
                ;
            }
            Duration { secs: self.secs + other.secs, nanos: n }
        }
    }

    /// The span multiplied by `k`.  The product must be representable.
    pub fn mul_u32(self, k: u32) -> (d: Duration)
        requires
            self@ * k <= max_duration_nanos(),
        ensures
            d@ == self@ * k,
    {
        proof {
            use_type_invariant(self);
        }
        assert((self.nanos as u64) * (k as u64) < 1_000_000_000 * 0x1_0000_0000) by (nonlinear_arith)
            requires
                self.nanos < 1_000_000_000,
                k < 0x1_0000_0000,
        ;
        let total_nanos: u64 = (self.nanos as u64) * (k as u64);
        let extra_secs: u64 = total_nanos / (NANOS_PER_SEC as u64);
        let nanos: u64 = total_nanos % (NANOS_PER_SEC as u64);
        proof {
            let a = self.secs as int;
            let x = self.nanos as int;
            let kk = k as int;
            assert(a * kk + extra_secs <= u64::MAX) by (nonlinear_arith)
                requires
                    (a * 1_000_000_000 + x) * kk <= u64::MAX * 1_000_000_000 + 999_999_999,
                    extra_secs == (x * kk) / 1_000_000_000,
                    0 <= x,
                    0 <= kk,
                    0 <= a,
            ;
            assert((a * kk + extra_secs) * 1_000_000_000 + nanos == (a * 1_000_000_000 + x) * kk)
                by (nonlinear_arith)
                requires
                    extra_secs == (x * kk) / 1_000_000_000,
                    nanos == (x * kk) % 1_000_000_000,
            ;
            assert(a * kk <= u64::MAX);
        }
        let secs: u64 = self.secs * (k as u64) + extra_secs;
        Duration { secs, nanos: nanos as u32 }
    }
}

} // verus!
