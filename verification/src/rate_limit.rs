//! Rate limiting: per-key counters and the limiter's decisions.

pub mod store;

use vstd::prelude::*;
use vstd::string::StringExecFns;
use crate::clock::now_millis;
use crate::time::Duration;
use self::store::{
    TokenBucket,
    SlidingWindow,
    acquire_spec,
    window_spec,
    window_millis,
};

verus! {

/// Which counter a limiter keeps.
#[derive(Clone, Copy, Debug, PartialEq, Eq, Structural)]
pub enum RateLimitStrategy {
    TokenBucket,
    SlidingWindow,
}

/// What a request is counted under.
#[derive(Clone, Debug)]
pub enum KeyExtractor {
    /// The client's address.
    Ip,
    /// The value of a header ("unknown" when it is missing).
    Header(String),
    /// The value of an API-key header ("anonymous" when it is missing).
    ApiKey(String),
    /// The client's address and the request path.
    Composite,
}

/// A limiter's settings.
#[derive(Clone, Debug)]
pub struct RateLimitConfig {
    /// Requests per window (sliding window), or tokens per window (token bucket).
    pub limit: u64,
    pub window: Duration,
    /// The token bucket's size.
    pub burst: u64,
    pub strategy: RateLimitStrategy,
    pub key_extractor: KeyExtractor,
}

impl Default for RateLimitConfig {
    fn default() -> (c: Self)
        ensures
            c.limit == 100,
            c.window@ == 60 * 1_000_000_000,
            c.burst == 10,
            c.strategy == RateLimitStrategy::SlidingWindow,
            c.key_extractor is Ip,
    {
        RateLimitConfig {
            limit: 100,
            window: Duration::from_secs(60),
            burst: 10,
            strategy: RateLimitStrategy::SlidingWindow,
            key_extractor: KeyExtractor::Ip,
        }
    }
}

/// Whole seconds to wait for `ms` milliseconds, rounded up.
pub open spec fn secs_rounded_up(ms: u64) -> u64 {
    ((ms + 999) / 1000) as u64
}

/// Whole seconds to wait for `ms` milliseconds, rounded up.
pub fn retry_after_secs(ms: u64) -> (s: u64)
    ensures
        s == secs_rounded_up(ms),
{
    let q = ms / 1000;
    if ms % 1000 > 0 {
        q + 1
    } else {
        q
    }
}

/// What the limiter decides for a request.
#[derive(Clone, Copy, Debug, PartialEq, Eq, Structural)]
pub enum RateDecision {
    /// Let through; the response carries these limit headers.
    Allow { limit: u64, remaining: u64 },
    /// Refused with 429 and these headers (`Retry-After` in seconds, when known).
    Reject { limit: u64, remaining: u64, retry_after_secs: Option<u64> },
    /// No counter is kept: let through untouched.
    PassThrough,
}

/// The key a request is counted under, from the client's address, the value
/// of the header the extractor names (if the request has it, readable as
/// text), and the request path.
pub open spec fn key_spec(ex: KeyExtractor, client_ip: Seq<char>, header: Option<Seq<char>>, path: Seq<char>) -> Seq<char> {
    match ex {
        KeyExtractor::Ip => client_ip,
        KeyExtractor::Header(_) => match header {
            Some(v) => v,
            None => "unknown"@,
        },
        KeyExtractor::ApiKey(_) => match header {
            Some(v) => v,
            None => "anonymous"@,
        },
        KeyExtractor::Composite => client_ip + ":"@ + path,
    }
}

/// A limiter in front of the upstream.
pub struct RateLimiterMiddleware {
    config: RateLimitConfig,
    token_bucket: Option<TokenBucket>,
    sliding_window: Option<SlidingWindow>,
}

impl RateLimiterMiddleware {
    /// The limiter's settings.
    pub closed spec fn config_spec(&self) -> RateLimitConfig {
        self.config
    }

    /// Its token bucket, when it keeps one.
    pub closed spec fn bucket_spec(&self) -> Option<TokenBucket> {
        self.token_bucket
    }

    /// Its sliding window, when it keeps one.
    pub closed spec fn window_spec(&self) -> Option<SlidingWindow> {
        self.sliding_window
    }

    /// A limiter with these settings: a token bucket of `burst` tokens
    /// refilled at `limit` per `window`, or a sliding window of `limit`
    /// requests per `window`, as the strategy says.
    pub fn new(config: RateLimitConfig) -> (m: Self)
        ensures
            m.config_spec() == config,
            match config.strategy {
                RateLimitStrategy::TokenBucket => {
                    &&& m.window_spec() is None
                    &&& m.bucket_spec() matches Some(b) && b.capacity_spec() == config.burst
                        && b.refill_tokens_spec() == config.limit && b.refill_period_spec()
                        == window_millis(config.window) && b.states().dom().is_empty()
                },
                RateLimitStrategy::SlidingWindow => {
                    &&& m.bucket_spec() is None
                    &&& m.window_spec() matches Some(w) && w.limit_spec() == config.limit
                        && w.window_spec() == config.window && w.entries().dom().is_empty()
                },
            },
    {
        let millis = config.window.as_millis();
        let window_ms: u64 = millis as u64;
        let token_bucket = match config.strategy {
            RateLimitStrategy::TokenBucket => Some(TokenBucket::new(config.burst, config.limit, window_ms)),
            _ => None,
        };
        let sliding_window = match config.strategy {
            RateLimitStrategy::SlidingWindow => Some(SlidingWindow::new(config.limit, config.window)),
            _ => None,
        };
        RateLimiterMiddleware { config, token_bucket, sliding_window }
    }

    /// The middleware's name.
    pub fn name(&self) -> (n: &'static str)
        ensures
            n@ == "rate_limiter"@,
    {
        proof {
            reveal_strlit("rate_limiter");
        }
        "rate_limiter"
    }

    /// Its place in the chain: limiters run early.
    pub fn priority(&self) -> (p: i32)
        ensures
            p == 100,
    {
        100
    }

    /// The header a request's key is read from, when the extractor names one.
    pub fn key_header(&self) -> (h: Option<&String>)
        ensures
            match self.config_spec().key_extractor {
                KeyExtractor::Header(name) => h == Some(&name),
                KeyExtractor::ApiKey(name) => h == Some(&name),
                _ => h is None,
            },
    {
        match &self.config.key_extractor {
            KeyExtractor::Header(name) => Some(name),
            KeyExtractor::ApiKey(name) => Some(name),
            _ => None,
        }
    }

    /// The key a request is counted under, as `key_spec` says: `header` is
    /// the value of the header `key_header` names, when the request has it
    /// and it reads as text.
    pub fn extract_key(&self, client_ip: &str, header: Option<&str>, path: &str) -> (k: String)
        ensures
            k@ == key_spec(
                self.config_spec().key_extractor,
                client_ip@,
                match header {
                    Some(v) => Some(v@),
                    None => None,
                },
                path@,
            ),
    {
        proof {
            reveal_strlit("unknown");
            reveal_strlit("anonymous");
            reveal_strlit(":");
        }
        match &self.config.key_extractor {
            KeyExtractor::Ip => String::from_str(client_ip),
            KeyExtractor::Header(_) => match header {
                Some(v) => String::from_str(v),
                None => String::from_str("unknown"),
            },
            KeyExtractor::ApiKey(_) => match header {
                Some(v) => String::from_str(v),
                None => String::from_str("anonymous"),
            },
            KeyExtractor::Composite => String::from_str(client_ip).concat(":").concat(path),
        }
    }

    /// What a request counted under `key` at time `now` does: the decision
    /// `d`, and the limiter `after` it.
    pub open spec fn check_rel(&self, key: Seq<char>, now: u64, d: RateDecision, after: Self) -> bool {
        &&& after.config_spec() == self.config_spec()
        &&& match self.config_spec().strategy {
            RateLimitStrategy::TokenBucket => {
                &&& after.window_spec() == self.window_spec()
                &&& match self.bucket_spec() {
                    None => d == RateDecision::PassThrough && after.bucket_spec() is None,
                    Some(b) => {
                        let (st, (ok, rem)) = acquire_spec(
                            b.states().get(key),
                            b.capacity_spec(),
                            b.refill_tokens_spec(),
                            b.refill_period_spec(),
                            now,
                        );
                        &&& after.bucket_spec() matches Some(b2) && b2.capacity_spec()
                            == b.capacity_spec() && b2.refill_tokens_spec() == b.refill_tokens_spec()
                            && b2.refill_period_spec() == b.refill_period_spec() && b2.states()
                            == b.states().insert(key, st)
                        &&& d == (if ok {
                            RateDecision::Allow { limit: self.config_spec().burst, remaining: rem }
                        } else {
                            RateDecision::Reject {
                                limit: self.config_spec().limit,
                                remaining: rem,
                                retry_after_secs: None,
                            }
                        })
                    },
                }
            },
            RateLimitStrategy::SlidingWindow => {
                &&& after.bucket_spec() == self.bucket_spec()
                &&& match self.window_spec() {
                    None => d == RateDecision::PassThrough && after.window_spec() is None,
                    Some(w) => {
                        let (ts, (ok, rem, retry)) = window_spec(
                            w.entries().get(key),
                            w.limit_spec(),
                            window_millis(w.window_spec()),
                            now,
                        );
                        &&& after.window_spec() matches Some(w2) && w2.limit_spec()
                            == w.limit_spec() && w2.window_spec() == w.window_spec()
                            && w2.entries() == w.entries().insert(key, ts)
                        &&& d == (if ok {
                            RateDecision::Allow { limit: self.config_spec().limit, remaining: rem }
                        } else {
                            RateDecision::Reject {
                                limit: self.config_spec().limit,
                                remaining: rem,
                                retry_after_secs: match retry {
                                    Some(ms) => Some(secs_rounded_up(ms)),
                                    None => None,
                                },
                            }
                        })
                    },
                }
            },
        }
    }

    /// Counts a request under `key` at time `now` (milliseconds) and decides:
    /// with a token bucket, let through with its `burst` and the tokens left,
    /// or refused with the configured limit and nothing left; with a sliding
    /// window, let through with the limit and the requests left, or refused
    /// with the seconds to wait, rounded up.
    pub fn check_at(&mut self, key: &str, now: u64) -> (d: RateDecision)
        ensures
            old(self).check_rel(key@, now, d, *final(self)),
    {
        match self.config.strategy {
            RateLimitStrategy::TokenBucket => match &mut self.token_bucket {
                Some(b) => {
                    let (ok, rem) = b.try_acquire_at(key, now);
                    if ok {
                        RateDecision::Allow { limit: self.config.burst, remaining: rem }
                    } else {
                        RateDecision::Reject { limit: self.config.limit, remaining: rem, retry_after_secs: None }
                    }
                },
                None => RateDecision::PassThrough,
            },
            RateLimitStrategy::SlidingWindow => match &mut self.sliding_window {
                Some(w) => {
                    let (ok, rem, retry) = w.try_acquire_at(key, now);
                    if ok {
                        RateDecision::Allow { limit: self.config.limit, remaining: rem }
                    } else {
                        let secs = match retry {
                            Some(ms) => Some(retry_after_secs(ms)),
                            None => None,
                        };
                        RateDecision::Reject { limit: self.config.limit, remaining: rem, retry_after_secs: secs }
                    }
                },
                None => RateDecision::PassThrough,
            },
        }
    }

    /// Counts a request under `key` at the current time: for some reading
    /// `now` of the clock, what `check_at` does at `now`.
    pub fn check(&mut self, key: &str) -> (d: RateDecision)
        ensures
            exists|now: u64| #[trigger] old(self).check_rel(key@, now, d, *final(self)),
    {
        let now = now_millis();
        self.check_at(key, now)
    }
}

} // verus!
