//! The decisions of the operators' chat bot: who may talk to it, and when
//! its alert engine raises an alert.

use vstd::prelude::*;
use crate::clock::now_millis;

verus! {

/// The commands the bot answers.
#[derive(Clone, Debug, PartialEq, Eq)]
pub enum Command {
    Help,
    Status,
    Stats,
    Backends,
    Health(String),
    TopRoutes,
    Toggle(String),
    Reload,
    CacheStats,
    CacheClear,
}

/// Whether the chat `chat_id` may use the bot: any chat when no
/// administrator's chat is configured, else only those chats.
pub fn is_authorized(admin_chat_ids: &Vec<i64>, chat_id: i64) -> (ok: bool)
    ensures
        ok == (admin_chat_ids@.len() == 0 || admin_chat_ids@.contains(chat_id)),
{
    if admin_chat_ids.len() == 0 {
        return true;
    }
    let mut i: usize = 0;
    while i < admin_chat_ids.len()
        invariant
            i <= admin_chat_ids@.len(),
            forall|k: int| 0 <= k < i ==> admin_chat_ids@[k] != chat_id,
        decreases admin_chat_ids@.len() - i,
    {
        if admin_chat_ids[i] == chat_id {
            proof {
                assert(admin_chat_ids@[i as int] == chat_id);
            }
            return true;
        }
        i = i + 1;
    }
    false
}

/// The requests that did not fail: all of them but the errors, and none
/// when the errors outnumber them.
pub fn success_count(requests: u64, errors: u64) -> (n: u64)
    ensures
        n == (if errors <= requests {
            requests - errors
        } else {
            0
        }),
{
    requests.saturating_sub(errors)
}

/// Requests below which no error rate is judged.
pub const ALERT_MIN_REQUESTS: u64 = 100;

/// The time, in milliseconds, before the same alert may be raised again.
pub const ALERT_COOLDOWN_MS: u64 = 300_000;

/// The 99th percentile of latency, in microseconds, above which latency is
/// judged too high.
pub const ALERT_P99_LIMIT_US: u64 = 1_000_000;

/// Whether the error rate calls for an alert: more than `ALERT_MIN_REQUESTS`
/// requests, of which more than a tenth failed.
pub open spec fn error_rate_high(requests: u64, errors: u64) -> bool {
    requests > ALERT_MIN_REQUESTS && errors * 10 > requests
}

/// Whether latency calls for an alert: a 99th percentile above
/// `ALERT_P99_LIMIT_US`.
pub open spec fn latency_high(p99_us: u64) -> bool {
    p99_us > ALERT_P99_LIMIT_US
}

/// Whether an alert last raised at `last` may be raised again at `now`:
/// never raised, or more than `ALERT_COOLDOWN_MS` ago.
pub open spec fn cooled_down(last: Option<u64>, now: u64) -> bool {
    match last {
        None => true,
        Some(t) => now >= t && now - t > ALERT_COOLDOWN_MS,
    }
}

/// One look at a condition: whether its alert is raised, and when it was
/// then last raised.
pub open spec fn alert_step(last: Option<u64>, now: u64, condition: bool) -> (bool, Option<u64>) {
    if condition && cooled_down(last, now) {
        (true, Some(now))
    } else {
        (false, last)
    }
}

/// The alerts of one look at the metrics.
#[derive(Clone, Copy, Debug, PartialEq, Eq, Structural)]
pub struct AlertDecision {
    pub high_error_rate: bool,
    pub high_latency: bool,
}

/// When each alert was last raised, in milliseconds.
pub struct AlertEngine {
    last_error_alert: Option<u64>,
    last_latency_alert: Option<u64>,
}

impl AlertEngine {
    /// When the error-rate alert was last raised.
    pub closed spec fn last_error(&self) -> Option<u64> {
        self.last_error_alert
    }

    /// When the latency alert was last raised.
    pub closed spec fn last_latency(&self) -> Option<u64> {
        self.last_latency_alert
    }

    /// An engine that has raised no alert.
    pub fn new() -> (e: Self)
        ensures
            e.last_error() is None,
            e.last_latency() is None,
    {
        AlertEngine { last_error_alert: None, last_latency_alert: None }
    }

    /// One look at the metrics at time `now` (milliseconds): each alert is
    /// raised, as `alert_step` says, when its condition holds and it has
    /// cooled down, and its time is then `now`.
    pub fn evaluate_at(&mut self, now: u64, requests: u64, errors: u64, p99_us: u64) -> (d: AlertDecision)
        ensures
            (d.high_error_rate, final(self).last_error()) == alert_step(
                old(self).last_error(),
                now,
                error_rate_high(requests, errors),
            ),
            (d.high_latency, final(self).last_latency()) == alert_step(
                old(self).last_latency(),
                now,
                latency_high(p99_us),
            ),
    {
        let high_rate = requests > ALERT_MIN_REQUESTS && (errors as u128) * 10 > requests as u128;
        let rate_alert = high_rate && Self::may_alert(self.last_error_alert, now);
        if rate_alert {
            self.last_error_alert = Some(now);
        }
        let latency_alert = p99_us > ALERT_P99_LIMIT_US && Self::may_alert(self.last_latency_alert, now);
        if latency_alert {
            self.last_latency_alert = Some(now);
        }
        AlertDecision { high_error_rate: rate_alert, high_latency: latency_alert }
    }

    /// One look at the metrics now, by the wall clock (see `evaluate_at`).
    pub fn evaluate(&mut self, requests: u64, errors: u64, p99_us: u64) -> (d: AlertDecision)
        ensures
            exists|now: u64|
                {
                    &&& (d.high_error_rate, final(self).last_error()) == #[trigger] alert_step(
                        old(self).last_error(),
                        now,
                        error_rate_high(requests, errors),
                    )
                    &&& (d.high_latency, final(self).last_latency()) == alert_step(
                        old(self).last_latency(),
                        now,
                        latency_high(p99_us),
                    )
                },
    {
        let now = now_millis();
        let d = self.evaluate_at(now, requests, errors, p99_us);
        proof {
            assert(alert_step(old(self).last_error(), now, error_rate_high(requests, errors)) == (
            d.high_error_rate, self.last_error()));
        }
        d
    }

    /// Whether an alert last raised at `last` may be raised at `now`, as
    /// `cooled_down` says.
    fn may_alert(last: Option<u64>, now: u64) -> (b: bool)
        ensures
            b == cooled_down(last, now),
    {
        match last {
            None => true,
            Some(t) => now >= t && now - t > ALERT_COOLDOWN_MS,
        }
    }
}

/// Once an alert is raised at `t`, it is not raised again at any time up to
/// `ALERT_COOLDOWN_MS` later, whatever the metrics say.
pub proof fn law_alert_cooldown(t: u64, now: u64, condition: bool)
    requires
        t <= now <= t + ALERT_COOLDOWN_MS,
    ensures
        alert_step(Some(t), now, condition) == (false, Some(t)),
{
}

/// An alert whose condition holds is raised when it was never raised, or
/// when the cooldown has passed since it last was.
pub proof fn law_alert_raised_after_cooldown(last: Option<u64>, now: u64)
    requires
        match last {
            None => true,
            Some(t) => t + ALERT_COOLDOWN_MS < now,
        },
    ensures
        alert_step(last, now, true) == (true, Some(now)),
{
}

} // verus!
