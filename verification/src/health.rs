//! Passive health tracking of one backend: consecutive successes and failures
//! move it between healthy and unhealthy; draining takes it out of rotation.

use vstd::prelude::*;
use vstd::string::StringExecFns;
use crate::time::Duration;

verus! {

/// Where a backend stands.
#[derive(Clone, Copy, Debug, PartialEq, Eq, Structural)]
pub enum HealthState {
    Healthy,
    Unhealthy,
    Draining,
}

/// Settings of health tracking.
#[derive(Debug, Clone)]
pub struct HealthConfig {
    pub path: String,
    pub interval: Duration,
    pub timeout: Duration,
    /// Consecutive successes that bring an unhealthy backend back.
    pub healthy_threshold: u8,
    /// Consecutive failures that take a healthy backend out.
    pub unhealthy_threshold: u8,
}

impl HealthConfig {
    /// A copy of the settings.
    pub fn duplicate(&self) -> (c: HealthConfig)
        ensures
            c == *self,
    {
        HealthConfig {
            path: self.path.clone(),
            interval: self.interval,
            timeout: self.timeout,
            healthy_threshold: self.healthy_threshold,
            unhealthy_threshold: self.unhealthy_threshold,
        }
    }
}

impl Default for HealthConfig {
    fn default() -> (c: Self)
        ensures
            c.path@ == "/health"@,
            c.interval@ == 10_000_000_000,
            c.timeout@ == 2_000_000_000,
            c.healthy_threshold == 2,
            c.unhealthy_threshold == 3,
    {
        HealthConfig {
            path: String::from_str("/health"),
            interval: Duration::from_secs(10),
            timeout: Duration::from_secs(2),
            healthy_threshold: 2,
            unhealthy_threshold: 3,
        }
    }
}

/// The state of a backend's health tracker: where it stands and its two
/// streak counters.
#[derive(Clone, Copy, Debug, PartialEq, Eq, Structural)]
pub struct HealthView {
    pub state: HealthState,
    pub successes: u8,
    pub failures: u8,
}

/// The tracker after one successful request.  The success streak counts up
/// (wrapping past 255) and the failure streak ends; an unhealthy backend whose
/// streak reaches `healthy_threshold` becomes healthy with a fresh streak.  A
/// draining backend is left as it is.
pub open spec fn success_step(v: HealthView, healthy_threshold: u8) -> HealthView {
    if v.state == HealthState::Draining {
        v
    } else {
        let s = ((v.successes + 1) % 256) as u8;
        if v.state == HealthState::Unhealthy && s >= healthy_threshold {
            HealthView { state: HealthState::Healthy, successes: 0, failures: 0 }
        } else {
            HealthView { state: v.state, successes: s, failures: 0 }
        }
    }
}

/// The tracker after one failed request; the mirror image of `success_step`.
pub open spec fn failure_step(v: HealthView, unhealthy_threshold: u8) -> HealthView {
    if v.state == HealthState::Draining {
        v
    } else {
        let f = ((v.failures + 1) % 256) as u8;
        if v.state == HealthState::Healthy && f >= unhealthy_threshold {
            HealthView { state: HealthState::Unhealthy, successes: 0, failures: 0 }
        } else {
            HealthView { state: v.state, successes: 0, failures: f }
        }
    }
}

/// The tracker after `n` failed requests in a row.
pub open spec fn failures_in_a_row(v: HealthView, unhealthy_threshold: u8, n: nat) -> HealthView
    decreases n,
{
    if n == 0 {
        v
    } else {
        failure_step(failures_in_a_row(v, unhealthy_threshold, (n - 1) as nat), unhealthy_threshold)
    }
}

/// The tracker after `n` successful requests in a row.
pub open spec fn successes_in_a_row(v: HealthView, healthy_threshold: u8, n: nat) -> HealthView
    decreases n,
{
    if n == 0 {
        v
    } else {
        success_step(successes_in_a_row(v, healthy_threshold, (n - 1) as nat), healthy_threshold)
    }
}

/// Health tracker of one backend.
#[derive(Debug)]
pub struct BackendHealth {
    state: HealthState,
    consecutive_successes: u8,
    consecutive_failures: u8,
    pub config: HealthConfig,
}

impl View for BackendHealth {
    type V = HealthView;

    closed spec fn view(&self) -> HealthView {
        HealthView {
            state: self.state,
            successes: self.consecutive_successes,
            failures: self.consecutive_failures,
        }
    }
}

impl BackendHealth {
    /// The settings the tracker was made with.
    pub closed spec fn config_spec(&self) -> HealthConfig {
        self.config
    }

    /// A healthy tracker with no streak.
    pub fn new(config: HealthConfig) -> (h: Self)
        ensures
            h@ == (HealthView { state: HealthState::Healthy, successes: 0, failures: 0 }),
            h.config_spec() == config,
    {
        BackendHealth {
            state: HealthState::Healthy,
            consecutive_successes: 0,
            consecutive_failures: 0,
            config,
        }
    }

    /// A copy of the tracker.
    pub fn duplicate(&self) -> (h: BackendHealth)
        ensures
            h@ == self@,
            h.config_spec() == self.config_spec(),
    {
        BackendHealth {
            state: self.state,
            consecutive_successes: self.consecutive_successes,
            consecutive_failures: self.consecutive_failures,
            config: self.config.duplicate(),
        }
    }

    pub fn is_healthy(&self) -> (b: bool)
        ensures
            b == (self@.state == HealthState::Healthy),
    {
        self.state == HealthState::Healthy
    }

    pub fn is_draining(&self) -> (b: bool)
        ensures
            b == (self@.state == HealthState::Draining),
    {
        self.state == HealthState::Draining
    }

    /// Takes the backend out of rotation for good; the streaks are kept.
    pub fn set_draining(&mut self)
        ensures
            final(self)@ == (HealthView { state: HealthState::Draining, ..old(self)@ }),
            final(self).config_spec() == old(self).config_spec(),
    {
        self.state = HealthState::Draining;
    }

    /// Records a successful request.
    pub fn record_success(&mut self)
        ensures
            final(self)@ == success_step(old(self)@, old(self).config_spec().healthy_threshold),
            final(self).config_spec() == old(self).config_spec(),
    {
        if self.is_draining() {
            return;
        }
        let successes = self.consecutive_successes.wrapping_add(1);
        self.consecutive_successes = successes;
        self.consecutive_failures = 0;
        if self.state == HealthState::Unhealthy && successes >= self.config.healthy_threshold {
            self.state = HealthState::Healthy;
            self.consecutive_successes = 0;
        }
    }

    /// Records a failed request.
    pub fn record_failure(&mut self)
        ensures
            final(self)@ == failure_step(old(self)@, old(self).config_spec().unhealthy_threshold),
            final(self).config_spec() == old(self).config_spec(),
    {
        if self.is_draining() {
            return;
        }
        let failures = self.consecutive_failures.wrapping_add(1);
        self.consecutive_failures = failures;
        self.consecutive_successes = 0;
        if self.state == HealthState::Healthy && failures >= self.config.unhealthy_threshold {
            self.state = HealthState::Unhealthy;
            self.consecutive_failures = 0;
        }
    }
}

/// A draining backend stays draining, whatever is recorded for it.
pub proof fn law_draining_is_final(v: HealthView, healthy_threshold: u8, unhealthy_threshold: u8)
    requires
        v.state == HealthState::Draining,
    ensures
        success_step(v, healthy_threshold) == v,
        failure_step(v, unhealthy_threshold) == v,
{
}

/// From a healthy tracker with no failure streak, fewer than
/// `unhealthy_threshold` failures in a row keep it healthy, and exactly
/// `unhealthy_threshold` failures in a row make it unhealthy.
pub proof fn law_failures_trip_health(v: HealthView, unhealthy_threshold: u8, n: nat)
    requires
        v.state == HealthState::Healthy,
        v.failures == 0,
        1 <= unhealthy_threshold,
        n <= unhealthy_threshold,
    ensures
        n < unhealthy_threshold ==> failures_in_a_row(v, unhealthy_threshold, n) == (HealthView {
            state: HealthState::Healthy,
            successes: if n == 0 { v.successes } else { 0 },
            failures: n as u8,
        }),
        n == unhealthy_threshold ==> failures_in_a_row(v, unhealthy_threshold, n) == (HealthView {
            state: HealthState::Unhealthy,
            successes: 0,
            failures: 0,
        }),
    decreases n,
{
    if n > 0 {
        law_failures_trip_health(v, unhealthy_threshold, (n - 1) as nat);
    }
}

/// From an unhealthy tracker with no success streak, fewer than
/// `healthy_threshold` successes in a row keep it unhealthy, and exactly
/// `healthy_threshold` successes in a row make it healthy again.
pub proof fn law_successes_restore_health(v: HealthView, healthy_threshold: u8, n: nat)
    requires
        v.state == HealthState::Unhealthy,
        v.successes == 0,
        1 <= healthy_threshold,
        n <= healthy_threshold,
    ensures
        n < healthy_threshold ==> successes_in_a_row(v, healthy_threshold, n) == (HealthView {
            state: HealthState::Unhealthy,
            successes: n as u8,
            failures: if n == 0 { v.failures } else { 0 },
        }),
        n == healthy_threshold ==> successes_in_a_row(v, healthy_threshold, n) == (HealthView {
            state: HealthState::Healthy,
            successes: 0,
            failures: 0,
        }),
    decreases n,
{
    if n > 0 {
        law_successes_restore_health(v, healthy_threshold, (n - 1) as nat);
    }
}


/// A success on a backend that is not draining ends its failure streak, so
/// failures count only while consecutive: right after a success a healthy
/// backend holds one failure, and with a threshold above one it stays in
/// rotation.
pub proof fn law_success_ends_failure_streak(v: HealthView, healthy_threshold: u8, unhealthy_threshold: u8)
    requires
        v.state != HealthState::Draining,
    ensures
        success_step(v, healthy_threshold).failures == 0,
        v.state == HealthState::Healthy ==> failure_step(success_step(v, healthy_threshold), unhealthy_threshold).failures
            == (if unhealthy_threshold > 1 { 1u8 } else { 0u8 }),
        v.state == HealthState::Healthy && unhealthy_threshold > 1 ==> failure_step(
            success_step(v, healthy_threshold),
            unhealthy_threshold,
        ).state == HealthState::Healthy,
{
}

} // verus!
