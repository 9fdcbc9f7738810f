//! The metrics middleware: counts every request that goes through the
//! chain, how long it took and whether it failed.

use vstd::prelude::*;
use vstd::multiset::Multiset;
use crate::metrics::{
    GatewayMetrics, LATENCY_HIGHEST_US, counts_after, hist_counts, hist_len, route_recorded, sat_inc, wrap_inc,
};

verus! {

/// Whether an answer counts as an error: a client or server error status
/// (4xx or 5xx), or no answer at all (`None`, the chain failed).
pub open spec fn response_is_error(status: Option<u16>) -> bool {
    match status {
        Some(s) => 400 <= s <= 599,
        None => true,
    }
}

/// Whether an answer counts as an error, as `response_is_error` says.
pub fn is_error_response(status: Option<u16>) -> (b: bool)
    ensures
        b == response_is_error(status),
{
    match status {
        Some(s) => 400 <= s && s <= 599,
        None => true,
    }
}

/// The metrics middleware, with the counters it keeps.
pub struct MetricsMiddleware {
    pub metrics: GatewayMetrics,
}

impl MetricsMiddleware {
    /// The middleware, keeping `metrics`.
    pub fn new(metrics: GatewayMetrics) -> (m: Self)
        ensures
            m.metrics == metrics,
    {
        MetricsMiddleware { metrics }
    }

    /// The middleware's name.
    pub fn name(&self) -> (n: &'static str)
        ensures
            n@ == "MetricsMiddleware"@,
    {
        proof {
            reveal_strlit("MetricsMiddleware");
        }
        "MetricsMiddleware"
    }

    /// Its place in the chain: first, so that it times everything.
    pub fn priority(&self) -> (p: i32)
        ensures
            p == 1000,
    {
        1000
    }

    /// A request enters the chain: one more in flight (wrapping).
    pub fn begin(&mut self)
        ensures
            final(self).metrics.active_requests == wrap_inc(old(self).metrics.active_requests),
            final(self).metrics.total_requests == old(self).metrics.total_requests,
            final(self).metrics.total_errors == old(self).metrics.total_errors,
            final(self).metrics.routes_spec() == old(self).metrics.routes_spec(),
            final(self).metrics.backends_spec() == old(self).metrics.backends_spec(),
    {
        self.metrics.request_started();
    }

    /// A request to `path` leaves the chain after `latency_us` microseconds
    /// with answer `status`: one fewer in flight (wrapping), and the request
    /// is counted at the gateway and at its route, as an error when
    /// `response_is_error` says so.  No backend is counted here.
    pub fn finish(&mut self, path: &str, latency_us: u64, status: Option<u16>)
        ensures
            final(self).metrics.active_requests == (if old(self).metrics.active_requests == 0 {
                u64::MAX
            } else {
                (old(self).metrics.active_requests - 1) as u64
            }),
            final(self).metrics.total_requests == wrap_inc(old(self).metrics.total_requests),
            final(self).metrics.total_errors == (if response_is_error(status) {
                wrap_inc(old(self).metrics.total_errors)
            } else {
                old(self).metrics.total_errors
            }),
            final(self).metrics.routes_spec().contains_key(path@),
            final(self).metrics.routes_spec().remove(path@) == old(self).metrics.routes_spec().remove(path@),
            route_recorded(
                old(self).metrics.routes_spec().get(path@),
                final(self).metrics.routes_spec()[path@],
                response_is_error(status),
            ),
            final(self).metrics.backends_spec() == old(self).metrics.backends_spec(),
            latency_us <= LATENCY_HIGHEST_US ==> hist_len(final(self).metrics.global_latency) == sat_inc(
                hist_len(old(self).metrics.global_latency),
            ),
            latency_us <= LATENCY_HIGHEST_US ==> hist_counts(final(self).metrics.global_latency)
                == counts_after(hist_counts(old(self).metrics.global_latency), latency_us),
            latency_us <= LATENCY_HIGHEST_US ==> hist_counts(final(self).metrics.routes_spec()[path@].latency)
                == counts_after(
                match old(self).metrics.routes_spec().get(path@) {
                    Some(o) => hist_counts(o.latency),
                    None => Multiset::empty(),
                },
                latency_us,
            ),
    {
        self.metrics.request_finished();
        let is_error = is_error_response(status);
        self.metrics.record_request(path, None, latency_us, is_error);
    }
}

} // verus!
