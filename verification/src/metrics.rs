//! Gateway counters: totals, per route and per backend, with latency
//! histograms kept by `hdrhistogram`.

use vstd::prelude::*;
use vstd::multiset::Multiset;
use vstd::string::StringExecFns;
use dashmap::DashMap;
use hdrhistogram::Histogram;

verus! {

/// A latency histogram (microseconds, from 1 to `LATENCY_HIGHEST_US`, three
/// significant figures), held in an `hdrhistogram::Histogram`.
#[verifier::external_body]
#[derive(Debug)]
pub struct LatencyHistogram {
    pub inner: Histogram<u64>,
}

/// The highest latency, in microseconds, the histograms are made to track.
pub const LATENCY_HIGHEST_US: u64 = 60_000_000_000;

/// What a histogram holds: each bucket (named by the lowest value it
/// stands for) as many times as samples fell in it.
pub uninterp spec fn hist_counts(h: LatencyHistogram) -> Multiset<u64>;

/// The bucket a sample of `value` falls in, named by the lowest value it
/// stands for (`Histogram::lowest_equivalent` for the gateway's bounds: 1
/// to `LATENCY_HIGHEST_US`, three significant figures).
pub uninterp spec fn hist_bucket(value: u64) -> u64;

/// `counts` with one more sample in `value`'s bucket, where that bucket's
/// count has room (a full bucket stays as it is).
pub open spec fn counts_after(counts: Multiset<u64>, value: u64) -> Multiset<u64> {
    if counts.count(hist_bucket(value)) < u64::MAX {
        counts.insert(hist_bucket(value))
    } else {
        counts
    }
}

/// The number of samples a histogram holds (`Histogram::len`).
pub uninterp spec fn hist_len(h: LatencyHistogram) -> u64;

/// `a + 1`, staying at `u64::MAX`.
pub open spec fn sat_inc(a: u64) -> u64 {
    if a == u64::MAX {
        a
    } else {
        (a + 1) as u64
    }
}

/// `a + 1`, wrapping past `u64::MAX`.
pub open spec fn wrap_inc(a: u64) -> u64 {
    if a == u64::MAX {
        0
    } else {
        (a + 1) as u64
    }
}

impl LatencyHistogram {
    /// `Histogram::new_with_bounds(1, 60_000_000_000, 3)`: an empty
    /// histogram (those bounds are always accepted).
    #[verifier::external_body]
    pub fn new() -> (h: Self)
        ensures
            hist_len(h) == 0,
            hist_counts(h) == Multiset::<u64>::empty(),
    {
        LatencyHistogram { inner: Histogram::<u64>::new_with_bounds(1, LATENCY_HIGHEST_US, 3).unwrap() }
    }

    /// `Histogram::record`: whether the sample was taken; a sample taken
    /// counts one more in its bucket and in all (each staying at
    /// `u64::MAX`), a sample not taken changes nothing.  Every value up to the
    /// highest the histogram was made to track is taken (its counts are sized
    /// to cover that value); a value above it may not be.
    #[verifier::external_body]
    pub fn record(&mut self, value: u64) -> (ok: bool)
        ensures
            value <= LATENCY_HIGHEST_US ==> ok,
            ok ==> hist_len(*final(self)) == sat_inc(hist_len(*old(self))),
            ok && hist_counts(*old(self)).count(hist_bucket(value)) < u64::MAX ==> hist_counts(*final(self))
                == hist_counts(*old(self)).insert(hist_bucket(value)),
            ok && hist_counts(*old(self)).count(hist_bucket(value)) >= u64::MAX ==> hist_counts(*final(self))
                == hist_counts(*old(self)),
            !ok ==> hist_len(*final(self)) == hist_len(*old(self)),
            !ok ==> hist_counts(*final(self)) == hist_counts(*old(self)),
    {
        self.inner.record(value).is_ok()
    }

    /// `Histogram::len`: the number of samples.
    #[verifier::external_body]
    pub fn len(&self) -> (n: u64)
        ensures
            n == hist_len(*self),
    {
        self.inner.len()
    }
}

/// The counters of one route.
#[derive(Debug)]
pub struct RouteMetrics {
    pub total_requests: u64,
    pub total_errors: u64,
    pub latency: LatencyHistogram,
}

/// The counters of one backend.
#[derive(Debug)]
pub struct BackendMetrics {
    pub active_connections: u64,
    pub total_requests: u64,
    pub total_errors: u64,
    pub latency: LatencyHistogram,
}

/// What a route map holds.
pub uninterp spec fn route_map(m: DashMap<String, RouteMetrics>) -> Map<Seq<char>, RouteMetrics>;

/// What a backend map holds.
pub uninterp spec fn backend_map(m: DashMap<String, BackendMetrics>) -> Map<Seq<char>, BackendMetrics>;

/// `DashMap::new`, for routes: an empty map.
#[verifier::external_body]
fn new_route_map() -> (map: DashMap<String, RouteMetrics>)
    ensures
        route_map(map).dom() == Set::<Seq<char>>::empty(),
{
    DashMap::new()
}

/// `DashMap::remove`, for routes: takes the route's counters out, if any.
#[verifier::external_body]
fn route_take(m: &mut DashMap<String, RouteMetrics>, key: &str) -> (r: Option<RouteMetrics>)
    ensures
        route_map(*final(m)) == route_map(*old(m)).remove(key@),
        r == route_map(*old(m)).get(key@),
{
    m.remove(key).map(|(_, v)| v)
}

/// `DashMap::insert`, for routes: the route now maps to `v`.
#[verifier::external_body]
fn route_put(m: &mut DashMap<String, RouteMetrics>, key: String, v: RouteMetrics)
    ensures
        route_map(*final(m)) == route_map(*old(m)).insert(key@, v),
{
    m.insert(key, v);
}

/// `DashMap::new`, for backends: an empty map.
#[verifier::external_body]
fn new_backend_map() -> (map: DashMap<String, BackendMetrics>)
    ensures
        backend_map(map).dom() == Set::<Seq<char>>::empty(),
{
    DashMap::new()
}

/// `DashMap::remove`, for backends: takes the backend's counters out, if any.
#[verifier::external_body]
fn backend_take(m: &mut DashMap<String, BackendMetrics>, key: &str) -> (r: Option<BackendMetrics>)
    ensures
        backend_map(*final(m)) == backend_map(*old(m)).remove(key@),
        r == backend_map(*old(m)).get(key@),
{
    m.remove(key).map(|(_, v)| v)
}

/// `DashMap::insert`, for backends: the backend now maps to `v`.
#[verifier::external_body]
fn backend_put(m: &mut DashMap<String, BackendMetrics>, key: String, v: BackendMetrics)
    ensures
        backend_map(*final(m)) == backend_map(*old(m)).insert(key@, v),
{
    m.insert(key, v);
}

/// The gateway's counters.
pub struct GatewayMetrics {
    pub total_requests: u64,
    pub active_requests: u64,
    pub total_errors: u64,
    pub bytes_in: u64,
    pub bytes_out: u64,
    pub routes: DashMap<String, RouteMetrics>,
    pub backends: DashMap<String, BackendMetrics>,
    pub global_latency: LatencyHistogram,
}

impl Default for GatewayMetrics {
    fn default() -> (m: Self)
        ensures
            m.total_requests == 0,
            m.active_requests == 0,
            m.total_errors == 0,
            m.bytes_in == 0,
            m.bytes_out == 0,
            m.routes_spec().dom() == Set::<Seq<char>>::empty(),
            m.backends_spec().dom() == Set::<Seq<char>>::empty(),
            hist_len(m.global_latency) == 0,
    {
        GatewayMetrics {
            total_requests: 0,
            active_requests: 0,
            total_errors: 0,
            bytes_in: 0,
            bytes_out: 0,
            routes: new_route_map(),
            backends: new_backend_map(),
            global_latency: LatencyHistogram::new(),
        }
    }
}

/// Whether `r` is a route's counters after one more request at
/// `old_r` (fresh counters when `old_r` is `None`).
pub open spec fn route_recorded(old_r: Option<RouteMetrics>, r: RouteMetrics, is_error: bool) -> bool {
    let (req, err) = match old_r {
        Some(o) => (o.total_requests, o.total_errors),
        None => (0u64, 0u64),
    };
    &&& r.total_requests == wrap_inc(req)
    &&& r.total_errors == (if is_error {
        wrap_inc(err)
    } else {
        err
    })
}

/// Whether `b` is a backend's counters after one more request at
/// `old_b` (fresh counters when `old_b` is `None`).
pub open spec fn backend_recorded(old_b: Option<BackendMetrics>, b: BackendMetrics, is_error: bool) -> bool {
    let (req, err, active) = match old_b {
        Some(o) => (o.total_requests, o.total_errors, o.active_connections),
        None => (0u64, 0u64, 0u64),
    };
    &&& b.total_requests == wrap_inc(req)
    &&& b.total_errors == (if is_error {
        wrap_inc(err)
    } else {
        err
    })
    &&& b.active_connections == active
}

impl GatewayMetrics {
    /// Each route's counters.
    pub closed spec fn routes_spec(&self) -> Map<Seq<char>, RouteMetrics> {
        route_map(self.routes)
    }

    /// Each backend's counters.
    pub closed spec fn backends_spec(&self) -> Map<Seq<char>, BackendMetrics> {
        backend_map(self.backends)
    }

    /// Makes sure `path` has counters (fresh ones the first time), and gives
    /// back its request and error counts.
    pub fn get_or_create_route(&mut self, path: &str) -> (counts: (u64, u64))
        ensures
            counts == (final(self).routes_spec()[path@].total_requests, final(self).routes_spec()[path@].total_errors),
            final(self).routes_spec().contains_key(path@),
            old(self).routes_spec().contains_key(path@) ==> final(self).routes_spec() == old(self).routes_spec(),
            !old(self).routes_spec().contains_key(path@) ==> final(self).routes_spec().remove(path@)
                == old(self).routes_spec() && final(self).routes_spec()[path@].total_requests == 0
                && final(self).routes_spec()[path@].total_errors == 0 && hist_len(final(self).routes_spec()[path@].latency) == 0,
            final(self).backends_spec() == old(self).backends_spec(),
            final(self).total_requests == old(self).total_requests,
            final(self).total_errors == old(self).total_errors,
    {
        let r = match route_take(&mut self.routes, path) {
            Some(r) => r,
            None => RouteMetrics { total_requests: 0, total_errors: 0, latency: LatencyHistogram::new() },
        };
        let counts = (r.total_requests, r.total_errors);
        route_put(&mut self.routes, String::from_str(path), r);
        proof {
            assert(route_map(self.routes).remove(path@) =~= old(self).routes_spec().remove(path@));
            if old(self).routes_spec().contains_key(path@) {
                assert(route_map(self.routes) =~= old(self).routes_spec());
            }
        }
        counts
    }

    /// Makes sure `url` has counters (fresh ones the first time), and gives
    /// back its requests in flight, request count and error count.
    pub fn get_or_create_backend(&mut self, url: &str) -> (counts: (u64, u64, u64))
        ensures
            counts == (
                final(self).backends_spec()[url@].active_connections,
                final(self).backends_spec()[url@].total_requests,
                final(self).backends_spec()[url@].total_errors,
            ),
            final(self).backends_spec().contains_key(url@),
            old(self).backends_spec().contains_key(url@) ==> final(self).backends_spec() == old(self).backends_spec(),
            !old(self).backends_spec().contains_key(url@) ==> final(self).backends_spec().remove(url@)
                == old(self).backends_spec() && final(self).backends_spec()[url@].total_requests == 0
                && final(self).backends_spec()[url@].total_errors == 0
                && final(self).backends_spec()[url@].active_connections == 0 && hist_len(final(self).backends_spec()[url@].latency) == 0,
            final(self).routes_spec() == old(self).routes_spec(),
            final(self).total_requests == old(self).total_requests,
            final(self).total_errors == old(self).total_errors,
    {
        let b = match backend_take(&mut self.backends, url) {
            Some(b) => b,
            None => BackendMetrics {
                active_connections: 0,
                total_requests: 0,
                total_errors: 0,
                latency: LatencyHistogram::new(),
            },
        };
        let counts = (b.active_connections, b.total_requests, b.total_errors);
        backend_put(&mut self.backends, String::from_str(url), b);
        proof {
            assert(backend_map(self.backends).remove(url@) =~= old(self).backends_spec().remove(url@));
            if old(self).backends_spec().contains_key(url@) {
                assert(backend_map(self.backends) =~= old(self).backends_spec());
            }
        }
        counts
    }

    /// Counts a finished request to `route_path` (and to `backend_url`, when
    /// known) that took `latency_us` microseconds: the totals and the route's
    /// (and backend's) request counts go up by one, their error counts too
    /// when it failed (all wrapping); the latency goes into the global, the
    /// route's and the backend's histograms.  Other routes and backends are
    /// left alone.
    pub fn record_request(&mut self, route_path: &str, backend_url: Option<&str>, latency_us: u64, is_error: bool)
        ensures
            final(self).total_requests == wrap_inc(old(self).total_requests),
            final(self).total_errors == (if is_error {
                wrap_inc(old(self).total_errors)
            } else {
                old(self).total_errors
            }),
            final(self).active_requests == old(self).active_requests,
            final(self).bytes_in == old(self).bytes_in,
            final(self).bytes_out == old(self).bytes_out,
            final(self).routes_spec().contains_key(route_path@),
            final(self).routes_spec().remove(route_path@) == old(self).routes_spec().remove(route_path@),
            route_recorded(old(self).routes_spec().get(route_path@), final(self).routes_spec()[route_path@], is_error),
            latency_us <= LATENCY_HIGHEST_US ==> hist_len(final(self).global_latency) == sat_inc(
                hist_len(old(self).global_latency),
            ),
            latency_us <= LATENCY_HIGHEST_US ==> hist_counts(final(self).global_latency) == counts_after(
                hist_counts(old(self).global_latency),
                latency_us,
            ),
            latency_us <= LATENCY_HIGHEST_US ==> hist_counts(final(self).routes_spec()[route_path@].latency)
                == counts_after(
                match old(self).routes_spec().get(route_path@) {
                    Some(o) => hist_counts(o.latency),
                    None => Multiset::empty(),
                },
                latency_us,
            ),
            latency_us <= LATENCY_HIGHEST_US && backend_url is Some ==> hist_counts(
                final(self).backends_spec()[backend_url->0@].latency,
            ) == counts_after(
                match old(self).backends_spec().get(backend_url->0@) {
                    Some(o) => hist_counts(o.latency),
                    None => Multiset::empty(),
                },
                latency_us,
            ),
            latency_us <= LATENCY_HIGHEST_US ==> hist_len(final(self).routes_spec()[route_path@].latency)
                == sat_inc(
                match old(self).routes_spec().get(route_path@) {
                    Some(o) => hist_len(o.latency),
                    None => 0,
                },
            ),
            latency_us <= LATENCY_HIGHEST_US && backend_url is Some ==> hist_len(
                final(self).backends_spec()[backend_url->0@].latency,
            ) == sat_inc(
                match old(self).backends_spec().get(backend_url->0@) {
                    Some(o) => hist_len(o.latency),
                    None => 0,
                },
            ),
            match backend_url {
                Some(u) => {
                    &&& final(self).backends_spec().contains_key(u@)
                    &&& final(self).backends_spec().remove(u@) == old(self).backends_spec().remove(u@)
                    &&& backend_recorded(old(self).backends_spec().get(u@), final(self).backends_spec()[u@], is_error)
                },
                None => final(self).backends_spec() == old(self).backends_spec(),
            },
    {
        self.total_requests = self.total_requests.wrapping_add(1);
        let ghost old_routes = route_map(self.routes);
        let mut route = match route_take(&mut self.routes, route_path) {
            Some(r) => r,
            None => RouteMetrics { total_requests: 0, total_errors: 0, latency: LatencyHistogram::new() },
        };
        route.total_requests = route.total_requests.wrapping_add(1);
        let _ = self.global_latency.record(latency_us);
        let _ = route.latency.record(latency_us);
        if is_error {
            self.total_errors = self.total_errors.wrapping_add(1);
            route.total_errors = route.total_errors.wrapping_add(1);
        }
        route_put(&mut self.routes, String::from_str(route_path), route);
        proof {
            assert(route_map(self.routes).remove(route_path@) =~= old_routes.remove(route_path@));
        }
        match backend_url {
            Some(url) => {
                let ghost old_backends = backend_map(self.backends);
                let mut backend = match backend_take(&mut self.backends, url) {
                    Some(b) => b,
                    None => BackendMetrics {
                        active_connections: 0,
                        total_requests: 0,
                        total_errors: 0,
                        latency: LatencyHistogram::new(),
                    },
                };
                backend.total_requests = backend.total_requests.wrapping_add(1);
                let _ = backend.latency.record(latency_us);
                if is_error {
                    backend.total_errors = backend.total_errors.wrapping_add(1);
                }
                backend_put(&mut self.backends, String::from_str(url), backend);
                proof {
                    assert(backend_map(self.backends).remove(url@) =~= old_backends.remove(url@));
                }
            },
            None => {},
        }
    }

    /// A request starts: one more in flight (wrapping).
    pub fn request_started(&mut self)
        ensures
            final(self).active_requests == wrap_inc(old(self).active_requests),
            final(self).total_requests == old(self).total_requests,
            final(self).total_errors == old(self).total_errors,
            final(self).routes_spec() == old(self).routes_spec(),
            final(self).backends_spec() == old(self).backends_spec(),
            final(self).global_latency == old(self).global_latency,
    {
        self.active_requests = self.active_requests.wrapping_add(1);
    }

    /// A request ends: one fewer in flight (wrapping).
    pub fn request_finished(&mut self)
        ensures
            final(self).active_requests == (if old(self).active_requests == 0 {
                u64::MAX
            } else {
                (old(self).active_requests - 1) as u64
            }),
            final(self).total_requests == old(self).total_requests,
            final(self).total_errors == old(self).total_errors,
            final(self).routes_spec() == old(self).routes_spec(),
            final(self).backends_spec() == old(self).backends_spec(),
            final(self).global_latency == old(self).global_latency,
    {
        self.active_requests = self.active_requests.wrapping_sub(1);
    }

    /// The request and error counts of `path`, when it has counters.
    pub fn route_counts(&self, path: &str) -> (r: Option<(u64, u64)>)
        ensures
            match self.routes_spec().get(path@) {
                Some(m) => r == Some((m.total_requests, m.total_errors)),
                None => r is None,
            },
    {
        route_counts_of(&self.routes, path)
    }
}

/// `DashMap::get`, for routes: the route's request and error counts, if any.
#[verifier::external_body]
fn route_counts_of(m: &DashMap<String, RouteMetrics>, key: &str) -> (r: Option<(u64, u64)>)
    ensures
        match route_map(*m).get(key@) {
            Some(v) => r == Some((v.total_requests, v.total_errors)),
            None => r is None,
        },
{
    m.get(key).map(|e| (e.value().total_requests, e.value().total_errors))
}

/// Every request is counted once in the totals and once at its route, and
/// a failed one once more in the error counts.
pub proof fn law_request_counted_once(old_r: Option<RouteMetrics>, r: RouteMetrics)
    requires
        route_recorded(old_r, r, true),
        old_r matches Some(o) ==> o.total_requests < u64::MAX && o.total_errors < u64::MAX,
    ensures
        r.total_requests == (match old_r {
            Some(o) => o.total_requests + 1,
            None => 1,
        }),
        r.total_errors == (match old_r {
            Some(o) => o.total_errors + 1,
            None => 1,
        }),
{
}

} // verus!
