//! The Prometheus text exposition of the gateway's counters and latency
//! quantiles: the whole gateway first, then each route, then each backend.

use vstd::prelude::*;
use vstd::string::StringExecFns;
use crate::text::{decimal_spec, push_decimal};

verus! {

/// Latency quantiles in microseconds: the median, the 95th and the 99th
/// percentile.
#[derive(Clone, Copy, Debug, PartialEq, Eq, Structural)]
pub struct Quantiles {
    pub p50: u64,
    pub p95: u64,
    pub p99: u64,
}

/// The counters of one route or one backend, under its name.
pub struct SeriesStats {
    pub name: String,
    pub requests: u64,
    pub errors: u64,
    pub latency: Quantiles,
}

/// What the exposition reports, read from the gateway's metrics.
pub struct MetricsSnapshot {
    pub total_requests: u64,
    pub active_requests: u64,
    pub total_errors: u64,
    pub latency: Quantiles,
    pub routes: Vec<SeriesStats>,
    pub backends: Vec<SeriesStats>,
}

/// One sample line: the metric with its labels and a space (`head`), the
/// value in decimal, and a line break.
pub open spec fn sample(head: Seq<char>, v: u64) -> Seq<char> {
    head + decimal_spec(v as nat) + "\n"@
}

/// The lines of the whole gateway: requests, requests in flight, errors,
/// and the three latency quantiles.
pub open spec fn global_text(s: MetricsSnapshot) -> Seq<char> {
    sample("bastion_requests_total "@, s.total_requests)
        + sample("bastion_requests_active "@, s.active_requests)
        + sample("bastion_errors_total "@, s.total_errors)
        + sample("bastion_latency_us{quantile=\"0.5\"} "@, s.latency.p50)
        + sample("bastion_latency_us{quantile=\"0.95\"} "@, s.latency.p95)
        + sample("bastion_latency_us{quantile=\"0.99\"} "@, s.latency.p99)
}

/// The label that names a series of `family` (`route` or `backend`).
pub open spec fn series_label(family: Seq<char>, name: Seq<char>) -> Seq<char> {
    family + "=\""@ + name + "\""@
}

/// The lines of one series of `family`: requests, errors and the three
/// latency quantiles, each labelled with the series' name.
pub open spec fn series_text(family: Seq<char>, s: SeriesStats) -> Seq<char> {
    let label = series_label(family, s.name@);
    sample("bastion_"@ + family + "_requests_total{"@ + label + "} "@, s.requests)
        + sample("bastion_"@ + family + "_errors_total{"@ + label + "} "@, s.errors)
        + sample("bastion_"@ + family + "_latency_us{"@ + label + ", quantile=\"0.5\"} "@, s.latency.p50)
        + sample("bastion_"@ + family + "_latency_us{"@ + label + ", quantile=\"0.95\"} "@, s.latency.p95)
        + sample("bastion_"@ + family + "_latency_us{"@ + label + ", quantile=\"0.99\"} "@, s.latency.p99)
}

/// The lines of every series of `family`, in order.
pub open spec fn series_block(family: Seq<char>, ss: Seq<SeriesStats>) -> Seq<char>
    decreases ss.len(),
{
    if ss.len() == 0 {
        Seq::empty()
    } else {
        series_block(family, ss.drop_last()) + series_text(family, ss.last())
    }
}

/// The whole exposition of `s`.
pub open spec fn exposition(s: MetricsSnapshot) -> Seq<char> {
    global_text(s) + series_block("route"@, s.routes@) + series_block("backend"@, s.backends@)
}

/// Appends one sample line.
fn push_sample(out: &mut String, head: &str, v: u64)
    ensures
        final(out)@ == old(out)@ + sample(head@, v),
{
    out.append(head);
    push_decimal(out, v);
    out.append("\n");
    proof {
        assert(final(out)@ =~= old(out)@ + sample(head@, v));
    }
}

/// Appends the lines of one series of `family`.
fn push_series(out: &mut String, family: &str, s: &SeriesStats)
    ensures
        final(out)@ == old(out)@ + series_text(family@, *s),
{
    let label = String::from_str(family).concat("=\"").concat(s.name.as_str()).concat("\"");
    let h1 = String::from_str("bastion_").concat(family).concat("_requests_total{").concat(label.as_str()).concat("} ");
    let h2 = String::from_str("bastion_").concat(family).concat("_errors_total{").concat(label.as_str()).concat("} ");
    let h3 = String::from_str("bastion_").concat(family).concat("_latency_us{").concat(label.as_str()).concat(
        ", quantile=\"0.5\"} ",
    );
    let h4 = String::from_str("bastion_").concat(family).concat("_latency_us{").concat(label.as_str()).concat(
        ", quantile=\"0.95\"} ",
    );
    let h5 = String::from_str("bastion_").concat(family).concat("_latency_us{").concat(label.as_str()).concat(
        ", quantile=\"0.99\"} ",
    );
    let ghost start = out@;
    push_sample(out, h1.as_str(), s.requests);
    push_sample(out, h2.as_str(), s.errors);
    push_sample(out, h3.as_str(), s.latency.p50);
    push_sample(out, h4.as_str(), s.latency.p95);
    push_sample(out, h5.as_str(), s.latency.p99);
    proof {
        assert(label@ == series_label(family@, s.name@));
        assert(out@ =~= start + series_text(family@, *s));
    }
}

/// Appends the lines of every series of `ss`, in order.
fn push_block(out: &mut String, family: &str, ss: &Vec<SeriesStats>)
    ensures
        final(out)@ == old(out)@ + series_block(family@, ss@),
{
    let ghost start = out@;
    let mut i: usize = 0;
    proof {
        assert(ss@.take(0) =~= Seq::<SeriesStats>::empty());
        assert(out@ =~= start + series_block(family@, ss@.take(0)));
    }
    while i < ss.len()
        invariant
            i <= ss@.len(),
            out@ == start + series_block(family@, ss@.take(i as int)),
        decreases ss@.len() - i,
    {
        let ghost before = out@;
        push_series(out, family, &ss[i]);
        proof {
            let t = ss@.take(i + 1);
            assert(t.drop_last() =~= ss@.take(i as int));
            assert(t.last() == ss@[i as int]);
            assert(out@ =~= start + series_block(family@, t));
        }
        i = i + 1;
    }
    proof {
        assert(ss@.take(ss@.len() as int) =~= ss@);
    }
}

/// The Prometheus text exposition of `s`, as `exposition` says.
pub fn export_metrics(s: &MetricsSnapshot) -> (out: String)
    ensures
        out@ == exposition(*s),
{
    let mut out = String::new();
    push_sample(&mut out, "bastion_requests_total ", s.total_requests);
    push_sample(&mut out, "bastion_requests_active ", s.active_requests);
    push_sample(&mut out, "bastion_errors_total ", s.total_errors);
    push_sample(&mut out, "bastion_latency_us{quantile=\"0.5\"} ", s.latency.p50);
    push_sample(&mut out, "bastion_latency_us{quantile=\"0.95\"} ", s.latency.p95);
    push_sample(&mut out, "bastion_latency_us{quantile=\"0.99\"} ", s.latency.p99);
    proof {
        assert(out@ =~= global_text(*s));
    }
    push_block(&mut out, "route", &s.routes);
    push_block(&mut out, "backend", &s.backends);
    out
}

} // verus!
