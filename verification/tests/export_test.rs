use bastion::alerts::{is_authorized, success_count, AlertDecision, AlertEngine, Command};
use bastion::loadbalancer::{Backend, UpstreamGroup};
use bastion::metrics::GatewayMetrics;
use bastion::middleware::metrics::{is_error_response, MetricsMiddleware};
use bastion::prometheus::{export_metrics, MetricsSnapshot, Quantiles, SeriesStats};
use bastion::proxy::Dispatch;
use bastion::text::{parse_u64, push_decimal};

fn series(name: &str, requests: u64, errors: u64, q: (u64, u64, u64)) -> SeriesStats {
    SeriesStats {
        name: name.to_string(),
        requests,
        errors,
        latency: Quantiles { p50: q.0, p95: q.1, p99: q.2 },
    }
}

#[test]
fn test_export_metrics_text() {
    let snap = MetricsSnapshot {
        total_requests: 120,
        active_requests: 3,
        total_errors: 0,
        latency: Quantiles { p50: 250, p95: 1000, p99: 18446744073709551615 },
        routes: vec![series("/api", 100, 2, (10, 20, 30))],
        backends: vec![series("http://a:1", 7, 0, (1, 2, 3)), series("http://b:2", 0, 0, (0, 0, 0))],
    };
    let expected = "bastion_requests_total 120\n\
bastion_requests_active 3\n\
bastion_errors_total 0\n\
bastion_latency_us{quantile=\"0.5\"} 250\n\
bastion_latency_us{quantile=\"0.95\"} 1000\n\
bastion_latency_us{quantile=\"0.99\"} 18446744073709551615\n\
bastion_route_requests_total{route=\"/api\"} 100\n\
bastion_route_errors_total{route=\"/api\"} 2\n\
bastion_route_latency_us{route=\"/api\", quantile=\"0.5\"} 10\n\
bastion_route_latency_us{route=\"/api\", quantile=\"0.95\"} 20\n\
bastion_route_latency_us{route=\"/api\", quantile=\"0.99\"} 30\n\
bastion_backend_requests_total{backend=\"http://a:1\"} 7\n\
bastion_backend_errors_total{backend=\"http://a:1\"} 0\n\
bastion_backend_latency_us{backend=\"http://a:1\", quantile=\"0.5\"} 1\n\
bastion_backend_latency_us{backend=\"http://a:1\", quantile=\"0.95\"} 2\n\
bastion_backend_latency_us{backend=\"http://a:1\", quantile=\"0.99\"} 3\n\
bastion_backend_requests_total{backend=\"http://b:2\"} 0\n\
bastion_backend_errors_total{backend=\"http://b:2\"} 0\n\
bastion_backend_latency_us{backend=\"http://b:2\", quantile=\"0.5\"} 0\n\
bastion_backend_latency_us{backend=\"http://b:2\", quantile=\"0.95\"} 0\n\
bastion_backend_latency_us{backend=\"http://b:2\", quantile=\"0.99\"} 0\n";
    assert_eq!(export_metrics(&snap), expected);
}

#[test]
fn test_export_metrics_empty_gateway() {
    let snap = MetricsSnapshot {
        total_requests: 0,
        active_requests: 0,
        total_errors: 0,
        latency: Quantiles { p50: 0, p95: 0, p99: 0 },
        routes: vec![],
        backends: vec![],
    };
    let out = export_metrics(&snap);
    assert_eq!(out.lines().count(), 6);
    assert!(out.starts_with("bastion_requests_total 0\n"));
}

#[test]
fn test_decimal_reads_back() {
    for n in [0u64, 7, 10, 99, 100, 4096, 1_000_000, u64::MAX] {
        let mut s = String::from("x=");
        push_decimal(&mut s, n);
        assert_eq!(s, format!("x={}", n));
        assert_eq!(parse_u64(&s[2..]), Some(n));
    }
}

#[test]
fn test_bot_authorization() {
    assert!(is_authorized(&vec![], 42));
    assert!(is_authorized(&vec![1, 42], 42));
    assert!(!is_authorized(&vec![1, 2], 42));
    assert_eq!(success_count(10, 3), 7);
    assert_eq!(success_count(3, 10), 0);
    assert_ne!(Command::Health("a".to_string()), Command::Toggle("a".to_string()));
}

#[test]
fn test_alert_engine_error_rate_and_cooldown() {
    let mut e = AlertEngine::new();
    // 100 requests are too few to judge.
    assert_eq!(e.evaluate_at(1_000, 100, 90, 0), AlertDecision { high_error_rate: false, high_latency: false });
    // Exactly a tenth is not more than a tenth.
    assert_eq!(e.evaluate_at(1_000, 200, 20, 0), AlertDecision { high_error_rate: false, high_latency: false });
    assert_eq!(e.evaluate_at(1_000, 200, 21, 0), AlertDecision { high_error_rate: true, high_latency: false });
    // Within five minutes the same alert stays quiet.
    assert!(!e.evaluate_at(301_000, 200, 50, 0).high_error_rate);
    assert!(e.evaluate_at(301_001, 200, 50, 0).high_error_rate);
}

#[test]
fn test_alert_engine_latency() {
    let mut e = AlertEngine::new();
    assert!(!e.evaluate_at(0, 0, 0, 1_000_000).high_latency);
    assert!(e.evaluate_at(0, 0, 0, 1_000_001).high_latency);
    assert!(!e.evaluate_at(60_000, 0, 0, 5_000_000).high_latency);
    // The two alerts keep their own cooldowns.
    assert!(e.evaluate_at(60_000, 1000, 500, 5_000_000).high_error_rate);
    assert!(e.evaluate(0, 0, 0) == AlertDecision { high_error_rate: false, high_latency: false });
}

#[test]
fn test_dispatch_picks_and_tracks() {
    let mut g = UpstreamGroup::new("g", vec![Backend::new("http://a", 1), Backend::new("http://b", 1)]);
    match g.dispatch(Some("/v2/x"), Some("q=1")) {
        Dispatch::Forward { backend, url, target } => {
            assert_eq!(backend, 0);
            assert_eq!(url, "http://a");
            assert_eq!(target, Some("/v2/x?q=1".to_string()));
        }
        Dispatch::NoBackend => panic!("a backend is healthy"),
    }
    assert_eq!(g.backends[0].active_connections, 1);
    match g.dispatch(None, Some("q=1")) {
        Dispatch::Forward { backend, url, target } => {
            assert_eq!(backend, 1);
            assert_eq!(url, "http://b");
            assert_eq!(target, None);
        }
        Dispatch::NoBackend => panic!("a backend is healthy"),
    }
    let mut empty = UpstreamGroup::new("e", vec![]);
    assert!(matches!(empty.dispatch(None, None), Dispatch::NoBackend));
}

#[test]
fn test_metrics_middleware_counts() {
    let mut m = MetricsMiddleware::new(GatewayMetrics::default());
    assert_eq!(m.name(), "MetricsMiddleware");
    assert_eq!(m.priority(), 1000);
    m.begin();
    assert_eq!(m.metrics.active_requests, 1);
    m.finish("/api", 120, Some(404));
    m.begin();
    m.finish("/api", 80, Some(200));
    m.begin();
    m.finish("/other", 10, None);
    assert_eq!(m.metrics.active_requests, 0);
    assert_eq!(m.metrics.total_requests, 3);
    assert_eq!(m.metrics.total_errors, 2);
    assert_eq!(m.metrics.route_counts("/api"), Some((2, 1)));
    assert_eq!(m.metrics.route_counts("/other"), Some((1, 1)));
    assert!(is_error_response(Some(400)));
    assert!(is_error_response(Some(599)));
    assert!(!is_error_response(Some(399)));
    assert!(!is_error_response(Some(600)));
}

#[test]
fn test_round_robin_goes_round_in_order() {
    let mut g = UpstreamGroup::new("rr", vec![Backend::new("http://a", 1), Backend::new("http://b", 1)]);
    let urls: Vec<String> = (0..3).map(|_| g.next().unwrap().url).collect();
    assert_eq!(urls, vec!["http://a", "http://b", "http://a"]);
    let mut e = UpstreamGroup::new("g", vec![]);
    assert!(e.next().is_none());
    e.add_backend(Backend::new("http://c", 2));
    let b = e.next().unwrap();
    assert_eq!((b.url.as_str(), b.weight, b.active_connections), ("http://c", 2, 0));
}

#[test]
fn test_latency_histograms_count_each_request() {
    let mut m = GatewayMetrics::default();
    m.record_request("/a", Some("http://b"), 60_000_000_000, false);
    m.record_request("/a", None, 1, false);
    assert_eq!(m.global_latency.len(), 2);
    assert_eq!(m.routes.get("/a").map(|r| r.latency.len()), Some(2));
    assert_eq!(m.backends.get("http://b").map(|b| b.latency.len()), Some(1));
    assert_eq!(m.get_or_create_route("/a"), (2, 0));
    assert_eq!(m.get_or_create_backend("http://z"), (0, 0, 0));
}
