use bastion::clock::{chrono_timestamp, timestamp_text};
use bastion::config::{finish_load, validate_config, ConfigError, GatewayConfig, LoggingConfig, ServerConfig};
use bastion::loadbalancer::{Backend, UpstreamGroup};
use bastion::metrics::GatewayMetrics;
use bastion::proxy::{backend_failed, forwarded_for, upstream_target};
use bastion::text::{contains_str, join, parse_u64, starts_with};
use bastion::timeseries::{MinuteStats, TimeSeriesStore};

fn stat(t: u64) -> MinuteStats {
    MinuteStats { timestamp: t, requests: t * 2, errors: 0, p95_latency: 5 }
}

#[test]
fn test_timeseries_ring() {
    let mut s = TimeSeriesStore::new(3);
    for t in 1..=5 {
        s.push(stat(t));
    }
    let all: Vec<u64> = s.get_all().iter().map(|m| m.timestamp).collect();
    assert_eq!(all, vec![3, 4, 5]);
    let mut z = TimeSeriesStore::new(0);
    z.push(stat(1));
    z.push(stat(2));
    assert_eq!(z.get_all().len(), 1);
}

#[test]
fn test_config_defaults_and_validation() {
    let c = GatewayConfig::default();
    assert_eq!(c.server.listen, "0.0.0.0:8080");
    assert_eq!(c.server.admin_listen, "127.0.0.1:9090");
    assert_eq!(c.logging.level, "info");
    assert!(validate_config(&c).is_ok());
    let bad = GatewayConfig {
        server: ServerConfig { listen: String::new(), ..ServerConfig::default() },
        logging: LoggingConfig::default(),
    };
    match validate_config(&bad) {
        Err(ConfigError::Validation(m)) => assert_eq!(m, "server.listen cannot be empty"),
        other => panic!("expected a validation error, got {:?}", other),
    }
    let bad2 = GatewayConfig {
        server: ServerConfig { admin_listen: String::new(), ..ServerConfig::default() },
        logging: LoggingConfig::default(),
    };
    match finish_load(Ok(bad2)) {
        Err(ConfigError::Validation(m)) => assert_eq!(m, "server.admin_listen cannot be empty"),
        other => panic!("expected a validation error, got {:?}", other),
    }
    let parse_err = toml::from_str::<toml::Value>("= broken").unwrap_err();
    assert!(matches!(finish_load(Err(parse_err)), Err(ConfigError::Parse(_))));
}

#[test]
fn test_metrics_counting() {
    let mut m = GatewayMetrics::default();
    m.record_request("/a", Some("http://b1"), 120, false);
    m.record_request("/a", None, 80, true);
    m.record_request("/b", Some("http://b1"), 10, true);
    assert_eq!(m.total_requests, 3);
    assert_eq!(m.total_errors, 2);
    assert_eq!(m.route_counts("/a"), Some((2, 1)));
    assert_eq!(m.route_counts("/b"), Some((1, 1)));
    assert_eq!(m.route_counts("/c"), None);
    assert_eq!(m.global_latency.len(), 3);
    m.get_or_create_route("/c");
    assert_eq!(m.route_counts("/c"), Some((0, 0)));
    m.get_or_create_backend("http://b2");
    assert_eq!(m.backends.get("http://b2").map(|b| (b.total_requests, b.total_errors)), Some((0, 0)));
    assert_eq!(m.backends.get("http://b1").map(|b| (b.total_requests, b.total_errors)), Some((2, 1)));
    m.request_started();
    m.request_finished();
    assert_eq!(m.active_requests, 0);
}

#[test]
fn test_proxy_decisions() {
    assert_eq!(forwarded_for(false, None, "1.2.3.4"), Some("1.2.3.4".to_string()));
    assert_eq!(forwarded_for(true, Some("9.9.9.9"), "1.2.3.4"), Some("9.9.9.9, 1.2.3.4".to_string()));
    assert_eq!(forwarded_for(true, None, "1.2.3.4"), None);
    assert_eq!(upstream_target("/v2/users", Some("page=2")), "/v2/users?page=2");
    assert_eq!(upstream_target("/v2/users", None), "/v2/users");
    assert!(backend_failed(None));
    assert!(backend_failed(Some(502)));
    assert!(!backend_failed(Some(404)));
    assert!(!backend_failed(Some(200)));
}

#[test]
fn test_request_tracking_and_health() {
    let mut g = UpstreamGroup::new("g", vec![Backend::new("a", 1)]);
    g.begin_request(0);
    assert_eq!(g.backends[0].active_connections, 1);
    g.end_request(0, true);
    g.begin_request(0);
    g.end_request(0, true);
    g.begin_request(0);
    g.end_request(0, true);
    assert_eq!(g.backends[0].active_connections, 0);
    assert!(!g.backends[0].health.is_healthy());
    assert!(g.next().is_none());
}

#[test]
fn test_text_helpers() {
    assert!(starts_with("/api/users", "/api"));
    assert!(!starts_with("/ap", "/api"));
    assert!(contains_str("max-age=0, no-store", "no-store"));
    assert!(!contains_str("no", "no-store"));
    assert_eq!(join(&vec!["a".to_string(), "b".to_string(), "c".to_string()], ", "), "a, b, c");
    assert_eq!(join(&vec![], ", "), "");
    assert_eq!(parse_u64("18446744073709551615"), Some(u64::MAX));
    assert_eq!(parse_u64("18446744073709551616"), None);
    assert_eq!(parse_u64("+7"), Some(7));
    assert_eq!(parse_u64("+"), None);
    assert_eq!(parse_u64(""), None);
    assert_eq!(parse_u64("-1"), None);
    assert_eq!(parse_u64("12a"), None);
}

#[test]
fn test_timestamp_text_whole_seconds() {
    assert_eq!(timestamp_text(1_700_000_123_456), "1700000123");
    assert_eq!(timestamp_text(999), "0");
    assert_eq!(timestamp_text(0), "0");
}

#[test]
fn test_chrono_timestamp_is_current_seconds() {
    let before = std::time::SystemTime::now().duration_since(std::time::UNIX_EPOCH).unwrap().as_secs();
    let t: u64 = chrono_timestamp().parse().unwrap();
    let after = std::time::SystemTime::now().duration_since(std::time::UNIX_EPOCH).unwrap().as_secs();
    assert!(before <= t && t <= after);
}
