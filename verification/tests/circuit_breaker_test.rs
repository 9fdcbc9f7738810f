use bastion::circuit_breaker::{CbState, CircuitBreaker, CircuitBreakerConfig, CircuitBreakerRegistry};
use bastion::http::Method;
use bastion::retry::{BackoffStrategy, RetryConfig};
use bastion::time::Duration;

#[test]
fn test_cb_closed_allows_requests() {
    let mut cb = CircuitBreaker::new(CircuitBreakerConfig::default());
    assert_eq!(cb.state(), CbState::Closed);
    assert!(cb.allow_request().is_ok());
}

#[test]
fn test_cb_opens_after_failures() {
    let config = CircuitBreakerConfig {
        failure_threshold: 3,
        ..Default::default()
    };
    let mut cb = CircuitBreaker::new(config);

    // 2 failures -> Still Closed
    cb.record_failure();
    cb.record_failure();
    assert_eq!(cb.state(), CbState::Closed);
    assert!(cb.allow_request().is_ok());

    // 3rd failure -> trips Open
    cb.record_failure();
    assert_eq!(cb.state(), CbState::Open);
    assert_eq!(cb.allow_request(), Err(CbState::Open));
}

#[test]
fn test_cb_rejects_when_open() {
    let config = CircuitBreakerConfig {
        failure_threshold: 1,
        ..Default::default()
    };
    let mut cb = CircuitBreaker::new(config);

    cb.record_failure();
    assert_eq!(cb.state(), CbState::Open);

    // Multiple requests should all be rejected immediately
    for _ in 0..10 {
        assert_eq!(cb.allow_request(), Err(CbState::Open));
    }
}

#[test]
fn test_retry_status_codes() {
    let config = RetryConfig::default();
    assert!(config.should_retry_status(502));
    assert!(config.should_retry_status(503));
    assert!(config.should_retry_status(504));

    assert!(!config.should_retry_status(500));
    assert!(!config.should_retry_status(404));
    assert!(!config.should_retry_status(400));
}

#[test]
fn test_cb_half_open_after_timeout() {
    // The clock readings are given: the failure at 1 000 ms, the look 150 ms later.
    let config = CircuitBreakerConfig {
        failure_threshold: 1,
        open_timeout: Duration::from_millis(100),
        half_open_max_calls: 2,
        ..Default::default()
    };
    let mut cb = CircuitBreaker::new(config);

    cb.record_failure_at(1_000);
    assert_eq!(cb.state_at(1_050), CbState::Open);
    assert_eq!(cb.state_at(1_150), CbState::HalfOpen);

    // Allows exactly 2 probes
    assert!(cb.allow_request_at(1_150).is_ok());
    assert!(cb.allow_request_at(1_150).is_ok());
    // Third probe is rejected
    assert_eq!(cb.allow_request_at(1_150), Err(CbState::HalfOpen));
}

#[test]
fn test_cb_closes_after_success() {
    let config = CircuitBreakerConfig {
        failure_threshold: 1,
        open_timeout: Duration::from_millis(10),
        half_open_max_calls: 3,
        success_threshold: 2,
    };
    let mut cb = CircuitBreaker::new(config);

    cb.record_failure_at(0);
    assert_eq!(cb.state_at(20), CbState::HalfOpen);
    cb.record_success_at(20);
    assert_eq!(cb.state_at(20), CbState::HalfOpen);
    cb.record_success_at(20);
    assert_eq!(cb.state_at(20), CbState::Closed);
    assert_eq!(cb.failure_count(), 0);
}

#[test]
fn test_cb_reopens_on_half_open_failure() {
    let config = CircuitBreakerConfig {
        failure_threshold: 1,
        open_timeout: Duration::from_millis(10),
        half_open_max_calls: 3,
        success_threshold: 2,
    };
    let mut cb = CircuitBreaker::new(config);
    cb.record_failure_at(0);
    assert_eq!(cb.state_at(20), CbState::HalfOpen);
    cb.record_success_at(20);
    cb.record_failure_at(20);
    assert_eq!(cb.state_at(25), CbState::Open);
}

#[test]
fn test_cb_concurrent_failures() {
    // The breaker is owned, so the hundred failures come one after another.
    let config = CircuitBreakerConfig {
        failure_threshold: 50,
        ..Default::default()
    };
    let mut cb = CircuitBreaker::new(config);
    for _ in 0..100 {
        cb.record_failure();
    }
    assert_eq!(cb.state(), CbState::Open);
    assert!(cb.failure_count() >= 50);
}

#[test]
fn test_cb_state_from_number() {
    assert_eq!(CbState::from(0u8), CbState::Closed);
    assert_eq!(CbState::from(1u8), CbState::Open);
    assert_eq!(CbState::from(2u8), CbState::HalfOpen);
    assert_eq!(CbState::from(7u8), CbState::Closed);
}

#[test]
fn test_cb_registry() {
    let mut registry = CircuitBreakerRegistry::new(CircuitBreakerConfig::default());

    // One breaker per name, kept by the registry: `get_or_create(name)`
    // makes it, and failures are recorded on it through the registry.
    registry.get_or_create("upstreamA");
    registry.record_failure("upstreamA");

    let cb2 = registry.get_or_create("upstreamB");
    assert_eq!(cb2.failure_count(), 0);
    assert_eq!(registry.state("upstreamB"), CbState::Closed);
    assert_eq!(cb2.state(), CbState::Closed);

    // The failure recorded is there when the name is asked for again.
    assert_eq!(registry.get_or_create("upstreamA").failure_count(), 1);
}

#[test]
fn test_cb_registry_trips_shared_breaker() {
    let config = CircuitBreakerConfig { failure_threshold: 2, ..Default::default() };
    let mut registry = CircuitBreakerRegistry::new(config);
    registry.record_failure_at("svc", 10);
    assert!(registry.allow_request_at("svc", 11).is_ok());
    registry.record_failure_at("svc", 12);
    assert_eq!(registry.allow_request_at("svc", 13), Err(CbState::Open));
    registry.record_success_at("other", 13);
    assert_eq!(registry.get_or_create("other").failure_count(), 0);
    assert_eq!(registry.get_or_create("svc").failure_count(), 2);
}

// ═════════════════════════════════════════
//  RETRY TESTS
// ═════════════════════════════════════════

#[test]
fn test_retry_idempotent_methods() {
    assert!(RetryConfig::is_idempotent(&Method::GET));
    assert!(RetryConfig::is_idempotent(&Method::PUT));
    assert!(RetryConfig::is_idempotent(&Method::DELETE));
    assert!(RetryConfig::is_idempotent(&Method::HEAD));
    assert!(RetryConfig::is_idempotent(&Method::OPTIONS));

    assert!(!RetryConfig::is_idempotent(&Method::POST));
    assert!(!RetryConfig::is_idempotent(&Method::PATCH));
}

#[test]
fn test_retry_constant_backoff() {
    let config = RetryConfig {
        backoff: BackoffStrategy::Constant(Duration::from_millis(100)),
        jitter: false,
        ..Default::default()
    };

    assert_eq!(config.delay_for_attempt(0), Duration::from_millis(100));
    assert_eq!(config.delay_for_attempt(1), Duration::from_millis(100));
    assert_eq!(config.delay_for_attempt(5), Duration::from_millis(100));
}

#[test]
fn test_retry_linear_backoff() {
    let config = RetryConfig {
        backoff: BackoffStrategy::Linear(Duration::from_millis(100)),
        jitter: false,
        ..Default::default()
    };

    assert_eq!(config.delay_for_attempt(0), Duration::from_millis(100));
    assert_eq!(config.delay_for_attempt(1), Duration::from_millis(200));
    assert_eq!(config.delay_for_attempt(2), Duration::from_millis(300));
}

#[test]
fn test_retry_exponential_backoff() {
    let config = RetryConfig {
        backoff: BackoffStrategy::Exponential(Duration::from_millis(100)),
        jitter: false,
        ..Default::default()
    };

    assert_eq!(config.delay_for_attempt(0), Duration::from_millis(100));
    assert_eq!(config.delay_for_attempt(1), Duration::from_millis(200));
    assert_eq!(config.delay_for_attempt(2), Duration::from_millis(400));
    assert_eq!(config.delay_for_attempt(3), Duration::from_millis(800));
}

#[test]
fn test_retry_exponential_backoff_large_attempts() {
    let config = RetryConfig {
        backoff: BackoffStrategy::Exponential(Duration::from_millis(1)),
        jitter: false,
        ..Default::default()
    };
    // base * 2^attempt, as long as the wait fits in a Duration.
    assert_eq!(config.delay_for_attempt(31), Duration::from_millis(2_147_483_648));
    assert_eq!(config.delay_for_attempt(32), Duration::from_millis(4_294_967_296));
    assert_eq!(config.delay_for_attempt(40), Duration::from_millis(1u64 << 40));
    assert_eq!(config.delay_for_attempt(60), Duration::from_millis(1u64 << 60));
}

#[test]
fn test_retry_jitter() {
    let config = RetryConfig {
        backoff: BackoffStrategy::Constant(Duration::from_millis(100)),
        jitter: true, // Should introduce 0-25ms random jitter
        ..Default::default()
    };

    // Test 10 times to ensure it falls within range and varies
    let mut varies = false;
    let first = config.delay_for_attempt(0);

    for _ in 0..10 {
        let delay = config.delay_for_attempt(0);
        assert!(delay >= Duration::from_millis(100), "Delay too small: {:?}", delay);
        assert!(delay < Duration::from_millis(125), "Delay too large: {:?}", delay);

        if delay != first {
            varies = true;
        }
    }

    // Incredibly improbable that 10 random runs yield exactly the same number
    assert!(varies, "Jitter is not giving random variations");
}

#[test]
fn test_retry_jitter_given_value() {
    let config = RetryConfig {
        backoff: BackoffStrategy::Constant(Duration::from_millis(100)),
        jitter: true,
        ..Default::default()
    };
    assert_eq!(config.delay_with_jitter(0, 7), Duration::from_millis(107));
    let small = RetryConfig {
        backoff: BackoffStrategy::Constant(Duration::from_millis(3)),
        jitter: true,
        ..Default::default()
    };
    // a quarter of 3 ms is no whole millisecond: no jitter
    assert_eq!(small.delay_with_jitter(0, 7), Duration::from_millis(3));
}
