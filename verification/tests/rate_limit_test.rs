use bastion::rate_limit::store::{SlidingWindow, TokenBucket};
use bastion::rate_limit::{
    retry_after_secs, KeyExtractor, RateDecision, RateLimitConfig, RateLimitStrategy,
    RateLimiterMiddleware,
};
use bastion::time::Duration;

// ═══════════════════════════════════════════
//  TOKEN BUCKET TESTS
// ═══════════════════════════════════════════

#[test]
fn test_token_bucket_allows_under_limit() {
    let mut bucket = TokenBucket::new(5, 1, 1000);
    for _ in 0..5 {
        let (allowed, _) = bucket.try_acquire("user1");
        assert!(allowed);
    }
}

#[test]
fn test_token_bucket_blocks_over_limit() {
    let mut bucket = TokenBucket::new(3, 1, 1000);
    // Drain the bucket
    for _ in 0..3 {
        bucket.try_acquire("user1");
    }
    // Now it should block
    let (allowed, remaining) = bucket.try_acquire("user1");
    assert!(!allowed);
    assert_eq!(remaining, 0);
}

#[test]
fn test_token_bucket_separate_keys() {
    let mut bucket = TokenBucket::new(2, 1, 1000);
    // Drain user1
    bucket.try_acquire("user1");
    bucket.try_acquire("user1");
    let (blocked, _) = bucket.try_acquire("user1");
    assert!(!blocked);

    // user2 should still be allowed
    let (allowed, _) = bucket.try_acquire("user2");
    assert!(allowed);
}

#[test]
fn test_token_bucket_remaining_count() {
    let mut bucket = TokenBucket::new(5, 1, 1000);
    let (_, remaining) = bucket.try_acquire("user1");
    assert_eq!(remaining, 4);
    let (_, remaining) = bucket.try_acquire("user1");
    assert_eq!(remaining, 3);
    let (_, remaining) = bucket.try_acquire("user1");
    assert_eq!(remaining, 2);
}

#[test]
fn test_token_bucket_burst_capacity() {
    // burst = 10, so 10 requests should pass immediately
    let mut bucket = TokenBucket::new(10, 1, 1000);
    for i in 0..10 {
        let (allowed, _) = bucket.try_acquire("burst");
        assert!(allowed, "Request {} should be allowed", i);
    }
    let (allowed, _) = bucket.try_acquire("burst");
    assert!(!allowed, "11th request should be blocked");
}

#[test]
fn test_token_bucket_refill() {
    // 2 tokens, refill 10/sec: 300 ms later three tokens were earned, two fit.
    let mut bucket = TokenBucket::new(2, 10, 1000);
    bucket.try_acquire_at("refill", 1_000);
    bucket.try_acquire_at("refill", 1_000);
    let (blocked, _) = bucket.try_acquire_at("refill", 1_000);
    assert!(!blocked);
    let (allowed, remaining) = bucket.try_acquire_at("refill", 1_300);
    assert!(allowed, "Should have refilled after waiting");
    assert_eq!(remaining, 1);
}

#[test]
fn test_token_bucket_partial_refill() {
    // 1 token per second: after 1.5 s one whole token is earned.
    let mut bucket = TokenBucket::new(5, 1, 1000);
    for _ in 0..5 {
        bucket.try_acquire_at("k", 0);
    }
    assert_eq!(bucket.try_acquire_at("k", 1_500), (true, 0));
    assert_eq!(bucket.try_acquire_at("k", 1_600), (false, 0));
}

#[test]
fn test_token_bucket_concurrent() {
    // No refill: of a hundred requests, one after another, fifty pass.
    let mut bucket = TokenBucket::new(50, 0, 1000);
    let mut allowed_count = 0;
    let mut blocked_count = 0;
    for i in 0..100u64 {
        let (allowed, _) = bucket.try_acquire_at("concurrent", i * 1000);
        if allowed {
            allowed_count += 1;
        } else {
            blocked_count += 1;
        }
    }
    assert_eq!(allowed_count, 50, "Exactly 50 should be allowed");
    assert_eq!(blocked_count, 50, "Exactly 50 should be blocked");
}

#[test]
fn test_token_bucket_zero_capacity_refuses() {
    let mut bucket = TokenBucket::new(0, 1, 1000);
    assert_eq!(bucket.try_acquire_at("k", 5), (false, 0));
}

// ═══════════════════════════════════════════
//  SLIDING WINDOW TESTS
// ═══════════════════════════════════════════

#[test]
fn test_sliding_window_allows_under_limit() {
    let mut window = SlidingWindow::new(5, Duration::from_secs(60));
    for _ in 0..5 {
        let (allowed, _, _) = window.try_acquire("user1");
        assert!(allowed);
    }
}

#[test]
fn test_sliding_window_blocks_over_limit() {
    let mut window = SlidingWindow::new(3, Duration::from_secs(60));
    for _ in 0..3 {
        window.try_acquire("user1");
    }
    let (allowed, remaining, retry_after) = window.try_acquire("user1");
    assert!(!allowed);
    assert_eq!(remaining, 0);
    assert!(retry_after.is_some());
}

#[test]
fn test_sliding_window_remaining_count() {
    let mut window = SlidingWindow::new(5, Duration::from_secs(60));
    let (_, remaining, _) = window.try_acquire("user1");
    assert_eq!(remaining, 4);
    let (_, remaining, _) = window.try_acquire("user1");
    assert_eq!(remaining, 3);
}

#[test]
fn test_sliding_window_separate_keys() {
    let mut window = SlidingWindow::new(2, Duration::from_secs(60));
    window.try_acquire("user1");
    window.try_acquire("user1");
    let (blocked, _, _) = window.try_acquire("user1");
    assert!(!blocked);

    let (allowed, _, _) = window.try_acquire("user2");
    assert!(allowed);
}

#[test]
fn test_sliding_window_reset() {
    let mut window = SlidingWindow::new(2, Duration::from_millis(200));
    window.try_acquire_at("reset", 10_000);
    window.try_acquire_at("reset", 10_000);
    let (blocked, _, _) = window.try_acquire_at("reset", 10_000);
    assert!(!blocked);
    let (allowed, _, _) = window.try_acquire_at("reset", 10_300);
    assert!(allowed, "Should be allowed after window reset");
}

#[test]
fn test_sliding_window_retry_after_present() {
    let mut window = SlidingWindow::new(1, Duration::from_secs(60));
    window.try_acquire("retry");
    let (_, _, retry_after) = window.try_acquire("retry");
    assert!(retry_after.is_some());
    // Should be close to 60000 ms
    let ms = retry_after.unwrap();
    assert!(ms > 50000 && ms <= 60000, "Retry-After should be ~60s, got {}ms", ms);
}

#[test]
fn test_sliding_window_retry_after_exact() {
    let mut window = SlidingWindow::new(2, Duration::from_secs(60));
    window.try_acquire_at("k", 100_000);
    window.try_acquire_at("k", 110_000);
    assert_eq!(window.try_acquire_at("k", 120_000), (false, 0, Some(40_000)));
    // the oldest has left the window at 160 000 ms
    assert_eq!(window.try_acquire_at("k", 160_000), (true, 0, None));
}

#[test]
fn test_sliding_window_exact_boundary() {
    let mut window = SlidingWindow::new(1, Duration::from_secs(60));
    let (allowed, remaining, _) = window.try_acquire("boundary");
    assert!(allowed);
    assert_eq!(remaining, 0);

    let (blocked, _, _) = window.try_acquire("boundary");
    assert!(!blocked);
}

#[test]
fn test_sliding_window_concurrent() {
    // A hundred requests, one after another within the window: fifty pass.
    let mut window = SlidingWindow::new(50, Duration::from_secs(60));
    let mut allowed_count = 0;
    let mut blocked_count = 0;
    for _ in 0..100 {
        let (allowed, _, _) = window.try_acquire_at("concurrent", 5_000);
        if allowed {
            allowed_count += 1;
        } else {
            blocked_count += 1;
        }
    }
    assert_eq!(allowed_count, 50, "Exactly 50 should be allowed");
    assert_eq!(blocked_count, 50, "Exactly 50 should be blocked");
}

#[test]
fn test_sliding_window_zero_limit() {
    let mut window = SlidingWindow::new(0, Duration::from_secs(1));
    assert_eq!(window.try_acquire_at("k", 7_000), (false, 0, Some(1_000)));
}

// ═══════════════════════════════════════════
//  LIMITER DECISIONS
// ═══════════════════════════════════════════

#[test]
fn test_retry_after_rounds_up() {
    assert_eq!(retry_after_secs(0), 0);
    assert_eq!(retry_after_secs(1), 1);
    assert_eq!(retry_after_secs(1000), 1);
    assert_eq!(retry_after_secs(59_001), 60);
}

#[test]
fn test_limiter_sliding_window_decisions() {
    let config = RateLimitConfig {
        limit: 1,
        window: Duration::from_secs(10),
        burst: 5,
        strategy: RateLimitStrategy::SlidingWindow,
        key_extractor: KeyExtractor::Ip,
    };
    let mut limiter = RateLimiterMiddleware::new(config);
    assert_eq!(limiter.check_at("1.2.3.4", 1_000), RateDecision::Allow { limit: 1, remaining: 0 });
    assert_eq!(
        limiter.check_at("1.2.3.4", 1_500),
        RateDecision::Reject { limit: 1, remaining: 0, retry_after_secs: Some(10) }
    );
}

#[test]
fn test_limiter_token_bucket_decisions() {
    let config = RateLimitConfig {
        limit: 60,
        window: Duration::from_secs(60),
        burst: 1,
        strategy: RateLimitStrategy::TokenBucket,
        key_extractor: KeyExtractor::Ip,
    };
    let mut limiter = RateLimiterMiddleware::new(config);
    assert_eq!(limiter.check_at("k", 0), RateDecision::Allow { limit: 1, remaining: 0 });
    assert_eq!(
        limiter.check_at("k", 10),
        RateDecision::Reject { limit: 60, remaining: 0, retry_after_secs: None }
    );
    assert_eq!(limiter.check_at("k", 1_010), RateDecision::Allow { limit: 1, remaining: 0 });
}

#[test]
fn test_limiter_keys() {
    let mut config = RateLimitConfig::default();
    assert_eq!(config.limit, 100);
    assert_eq!(config.burst, 10);
    config.key_extractor = KeyExtractor::Composite;
    let limiter = RateLimiterMiddleware::new(config.clone());
    assert_eq!(limiter.extract_key("1.2.3.4", None, "/a"), "1.2.3.4:/a");
    config.key_extractor = KeyExtractor::Header("X-User".to_string());
    let limiter = RateLimiterMiddleware::new(config.clone());
    assert_eq!(limiter.key_header().map(|s| s.as_str()), Some("X-User"));
    assert_eq!(limiter.extract_key("1.2.3.4", None, "/a"), "unknown");
    assert_eq!(limiter.extract_key("1.2.3.4", Some("bob"), "/a"), "bob");
    config.key_extractor = KeyExtractor::ApiKey("X-Api-Key".to_string());
    let limiter = RateLimiterMiddleware::new(config);
    assert_eq!(limiter.extract_key("1.2.3.4", None, "/a"), "anonymous");
    assert_eq!(limiter.name(), "rate_limiter");
    assert_eq!(limiter.priority(), 100);
}
