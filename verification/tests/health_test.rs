use bastion::health::{BackendHealth, HealthConfig};

#[test]
fn test_health_state_transitions() {
    let mut config = HealthConfig::default();
    config.unhealthy_threshold = 2;
    config.healthy_threshold = 2;

    let mut health = BackendHealth::new(config);
    assert!(health.is_healthy(), "Initial state should be healthy");

    // 1st failure, should still be healthy
    health.record_failure();
    assert!(health.is_healthy());

    // 2nd failure, crosses threshold, should become unhealthy
    health.record_failure();
    assert!(!health.is_healthy());

    // 1st success, should still be unhealthy
    health.record_success();
    assert!(!health.is_healthy());

    // 2nd success, crosses threshold, should become healthy
    health.record_success();
    assert!(health.is_healthy());
}
