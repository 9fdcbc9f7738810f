use bastion::loadbalancer::{
    Backend, ConsistentHash, LeastConnections, LoadBalancer, LoadBalancerContext, UpstreamGroup,
    WeightedRoundRobin,
};

#[test]
fn test_smooth_weighted_distribution() {
    let b1 = Backend::new("http://a", 3);
    let b2 = Backend::new("http://b", 1);

    let mut balancer = WeightedRoundRobin::new(vec![b1, b2]);
    let ctx = LoadBalancerContext { hash_key: None };

    let mut count_a = 0;
    let mut count_b = 0;

    for _ in 0..4000 {
        let b = balancer.next(&ctx).unwrap();
        if b.url == "http://a" {
            count_a += 1
        } else {
            count_b += 1
        }
    }

    // Smooth weighted algorithm is exact across cycles.
    // Total weight = 4. 'a' gets 3/4, 'b' gets 1/4.
    assert_eq!(count_a, 3000);
    assert_eq!(count_b, 1000);
}

#[test]
fn test_smooth_weighted_order() {
    // nginx's classic example: weights 5, 1, 1 give a a b a c a a.
    let mut balancer = WeightedRoundRobin::new(vec![
        Backend::new("a", 5),
        Backend::new("b", 1),
        Backend::new("c", 1),
    ]);
    let ctx = LoadBalancerContext { hash_key: None };
    let picks: Vec<String> = (0..7).map(|_| balancer.next(&ctx).unwrap().url).collect();
    assert_eq!(picks, vec!["a", "a", "b", "a", "c", "a", "a"]);
}

#[test]
fn test_weighted_empty() {
    let mut balancer = WeightedRoundRobin::new(vec![]);
    assert!(balancer.next(&LoadBalancerContext { hash_key: None }).is_none());
}

#[test]
fn test_least_connections() {
    let b1 = Backend::new("http://a", 1);
    let b2 = Backend::new("http://b", 1);

    let mut balancer = LeastConnections::new(vec![b1, b2]);
    // Simulate active connections
    balancer.backends[0].active_connections = 10;
    balancer.backends[1].active_connections = 2;
    let ctx = LoadBalancerContext { hash_key: None };

    let next = balancer.next(&ctx).unwrap();
    assert_eq!(next.url, "http://b"); // B has fewer connections

    // Now B spikes
    balancer.backends[1].active_connections = 15;
    let next2 = balancer.next(&ctx).unwrap();
    assert_eq!(next2.url, "http://a"); // Now A has fewer
}

#[test]
fn test_least_connections_skips_unhealthy() {
    let mut balancer = LeastConnections::new(vec![Backend::new("a", 1), Backend::new("b", 1)]);
    balancer.backends[0].health.set_draining();
    balancer.backends[1].active_connections = 99;
    let ctx = LoadBalancerContext { hash_key: None };
    assert_eq!(balancer.next(&ctx).unwrap().url, "b");
    balancer.backends[1].health.set_draining();
    assert!(balancer.next(&ctx).is_none());
}

#[test]
fn test_consistent_hashing() {
    let b1 = Backend::new("http://a", 1);
    let b2 = Backend::new("http://b", 1);
    let b3 = Backend::new("http://c", 1);

    let mut balancer = ConsistentHash::new(vec![b1, b2, b3], 100); // 100 vnodes

    let ctx1 = LoadBalancerContext { hash_key: Some("192.168.1.1".to_string()) };
    let ctx2 = LoadBalancerContext { hash_key: Some("10.0.0.5".to_string()) };

    let route1_a = balancer.next(&ctx1).unwrap().url;
    let route1_b = balancer.next(&ctx1).unwrap().url;
    assert_eq!(route1_a, route1_b, "Consistent hash should route same key to same backend");

    let route2_a = balancer.next(&ctx2).unwrap().url;
    let route2_b = balancer.next(&ctx2).unwrap().url;
    assert_eq!(route2_a, route2_b);
}

#[test]
fn test_consistent_hashing_spreads_keys() {
    let mut balancer = ConsistentHash::new(
        vec![Backend::new("http://a", 1), Backend::new("http://b", 1), Backend::new("http://c", 1)],
        100,
    );
    let mut seen = std::collections::HashSet::new();
    for i in 0..200 {
        let ctx = LoadBalancerContext { hash_key: Some(format!("client-{}", i)) };
        seen.insert(balancer.next(&ctx).unwrap().url);
    }
    assert_eq!(seen.len(), 3);
}

#[test]
fn test_consistent_hashing_no_backends() {
    let mut balancer = ConsistentHash::new(vec![], 10);
    assert!(balancer.next(&LoadBalancerContext { hash_key: None }).is_none());
}

#[test]
fn test_upstream_group_round_robin() {
    let mut group = UpstreamGroup::new("test", vec![Backend::new("a", 1), Backend::new("b", 1)]);
    let picks: Vec<String> = (0..4).map(|_| group.next().unwrap().url).collect();
    assert_eq!(picks, vec!["a", "b", "a", "b"]);
}

#[test]
fn test_upstream_group_health_skipping() {
    let b1 = Backend::new("http://a", 1);
    let b2 = Backend::new("http://b", 1);

    let mut group = UpstreamGroup::new("test", vec![b1, b2]);

    // Kill node B
    group.backends[1].health.record_failure();
    group.backends[1].health.record_failure();
    group.backends[1].health.record_failure();

    // Now any next() should return node A only
    for _ in 0..10 {
        let b = group.next().unwrap();
        assert_eq!(b.url, "http://a");
    }
}

#[test]
fn test_graceful_draining() {
    let b1 = Backend::new("http://a", 1);
    let b2 = Backend::new("http://b", 1);

    let mut group = UpstreamGroup::new("test", vec![b1, b2]);

    group.drain_backend("http://b");

    // B should be skipped
    for _ in 0..10 {
        let b = group.next().unwrap();
        assert_eq!(b.url, "http://a");
    }
}

#[test]
fn test_upstream_group_empty_and_all_down() {
    let mut group = UpstreamGroup::new("none", vec![]);
    assert!(group.next().is_none());
    group.add_backend(Backend::new("a", 1));
    group.drain_backend("a");
    assert!(group.next().is_none());
    assert_eq!(group.backends().len(), 1);
}
