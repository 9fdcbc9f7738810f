use bastion::lru::LruShard;
use bastion::sharded::ShardedLruCache;

fn now_millis() -> u64 {
    std::time::SystemTime::now()
        .duration_since(std::time::UNIX_EPOCH)
        .unwrap()
        .as_millis() as u64
}

fn b(s: &str) -> Vec<u8> {
    s.as_bytes().to_vec()
}

#[test]
fn test_lru_shard_put_get() {
    let mut shard = LruShard::new(5, 0);
    shard.put("k1".to_string(), b("v1"), None);
    assert_eq!(shard.get("k1"), Some(b("v1")));
    assert_eq!(shard.get("k2"), None);
}

#[test]
fn test_lru_eviction() {
    // Capacity 3
    let mut shard = LruShard::new(3, 0);
    shard.put("k1".to_string(), b("v1"), None);
    shard.put("k2".to_string(), b("v2"), None);
    shard.put("k3".to_string(), b("v3"), None);

    // Cache is full. k1 is LRU.
    // Insert k4, should evict k1.
    shard.put("k4".to_string(), b("v4"), None);
    assert_eq!(shard.get("k1"), None);
    assert_eq!(shard.get("k2"), Some(b("v2")));

    // Access k2 moves it to MRU. LRU is now k3.
    // Insert k5, should evict k3.
    shard.put("k5".to_string(), b("v5"), None);
    assert_eq!(shard.get("k3"), None);
    assert_eq!(shard.get("k2"), Some(b("v2")));
    assert_eq!(shard.get("k4"), Some(b("v4")));
    assert_eq!(shard.get("k5"), Some(b("v5")));
}

#[test]
fn test_ttl_eviction() {
    let mut shard = LruShard::new(5, 0);
    shard.put("k1".to_string(), b("v1"), Some(now_millis() - 1000));

    // Should return None because it is expired
    assert_eq!(shard.get("k1"), None);
}

#[test]
fn test_ttl_at_given_times() {
    let mut shard = LruShard::new(5, 0);
    shard.put("k1".to_string(), b("v1"), Some(5_000));
    assert_eq!(shard.get_at("k1", 4_999), Some(b("v1")));
    assert_eq!(shard.get_at("k1", 5_000), Some(b("v1")));
    assert_eq!(shard.get_at("k1", 5_001), None);
    // an expired entry is gone for good
    assert_eq!(shard.get_at("k1", 1_000), None);
}

#[test]
fn test_sharded_cache() {
    let mut cache = ShardedLruCache::new(8, 10, 0);
    cache.put("user:1".to_string(), b("data1"), None);
    cache.put("user:2".to_string(), b("data2"), None);

    assert_eq!(cache.get("user:1"), Some(b("data1")));
    assert_eq!(cache.get("user:2"), Some(b("data2")));
    assert_eq!(cache.get("user:3"), None);

    assert!(cache.remove("user:1"));
    assert_eq!(cache.get("user:1"), None);
}

#[test]
fn test_sharded_cache_metrics() {
    let mut cache = ShardedLruCache::new(1, 1, 0);
    cache.put("a".to_string(), b("xyz"), None);
    cache.put("b".to_string(), b("q"), None);
    assert_eq!(cache.get("a"), None);
    assert_eq!(cache.get("b"), Some(b("q")));
    let m = cache.metrics();
    assert_eq!(m.hits, 1);
    assert_eq!(m.misses, 1);
    assert_eq!(m.evictions, 1);
    assert_eq!(m.bytes_stored, 4);
}

#[test]
fn test_max_bytes_eviction() {
    // Max 10 bytes
    let mut shard = LruShard::new(10, 10);

    // 4 bytes
    shard.put("k1".to_string(), b("abcd"), None);
    // 4 bytes (total 8)
    shard.put("k2".to_string(), b("efgh"), None);
    // 4 bytes (total 12 -> evicts k1)
    shard.put("k3".to_string(), b("ijkl"), None);

    assert_eq!(shard.get("k1"), None);
    assert_eq!(shard.get("k3"), Some(b("ijkl")));
}

#[test]
fn test_put_replaces_value() {
    let mut shard = LruShard::new(2, 0);
    shard.put("k".to_string(), b("old"), None);
    shard.put("k".to_string(), b("new"), None);
    assert_eq!(shard.get("k"), Some(b("new")));
    assert!(shard.remove("k"));
    assert!(!shard.remove("k"));
}

#[test]
fn test_shard_through_mixed_operations() {
    let mut shard = LruShard::new(2, 8);
    shard.put("a".to_string(), b"1234".to_vec(), None);
    shard.put("b".to_string(), b"56".to_vec(), None);
    shard.put("a".to_string(), b"xy".to_vec(), None);
    assert_eq!(shard.get("a"), Some(b"xy".to_vec()));
    assert!(shard.remove("b"));
    shard.put("c".to_string(), b"123456".to_vec(), None);
    shard.put("d".to_string(), b"7".to_vec(), None);
    let live: Vec<&str> = ["a", "b", "c", "d"].into_iter().filter(|k| shard.get(k).is_some()).collect();
    assert!(live.len() <= 2);
    assert_eq!(shard.get("d"), Some(b"7".to_vec()));
    assert_eq!(shard.get("b"), None);
    assert!(shard.stored_bytes() <= 8);
}
