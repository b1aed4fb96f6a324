use cloudcontrol::pool::screenshot_cache::ScreenshotCache;
use std::time::{Duration, Instant};

#[test]
fn test_cache_set_and_get() {
    let mut cache = ScreenshotCache::new(10, Duration::from_secs(10));
    cache.set("key1", vec![1, 2, 3]);
    let result = cache.get("key1");
    assert_eq!(result, Some(vec![1, 2, 3]));
}

#[test]
fn test_cache_get_nonexistent() {
    let mut cache = ScreenshotCache::new(10, Duration::from_secs(10));
    assert!(cache.get("nonexistent").is_none());
}

#[test]
fn test_cache_ttl_expiry() {
    let mut cache = ScreenshotCache::new(10, Duration::from_millis(1));
    cache.set("key1", vec![1, 2, 3]);
    // Wait for TTL to expire
    let start = Instant::now();
    while start.elapsed() < Duration::from_millis(10) {}
    assert!(cache.get("key1").is_none());
    assert_eq!(cache.len(), 0);
}

#[test]
fn test_cache_max_size_eviction() {
    let mut cache = ScreenshotCache::new(2, Duration::from_secs(10));
    cache.set("key1", vec![1]);
    cache.set("key2", vec![2]);
    // Third insert should evict one entry
    cache.set("key3", vec![3]);
    // Total entries should not exceed max_size
    let total = cache.len();
    assert!(total <= 2, "Cache should evict when full, got {} entries", total);
}

#[test]
fn cache_replaces_and_keeps_newest() {
    let mut cache = ScreenshotCache::new(1, Duration::from_secs(10));
    cache.set("a", vec![1]);
    cache.set("b", vec![2]);
    assert_eq!(cache.len(), 1);
    assert_eq!(cache.get("b"), Some(vec![2]));
    assert_eq!(cache.get("a"), None);
    let mut zero = ScreenshotCache::new(0, Duration::from_secs(10));
    zero.set("x", vec![9]);
    zero.set("y", vec![8]);
    assert_eq!(zero.len(), 1);
    assert_eq!(zero.get("y"), Some(vec![8]));
}

#[test]
fn test_pending_register_and_subscribe() {
    let mut cache = ScreenshotCache::new(10, Duration::from_secs(10));
    let _sender = cache.register_pending("key1");
    // Another caller should be able to subscribe
    let rx = cache.try_subscribe("key1");
    assert!(rx.is_some(), "Should be able to subscribe to pending request");
}

#[test]
fn test_pending_clear() {
    let mut cache = ScreenshotCache::new(10, Duration::from_secs(10));
    let _sender = cache.register_pending("key1");
    cache.clear_pending("key1");
    assert!(cache.try_subscribe("key1").is_none());
}

#[test]
fn test_pending_no_existing() {
    let cache = ScreenshotCache::new(10, Duration::from_secs(10));
    assert!(cache.try_subscribe("nonexistent").is_none());
}

#[test]
fn pending_result_reaches_subscriber() {
    let mut cache = ScreenshotCache::new(10, Duration::from_secs(10));
    let sender = cache.register_pending("k");
    let rx = cache.try_subscribe("k").unwrap();
    sender.send(Some(vec![7])).unwrap();
    assert_eq!(*rx.borrow(), Some(vec![7]));
}

#[test]
fn cache_resolve_fresh_stale_and_missing() {
    let mut cache = ScreenshotCache::new(10, Duration::from_secs(10));
    cache.set("k", vec![1, 2]);
    assert_eq!(cache.resolve("k", Some((vec![1, 2], Duration::from_secs(3)))), Some(vec![1, 2]));
    assert_eq!(cache.len(), 1);
    assert_eq!(cache.resolve("k", None), None);
    assert_eq!(cache.len(), 1);
    assert_eq!(cache.resolve("k", Some((vec![1, 2], Duration::from_secs(10)))), None);
    assert_eq!(cache.len(), 0);
    assert_eq!(cache.get("k"), None);
}

#[test]
fn cache_store_with_time() {
    let mut cache = ScreenshotCache::new(10, Duration::from_secs(10));
    cache.store("old", vec![7], Instant::now());
    assert_eq!(cache.get("old"), Some(vec![7]));
    let mut short = ScreenshotCache::new(10, Duration::from_millis(5));
    let then = Instant::now();
    while then.elapsed() < Duration::from_millis(20) {}
    short.store("k", vec![1], then);
    assert_eq!(short.get("k"), None);
    assert_eq!(short.len(), 0);
}

#[test]
fn cache_zero_ttl_is_never_fresh() {
    let mut cache = ScreenshotCache::new(10, Duration::ZERO);
    cache.set("k", vec![1]);
    assert_eq!(cache.get("k"), None);
    assert_eq!(cache.resolve("k", Some((vec![1], Duration::ZERO))), None);
}

#[test]
fn subscriber_sees_what_the_registered_sender_publishes() {
    let mut cache = ScreenshotCache::new(10, Duration::from_secs(10));
    let tx = cache.register_pending("key1");
    let rx = cache.try_subscribe("key1").expect("a request is in flight");
    tx.send(Some(vec![4, 5])).unwrap();
    assert_eq!(*rx.borrow(), Some(vec![4, 5]));
    let tx2 = cache.register_pending("key1");
    let rx2 = cache.try_subscribe("key1").unwrap();
    tx2.send(Some(vec![6])).unwrap();
    assert_eq!(*rx2.borrow(), Some(vec![6]));
    assert_eq!(*rx.borrow(), Some(vec![4, 5]));
}
