use ratecache::cache::{Cache, CacheEntry, CACHE_TTL_MS, DEFAULT_MAX_SIZE};

#[test]
fn put_then_get_within_ttl_returns_the_value() {
    let mut c = Cache::new(DEFAULT_MAX_SIZE);
    c.put("games".to_string(), "payload".to_string(), 1_000);
    assert_eq!(c.get("games", 1_000), Some("payload".to_string()));
    // The whole lifetime window, boundary included.
    assert_eq!(c.get("games", 1_000 + CACHE_TTL_MS), Some("payload".to_string()));
}

#[test]
fn expired_entry_is_absent_and_removed() {
    let mut c = Cache::new(10);
    c.put("k".to_string(), "v".to_string(), 1_000);
    assert_eq!(c.len(), 1);
    assert_eq!(c.get("k", 1_000 + CACHE_TTL_MS + 1), None);
    assert_eq!(c.len(), 0);
}

#[test]
fn full_cache_of_one_evicts_the_older_key() {
    let mut c = Cache::new(1);
    c.put("a".to_string(), "1".to_string(), 0);
    c.put("b".to_string(), "2".to_string(), 0);
    assert_eq!(c.get("a", 0), None);
    assert_eq!(c.get("b", 0), Some("2".to_string()));
}

#[test]
fn capacity_is_never_exceeded() {
    let mut c = Cache::new(3);
    for i in 0..4 {
        c.put(format!("key{}", i), format!("val{}", i), 0);
        assert!(c.len() <= 3);
    }
    assert_eq!(c.len(), 3);
    // The entry held longest went first.
    assert_eq!(c.get("key0", 0), None);
    assert_eq!(c.get("key3", 0), Some("val3".to_string()));
}

#[test]
fn overwrite_replaces_payload_and_resets_write_time() {
    let mut c = Cache::new(10);
    c.put("k".to_string(), "old".to_string(), 0);
    c.put("k".to_string(), "new".to_string(), 200_000);
    assert_eq!(c.len(), 1);
    // Beyond the first write's window, but within the second's.
    assert_eq!(c.get("k", 400_000), Some("new".to_string()));
    // Beyond the second write's window.
    assert_eq!(c.get("k", 500_001), None);
}

#[test]
fn missing_key_answers_none() {
    let mut c = Cache::new(10);
    assert_eq!(c.get("absent", 0), None);
    c.put("present".to_string(), "x".to_string(), 0);
    assert_eq!(c.get("absent", 0), None);
    assert_eq!(c.len(), 1);
}

#[test]
fn entry_expiry_boundaries() {
    let e = CacheEntry { data: "d".to_string(), timestamp_ms: 1_000, ttl_ms: 500 };
    assert!(!e.is_expired(1_000));
    // Exactly the lifetime: still fresh; staleness is strict.
    assert!(!e.is_expired(1_500));
    assert!(e.is_expired(1_501));
    // A clock reading behind the write time counts as stale.
    assert!(e.is_expired(999));
}
