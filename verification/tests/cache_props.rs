use nero::cache::{Cache, CacheConfig};

#[test]
fn default_config_has_no_knobs() {
    let c = CacheConfig::default();
    assert!(c.image_ttl.is_none());
    assert!(c.image_capacity.is_none());
    assert!(c.video_ttl.is_none());
    assert!(c.video_capacity.is_none());
}

#[test]
fn get_returns_what_was_inserted() {
    let mut c: Cache<u32> = Cache::new();
    c.insert(7, 42, 1000);
    assert_eq!(c.get(7, 1000).copied(), Some(42));
    assert_eq!(c.get(8, 1000).copied(), None);
}

#[test]
fn entry_expires_at_ttl() {
    let mut c: Cache<u32> = Cache::new().with_ttl(500);
    c.insert(7, 42, 1000);
    assert_eq!(c.get(7, 1499).copied(), Some(42));
    // at exactly inserted-at + TTL the entry is gone
    assert_eq!(c.get(7, 1500).copied(), None);
    assert_eq!(c.get(7, 2000).copied(), None);
}

#[test]
fn capacity_evicts_oldest() {
    let mut c: Cache<u32> = Cache::new().with_capacity(2);
    c.insert(1, 10, 0);
    c.insert(2, 20, 1);
    c.insert(3, 30, 2);
    assert_eq!(c.get(1, 3).copied(), None);
    assert_eq!(c.get(2, 3).copied(), Some(20));
    assert_eq!(c.get(3, 3).copied(), Some(30));
}

#[test]
fn insert_replaces_same_key() {
    let mut c: Cache<u32> = Cache::new();
    c.insert(1, 10, 0);
    c.insert(1, 11, 1);
    assert_eq!(c.get(1, 2).copied(), Some(11));
}

#[test]
fn remove_consumes_entry() {
    let mut c: Cache<u32> = Cache::new();
    c.insert(1, 10, 0);
    assert_eq!(c.remove(1, 1), Some(10));
    assert_eq!(c.remove(1, 1), None);
    assert_eq!(c.get(1, 1).copied(), None);
}

#[test]
fn remove_of_expired_entry_returns_none() {
    let mut c: Cache<u32> = Cache::new().with_ttl(10);
    c.insert(1, 10, 0);
    assert_eq!(c.remove(1, 50), None);
}
