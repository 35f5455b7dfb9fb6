use kv_cache::store::{Cache, CacheEntry};

#[test]
fn new_entry_is_recently_used() {
    let e = CacheEntry::new("v".to_string(), 7);
    assert_eq!(e.value, "v");
    assert!(e.use_bit);
    assert_eq!(e.last_access, 7);
}

#[test]
fn touch_and_clear_use() {
    let mut e = CacheEntry::new("v".to_string(), 1);
    e.clear_use();
    assert!(!e.use_bit);
    assert_eq!(e.last_access, 1);
    assert_eq!(e.touch(9), "v");
    assert!(e.use_bit);
    assert_eq!(e.last_access, 9);
}

#[test]
fn get_returns_what_put_stored() {
    let mut c = Cache::new();
    c.put("k".to_string(), "v1".to_string());
    assert_eq!(c.get("k"), Some("v1".to_string()));
    c.put("other".to_string(), "x".to_string());
    assert_eq!(c.get("k"), Some("v1".to_string()));
    c.put("k".to_string(), "v2".to_string());
    assert_eq!(c.get("k"), Some("v2".to_string()));
    assert_eq!(c.size(), 2);
}

#[test]
fn get_of_missing_key_changes_nothing() {
    let mut c = Cache::new();
    c.put("a".to_string(), "1".to_string());
    assert_eq!(c.get("missing"), None);
    assert_eq!(c.access_counter(), 1);
    assert_eq!(c.recency("a"), Some((true, 1)));
}

#[test]
fn sequence_strictly_increases() {
    let mut c = Cache::new();
    assert_eq!(c.access_counter(), 0);
    c.put("a".to_string(), "1".to_string());
    assert_eq!(c.recency("a"), Some((true, 1)));
    c.put("b".to_string(), "2".to_string());
    assert_eq!(c.recency("b"), Some((true, 2)));
    c.get("a");
    assert_eq!(c.recency("a"), Some((true, 3)));
    c.get("b");
    c.get("a");
    assert_eq!(c.recency("b"), Some((true, 4)));
    assert_eq!(c.recency("a"), Some((true, 5)));
    assert_eq!(c.access_counter(), 5);
}

#[test]
fn remove_is_idempotent() {
    let mut c = Cache::new();
    c.put("a".to_string(), "1".to_string());
    c.remove("a");
    assert_eq!(c.size(), 0);
    c.remove("a");
    assert_eq!(c.size(), 0);
    assert_eq!(c.get("a"), None);
    assert_eq!(c.recency("a"), None);
}
