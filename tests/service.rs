use kv_cache::service::{validate_write, WriteError, MAX_FIELD_BYTES};
use kv_cache::store::Cache;

#[test]
fn fields_of_exactly_256_bytes_are_accepted() {
    let k = "k".repeat(256);
    let v = "v".repeat(256);
    assert_eq!(validate_write(&k, &v), Ok(()));
    assert_eq!(MAX_FIELD_BYTES, 256);
}

#[test]
fn fields_of_257_bytes_are_rejected() {
    let long = "x".repeat(257);
    assert_eq!(validate_write(&long, "v"), Err(WriteError::TooLong));
    assert_eq!(validate_write("k", &long), Err(WriteError::TooLong));
}

#[test]
fn limit_counts_bytes_not_characters() {
    let k = "é".repeat(128);
    assert_eq!(validate_write(&k, "v"), Ok(()));
    let k = "é".repeat(129);
    assert_eq!(validate_write(&k, "v"), Err(WriteError::TooLong));
}

#[test]
fn oversized_write_never_reaches_store() {
    let mut c = Cache::new();
    let r = c.write("k".to_string(), "v".repeat(257), 10);
    assert_eq!(r, Err(WriteError::TooLong));
    assert_eq!(c.size(), 0);
    assert_eq!(c.access_counter(), 0);
    assert_eq!(WriteError::TooLong.message(), "Key or Value exceeds 256 characters.");
}

#[test]
fn write_stores_value() {
    let mut c = Cache::new();
    assert_eq!(c.write("k".to_string(), "v".to_string(), 10), Ok(0));
    assert_eq!(c.recency("k"), Some((true, 1)));
    assert_eq!(c.get("k"), Some("v".to_string()));
}

#[test]
fn critical_write_runs_eviction_first() {
    let mut c = Cache::new();
    for i in 0..3 {
        c.put(format!("k{i}"), format!("v{i}"));
    }
    assert_eq!(c.write("new".to_string(), "n".to_string(), 97), Ok(0));
    assert_eq!(c.size(), 4);
    assert_eq!(c.get("new"), Some("n".to_string()));
}
