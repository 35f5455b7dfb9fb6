use kv_cache::store::Cache;

fn filled(n: usize) -> Cache {
    let mut c = Cache::new();
    for i in 0..n {
        c.put(format!("k{i}"), format!("v{i}"));
    }
    c
}

#[test]
fn flags_after_put_put_get_and_noop_pass() {
    let mut c = Cache::new();
    c.put("a".to_string(), "1".to_string());
    c.put("b".to_string(), "2".to_string());
    assert_eq!(c.get("a"), Some("1".to_string()));
    assert_eq!(c.recency("a"), Some((true, 3)));
    assert_eq!(c.recency("b"), Some((true, 2)));
    assert_eq!(c.evict(50), 0);
    assert_eq!(c.size(), 2);
    assert_eq!(c.recency("a"), Some((true, 3)));
    assert_eq!(c.recency("b"), Some((true, 2)));
    assert_eq!(c.get("a"), Some("1".to_string()));
    assert_eq!(c.get("b"), Some("2".to_string()));
}

#[test]
fn noop_pass_under_target_keeps_flags() {
    let mut c = filled(10);
    assert_eq!(c.evict_to(60, 10), 0);
    for i in 0..10 {
        assert_eq!(c.recency(&format!("k{i}")), Some((true, i + 1)));
    }
}

#[test]
fn pressure_pass_takes_oldest_when_all_recent() {
    let mut c = filled(1000);
    let removed = c.evict_to(80, 500);
    assert_eq!(removed, 500);
    assert_eq!(c.size(), 500);
    for i in 0..500 {
        assert_eq!(c.recency(&format!("k{i}")), None);
    }
    for i in 500..1000 {
        assert_eq!(c.recency(&format!("k{i}")), Some((false, i + 1)));
    }
}

#[test]
fn pressure_pass_prefers_unflagged_then_oldest() {
    let mut c = filled(1000);
    // A first pass under the threshold clears every flag and takes nothing.
    assert_eq!(c.evict_to(50, 999), 0);
    // Touch 600 entries, oldest-numbered last, so that their age order flips.
    for i in (400..1000).rev() {
        c.get(&format!("k{i}"));
    }
    let removed = c.evict_to(80, 500);
    assert_eq!(removed, 500);
    assert_eq!(c.size(), 500);
    // The 400 untouched entries go first, then the 100 touched longest ago.
    for i in 0..400 {
        assert_eq!(c.recency(&format!("k{i}")), None);
    }
    for i in 900..1000 {
        assert_eq!(c.recency(&format!("k{i}")), None);
    }
    for i in 400..900 {
        assert_eq!(c.recency(&format!("k{i}")).map(|r| r.0), Some(false));
    }
}

#[test]
fn sweep_alone_when_it_takes_enough() {
    let mut c = filled(10);
    assert_eq!(c.evict_to(50, 5), 0);
    c.get("k0");
    c.get("k1");
    // Eight unflagged entries exceed the excess of five: all eight go.
    assert_eq!(c.evict_to(90, 5), 8);
    assert_eq!(c.size(), 2);
    assert_eq!(c.get("k0"), Some("v0".to_string()));
    assert_eq!(c.get("k1"), Some("v1".to_string()));
}

#[test]
fn no_fallback_below_threshold() {
    let mut c = filled(100);
    assert_eq!(c.evict_to(50, 10), 0);
    assert_eq!(c.size(), 100);
    for i in 0..100 {
        assert_eq!(c.recency(&format!("k{i}")).map(|r| r.0), Some(false));
    }
}

#[test]
fn untouched_entry_gone_after_two_passes() {
    let mut c = filled(20);
    assert_eq!(c.evict_to(50, 10), 0);
    for i in 0..5 {
        c.get(&format!("k{i}"));
    }
    assert_eq!(c.evict_to(50, 10), 15);
    assert_eq!(c.size(), 5);
    assert_eq!(c.recency("k10"), None);
    assert_eq!(c.get("k3"), Some("v3".to_string()));
}

#[test]
fn planner_target_drives_evict() {
    let mut c = filled(3);
    assert_eq!(c.evict(99), 0);
    assert_eq!(c.size(), 3);
    assert_eq!(c.recency("k0"), Some((true, 1)));
}
