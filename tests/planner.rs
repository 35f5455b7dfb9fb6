use kv_cache::planner::{
    estimated_usage_percent, target_capacity, usage_percent, DEFAULT_MAX_ENTRIES,
    MIN_MAX_ENTRIES,
};

#[test]
fn default_capacity_at_or_below_threshold() {
    assert_eq!(target_capacity(0), 100_000);
    assert_eq!(target_capacity(50), 100_000);
    assert_eq!(target_capacity(70), 100_000);
}

#[test]
fn capacity_decays_linearly_above_threshold() {
    assert_eq!(target_capacity(71), 96_667);
    assert_eq!(target_capacity(76), 80_000);
    assert_eq!(target_capacity(80), 66_667);
    assert_eq!(target_capacity(85), 50_000);
    assert_eq!(target_capacity(94), 20_000);
}

#[test]
fn capacity_floors_at_a_fifth_of_default() {
    assert_eq!(target_capacity(95), 20_000);
    assert_eq!(target_capacity(100), 20_000);
    assert_eq!(target_capacity(250), 20_000);
}

#[test]
fn capacity_never_below_floor_under_pressure() {
    for pct in 70..=100usize {
        let t = target_capacity(pct);
        assert!(t * 5 >= DEFAULT_MAX_ENTRIES, "pct {pct} gave {t}");
        assert!(t >= MIN_MAX_ENTRIES);
    }
}

#[test]
fn capacity_is_non_increasing_in_pressure() {
    let mut last = target_capacity(0);
    for pct in 1..=100usize {
        let t = target_capacity(pct);
        assert!(t <= last);
        last = t;
    }
}

#[test]
fn estimate_from_entry_count() {
    assert_eq!(estimated_usage_percent(0), 0);
    assert_eq!(estimated_usage_percent(167_772), 0);
    assert_eq!(estimated_usage_percent(167_773), 1);
    assert_eq!(estimated_usage_percent(8_388_608), 50);
    assert_eq!(estimated_usage_percent(16_777_216), 100);
    assert_eq!(estimated_usage_percent(usize::MAX), 100);
}

#[test]
fn measured_usage_wins_over_estimate() {
    assert_eq!(usage_percent(Some(42), 16_777_216), 42);
    assert_eq!(usage_percent(Some(150), 0), 100);
    assert_eq!(usage_percent(None, 8_388_608), 50);
    assert_eq!(usage_percent(None, 0), 0);
}
