//! Capacity planning: from memory utilisation to a target entry count.
use vstd::prelude::*;

verus! {

/// Entry budget while memory utilisation is at or below the threshold.
pub const DEFAULT_MAX_ENTRIES: usize = 100_000;

/// Memory utilisation (percent) above which the budget shrinks.
pub const MEMORY_THRESHOLD_PERCENT: usize = 70;

/// Memory utilisation (percent) at which a write first runs an eviction pass.
pub const CRITICAL_MEMORY_PERCENT: usize = 95;

/// Smallest budget the planner ever hands out: a fifth of the default.
pub const MIN_MAX_ENTRIES: usize = 20_000;

/// Assumed bytes per entry (key, value and metadata) for the fallback estimate.
pub const ESTIMATED_ENTRY_BYTES: usize = 128;

/// Assumed total memory in bytes for the fallback estimate (2 GiB).
pub const ASSUMED_TOTAL_MEMORY: usize = 2_147_483_648;

/// Headroom left below 100 percent, as a percentage: `100 - pct`, or 0.
pub open spec fn headroom(memory_pct: int) -> int {
    if memory_pct >= 100 { 0 } else { 100 - memory_pct }
}

/// The target entry count for a memory utilisation: the default at or below
/// the threshold; above it, the default scaled by `headroom / 30`, rounded
/// to the nearest integer (halves up), and never below a fifth of the default.
pub open spec fn target_capacity_spec(memory_pct: int) -> int {
    if memory_pct <= MEMORY_THRESHOLD_PERCENT {
        DEFAULT_MAX_ENTRIES as int
    } else {
        let scaled = (2 * DEFAULT_MAX_ENTRIES * headroom(memory_pct) + (100 - MEMORY_THRESHOLD_PERCENT))
            / (2 * (100 - MEMORY_THRESHOLD_PERCENT));
        if scaled < MIN_MAX_ENTRIES { MIN_MAX_ENTRIES as int } else { scaled }
    }
}

/// Maps a memory utilisation percentage to the cache's target entry count.
pub fn target_capacity(memory_pct: usize) -> (r: usize)
    ensures
        r == target_capacity_spec(memory_pct as int),
        MIN_MAX_ENTRIES <= r <= DEFAULT_MAX_ENTRIES,
{
    if memory_pct <= MEMORY_THRESHOLD_PERCENT {
        DEFAULT_MAX_ENTRIES
    } else {
        let headroom: usize = if memory_pct >= 100 { 0 } else { 100 - memory_pct };
        let scaled: usize = (2 * DEFAULT_MAX_ENTRIES * headroom + (100 - MEMORY_THRESHOLD_PERCENT))
            / (2 * (100 - MEMORY_THRESHOLD_PERCENT));
        if scaled < MIN_MAX_ENTRIES {
            MIN_MAX_ENTRIES
        } else {
            scaled
        }
    }
}

/// Under any memory utilisation from the threshold up to 100 percent, the
/// planner's target is at least a fifth of the default entry budget.
pub proof fn lemma_capacity_floor(memory_pct: int)
    requires
        MEMORY_THRESHOLD_PERCENT <= memory_pct <= 100,
    ensures
        target_capacity_spec(memory_pct) >= DEFAULT_MAX_ENTRIES / 5,
{
}

/// The memory-utilisation estimate used when no measurement is available:
/// entry count times the assumed entry size, as a whole percentage of the
/// assumed total memory, capped at 100.
pub open spec fn estimated_usage_spec(entry_count: int) -> int {
    let pct = entry_count * ESTIMATED_ENTRY_BYTES * 100 / ASSUMED_TOTAL_MEMORY as int;
    if pct > 100 { 100 } else { pct }
}

/// Estimates memory utilisation from the number of cached entries.
pub fn estimated_usage_percent(entry_count: usize) -> (r: usize)
    ensures
        r == estimated_usage_spec(entry_count as int),
        r <= 100,
{
    let bytes: u128 = entry_count as u128 * (ESTIMATED_ENTRY_BYTES as u128) * 100;
    let pct: u128 = bytes / (ASSUMED_TOTAL_MEMORY as u128);
    if pct > 100 {
        100
    } else {
        pct as usize
    }
}

/// The memory utilisation handed to the planner: a measured percentage
/// (capped at 100) when there is one, else the estimate from the entry count.
pub open spec fn usage_percent_spec(measured: Option<usize>, entry_count: int) -> int {
    match measured {
        Some(p) => if p > 100 { 100 } else { p as int },
        None => estimated_usage_spec(entry_count),
    }
}

/// Combines an optional measurement with the entry-count fallback, so that
/// a usable percentage in `[0, 100]` comes out whether or not measuring worked.
pub fn usage_percent(measured: Option<usize>, entry_count: usize) -> (r: usize)
    ensures
        r == usage_percent_spec(measured, entry_count as int),
        r <= 100,
{
    match measured {
        Some(p) => if p > 100 { 100 } else { p },
        None => estimated_usage_percent(entry_count),
    }
}

} // verus!
