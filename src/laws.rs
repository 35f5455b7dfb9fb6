//! Properties that hold across operations of the store.
use vstd::prelude::*;
use crate::eviction::{evict_outcome, pass_outcome};
use crate::store::{Cache, EntryView};

verus! {

/// Right after `put(key, value)` the store maps `key` to `value`, so a `get`
/// of `key` returns `value`.
pub proof fn lemma_put_then_get(before: Cache, after: Cache, key: Seq<char>, value: Seq<char>)
    requires
        after.entries() == before.entries().insert(key, (value, true, after.counter())),
    ensures
        after.entries().contains_key(key),
        after.entries()[key].0 == value,
{
}

/// A stored value stays until its key is written again or evicted: a `put`
/// of another key, a `get` of any key, and an eviction pass that keeps the
/// key leave its value as it was.
pub proof fn lemma_value_kept(
    m: Map<Seq<char>, EntryView>,
    key: Seq<char>,
    value: Seq<char>,
    other: Seq<char>,
    entry: EntryView,
    read: Seq<char>,
    seq: usize,
    after_pass: Map<Seq<char>, EntryView>,
    memory_pct: int,
    target: int,
)
    requires
        m.contains_key(key),
        m[key].0 == value,
    ensures
        other != key ==> m.insert(other, entry)[key].0 == value,
        m.contains_key(read) ==> m.insert(read, (m[read].0, true, seq))[key].0 == value,
        evict_outcome(m, after_pass, memory_pct, target) && after_pass.contains_key(key)
            ==> after_pass[key].0 == value,
{
}

/// Every `put`, and every `get` that finds its key, advances the counter by
/// one and stamps its entry with the new value, which is above every
/// sequence number the store held before: no two operations share one.
pub proof fn lemma_stamp_is_fresh(before: Cache, after: Cache)
    requires
        before.wf(),
        after.counter() == before.counter() + 1,
    ensures
        forall|k: Seq<char>| #[trigger]
            before.entries().contains_key(k) ==> before.entries()[k].2 < after.counter(),
{
}

/// An entry that one pass with work to do spared, and that no `get` or `put`
/// touched before the next pass with work to do, is gone after that pass.
pub proof fn lemma_untouched_entry_taken(
    m0: Map<Seq<char>, EntryView>,
    m1: Map<Seq<char>, EntryView>,
    m2: Map<Seq<char>, EntryView>,
    m3: Map<Seq<char>, EntryView>,
    key: Seq<char>,
    first_pct: int,
    first_target: int,
    second_pct: int,
    second_target: int,
)
    requires
        m0.len() > first_target,
        pass_outcome(m0, m1, first_pct, first_target),
        m1.contains_key(key),
        m2.contains_key(key),
        m2[key] == m1[key],
        m2.len() > second_target,
        pass_outcome(m2, m3, second_pct, second_target),
    ensures
        !m3.contains_key(key),
{
    assert(!m2[key].1);
}

} // verus!
