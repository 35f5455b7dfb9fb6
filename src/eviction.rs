//! The eviction engine: a clock sweep that gives each recently used entry a
//! second chance, then, under memory pressure, an oldest-access-first pass
//! that meets whatever quota the sweep left open.
use vstd::prelude::*;
use crate::planner::{target_capacity, target_capacity_spec, MEMORY_THRESHOLD_PERCENT};
use crate::store::{
    entries_of, is_snapshot, map_clear_use, map_len, map_remove, map_snapshot, Cache, EntryView,
};

verus! {

broadcast use vstd::seq_lib::group_seq_properties;

/// `k` has an entry in `m`, flagged as recently used.
pub open spec fn recently_used(m: Map<Seq<char>, EntryView>, k: Seq<char>) -> bool {
    m.contains_key(k) && m[k].1
}

/// `k` was recently used before the pass and is gone after it: it was taken
/// by the oldest-access-first fallback, not by the clock sweep.
pub open spec fn taken_by_age(
    before: Map<Seq<char>, EntryView>,
    after: Map<Seq<char>, EntryView>,
    k: Seq<char>,
) -> bool {
    recently_used(before, k) && !after.contains_key(k)
}

/// What a pass that had work to do leaves behind, at memory utilisation
/// `memory_pct` and with entry target `target`:
/// - only entries that were recently used survive, with the flag cleared and
///   value and last access unchanged (the clock sweep);
/// - a recently used entry that was taken is older than every survivor;
/// - below the threshold, every recently used entry survives;
/// - at or above it, at most the target remains, and where a recently used
///   entry was taken, exactly the target remains.
pub open spec fn pass_outcome(
    before: Map<Seq<char>, EntryView>,
    after: Map<Seq<char>, EntryView>,
    memory_pct: int,
    target: int,
) -> bool {
    &&& forall|k: Seq<char>| #[trigger]
        after.contains_key(k) ==> recently_used(before, k) && after[k] == (
            before[k].0,
            false,
            before[k].2,
        )
    &&& forall|k: Seq<char>, k2: Seq<char>|
        #[trigger] taken_by_age(before, after, k) && #[trigger] after.contains_key(k2)
            ==> before[k].2 < before[k2].2
    &&& memory_pct < MEMORY_THRESHOLD_PERCENT ==> forall|k: Seq<char>| #[trigger]
        recently_used(before, k) ==> after.contains_key(k)
    &&& memory_pct >= MEMORY_THRESHOLD_PERCENT ==> after.len() <= target
    &&& (exists|k: Seq<char>| #[trigger] taken_by_age(before, after, k)) ==> after.len() == target
}

/// The snapshot entries that `order` points at come in ascending last access.
pub open spec fn ascending_access(order: Seq<usize>, snap: Seq<(String, bool, usize)>) -> bool {
    forall|a: int, b: int|
        0 <= a < b < order.len() ==> snap[#[trigger] order[a] as int].2 <= snap[#[trigger] order[
            b
        ] as int].2
}

/// What an eviction pass toward `target` leaves behind: the store as it was
/// where it was at or under the target, else the outcome described above.
pub open spec fn evict_outcome(
    before: Map<Seq<char>, EntryView>,
    after: Map<Seq<char>, EntryView>,
    memory_pct: int,
    target: int,
) -> bool {
    &&& before.len() <= target ==> after == before
    &&& before.len() > target ==> pass_outcome(before, after, memory_pct, target)
}

/// Relies on `slice::sort_by_key`: the indices are reordered, none added or
/// lost, so that the last access they point at never decreases.
#[verifier::external_body]
fn sort_by_access(order: &mut Vec<usize>, snap: &Vec<(String, bool, usize)>)
    requires
        forall|t: int| 0 <= t < old(order)@.len() ==> old(order)@[t] < snap@.len(),
    ensures
        final(order)@.to_multiset() == old(order)@.to_multiset(),
        ascending_access(final(order)@, snap@),
{
    order.sort_by_key(|&j| snap[j].2);
}

impl Cache {
    /// Brings the store back toward the planner's target at memory
    /// utilisation `memory_pct`, and returns how many entries it removed.
    pub fn evict(&mut self, memory_pct: usize) -> (r: usize)
        requires
            old(self).wf(),
        ensures
            final(self).wf(),
            final(self).counter() == old(self).counter(),
            r == old(self).entries().len() - final(self).entries().len(),
            evict_outcome(
                old(self).entries(),
                final(self).entries(),
                memory_pct as int,
                target_capacity_spec(memory_pct as int),
            ),
    {
        let target = target_capacity(memory_pct);
        self.evict_to(memory_pct, target)
    }

    /// Brings the store back toward `target` entries at memory utilisation
    /// `memory_pct`, and returns how many entries it removed.
    ///
    /// At or under the target nothing changes. Over it, a clock sweep clears
    /// the recent-use flag of every entry that has it and takes every entry
    /// that lacks it; then, where that took fewer than the excess and memory
    /// utilisation is at or above the threshold, the recently used entries
    /// with the oldest last access are taken until the excess is met.
    pub fn evict_to(&mut self, memory_pct: usize, target: usize) -> (r: usize)
        requires
            old(self).wf(),
        ensures
            final(self).wf(),
            final(self).counter() == old(self).counter(),
            r == old(self).entries().len() - final(self).entries().len(),
            evict_outcome(old(self).entries(), final(self).entries(), memory_pct as int, target as int),
    {
        proof {
            self.lemma_unfold();
        }
        let ghost m0 = entries_of(self.map);
        let current = map_len(&self.map);
        if current <= target {
            return 0;
        }
        let need: usize = current - target;
        let snap = map_snapshot(&self.map);
        let n = snap.len();

        // Clock sweep: clear each set flag, take each entry whose flag is clear,
        // and keep the indices of the spared entries for the fallback.
        let mut to_evict: Vec<String> = Vec::new();
        let mut order: Vec<usize> = Vec::new();
        let ghost mut marked: Seq<int> = Seq::empty();
        let mut i: usize = 0;
        while i < n
            invariant
                n == snap@.len(),
                is_snapshot(snap@, m0),
                0 <= i <= n,
                self.access_counter == old(self).access_counter,
                to_evict@.len() + order@.len() == i,
                marked.len() == to_evict@.len(),
                forall|t: int|
                    0 <= t < marked.len() ==> 0 <= #[trigger] marked[t] < i && !snap@[marked[t]].1
                        && to_evict@[t]@ == snap@[marked[t]].0@,
                forall|a: int, b: int|
                    0 <= a < b < marked.len() ==> #[trigger] marked[a] < #[trigger] marked[b],
                forall|j: int| 0 <= j < i && !#[trigger] snap@[j].1 ==> marked.contains(j),
                forall|t: int|
                    0 <= t < order@.len() ==> #[trigger] order@[t] < i && snap@[order@[t] as int].1,
                forall|a: int, b: int|
                    0 <= a < b < order@.len() ==> #[trigger] order@[a] < #[trigger] order@[b],
                forall|j: int| 0 <= j < i && #[trigger] snap@[j].1 ==> order@.contains(j as usize),
                entries_of(self.map).dom() == m0.dom(),
                forall|k: Seq<char>| #[trigger]
                    m0.contains_key(k) ==> entries_of(self.map)[k].0 == m0[k].0 && entries_of(
                        self.map,
                    )[k].2 == m0[k].2,
                forall|j: int| 0 <= j < i ==> !entries_of(self.map)[#[trigger] snap@[j].0@].1,
                forall|j: int|
                    i <= j < n ==> entries_of(self.map)[#[trigger] snap@[j].0@] == m0[snap@[j].0@],
            decreases n - i,
        {
            if snap[i].1 {
                map_clear_use(&mut self.map, &snap[i].0);
                order.push(i);
                proof {
                    assert(order@.last() == i);
                }
            } else {
                to_evict.push(snap[i].0.clone());
                proof {
                    marked = marked.push(i as int);
                    assert(marked.last() == i);
                }
            }
            i += 1;
        }
        let ghost m1 = entries_of(self.map);
        let n1 = to_evict.len();
        proof {
            assert forall|a: int, b: int|
                0 <= a < marked.len() && 0 <= b < marked.len() && a != b implies marked[a]
                != marked[b] by {
                if a < b {
                    assert(marked[a] < marked[b]);
                } else {
                    assert(marked[b] < marked[a]);
                }
            }
            assert forall|a: int, b: int|
                0 <= a < order@.len() && 0 <= b < order@.len() && a != b implies order@[a]
                != order@[b] by {
                if a < b {
                    assert(order@[a] < order@[b]);
                } else {
                    assert(order@[b] < order@[a]);
                }
            }
            assert(order@.no_duplicates());
            assert(m0.dom().finite()) by {
                old(self).lemma_unfold();
            }
        }

        // Fallback under memory pressure: take the spared entries with the
        // oldest last access until the excess is met.
        let run_lru = n1 < need && memory_pct >= MEMORY_THRESHOLD_PERCENT;
        if run_lru {
            let ghost order0 = order@;
            sort_by_access(&mut order, &snap);
            proof {
                order0.lemma_multiset_has_no_duplicates();
                order@.lemma_multiset_has_no_duplicates_conv();
                assert(order@.len() == order@.to_multiset().len());
                assert(order0.len() == order0.to_multiset().len());
                assert forall|t: int| 0 <= t < order@.len() implies #[trigger] order@[t] < n
                    && snap@[order@[t] as int].1 by {
                    let x = order@[t];
                    assert(order@.contains(x));
                    assert(order@.to_multiset().count(x) > 0);
                    assert(order0.to_multiset().count(x) > 0);
                    assert(order0.contains(x));
                }
                assert forall|j: int| 0 <= j < n && #[trigger] snap@[j].1 implies order@.contains(
                    j as usize,
                ) by {
                    let x = j as usize;
                    assert(order0.contains(x));
                    assert(order0.to_multiset().count(x) > 0);
                    assert(order@.to_multiset().count(x) > 0);
                }
            }
            let additional = need - n1;
            let mut q: usize = 0;
            while q < additional
                invariant
                    n == snap@.len(),
                    n1 + order@.len() == n,
                    n1 + additional <= n,
                    0 <= q <= additional,
                    marked.len() == to_evict@.len() == n1 + q,
                    forall|t: int|
                        0 <= t < n1 ==> 0 <= #[trigger] marked[t] < n && !snap@[marked[t]].1
                            && to_evict@[t]@ == snap@[marked[t]].0@,
                    forall|t: int|
                        n1 <= t < n1 + q ==> #[trigger] marked[t] == order@[t - n1] as int
                            && to_evict@[t]@ == snap@[marked[t]].0@,
                    forall|a: int, b: int|
                        0 <= a < marked.len() && 0 <= b < marked.len() && a != b
                            ==> #[trigger] marked[a] != #[trigger] marked[b],
                    order@.no_duplicates(),
                    forall|t: int|
                        0 <= t < order@.len() ==> #[trigger] order@[t] < n && snap@[order@[t] as int].1,
                    ascending_access(order@, snap@),
                    forall|j: int| 0 <= j < n && #[trigger] snap@[j].1 ==> order@.contains(j as usize),
                    forall|j: int| 0 <= j < n && !#[trigger] snap@[j].1 ==> marked.contains(j),
                    self.access_counter == old(self).access_counter,
                    entries_of(self.map) == m1,
                decreases additional - q,
            {
                let j = order[q];
                to_evict.push(snap[j].0.clone());
                proof {
                    marked = marked.push(j as int);
                    assert forall|a: int, b: int|
                        0 <= a < marked.len() && 0 <= b < marked.len() && a != b
                            implies #[trigger] marked[a] != #[trigger] marked[b] by {
                        if a == n1 + q {
                            if b < n1 {
                            } else {
                                assert(order@[b - n1] != order@[q as int]);
                            }
                        } else if b == n1 + q {
                            if a < n1 {
                            } else {
                                assert(order@[a - n1] != order@[q as int]);
                            }
                        }
                    }
                }
                q += 1;
            }
        }
        proof {
            if !run_lru {
                assert(marked.len() == n1);
            }
        }

        // Remove what both phases took.
        let ghost mut removed: Set<Seq<char>> = Set::empty();
        let mut u: usize = 0;
        while u < to_evict.len()
            invariant
                n == snap@.len(),
                is_snapshot(snap@, m0),
                m0.dom().finite(),
                m1.dom() == m0.dom(),
                marked.len() == to_evict@.len(),
                forall|t: int|
                    0 <= t < marked.len() ==> 0 <= #[trigger] marked[t] < n && to_evict@[t]@
                        == snap@[marked[t]].0@,
                forall|a: int, b: int|
                    0 <= a < marked.len() && 0 <= b < marked.len() && a != b
                        ==> #[trigger] marked[a] != #[trigger] marked[b],
                0 <= u <= to_evict@.len(),
                removed.finite(),
                removed.len() == u,
                forall|t: int| 0 <= t < u ==> removed.contains(#[trigger] to_evict@[t]@),
                forall|k: Seq<char>|
                    #[trigger] removed.contains(k) ==> exists|t: int|
                        0 <= t < u && #[trigger] to_evict@[t]@ == k,
                entries_of(self.map) == m1.remove_keys(removed),
                entries_of(self.map).len() == m0.len() - u,
                entries_of(self.map).dom().finite(),
                self.access_counter == old(self).access_counter,
                forall|k: Seq<char>| #[trigger]
                    m0.contains_key(k) ==> m1[k].0 == m0[k].0 && m1[k].2 == m0[k].2,
                forall|j: int| 0 <= j < n ==> !m1[#[trigger] snap@[j].0@].1,
                n1 <= marked.len(),
                forall|t: int| 0 <= t < n1 ==> !snap@[#[trigger] marked[t]].1,
                forall|j: int| 0 <= j < n && !#[trigger] snap@[j].1 ==> marked.contains(j),
                forall|t: int| n1 <= t < marked.len() ==> #[trigger] marked[t] == order@[t - n1] as int,
                forall|j: int| 0 <= j < n && #[trigger] snap@[j].1 ==> order@.contains(j as usize),
                marked.len() - n1 <= order@.len(),
                need == m0.len() - target,
                run_lru ==> ascending_access(order@, snap@) && marked.len() == need,
                !run_lru ==> marked.len() == n1 && (n1 >= need || memory_pct < MEMORY_THRESHOLD_PERCENT),
            decreases to_evict@.len() - u,
        {
            proof {
                let key = to_evict@[u as int]@;
                assert(m0.contains_key(snap@[marked[u as int]].0@));
                if removed.contains(key) {
                    let t = choose|t: int| 0 <= t < u && #[trigger] to_evict@[t]@ == key;
                    assert(marked[t] != marked[u as int]);
                    assert(false);
                }
                assert(entries_of(self.map).contains_key(key));
            }
            let ghost prev = entries_of(self.map);
            map_remove(&mut self.map, to_evict[u].as_str());
            proof {
                let key = to_evict@[u as int]@;
                assert(entries_of(self.map).dom() =~= prev.dom().remove(key));
                assert(prev.dom().remove(key).len() == prev.dom().len() - 1);
                removed = removed.insert(key);
                assert(entries_of(self.map) =~= m1.remove_keys(removed));
            }
            u += 1;
        }
        proof {
            let after = entries_of(self.map);
            old(self).lemma_unfold();
            self.lemma_unfold();
            assert forall|k: Seq<char>| #[trigger] after.contains_key(k) implies recently_used(m0, k)
                && after[k] == (m0[k].0, false, m0[k].2) by {
                assert(m0.contains_key(k));
                let j = choose|j: int| 0 <= j < n && #[trigger] snap@[j].0@ == k;
                if !snap@[j].1 {
                    assert(marked.contains(j));
                    let t = choose|t: int| 0 <= t < marked.len() && marked[t] == j;
                    assert(removed.contains(to_evict@[t]@));
                }
                assert(!m1[snap@[j].0@].1);
            }
            assert forall|k: Seq<char>, k2: Seq<char>|
                #[trigger] taken_by_age(m0, after, k) && #[trigger] after.contains_key(k2)
                implies m0[k].2 < m0[k2].2 by {
                assert(removed.contains(k));
                let t = choose|t: int| 0 <= t < u && #[trigger] to_evict@[t]@ == k;
                if t < n1 {
                    assert(!snap@[marked[t]].1);
                    assert(false);
                }
                assert(run_lru);
                assert(recently_used(m0, k2));
                let j2 = choose|j: int| 0 <= j < n && #[trigger] snap@[j].0@ == k2;
                assert(order@.contains(j2 as usize));
                let q2 = choose|q: int| 0 <= q < order@.len() && order@[q] == j2 as usize;
                if n1 + q2 < marked.len() {
                    assert(marked[n1 + q2] == j2);
                    assert(removed.contains(to_evict@[n1 + q2]@));
                    assert(false);
                }
                assert(t - n1 < q2);
                assert(marked[t] == order@[t - n1] as int);
                assert(snap@[order@[t - n1] as int].2 <= snap@[order@[q2] as int].2);
                assert(k != k2);
            }
            if memory_pct < MEMORY_THRESHOLD_PERCENT {
                assert forall|k: Seq<char>| #[trigger] recently_used(m0, k) implies after.contains_key(
                    k,
                ) by {
                    if !after.contains_key(k) {
                        assert(removed.contains(k));
                        let t = choose|t: int| 0 <= t < u && #[trigger] to_evict@[t]@ == k;
                        assert(!snap@[marked[t]].1);
                    }
                }
            }
            if exists|k: Seq<char>| #[trigger] taken_by_age(m0, after, k) {
                let k = choose|k: Seq<char>| #[trigger] taken_by_age(m0, after, k);
                assert(removed.contains(k));
                let t = choose|t: int| 0 <= t < u && #[trigger] to_evict@[t]@ == k;
                if t < n1 {
                    assert(!snap@[marked[t]].1);
                    assert(false);
                }
            }
        }
        to_evict.len()
    }
}

} // verus!
