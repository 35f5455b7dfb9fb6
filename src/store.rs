//! The cache store: a concurrent map from key to entry, with one access
//! sequence counter that orders every `put` and `get`.
use vstd::prelude::*;
use dashmap::DashMap;

verus! {

/// `dashmap::DashMap`, opaque here; what a store's map holds is `entries_of`.
#[verifier::external_type_specification]
#[verifier::external_body]
#[verifier::reject_recursive_types(K)]
#[verifier::reject_recursive_types(V)]
#[verifier::reject_recursive_types(S)]
pub struct ExDashMap<K, V, S>(DashMap<K, V, S>);

/// The concurrent map that backs a store.
pub type StoreMap = DashMap<String, CacheEntry>;

/// What an entry holds, as plain values: value, recent-use flag, last access.
pub type EntryView = (Seq<char>, bool, usize);

/// The entries a map holds, keyed by the key's characters.
pub uninterp spec fn entries_of(m: StoreMap) -> Map<Seq<char>, EntryView>;

/// A cached value with its recency metadata.
pub struct CacheEntry {
    pub value: String,
    /// Set on every read or write; cleared by the eviction clock sweep.
    pub use_bit: bool,
    /// The access sequence number of the latest read or write.
    pub last_access: usize,
}

impl CacheEntry {
    /// The entry as plain values.
    pub open spec fn view(&self) -> EntryView {
        (self.value@, self.use_bit, self.last_access)
    }

    /// A freshly written entry: marked as recently used, at the given sequence.
    #[inline]
    pub fn new(value: String, access_counter: usize) -> (r: CacheEntry)
        ensures
            r.view() == (value@, true, access_counter),
    {
        CacheEntry { value, use_bit: true, last_access: access_counter }
    }

    /// Records a read at sequence `seq` and hands back a copy of the value.
    pub fn touch(&mut self, seq: usize) -> (r: String)
        ensures
            r@ == old(self).value@,
            final(self).view() == (old(self).value@, true, seq),
    {
        self.use_bit = true;
        self.last_access = seq;
        self.value.clone()
    }

    /// Clears the recent-use flag: the entry loses its second chance.
    pub fn clear_use(&mut self)
        ensures
            final(self).view() == (old(self).value@, false, old(self).last_access),
    {
        self.use_bit = false;
    }
}

/// Relies on `DashMap::new`: a new map holds no entry.
#[verifier::external_body]
fn map_new() -> (r: StoreMap)
    ensures
        entries_of(r).dom() == Set::<Seq<char>>::empty(),
{
    DashMap::new()
}

/// Relies on `DashMap::len`: the number of entries.
#[verifier::external_body]
pub(crate) fn map_len(m: &StoreMap) -> (r: usize)
    ensures
        r == entries_of(*m).len(),
{
    m.len()
}

/// Relies on `DashMap::insert`: the key now maps to the given entry, and no
/// other key changes.
#[verifier::external_body]
fn map_insert(m: &mut StoreMap, key: String, entry: CacheEntry)
    ensures
        entries_of(*final(m)) == entries_of(*old(m)).insert(key@, entry.view()),
{
    m.insert(key, entry);
}

/// Relies on `DashMap::remove`: the key no longer has an entry, and no other
/// key changes.
#[verifier::external_body]
pub(crate) fn map_remove(m: &mut StoreMap, key: &str)
    ensures
        entries_of(*final(m)) == entries_of(*old(m)).remove(key@),
{
    m.remove(key);
}

/// Relies on `DashMap::get_mut`: where the key has an entry, `CacheEntry::touch`
/// runs on it in place and its result comes back; else nothing changes.
#[verifier::external_body]
fn map_touch(m: &mut StoreMap, key: &str, seq: usize) -> (r: Option<String>)
    ensures
        entries_of(*old(m)).contains_key(key@) ==> {
            &&& r is Some
            &&& r->0@ == entries_of(*old(m))[key@].0
            &&& entries_of(*final(m)) == entries_of(*old(m)).insert(
                key@,
                (entries_of(*old(m))[key@].0, true, seq),
            )
        },
        !entries_of(*old(m)).contains_key(key@) ==> {
            &&& r is None
            &&& entries_of(*final(m)) == entries_of(*old(m))
        },
{
    m.get_mut(key).map(|mut e| e.touch(seq))
}

/// Relies on `DashMap::get_mut`: where the key has an entry,
/// `CacheEntry::clear_use` runs on it in place; else nothing changes.
#[verifier::external_body]
pub(crate) fn map_clear_use(m: &mut StoreMap, key: &String)
    ensures
        entries_of(*old(m)).contains_key(key@) ==> entries_of(*final(m)) == entries_of(
            *old(m),
        ).insert(key@, (entries_of(*old(m))[key@].0, false, entries_of(*old(m))[key@].2)),
        !entries_of(*old(m)).contains_key(key@) ==> entries_of(*final(m)) == entries_of(*old(m)),
{
    if let Some(mut e) = m.get_mut(key) {
        e.clear_use();
    }
}

/// Relies on `DashMap::get`: the recent-use flag and last access of the
/// key's entry, if it has one.
#[verifier::external_body]
fn map_recency(m: &StoreMap, key: &str) -> (r: Option<(bool, usize)>)
    ensures
        entries_of(*m).contains_key(key@) ==> r == Some(
            (entries_of(*m)[key@].1, entries_of(*m)[key@].2),
        ),
        !entries_of(*m).contains_key(key@) ==> r is None,
{
    m.get(key).map(|e| (e.value().use_bit, e.value().last_access))
}

/// `s` lists each entry of `m` once, as key, recent-use flag and last access.
pub open spec fn is_snapshot(s: Seq<(String, bool, usize)>, m: Map<Seq<char>, EntryView>) -> bool {
    &&& s.len() == m.len()
    &&& forall|i: int|
        0 <= i < s.len() ==> m.contains_key(#[trigger] s[i].0@) && m[s[i].0@].1 == s[i].1
            && m[s[i].0@].2 == s[i].2
    &&& forall|i: int, j: int| 0 <= i < j < s.len() ==> #[trigger] s[i].0@ != #[trigger] s[j].0@
    &&& forall|k: Seq<char>| #[trigger]
        m.contains_key(k) ==> exists|i: int| 0 <= i < s.len() && #[trigger] s[i].0@ == k
}

/// Relies on `DashMap::iter`: every entry is visited once, in some order;
/// each comes out as its key, recent-use flag and last access.
#[verifier::external_body]
pub(crate) fn map_snapshot(m: &StoreMap) -> (r: Vec<(String, bool, usize)>)
    ensures
        is_snapshot(r@, entries_of(*m)),
{
    m.iter().map(|e| (e.key().clone(), e.value().use_bit, e.value().last_access)).collect()
}

/// The cache store: entries keyed by string, and the access sequence counter
/// that every `put` and `get` advances.
pub struct Cache {
    pub(crate) map: StoreMap,
    pub(crate) access_counter: usize,
}

impl Cache {
    /// The entries, keyed by the key's characters.
    pub closed spec fn entries(&self) -> Map<Seq<char>, EntryView> {
        entries_of(self.map)
    }

    /// The latest access sequence number handed out (0 before any).
    pub closed spec fn counter(&self) -> usize {
        self.access_counter
    }

    /// Well-formed: finitely many entries, none with a sequence number above
    /// the counter, and no two with the same sequence number.
    pub open spec fn wf(&self) -> bool {
        &&& self.entries().dom().finite()
        &&& forall|k: Seq<char>| #[trigger]
            self.entries().contains_key(k) ==> self.entries()[k].2 <= self.counter()
        &&& forall|k1: Seq<char>, k2: Seq<char>|
            #[trigger] self.entries().contains_key(k1) && #[trigger] self.entries().contains_key(k2)
                && k1 != k2 ==> self.entries()[k1].2 != self.entries()[k2].2
    }

    /// The store's views are those of its fields.
    pub(crate) proof fn lemma_unfold(&self)
        ensures
            self.entries() == entries_of(self.map),
            self.counter() == self.access_counter,
    {
    }

    /// An empty store whose counter has not advanced.
    pub fn new() -> (r: Cache)
        ensures
            r.wf(),
            r.entries().dom() == Set::<Seq<char>>::empty(),
            r.counter() == 0,
    {
        Cache { map: map_new(), access_counter: 0 }
    }

    /// The latest access sequence number handed out.
    pub fn access_counter(&self) -> (r: usize)
        ensures
            r == self.counter(),
    {
        self.access_counter
    }

    /// Number of entries.
    pub fn size(&self) -> (r: usize)
        ensures
            r == self.entries().len(),
    {
        map_len(&self.map)
    }

    /// Inserts or overwrites the entry for `key`: the counter advances by one,
    /// and the entry holds `value`, is flagged as recently used, and carries
    /// the new counter value.
    pub fn put(&mut self, key: String, value: String)
        requires
            old(self).wf(),
            old(self).counter() < usize::MAX,
        ensures
            final(self).wf(),
            final(self).counter() == old(self).counter() + 1,
            final(self).entries() == old(self).entries().insert(
                key@,
                (value@, true, final(self).counter()),
            ),
    {
        self.access_counter = self.access_counter + 1;
        let seq = self.access_counter;
        map_insert(&mut self.map, key, CacheEntry::new(value, seq));
    }

    /// Reads the value for `key`. Where there is one, the counter advances by
    /// one, and the entry is flagged as recently used and carries the new
    /// counter value; its value is unchanged. Where there is none, nothing
    /// changes.
    pub fn get(&mut self, key: &str) -> (r: Option<String>)
        requires
            old(self).wf(),
            old(self).counter() < usize::MAX,
        ensures
            final(self).wf(),
            old(self).entries().contains_key(key@) ==> {
                &&& r is Some
                &&& r->0@ == old(self).entries()[key@].0
                &&& final(self).counter() == old(self).counter() + 1
                &&& final(self).entries() == old(self).entries().insert(
                    key@,
                    (old(self).entries()[key@].0, true, final(self).counter()),
                )
            },
            !old(self).entries().contains_key(key@) ==> {
                &&& r is None
                &&& final(self).counter() == old(self).counter()
                &&& final(self).entries() == old(self).entries()
            },
    {
        let next = self.access_counter + 1;
        let r = map_touch(&mut self.map, key, next);
        if r.is_some() {
            self.access_counter = next;
        }
        r
    }

    /// The recent-use flag and last access of `key`'s entry, without
    /// touching it.
    pub fn recency(&self, key: &str) -> (r: Option<(bool, usize)>)
        ensures
            self.entries().contains_key(key@) ==> r == Some(
                (self.entries()[key@].1, self.entries()[key@].2),
            ),
            !self.entries().contains_key(key@) ==> r is None,
    {
        map_recency(&self.map, key)
    }

    /// Deletes the entry for `key`, if there is one.
    pub fn remove(&mut self, key: &str)
        requires
            old(self).wf(),
        ensures
            final(self).wf(),
            final(self).counter() == old(self).counter(),
            final(self).entries() == old(self).entries().remove(key@),
    {
        map_remove(&mut self.map, key);
    }
}

} // verus!
