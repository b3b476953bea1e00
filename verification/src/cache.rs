use vstd::prelude::*;

use crate::clock::now_millis;
use crate::util::copy_vec;

verus! {

/// A value a cache can hold and hand out copies of.
pub trait CacheValue: View + Sized {
    fn copy_value(&self) -> (r: Self)
        ensures
            r@ == self@,
    ;
}

/// A key a cache can compare and copy.
pub trait CacheKey: CacheValue {
    fn same_key(&self, other: &Self) -> (b: bool)
        ensures
            b == (self@ == other@),
    ;
}

impl CacheValue for String {
    fn copy_value(&self) -> (r: Self) {
        self.clone()
    }
}

impl CacheKey for String {
    fn same_key(&self, other: &Self) -> (b: bool) {
        *self == *other
    }
}

impl CacheValue for Vec<u8> {
    fn copy_value(&self) -> (r: Self) {
        copy_vec(self)
    }
}

impl CacheValue for u64 {
    fn copy_value(&self) -> (r: Self) {
        *self
    }
}

impl CacheKey for u64 {
    fn same_key(&self, other: &Self) -> (b: bool) {
        *self == *other
    }
}

impl CacheValue for crate::hash_utils::Hash {
    fn copy_value(&self) -> (r: Self) {
        *self
    }
}

impl CacheKey for crate::hash_utils::Hash {
    fn same_key(&self, other: &Self) -> (b: bool) {
        *self == *other
    }
}

/// A cached value with when it was stored (in milliseconds), how long it lives, and how often
/// it was read.
#[derive(Debug)]
pub struct CacheEntry<T> {
    value: T,
    inserted_at: u64,
    ttl: Option<u64>,
    hit_count: u64,
}

/// What a cache entry holds.
pub struct EntryModel<W> {
    pub value: W,
    pub inserted_at: u64,
    pub ttl: Option<u64>,
    pub hit_count: u64,
}

impl<T: View> View for CacheEntry<T> {
    type V = EntryModel<T::V>;

    closed spec fn view(&self) -> EntryModel<T::V> {
        EntryModel { value: self.value@, inserted_at: self.inserted_at, ttl: self.ttl, hit_count: self.hit_count }
    }
}

/// Whether an entry has outlived its time to live at `now` (never, without one).
pub open spec fn expired<W>(e: EntryModel<W>, now: u64) -> bool {
    match e.ttl {
        Some(t) => (if now >= e.inserted_at { now - e.inserted_at } else { 0 }) > t,
        None => false,
    }
}

impl<T: CacheValue> CacheEntry<T> {
    /// An entry of `value`, stored at `now`, unread.
    pub fn new_at(value: T, ttl: Option<u64>, now: u64) -> (e: Self)
        ensures
            e@ == (EntryModel { value: value@, inserted_at: now, ttl, hit_count: 0 }),
    {
        CacheEntry { value, inserted_at: now, ttl, hit_count: 0 }
    }

    /// An entry of `value`, stored now by the wall clock, unread.
    pub fn new(value: T, ttl: Option<u64>) -> (e: Self)
        ensures
            e@.value == value@,
            e@.ttl == ttl,
            e@.hit_count == 0,
    {
        Self::new_at(value, ttl, now_millis())
    }

    /// Whether the entry has outlived its time to live at `now`.
    pub fn is_expired_at(&self, now: u64) -> (b: bool)
        ensures
            b == expired(self@, now),
    {
        match self.ttl {
            Some(t) => now.saturating_sub(self.inserted_at) > t,
            None => false,
        }
    }

    /// Whether the entry has outlived its time to live now, by the wall clock.
    pub fn is_expired(&self) -> (b: bool)
        ensures
            exists|now: u64| b == #[trigger] expired(self@, now),
    {
        self.is_expired_at(now_millis())
    }

    /// Count a read, and give the value.
    pub fn hit(&mut self) -> (v: &T)
        requires
            old(self)@.hit_count < u64::MAX,
        ensures
            final(self)@ == (EntryModel { hit_count: (old(self)@.hit_count + 1) as u64, ..old(self)@ }),
            v@ == old(self)@.value,
    {
        self.hit_count = self.hit_count + 1;
        &self.value
    }

    /// A copy of the entry.
    pub fn copy_entry(&self) -> (e: Self)
        ensures
            e@ == self@,
    {
        CacheEntry { value: self.value.copy_value(), inserted_at: self.inserted_at, ttl: self.ttl, hit_count: self.hit_count }
    }
}

#[derive(Debug, Clone, Copy, PartialEq, Eq, Structural)]
pub struct CacheStats {
    pub l1_size: usize,
    pub l1_capacity: usize,
    pub l2_size: usize,
    pub l2_capacity: usize,
}

#[derive(Debug, Clone, Copy, PartialEq, Eq, Structural)]
pub struct AllCacheStats {
    pub accounts: CacheStats,
    pub transactions: CacheStats,
    pub state_roots: CacheStats,
    pub blockhashes: CacheStats,
}

/// A new entry of value `v`, stored at `now`, unread.
pub open spec fn fresh_entry<W>(v: W, now: u64, ttl: Option<u64>) -> EntryModel<W> {
    EntryModel { value: v, inserted_at: now, ttl, hit_count: 0 }
}

/// Whether an entry is still alive at `now`.
pub open spec fn live<KV, W>(now: u64) -> spec_fn((KV, EntryModel<W>)) -> bool {
    |e: (KV, EntryModel<W>)| !expired(e.1, now)
}

/// The position of key `k`, if present.
pub open spec fn key_pos<KV, W>(s: Seq<(KV, EntryModel<W>)>, k: KV) -> Option<int> {
    crate::util::find_first(s, |e: (KV, EntryModel<W>)| e.0 == k)
}

/// No key occurs twice.
pub open spec fn keys_distinct<KV, W>(s: Seq<(KV, EntryModel<W>)>) -> bool {
    forall|i: int, j: int| 0 <= i < j < s.len() ==> (#[trigger] s[i]).0 != (#[trigger] s[j]).0
}

/// A least-recently-used list, least recent first, after `(k, e)` is pushed with room for
/// `cap` entries: a present key gets the new entry and becomes the most recent, answering its
/// old entry; a new key goes last, and when the list is full its least recent entry leaves
/// and is answered.
pub open spec fn lru_push<KV, W>(s: Seq<(KV, EntryModel<W>)>, cap: usize, k: KV, e: EntryModel<W>) -> (Seq<(KV, EntryModel<W>)>, Option<(KV, EntryModel<W>)>) {
    match key_pos(s, k) {
        Some(i) => (s.remove(i).push((k, e)), Some((k, s[i].1))),
        None => if s.len() >= cap && s.len() > 0 {
            (s.drop_first().push((k, e)), Some(s[0]))
        } else {
            (s.push((k, e)), None)
        },
    }
}

/// A map-like list after `(k, e)` is inserted: a present key gets the new entry in its place,
/// a new key goes last.
pub open spec fn list_insert<KV, W>(s: Seq<(KV, EntryModel<W>)>, k: KV, e: EntryModel<W>) -> Seq<(KV, EntryModel<W>)> {
    match key_pos(s, k) {
        Some(i) => s.update(i, (k, e)),
        None => s.push((k, e)),
    }
}

/// A list without key `k`.
pub open spec fn list_remove<KV, W>(s: Seq<(KV, EntryModel<W>)>, k: KV) -> Seq<(KV, EntryModel<W>)> {
    match key_pos(s, k) {
        Some(i) => s.remove(i),
        None => s,
    }
}

/// A two-layer cache: a small hot layer kept in least-recently-used order, and a larger warm
/// layer that takes what the hot layer lets go.
pub struct MultiLayerCache<K, V> {
    l1_cache: Vec<(K, CacheEntry<V>)>,
    l2_cache: Vec<(K, CacheEntry<V>)>,
    l1_size: usize,
    l2_size: usize,
    default_ttl: Option<u64>,
}

/// The views of a list of keyed entries.
pub open spec fn entries_view<K: View, V: View>(s: Seq<(K, CacheEntry<V>)>) -> Seq<(K::V, EntryModel<V::V>)> {
    s.map_values(|e: (K, CacheEntry<V>)| (e.0@, e.1@))
}

impl<K: CacheKey, V: CacheValue> MultiLayerCache<K, V> {
    /// The hot layer, least recently used first.
    pub closed spec fn l1(&self) -> Seq<(K::V, EntryModel<V::V>)> {
        entries_view(self.l1_cache@)
    }

    /// The warm layer, in the order its keys were first stored.
    pub closed spec fn l2(&self) -> Seq<(K::V, EntryModel<V::V>)> {
        entries_view(self.l2_cache@)
    }

    pub closed spec fn l1_size(&self) -> usize {
        self.l1_size
    }

    pub closed spec fn l2_size(&self) -> usize {
        self.l2_size
    }

    pub closed spec fn default_ttl(&self) -> Option<u64> {
        self.default_ttl
    }

    pub open spec fn wf(&self) -> bool {
        &&& keys_distinct(self.l1())
        &&& keys_distinct(self.l2())
        &&& self.l1_size() > 0
    }

    /// A cache with a hot layer of `l1_size` entries and a warm layer of `l2_size`, whose
    /// entries live `default_ttl` milliseconds unless told otherwise.
    pub fn new(l1_size: usize, l2_size: usize, default_ttl: Option<u64>) -> (c: Self)
        requires
            l1_size > 0,
        ensures
            c.wf(),
            c.l1() == Seq::<(K::V, EntryModel<V::V>)>::empty(),
            c.l2() == Seq::<(K::V, EntryModel<V::V>)>::empty(),
            c.l1_size() == l1_size,
            c.l2_size() == l2_size,
            c.default_ttl() == default_ttl,
    {
        let c = MultiLayerCache { l1_cache: Vec::new(), l2_cache: Vec::new(), l1_size, l2_size, default_ttl };
        assert(c.l1() =~= Seq::<(K::V, EntryModel<V::V>)>::empty());
        assert(c.l2() =~= Seq::<(K::V, EntryModel<V::V>)>::empty());
        c
    }

    /// The position of `key` in `v`, if present.
    fn find(v: &Vec<(K, CacheEntry<V>)>, key: &K) -> (r: Option<usize>)
        ensures
            match r {
                Some(i) => key_pos(entries_view(v@), key@) == Some(i as int) && (i as int) < v@.len(),
                None => key_pos(entries_view(v@), key@) is None,
            },
    {
        let ghost s = entries_view(v@);
        let ghost pred = |e: (K::V, EntryModel<V::V>)| e.0 == key@;
        let mut i: usize = 0;
        while i < v.len()
            invariant
                s == entries_view(v@),
                0 <= i <= v@.len(),
                pred == (|e: (K::V, EntryModel<V::V>)| e.0 == key@),
                forall|j: int| 0 <= j < i ==> !pred(#[trigger] s[j]),
            decreases v@.len() - i,
        {
            if v[i].0.same_key(key) {
                proof {
                    crate::util::lemma_find_first_at(s, pred, i as int);
                }
                return Some(i);
            }
            i = i + 1;
        }
        proof {
            crate::util::lemma_find_first(s, pred);
        }
        None
    }

    /// Take out the entry at `i` of `v`.
    fn take_at(v: &mut Vec<(K, CacheEntry<V>)>, i: usize) -> (r: (K, CacheEntry<V>))
        requires
            i < old(v)@.len(),
            keys_distinct(entries_view(old(v)@)),
        ensures
            entries_view(final(v)@) == entries_view(old(v)@).remove(i as int),
            (r.0@, r.1@) == entries_view(old(v)@)[i as int],
            keys_distinct(entries_view(final(v)@)),
    {
        let ghost s0 = entries_view(v@);
        let r = v.remove(i);
        assert(entries_view(v@) =~= s0.remove(i as int));
        r
    }

    /// Put `(k, e)` last in `v`, whose keys do not include `k`.
    fn push_new(v: &mut Vec<(K, CacheEntry<V>)>, k: K, e: CacheEntry<V>)
        requires
            keys_distinct(entries_view(old(v)@)),
            key_pos(entries_view(old(v)@), k@) is None,
        ensures
            entries_view(final(v)@) == entries_view(old(v)@).push((k@, e@)),
            keys_distinct(entries_view(final(v)@)),
    {
        let ghost s0 = entries_view(v@);
        let ghost kv = (k@, e@);
        proof {
            crate::util::lemma_find_first_none(s0, |x: (K::V, EntryModel<V::V>)| x.0 == kv.0);
        }
        v.push((k, e));
        assert(entries_view(v@) =~= s0.push(kv));
    }

    /// Push `(k, e)` into the hot layer in least-recently-used order (see `lru_push`).
    fn l1_push(&mut self, k: K, e: CacheEntry<V>) -> (r: Option<(K, CacheEntry<V>)>)
        requires
            old(self).wf(),
        ensures
            final(self).wf(),
            ({
                let p = lru_push(old(self).l1(), old(self).l1_size(), k@, e@);
                &&& final(self).l1() == p.0
                &&& match (r, p.1) {
                    (Some(x), Some(y)) => (x.0@, x.1@) == y,
                    (None, None) => true,
                    _ => false,
                }
            }),
            final(self).l2() == old(self).l2(),
            final(self).l1_size() == old(self).l1_size(),
            final(self).l2_size() == old(self).l2_size(),
            final(self).default_ttl() == old(self).default_ttl(),
    {
        let ghost s0 = self.l1();
        match Self::find(&self.l1_cache, &k) {
            Some(i) => {
                let old_entry = Self::take_at(&mut self.l1_cache, i);
                let ghost kv = k@;
                proof {
                    assert forall|j: int| 0 <= j < s0.remove(i as int).len() implies (#[trigger] s0.remove(i as int)[j]).0 != kv by {
                        if j < i {
                            assert(s0.remove(i as int)[j] == s0[j]);
                        } else {
                            assert(s0.remove(i as int)[j] == s0[j + 1]);
                        }
                    }
                    crate::util::lemma_find_first_none(s0.remove(i as int), |x: (K::V, EntryModel<V::V>)| x.0 == kv);
                }
                Self::push_new(&mut self.l1_cache, k, e);
                Some(old_entry)
            },
            None => {
                if self.l1_cache.len() >= self.l1_size && self.l1_cache.len() > 0 {
                    let lru = Self::take_at(&mut self.l1_cache, 0);
                    let ghost kv = k@;
                    proof {
                        assert(s0.remove(0) =~= s0.drop_first());
                        assert forall|j: int| 0 <= j < s0.drop_first().len() implies (#[trigger] s0.drop_first()[j]).0 != kv by {
                            assert(s0.drop_first()[j] == s0[j + 1]);
                        }
                        crate::util::lemma_find_first_none(s0.drop_first(), |x: (K::V, EntryModel<V::V>)| x.0 == kv);
                    }
                    Self::push_new(&mut self.l1_cache, k, e);
                    Some(lru)
                } else {
                    Self::push_new(&mut self.l1_cache, k, e);
                    None
                }
            },
        }
    }

    /// Insert `(k, e)` into the warm layer (see `list_insert`).
    fn l2_insert(&mut self, k: K, e: CacheEntry<V>)
        requires
            old(self).wf(),
        ensures
            final(self).wf(),
            final(self).l2() == list_insert(old(self).l2(), k@, e@),
            final(self).l1() == old(self).l1(),
            final(self).l1_size() == old(self).l1_size(),
            final(self).l2_size() == old(self).l2_size(),
            final(self).default_ttl() == old(self).default_ttl(),
    {
        let ghost s0 = self.l2();
        let ghost kv = (k@, e@);
        match Self::find(&self.l2_cache, &k) {
            Some(i) => {
                self.l2_cache.set(i, (k, e));
                assert(self.l2() =~= s0.update(i as int, kv));
                assert forall|a: int, b: int| 0 <= a < b < self.l2().len() implies (#[trigger] self.l2()[a]).0 != (#[trigger] self.l2()[b]).0 by {
                    if a != i && b != i {
                    } else if a == i {
                        assert(s0[a].0 == kv.0);
                    } else {
                        assert(s0[b].0 == kv.0);
                    }
                }
            },
            None => {
                Self::push_new(&mut self.l2_cache, k, e);
            },
        }
    }

    /// What reading `key` at `now` does: the hot layer, then the warm layer (see `get_at`).
    pub open spec fn get_spec(l1: Seq<(K::V, EntryModel<V::V>)>, l2: Seq<(K::V, EntryModel<V::V>)>, l1_size: usize, key: K::V, now: u64) -> (
        Seq<(K::V, EntryModel<V::V>)>,
        Seq<(K::V, EntryModel<V::V>)>,
        Option<V::V>,
    ) {
        let hot = key_pos(l1, key);
        if hot is Some && !expired(l1[hot->Some_0].1, now) {
            let i = hot->Some_0;
            let e = l1[i].1;
            (l1.remove(i).push((key, EntryModel { hit_count: (e.hit_count + 1) as u64, ..e })), l2, Some(e.value))
        } else {
            let l1a = if hot is Some { l1.remove(hot->Some_0) } else { l1 };
            match key_pos(l2, key) {
                Some(j) => {
                    let e = l2[j].1;
                    if !expired(e, now) {
                        let e2 = EntryModel { hit_count: (e.hit_count + 1) as u64, ..e };
                        (lru_push(l1a, l1_size, key, e2).0, l2.update(j, (key, e2)), Some(e.value))
                    } else {
                        (l1a, l2.remove(j), None)
                    }
                },
                None => (l1a, l2, None),
            }
        }
    }

    /// The hit counts a read of `key` raises stay below `u64::MAX`.
    pub open spec fn get_fits(&self, key: K::V) -> bool {
        &&& key_pos(self.l1(), key) matches Some(i) ==> self.l1()[i].1.hit_count < u64::MAX
        &&& key_pos(self.l2(), key) matches Some(j) ==> self.l2()[j].1.hit_count < u64::MAX
    }

    /// Read `key` at time `now`: from the hot layer when it holds it unexpired (it becomes the
    /// most recent); else from the warm layer when that holds it unexpired, promoting it to
    /// the hot layer. Expired entries met on the way are dropped; each read counts a hit.
    pub fn get_at(&mut self, key: &K, now: u64) -> (r: Option<V>)
        requires
            old(self).wf(),
            old(self).get_fits(key@),
        ensures
            final(self).wf(),
            ({
                let g = Self::get_spec(old(self).l1(), old(self).l2(), old(self).l1_size(), key@, now);
                &&& final(self).l1() == g.0
                &&& final(self).l2() == g.1
                &&& match (r, g.2) {
                    (Some(x), Some(y)) => x@ == y,
                    (None, None) => true,
                    _ => false,
                }
            }),
            final(self).l1_size() == old(self).l1_size(),
            final(self).l2_size() == old(self).l2_size(),
            final(self).default_ttl() == old(self).default_ttl(),
    {
        let ghost s1 = self.l1();
        let ghost s2 = self.l2();
        let hot = Self::find(&self.l1_cache, key);
        match hot {
            Some(i) => {
                let (k, mut e) = Self::take_at(&mut self.l1_cache, i);
                if !e.is_expired_at(now) {
                    let v = e.hit().copy_value();
                    let ghost kv = key@;
                    proof {
                        assert forall|j: int| 0 <= j < s1.remove(i as int).len() implies (#[trigger] s1.remove(i as int)[j]).0 != kv by {
                            if j < i {
                                assert(s1.remove(i as int)[j] == s1[j]);
                            } else {
                                assert(s1.remove(i as int)[j] == s1[j + 1]);
                            }
                        }
                        crate::util::lemma_find_first_none(s1.remove(i as int), |x: (K::V, EntryModel<V::V>)| x.0 == kv);
                    }
                    Self::push_new(&mut self.l1_cache, k, e);
                    return Some(v);
                }
            },
            None => {},
        }
        match Self::find(&self.l2_cache, key) {
            Some(j) => {
                if !self.l2_cache[j].1.is_expired_at(now) {
                    let mut e2 = self.l2_cache[j].1.copy_entry();
                    let k2 = self.l2_cache[j].0.copy_value();
                    let v = e2.hit().copy_value();
                    let promoted = e2.copy_entry();
                    let k1 = k2.copy_value();
                    let ghost kv = (k2@, e2@);
                    self.l2_cache.set(j, (k2, e2));
                    proof {
                        assert(self.l2() =~= s2.update(j as int, kv));
                        assert forall|a: int, b: int| 0 <= a < b < self.l2().len() implies (#[trigger] self.l2()[a]).0 != (#[trigger] self.l2()[b]).0 by {
                            if a != j && b != j {
                            } else if a == j {
                                assert(s2[a].0 == kv.0);
                            } else {
                                assert(s2[b].0 == kv.0);
                            }
                        }
                    }
                    let _ = self.l1_push(k1, promoted);
                    Some(v)
                } else {
                    let _ = Self::take_at(&mut self.l2_cache, j);
                    None
                }
            },
            None => None,
        }
    }

    /// Read `key` now, by the wall clock (see `get_at`).
    pub fn get(&mut self, key: &K) -> (r: Option<V>)
        requires
            old(self).wf(),
            old(self).get_fits(key@),
        ensures
            final(self).wf(),
            exists|now: u64| {
                let g = #[trigger] Self::get_spec(old(self).l1(), old(self).l2(), old(self).l1_size(), key@, now);
                &&& final(self).l1() == g.0
                &&& final(self).l2() == g.1
                &&& match (r, g.2) {
                    (Some(x), Some(y)) => x@ == y,
                    (None, None) => true,
                    _ => false,
                }
            },
            final(self).l1_size() == old(self).l1_size(),
            final(self).l2_size() == old(self).l2_size(),
            final(self).default_ttl() == old(self).default_ttl(),
    {
        self.get_at(key, now_millis())
    }

    /// What storing `(key, e)` does: it is pushed into the hot layer, and what the hot layer
    /// lets go moves to the warm layer while the warm layer has room.
    pub open spec fn put_spec(l1: Seq<(K::V, EntryModel<V::V>)>, l2: Seq<(K::V, EntryModel<V::V>)>, l1_size: usize, l2_size: usize, key: K::V, e: EntryModel<V::V>) -> (
        Seq<(K::V, EntryModel<V::V>)>,
        Seq<(K::V, EntryModel<V::V>)>,
    ) {
        let p = lru_push(l1, l1_size, key, e);
        match p.1 {
            Some(x) => if l2.len() < l2_size { (p.0, list_insert(l2, x.0, x.1)) } else { (p.0, l2) },
            None => (p.0, l2),
        }
    }

    /// Store `value` under `key` at time `now`, living `ttl` milliseconds (see `put_spec`).
    pub fn put_with_ttl_at(&mut self, key: K, value: V, ttl: Option<u64>, now: u64)
        requires
            old(self).wf(),
        ensures
            final(self).wf(),
            ({
                let e = fresh_entry(value@, now, ttl);
                let p = Self::put_spec(old(self).l1(), old(self).l2(), old(self).l1_size(), old(self).l2_size(), key@, e);
                final(self).l1() == p.0 && final(self).l2() == p.1
            }),
            final(self).l1_size() == old(self).l1_size(),
            final(self).l2_size() == old(self).l2_size(),
            final(self).default_ttl() == old(self).default_ttl(),
    {
        let entry = CacheEntry::new_at(value, ttl, now);
        match self.l1_push(key, entry) {
            Some((evicted_key, evicted_entry)) => {
                if self.l2_cache.len() < self.l2_size {
                    self.l2_insert(evicted_key, evicted_entry);
                }
            },
            None => {},
        }
    }

    /// Store `value` under `key` now, living `ttl` milliseconds (see `put_with_ttl_at`).
    pub fn put_with_ttl(&mut self, key: K, value: V, ttl: Option<u64>)
        requires
            old(self).wf(),
        ensures
            final(self).wf(),
            exists|now: u64| {
                let e = #[trigger] fresh_entry(value@, now, ttl);
                let p = Self::put_spec(old(self).l1(), old(self).l2(), old(self).l1_size(), old(self).l2_size(), key@, e);
                final(self).l1() == p.0 && final(self).l2() == p.1
            },
            final(self).l1_size() == old(self).l1_size(),
            final(self).l2_size() == old(self).l2_size(),
            final(self).default_ttl() == old(self).default_ttl(),
    {
        self.put_with_ttl_at(key, value, ttl, now_millis())
    }

    /// Store `value` under `key` at time `now`, with the default time to live.
    pub fn put_at(&mut self, key: K, value: V, now: u64)
        requires
            old(self).wf(),
        ensures
            final(self).wf(),
            ({
                let e = fresh_entry(value@, now, old(self).default_ttl());
                let p = Self::put_spec(old(self).l1(), old(self).l2(), old(self).l1_size(), old(self).l2_size(), key@, e);
                final(self).l1() == p.0 && final(self).l2() == p.1
            }),
            final(self).l1_size() == old(self).l1_size(),
            final(self).l2_size() == old(self).l2_size(),
            final(self).default_ttl() == old(self).default_ttl(),
    {
        let ttl = self.default_ttl;
        self.put_with_ttl_at(key, value, ttl, now)
    }

    /// Store `value` under `key` now, with the default time to live.
    pub fn put(&mut self, key: K, value: V)
        requires
            old(self).wf(),
        ensures
            final(self).wf(),
            exists|now: u64| {
                let e = #[trigger] fresh_entry(value@, now, old(self).default_ttl());
                let p = Self::put_spec(old(self).l1(), old(self).l2(), old(self).l1_size(), old(self).l2_size(), key@, e);
                final(self).l1() == p.0 && final(self).l2() == p.1
            },
            final(self).l1_size() == old(self).l1_size(),
            final(self).l2_size() == old(self).l2_size(),
            final(self).default_ttl() == old(self).default_ttl(),
    {
        let ttl = self.default_ttl;
        self.put_with_ttl_at(key, value, ttl, now_millis())
    }

    /// Remove `key` from both layers; answers the hot layer's value, else the warm layer's.
    pub fn remove(&mut self, key: &K) -> (r: Option<V>)
        requires
            old(self).wf(),
        ensures
            final(self).wf(),
            final(self).l1() == list_remove(old(self).l1(), key@),
            final(self).l2() == list_remove(old(self).l2(), key@),
            match (r, key_pos(old(self).l1(), key@), key_pos(old(self).l2(), key@)) {
                (Some(x), Some(i), _) => x@ == old(self).l1()[i].1.value,
                (Some(x), None, Some(j)) => x@ == old(self).l2()[j].1.value,
                (None, None, None) => true,
                _ => false,
            },
            final(self).l1_size() == old(self).l1_size(),
            final(self).l2_size() == old(self).l2_size(),
            final(self).default_ttl() == old(self).default_ttl(),
    {
        let l1_value = match Self::find(&self.l1_cache, key) {
            Some(i) => {
                let (_, e) = Self::take_at(&mut self.l1_cache, i);
                Some(e.value)
            },
            None => None,
        };
        let l2_value = match Self::find(&self.l2_cache, key) {
            Some(j) => {
                let (_, e) = Self::take_at(&mut self.l2_cache, j);
                Some(e.value)
            },
            None => None,
        };
        match l1_value {
            Some(v) => Some(v),
            None => l2_value,
        }
    }

    /// Empty both layers.
    pub fn clear(&mut self)
        requires
            old(self).wf(),
        ensures
            final(self).wf(),
            final(self).l1() == Seq::<(K::V, EntryModel<V::V>)>::empty(),
            final(self).l2() == Seq::<(K::V, EntryModel<V::V>)>::empty(),
            final(self).l1_size() == old(self).l1_size(),
            final(self).l2_size() == old(self).l2_size(),
            final(self).default_ttl() == old(self).default_ttl(),
    {
        self.l1_cache.clear();
        self.l2_cache.clear();
        assert(self.l1() =~= Seq::<(K::V, EntryModel<V::V>)>::empty());
        assert(self.l2() =~= Seq::<(K::V, EntryModel<V::V>)>::empty());
    }

    /// How full each layer is, and its capacity.
    pub fn stats(&self) -> (st: CacheStats)
        ensures
            st.l1_size == self.l1().len(),
            st.l1_capacity == self.l1_size(),
            st.l2_size == self.l2().len(),
            st.l2_capacity == self.l2_size(),
    {
        CacheStats {
            l1_size: self.l1_cache.len(),
            l1_capacity: self.l1_size,
            l2_size: self.l2_cache.len(),
            l2_capacity: self.l2_size,
        }
    }

    /// Keep in `v` only the entries unexpired at `now`, in order.
    fn drop_expired(v: &mut Vec<(K, CacheEntry<V>)>, now: u64)
        requires
            keys_distinct(entries_view(old(v)@)),
        ensures
            entries_view(final(v)@) == entries_view(old(v)@).filter(live(now)),
            keys_distinct(entries_view(final(v)@)),
    {
        let ghost s = entries_view(v@);
        let ghost pred = live::<K::V, V::V>(now);
        let mut rest: Vec<(K, CacheEntry<V>)> = Vec::new();
        std::mem::swap(&mut rest, v);
        let n = rest.len();
        let mut kept: Vec<(K, CacheEntry<V>)> = Vec::new();
        let mut i: usize = 0;
        while i < n
            invariant
                n == s.len(),
                0 <= i <= n,
                rest@.len() == n - i,
                pred == live::<K::V, V::V>(now),
                entries_view(rest@) == s.subrange(i as int, n as int),
                entries_view(kept@) == s.subrange(0, i as int).filter(pred),
            decreases n - i,
        {
            let ghost r0 = entries_view(rest@);
            let e = rest.remove(0);
            assert(r0[0] == (e.0@, e.1@));
            assert(entries_view(rest@) =~= r0.drop_first());
            assert(s.subrange(i + 1, n as int) =~= s.subrange(i as int, n as int).drop_first());
            assert(s.subrange(0, i + 1) =~= s.subrange(0, i as int).push(s[i as int]));
            proof {
                s.subrange(0, i as int).lemma_filter_push(s[i as int], pred);
            }
            if !e.1.is_expired_at(now) {
                let ghost k0 = entries_view(kept@);
                let ghost ev = (e.0@, e.1@);
                kept.push(e);
                assert(entries_view(kept@) =~= k0.push(ev));
            }
            i = i + 1;
        }
        assert(s.subrange(0, n as int) =~= s);
        *v = kept;
        proof {
            let f = s.filter(pred);
            assert forall|a: int, b: int| 0 <= a < b < f.len() implies (#[trigger] f[a]).0 != (#[trigger] f[b]).0 by {
                lemma_filter_distinct_keys(s, pred, a, b);
            }
        }
    }

    /// Drop the entries expired at `now` from both layers.
    pub fn cleanup_expired_at(&mut self, now: u64)
        requires
            old(self).wf(),
        ensures
            final(self).wf(),
            final(self).l1() == old(self).l1().filter(live(now)),
            final(self).l2() == old(self).l2().filter(live(now)),
            final(self).l1_size() == old(self).l1_size(),
            final(self).l2_size() == old(self).l2_size(),
            final(self).default_ttl() == old(self).default_ttl(),
    {
        Self::drop_expired(&mut self.l1_cache, now);
        Self::drop_expired(&mut self.l2_cache, now);
    }

    /// Drop the entries expired now, by the wall clock (see `cleanup_expired_at`).
    pub fn cleanup_expired(&mut self)
        requires
            old(self).wf(),
        ensures
            final(self).wf(),
            exists|now: u64| {
                &&& final(self).l1() == old(self).l1().filter(#[trigger] live(now))
                &&& final(self).l2() == old(self).l2().filter(live(now))
            },
            final(self).l1_size() == old(self).l1_size(),
            final(self).l2_size() == old(self).l2_size(),
            final(self).default_ttl() == old(self).default_ttl(),
    {
        self.cleanup_expired_at(now_millis())
    }
}

/// Filtering keeps keys distinct.
pub proof fn lemma_filter_distinct_keys<KV, W>(s: Seq<(KV, EntryModel<W>)>, p: spec_fn((KV, EntryModel<W>)) -> bool, a: int, b: int)
    requires
        keys_distinct(s),
        0 <= a < b < s.filter(p).len(),
    ensures
        s.filter(p)[a].0 != s.filter(p)[b].0,
    decreases s.len(),
{
    reveal(Seq::filter);
    let d = s.drop_last();
    let f = s.filter(p);
    let fd = d.filter(p);
    assert(keys_distinct(d)) by {
        assert forall|i: int, j: int| 0 <= i < j < d.len() implies (#[trigger] d[i]).0 != (#[trigger] d[j]).0 by {
            assert(d[i] == s[i] && d[j] == s[j]);
        }
    }
    if p(s.last()) {
        assert(f == fd.push(s.last()));
        if b == f.len() - 1 {
            d.lemma_filter_contains_rev(p, f[a]);
            assert(fd[a] == f[a]);
            let i = choose|i: int| 0 <= i < d.len() && d[i] == f[a];
            assert(s[i] == d[i]);
            assert(s[i].0 != s[s.len() - 1].0);
        } else {
            lemma_filter_distinct_keys(d, p, a, b);
        }
    } else {
        assert(f == fd);
        lemma_filter_distinct_keys(d, p, a, b);
    }
}

/// Caches for the rollup's components.
pub struct RollupCaches {
    pub accounts: MultiLayerCache<String, Vec<u8>>,
    pub transactions: MultiLayerCache<crate::hash_utils::Hash, Vec<u8>>,
    /// Batch id to state root.
    pub state_roots: MultiLayerCache<u64, crate::hash_utils::Hash>,
    pub blockhashes: MultiLayerCache<String, String>,
}

impl RollupCaches {
    /// Accounts: 1000 hot, 10000 warm, five minutes; transactions: 500 and 5000, ten
    /// minutes; state roots: 100 and 1000, never expiring; block hashes: 50 and 500, two
    /// minutes.
    pub fn new() -> (c: Self)
        ensures
            c.wf(),
            c.accounts.l1_size() == 1000 && c.accounts.l2_size() == 10_000 && c.accounts.default_ttl() == Some(300_000u64),
            c.transactions.l1_size() == 500 && c.transactions.l2_size() == 5_000 && c.transactions.default_ttl() == Some(600_000u64),
            c.state_roots.l1_size() == 100 && c.state_roots.l2_size() == 1_000 && c.state_roots.default_ttl() == None::<u64>,
            c.blockhashes.l1_size() == 50 && c.blockhashes.l2_size() == 500 && c.blockhashes.default_ttl() == Some(120_000u64),
            c.accounts.l1().len() == 0 && c.accounts.l2().len() == 0,
            c.transactions.l1().len() == 0 && c.transactions.l2().len() == 0,
            c.state_roots.l1().len() == 0 && c.state_roots.l2().len() == 0,
            c.blockhashes.l1().len() == 0 && c.blockhashes.l2().len() == 0,
    {
        RollupCaches {
            accounts: MultiLayerCache::new(1000, 10_000, Some(300_000)),
            transactions: MultiLayerCache::new(500, 5_000, Some(600_000)),
            state_roots: MultiLayerCache::new(100, 1_000, None),
            blockhashes: MultiLayerCache::new(50, 500, Some(120_000)),
        }
    }

    pub open spec fn wf(&self) -> bool {
        &&& self.accounts.wf()
        &&& self.transactions.wf()
        &&& self.state_roots.wf()
        &&& self.blockhashes.wf()
    }

    /// Each cache's statistics.
    pub fn get_all_stats(&self) -> (st: AllCacheStats)
        ensures
            st.accounts.l1_size == self.accounts.l1().len() && st.accounts.l2_size == self.accounts.l2().len(),
            st.accounts.l1_capacity == self.accounts.l1_size() && st.accounts.l2_capacity == self.accounts.l2_size(),
            st.transactions.l1_size == self.transactions.l1().len() && st.transactions.l2_size == self.transactions.l2().len(),
            st.transactions.l1_capacity == self.transactions.l1_size() && st.transactions.l2_capacity == self.transactions.l2_size(),
            st.state_roots.l1_size == self.state_roots.l1().len() && st.state_roots.l2_size == self.state_roots.l2().len(),
            st.state_roots.l1_capacity == self.state_roots.l1_size() && st.state_roots.l2_capacity == self.state_roots.l2_size(),
            st.blockhashes.l1_size == self.blockhashes.l1().len() && st.blockhashes.l2_size == self.blockhashes.l2().len(),
            st.blockhashes.l1_capacity == self.blockhashes.l1_size() && st.blockhashes.l2_capacity == self.blockhashes.l2_size(),
    {
        AllCacheStats {
            accounts: self.accounts.stats(),
            transactions: self.transactions.stats(),
            state_roots: self.state_roots.stats(),
            blockhashes: self.blockhashes.stats(),
        }
    }

    /// Drop every cache's entries expired at `now`.
    pub fn cleanup_all_at(&mut self, now: u64)
        requires
            old(self).wf(),
        ensures
            final(self).wf(),
            final(self).accounts.l1() == old(self).accounts.l1().filter(live(now)),
            final(self).accounts.l2() == old(self).accounts.l2().filter(live(now)),
            final(self).transactions.l1() == old(self).transactions.l1().filter(live(now)),
            final(self).transactions.l2() == old(self).transactions.l2().filter(live(now)),
            final(self).state_roots.l1() == old(self).state_roots.l1().filter(live(now)),
            final(self).state_roots.l2() == old(self).state_roots.l2().filter(live(now)),
            final(self).blockhashes.l1() == old(self).blockhashes.l1().filter(live(now)),
            final(self).blockhashes.l2() == old(self).blockhashes.l2().filter(live(now)),
    {
        self.accounts.cleanup_expired_at(now);
        self.transactions.cleanup_expired_at(now);
        self.state_roots.cleanup_expired_at(now);
        self.blockhashes.cleanup_expired_at(now);
    }

    /// Whether `new` is `old` with every cache's entries expired at `now` dropped.
    pub open spec fn cleaned_at(old: &RollupCaches, new: &RollupCaches, now: u64) -> bool {
        &&& new.accounts.l1() == old.accounts.l1().filter(live(now))
        &&& new.accounts.l2() == old.accounts.l2().filter(live(now))
        &&& new.transactions.l1() == old.transactions.l1().filter(live(now))
        &&& new.transactions.l2() == old.transactions.l2().filter(live(now))
        &&& new.state_roots.l1() == old.state_roots.l1().filter(live(now))
        &&& new.state_roots.l2() == old.state_roots.l2().filter(live(now))
        &&& new.blockhashes.l1() == old.blockhashes.l1().filter(live(now))
        &&& new.blockhashes.l2() == old.blockhashes.l2().filter(live(now))
    }

    /// Drop every cache's entries expired now, by the wall clock (see `cleanup_all_at`).
    pub fn cleanup_all(&mut self)
        requires
            old(self).wf(),
        ensures
            final(self).wf(),
            exists|now: u64| #[trigger] Self::cleaned_at(old(self), final(self), now),
    {
        let now = now_millis();
        self.cleanup_all_at(now);
        assert(Self::cleaned_at(old(self), self, now));
    }

    /// Empty every cache.
    pub fn clear_all(&mut self)
        requires
            old(self).wf(),
        ensures
            final(self).wf(),
            final(self).accounts.l1().len() == 0 && final(self).accounts.l2().len() == 0,
            final(self).transactions.l1().len() == 0 && final(self).transactions.l2().len() == 0,
            final(self).state_roots.l1().len() == 0 && final(self).state_roots.l2().len() == 0,
            final(self).blockhashes.l1().len() == 0 && final(self).blockhashes.l2().len() == 0,
    {
        self.accounts.clear();
        self.transactions.clear();
        self.state_roots.clear();
        self.blockhashes.clear();
    }
}

impl Default for RollupCaches {
    fn default() -> (c: Self)
        ensures
            c.wf(),
    {
        Self::new()
    }
}

/// After `(k, e)` is pushed, `k` is the most recent entry and the only one with its key.
proof fn lemma_lru_push_last<KV, W>(s: Seq<(KV, EntryModel<W>)>, cap: usize, k: KV, e: EntryModel<W>)
    requires
        keys_distinct(s),
    ensures
        ({
            let t = lru_push(s, cap, k, e).0;
            &&& t.len() > 0
            &&& t[t.len() - 1] == (k, e)
            &&& key_pos(t, k) == Some((t.len() - 1) as int)
        }),
{
    let pred = |x: (KV, EntryModel<W>)| x.0 == k;
    crate::util::lemma_find_first(s, pred);
    let t = lru_push(s, cap, k, e).0;
    let last = t.len() - 1;
    match key_pos(s, k) {
        Some(i) => {
            assert forall|j: int| 0 <= j < last implies !pred(#[trigger] t[j]) by {
                if j < i {
                    assert(t[j] == s[j]);
                } else {
                    assert(t[j] == s[j + 1]);
                    assert(s[i].0 != s[j + 1].0);
                }
            }
        },
        None => {
            assert forall|j: int| 0 <= j < last implies !pred(#[trigger] t[j]) by {
                if s.len() >= cap && s.len() > 0 {
                    assert(t[j] == s[j + 1]);
                } else {
                    assert(t[j] == s[j]);
                }
            }
        },
    }
    crate::util::lemma_find_first_at(t, pred, last);
}

/// What a read gives back of a write: right after `value` is stored under `key`, a read of
/// `key` at any time the entry has not outlived its time to live answers `value`.
pub proof fn lemma_get_after_put<K: CacheKey, V: CacheValue>(
    l1: Seq<(K::V, EntryModel<V::V>)>,
    l2: Seq<(K::V, EntryModel<V::V>)>,
    l1_size: usize,
    l2_size: usize,
    key: K::V,
    value: V::V,
    now: u64,
    ttl: Option<u64>,
    later: u64,
)
    requires
        keys_distinct(l1),
        !expired(fresh_entry(value, now, ttl), later),
    ensures
        ({
            let p = MultiLayerCache::<K, V>::put_spec(l1, l2, l1_size, l2_size, key, fresh_entry(value, now, ttl));
            MultiLayerCache::<K, V>::get_spec(p.0, p.1, l1_size, key, later).2 == Some(value)
        }),
{
    lemma_lru_push_last(l1, l1_size, key, fresh_entry(value, now, ttl));
}

/// The least-recently-used layer stays within its capacity: after a push the list holds at
/// most `cap` entries and the pushed entry is the most recent (last). A key already present
/// is refreshed and nothing else leaves; a new key with room makes nothing leave; a new key
/// into a full list makes the least recent entry (the first) leave.
pub proof fn lemma_lru_bounded<KV, W>(s: Seq<(KV, EntryModel<W>)>, cap: usize, k: KV, e: EntryModel<W>)
    requires
        s.len() <= cap,
        cap > 0,
    ensures
        lru_push(s, cap, k, e).0.len() <= cap,
        lru_push(s, cap, k, e).0.last() == (k, e),
        key_pos(s, k) is Some ==> lru_push(s, cap, k, e).0.len() == s.len(),
        key_pos(s, k) is None && s.len() < cap ==> lru_push(s, cap, k, e).1 is None && lru_push(s, cap, k, e).0
            == s.push((k, e)),
        key_pos(s, k) is None && s.len() == cap ==> lru_push(s, cap, k, e).1 == Some(s[0])
            && lru_push(s, cap, k, e).0.len() == cap,
{
    crate::util::lemma_find_first(s, |x: (KV, EntryModel<W>)| x.0 == k);
}

/// An entry stored at `t` with a time to live of `d` seconds is alive up to and including
/// `t + d` and expired from then on; one stored with no time to live never expires.
pub proof fn lemma_entry_lifetime<W>(v: W, t: u64, ttl: Option<u64>, now: u64)
    requires
        t <= now,
    ensures
        ttl is None ==> !expired(fresh_entry(v, t, ttl), now),
        ttl matches Some(d) ==> (expired(fresh_entry(v, t, ttl), now) <==> now > t + d),
{
}

} // verus!
