use vstd::prelude::*;

use crate::util::{find_first, lemma_find_first, lemma_find_first_at};

verus! {

/// The map that a list of entries stands for: later entries win.
pub open spec fn entries_map<T>(s: Seq<(String, T)>) -> Map<Seq<char>, T>
    decreases s.len(),
{
    if s.len() == 0 {
        Map::empty()
    } else {
        entries_map(s.drop_last()).insert(s.last().0@, s.last().1)
    }
}

/// No key occurs twice.
pub open spec fn keys_unique<T>(s: Seq<(String, T)>) -> bool {
    forall|i: int, j: int| 0 <= i < j < s.len() ==> s[i].0@ != s[j].0@
}

/// The position of `k`, if present.
pub open spec fn key_pos<T>(s: Seq<(String, T)>, k: Seq<char>) -> Option<int> {
    find_first(s, |e: (String, T)| e.0@ == k)
}

/// A key is in the map exactly when an entry has it, and the map gives that entry's value.
pub proof fn lemma_entries_map<T>(s: Seq<(String, T)>)
    requires
        keys_unique(s),
    ensures
        forall|k: Seq<char>|
            #![trigger entries_map(s).dom().contains(k)]
            entries_map(s).dom().contains(k) <==> exists|i: int| 0 <= i < s.len() && s[i].0@ == k,
        forall|i: int|
            0 <= i < s.len() ==> #[trigger] entries_map(s).dom().contains(s[i].0@) && entries_map(
                s,
            )[s[i].0@] == s[i].1,
        entries_map(s).dom().finite(),
        entries_map(s).dom().len() == s.len(),
    decreases s.len(),
{
    if s.len() > 0 {
        let t = s.drop_last();
        lemma_entries_map(t);
        let m = entries_map(t);
        let last = s.last();
        assert(!m.dom().contains(last.0@)) by {
            if m.dom().contains(last.0@) {
                let i = choose|i: int| 0 <= i < t.len() && t[i].0@ == last.0@;
                assert(s[i].0@ == s[s.len() - 1].0@);
            }
        }
        assert forall|k: Seq<char>|
            entries_map(s).dom().contains(k) <==> exists|i: int| 0 <= i < s.len() && s[i].0@ == k by {
            if entries_map(s).dom().contains(k) && k != last.0@ {
                let i = choose|i: int| 0 <= i < t.len() && t[i].0@ == k;
                assert(s[i].0@ == k);
            }
            if exists|i: int| 0 <= i < s.len() && s[i].0@ == k {
                let i = choose|i: int| 0 <= i < s.len() && s[i].0@ == k;
                if i < s.len() - 1 {
                    assert(t[i].0@ == k);
                }
            }
        }
        assert forall|i: int| 0 <= i < s.len() implies #[trigger] entries_map(s).dom().contains(
            s[i].0@,
        ) && entries_map(s)[s[i].0@] == s[i].1 by {
            if i < s.len() - 1 {
                assert(t[i] == s[i]);
                assert(s[i].0@ != last.0@);
                assert(m.dom().contains(t[i].0@));
                assert(m[t[i].0@] == t[i].1);
                assert(entries_map(s) == m.insert(last.0@, last.1));
            } else {
                assert(s[i] == last);
                assert(entries_map(s) == m.insert(last.0@, last.1));
            }
        }
    }
}

/// Replacing the value of an entry is inserting into the map.
pub proof fn lemma_entries_map_update<T>(s: Seq<(String, T)>, i: int, e: (String, T))
    requires
        keys_unique(s),
        0 <= i < s.len(),
        e.0@ == s[i].0@,
    ensures
        entries_map(s.update(i, e)) == entries_map(s).insert(e.0@, e.1),
        keys_unique(s.update(i, e)),
    decreases s.len(),
{
    let u = s.update(i, e);
    if i == s.len() - 1 {
        assert(u.drop_last() =~= s.drop_last());
        lemma_entries_map(s.drop_last());
        assert(!entries_map(s.drop_last()).dom().contains(e.0@)) by {
            if entries_map(s.drop_last()).dom().contains(e.0@) {
                let j = choose|j: int| 0 <= j < s.len() - 1 && s.drop_last()[j].0@ == e.0@;
                assert(s[j].0@ == s[i].0@);
            }
        }
        assert(entries_map(u) =~= entries_map(s).insert(e.0@, e.1));
    } else {
        assert(u.drop_last() =~= s.drop_last().update(i, e));
        lemma_entries_map_update(s.drop_last(), i, e);
        assert(s.last().0@ != e.0@);
        assert(entries_map(u) =~= entries_map(s).insert(e.0@, e.1));
    }
    assert forall|a: int, b: int| 0 <= a < b < u.len() implies u[a].0@ != u[b].0@ by {
        if a != i && b != i {
            assert(u[a] == s[a] && u[b] == s[b]);
        } else if a == i {
            assert(u[b] == s[b]);
        } else {
            assert(u[a] == s[a]);
        }
    }
}

/// Removing an entry is removing its key from the map.
pub proof fn lemma_entries_map_remove<T>(s: Seq<(String, T)>, i: int)
    requires
        keys_unique(s),
        0 <= i < s.len(),
    ensures
        entries_map(s.remove(i)) == entries_map(s).remove(s[i].0@),
        keys_unique(s.remove(i)),
    decreases s.len(),
{
    let r = s.remove(i);
    let k = s[i].0@;
    if i == s.len() - 1 {
        assert(r =~= s.drop_last());
        lemma_entries_map(s.drop_last());
        assert(!entries_map(s.drop_last()).dom().contains(k)) by {
            if entries_map(s.drop_last()).dom().contains(k) {
                let j = choose|j: int| 0 <= j < s.len() - 1 && s.drop_last()[j].0@ == k;
                assert(s[j].0@ == s[i].0@);
            }
        }
        assert(entries_map(r) =~= entries_map(s).remove(k));
    } else {
        assert(r.drop_last() =~= s.drop_last().remove(i));
        assert(r.last() == s.last());
        lemma_entries_map_remove(s.drop_last(), i);
        assert(s.last().0@ != k);
        assert(entries_map(r) =~= entries_map(s).remove(k));
    }
    assert forall|a: int, b: int| 0 <= a < b < r.len() implies r[a].0@ != r[b].0@ by {
        if a < i {
            if b < i {
            } else {
                assert(r[b] == s[b + 1]);
            }
        } else {
            assert(r[a] == s[a + 1] && r[b] == s[b + 1]);
        }
    }
}

/// Keeping the entries whose key and value satisfy `p` restricts the map to those keys.
pub proof fn lemma_entries_map_filter<T>(s: Seq<(String, T)>, p: spec_fn(Seq<char>, T) -> bool)
    requires
        keys_unique(s),
    ensures
        keys_unique(s.filter(|e: (String, T)| p(e.0@, e.1))),
        entries_map(s.filter(|e: (String, T)| p(e.0@, e.1))) == entries_map(s).restrict(
            entries_map(s).dom().filter(|k: Seq<char>| p(k, entries_map(s)[k])),
        ),
    decreases s.len(),
{
    let f = |e: (String, T)| p(e.0@, e.1);
    let fs = s.filter(f);
    reveal(Seq::filter);
    if s.len() == 0 {
        assert(fs =~= Seq::<(String, T)>::empty());
        assert(entries_map(fs) =~= entries_map(s).restrict(
            entries_map(s).dom().filter(|k: Seq<char>| p(k, entries_map(s)[k])),
        ));
    } else {
        let t = s.drop_last();
        let x = s.last();
        lemma_entries_map_filter(t, p);
        lemma_entries_map(t);
        lemma_entries_map(s);
        let ft = t.filter(f);
        assert(fs == (if f(x) { ft.push(x) } else { ft }));
        assert(!entries_map(t).dom().contains(x.0@)) by {
            if entries_map(t).dom().contains(x.0@) {
                let i = choose|i: int| 0 <= i < t.len() && t[i].0@ == x.0@;
                assert(s[i].0@ == s[s.len() - 1].0@);
            }
        }
        let mt = entries_map(t);
        let ms = entries_map(s);
        assert(ms == mt.insert(x.0@, x.1));
        let rt = mt.restrict(mt.dom().filter(|k: Seq<char>| p(k, mt[k])));
        let rs = ms.restrict(ms.dom().filter(|k: Seq<char>| p(k, ms[k])));
        assert(entries_map(ft) == rt);
        if f(x) {
            assert forall|a: int, b: int| 0 <= a < b < fs.len() implies fs[a].0@ != fs[b].0@ by {
                if b == ft.len() {
                    assert(ft.contains(ft[a]));
                    t.lemma_filter_contains_rev(f, ft[a]);
                    let i = choose|i: int| 0 <= i < t.len() && t[i] == ft[a];
                    assert(entries_map(t).dom().contains(t[i].0@));
                }
            }
            assert(fs == ft.push(x));
            assert(fs.drop_last() =~= ft);
            assert(fs.last() == x);
            assert(entries_map(fs) == rt.insert(x.0@, x.1));
            assert forall|k: Seq<char>| #[trigger] rs.dom().contains(k) <==> rt.insert(x.0@, x.1).dom().contains(k) by {
                if k != x.0@ {
                    assert(ms[k] == mt[k]);
                }
            }
            assert forall|k: Seq<char>| #[trigger] rs.dom().contains(k) implies rs[k] == rt.insert(x.0@, x.1)[k] by {
                if k != x.0@ {
                    assert(ms[k] == mt[k]);
                }
            }
            assert(entries_map(fs) =~= rs);
        } else {
            assert(fs == ft);
            assert forall|k: Seq<char>| #[trigger] rs.dom().contains(k) <==> rt.dom().contains(k) by {
                if k != x.0@ {
                    assert(ms[k] == mt[k]);
                }
            }
            assert forall|k: Seq<char>| #[trigger] rs.dom().contains(k) implies rs[k] == rt[k] by {
                if k != x.0@ {
                    assert(ms[k] == mt[k]);
                }
            }
            assert(entries_map(fs) =~= rs);
        }
    }
}

/// A table keyed by strings, in the order the keys were first inserted.
#[derive(Debug, Clone)]
pub struct StrMap<T> {
    entries: Vec<(String, T)>,
}

impl<T> View for StrMap<T> {
    type V = Map<Seq<char>, T>;

    closed spec fn view(&self) -> Map<Seq<char>, T> {
        entries_map(self.entries@)
    }
}

impl<T> StrMap<T> {
    /// The entries, in the order their keys were first inserted.
    pub closed spec fn entries(&self) -> Seq<(String, T)> {
        self.entries@
    }

    /// The values, in the order their keys were first inserted.
    pub open spec fn values(&self) -> Seq<T> {
        self.entries().map_values(|e: (String, T)| e.1)
    }

    /// No key occurs twice.
    pub closed spec fn wf(&self) -> bool {
        keys_unique(self.entries@)
    }

    /// What the map view says of the entries: a key is present exactly when an entry has it,
    /// with that entry's value, and there are as many keys as entries.
    pub proof fn lemma_view(&self)
        requires
            self.wf(),
        ensures
            forall|k: Seq<char>|
                #![trigger self@.dom().contains(k)]
                self@.dom().contains(k) <==> exists|i: int|
                    0 <= i < self.entries().len() && self.entries()[i].0@ == k,
            forall|i: int|
                0 <= i < self.entries().len() ==> #[trigger] self@.dom().contains(
                    self.entries()[i].0@,
                ) && self@[self.entries()[i].0@] == self.entries()[i].1,
            self@.dom().finite(),
            self@.dom().len() == self.entries().len(),
            keys_unique(self.entries()),
    {
        lemma_entries_map(self.entries@);
        assert forall|k: Seq<char>|
            #![trigger self@.dom().contains(k)]
            self@.dom().contains(k) <==> exists|i: int|
                0 <= i < self.entries().len() && self.entries()[i].0@ == k by {
            let s = self.entries@;
            assert(entries_map(s).dom().contains(k) == self@.dom().contains(k));
            if self@.dom().contains(k) {
                let i = choose|i: int| 0 <= i < s.len() && s[i].0@ == k;
                assert(self.entries()[i].0@ == k);
            }
            if exists|i: int| 0 <= i < self.entries().len() && self.entries()[i].0@ == k {
                let i = choose|i: int| 0 <= i < self.entries().len() && self.entries()[i].0@ == k;
                assert(s[i].0@ == k);
            }
        }
    }

    pub fn new() -> (m: Self)
        ensures
            m.wf(),
            m@ == Map::<Seq<char>, T>::empty(),
            m.entries() == Seq::<(String, T)>::empty(),
    {
        StrMap { entries: Vec::new() }
    }

    /// How many entries there are.
    pub fn len_entries(&self) -> (n: usize)
        ensures
            n == self.entries().len(),
    {
        self.entries.len()
    }

    /// How many keys there are.
    pub fn len(&self) -> (n: usize)
        requires
            self.wf(),
        ensures
            n == self@.dom().len(),
            n == self.entries().len(),
    {
        proof {
            lemma_entries_map(self.entries@);
        }
        self.entries.len()
    }

    fn find(&self, k: &str) -> (r: Option<usize>)
        requires
            self.wf(),
        ensures
            match r {
                Some(i) => i < self.entries@.len() && self.entries@[i as int].0@ == k@ && key_pos(
                    self.entries@,
                    k@,
                ) == Some(i as int),
                None => !self@.dom().contains(k@) && key_pos(self.entries@, k@) is None,
            },
    {
        proof {
            lemma_entries_map(self.entries@);
        }
        let key = k.to_owned();
        let ghost pred = |e: (String, T)| e.0@ == k@;
        let mut i: usize = 0;
        while i < self.entries.len()
            invariant
                0 <= i <= self.entries@.len(),
                key@ == k@,
                pred == (|e: (String, T)| e.0@ == k@),
                forall|j: int| 0 <= j < i ==> self.entries@[j].0@ != k@,
            decreases self.entries@.len() - i,
        {
            if self.entries[i].0 == key {
                proof {
                    lemma_find_first_at(self.entries@, pred, i as int);
                }
                return Some(i);
            }
            i = i + 1;
        }
        proof {
            lemma_find_first(self.entries@, pred);
        }
        None
    }

    /// The position of `k` among the entries, if present.
    pub fn position(&self, k: &str) -> (r: Option<usize>)
        requires
            self.wf(),
        ensures
            match r {
                Some(i) => i < self.entries().len() && self.entries()[i as int].0@ == k@,
                None => !self@.dom().contains(k@),
            },
            r is Some <==> self@.dom().contains(k@),
    {
        proof {
            lemma_entries_map(self.entries@);
        }
        self.find(k)
    }

    /// Whether `k` is present.
    pub fn contains_key(&self, k: &str) -> (b: bool)
        requires
            self.wf(),
        ensures
            b == self@.dom().contains(k@),
    {
        proof {
            lemma_entries_map(self.entries@);
        }
        self.find(k).is_some()
    }

    /// The value of `k`, if present.
    pub fn get(&self, k: &str) -> (r: Option<&T>)
        requires
            self.wf(),
        ensures
            match r {
                Some(v) => self@.dom().contains(k@) && *v == self@[k@],
                None => !self@.dom().contains(k@),
            },
    {
        proof {
            lemma_entries_map(self.entries@);
        }
        match self.find(k) {
            Some(i) => {
                assert(self@.dom().contains(self.entries@[i as int].0@));
                Some(&self.entries[i].1)
            },
            None => None,
        }
    }

    /// The key of the entry at `i`.
    pub fn key_at(&self, i: usize) -> (r: &String)
        requires
            i < self.entries().len(),
        ensures
            *r == self.entries()[i as int].0,
    {
        &self.entries[i].0
    }

    /// The value of the entry at `i`.
    pub fn value_at(&self, i: usize) -> (r: &T)
        requires
            i < self.entries().len(),
        ensures
            *r == self.entries()[i as int].1,
    {
        &self.entries[i].1
    }

    /// Set the value of `k`: an existing key keeps its place, a new one goes last.
    pub fn insert(&mut self, k: String, v: T)
        requires
            old(self).wf(),
        ensures
            final(self).wf(),
            final(self)@ == old(self)@.insert(k@, v),
            old(self)@.dom().contains(k@) ==> final(self).entries() == old(self).entries().update(
                key_pos(old(self).entries(), k@)->Some_0,
                (k, v),
            ),
            !old(self)@.dom().contains(k@) ==> final(self).entries() == old(self).entries().push(
                (k, v),
            ),
    {
        proof {
            lemma_entries_map(self.entries@);
        }
        match self.find(k.as_str()) {
            Some(i) => {
                let ghost s = self.entries@;
                let ghost e = (k, v);
                proof {
                    lemma_entries_map_update(s, i as int, e);
                }
                self.entries.set(i, (k, v));
            },
            None => {
                let ghost s = self.entries@;
                self.entries.push((k, v));
                proof {
                    assert(self.entries@.drop_last() =~= s);
                    assert forall|a: int, b: int|
                        0 <= a < b < self.entries@.len() implies self.entries@[a].0@
                        != self.entries@[b].0@ by {
                        if b == s.len() {
                            assert(s[a].0@ != self.entries@[b].0@);
                        }
                    }
                }
            },
        }
    }

    /// Replace the value of the entry at `i`; its key and place stay.
    pub fn set_value_at(&mut self, i: usize, v: T)
        requires
            old(self).wf(),
            i < old(self).entries().len(),
        ensures
            final(self).wf(),
            final(self).entries() == old(self).entries().update(i as int, (old(self).entries()[i as int].0, v)),
            final(self)@ == old(self)@.insert(old(self).entries()[i as int].0@, v),
    {
        let ghost s = self.entries@;
        let (k, _) = self.entries.remove(i);
        let ghost e = (k, v);
        self.entries.insert(i, (k, v));
        proof {
            assert(self.entries@ =~= s.update(i as int, e));
            lemma_entries_map_update(s, i as int, e);
        }
    }

    /// Remove `k`, giving back its value if it was present; the other entries keep their order.
    pub fn remove(&mut self, k: &str) -> (r: Option<T>)
        requires
            old(self).wf(),
        ensures
            final(self).wf(),
            final(self)@ == old(self)@.remove(k@),
            match r {
                Some(v) => old(self)@.dom().contains(k@) && v == old(self)@[k@],
                None => !old(self)@.dom().contains(k@) && final(self).entries() == old(
                    self,
                ).entries(),
            },
    {
        proof {
            lemma_entries_map(self.entries@);
        }
        match self.find(k) {
            Some(i) => {
                let ghost s = self.entries@;
                proof {
                    lemma_entries_map_remove(s, i as int);
                    assert(entries_map(s).dom().contains(s[i as int].0@));
                }
                let (_, v) = self.entries.remove(i);
                Some(v)
            },
            None => {
                assert(self@.remove(k@) =~= self@);
                None
            },
        }
    }

    /// Keep only the entries whose key and value satisfy `p`, which `f` computes; the kept
    /// entries keep their order.
    pub fn retain<F: Fn(&String, &T) -> bool>(&mut self, f: F, Ghost(p): Ghost<spec_fn(Seq<char>, T) -> bool>)
        requires
            old(self).wf(),
            forall|k: &String, v: &T| #[trigger] f.requires((k, v)),
            forall|k: &String, v: &T, b: bool| f.ensures((k, v), b) ==> b == p(k@, *v),
        ensures
            final(self).wf(),
            final(self)@ == old(self)@.restrict(old(self)@.dom().filter(|k: Seq<char>| p(k, old(self)@[k]))),
            final(self).entries() == old(self).entries().filter(|e: (String, T)| p(e.0@, e.1)),
    {
        let ghost s = self.entries@;
        let ghost pred = |e: (String, T)| p(e.0@, e.1);
        let mut rest: Vec<(String, T)> = Vec::new();
        std::mem::swap(&mut rest, &mut self.entries);
        let mut kept: Vec<(String, T)> = Vec::new();
        let n = rest.len();
        let mut i: usize = 0;
        while i < n
            invariant
                n == s.len(),
                0 <= i <= n,
                pred == (|e: (String, T)| p(e.0@, e.1)),
                rest@ == s.subrange(i as int, n as int),
                kept@ == s.subrange(0, i as int).filter(pred),
                forall|k: &String, v: &T| #[trigger] f.requires((k, v)),
                forall|k: &String, v: &T, b: bool| f.ensures((k, v), b) ==> b == p(k@, *v),
            decreases n - i,
        {
            let e = rest.remove(0);
            assert(e == s[i as int]);
            assert(rest@ =~= s.subrange(i + 1, n as int));
            assert(s.subrange(0, i + 1) =~= s.subrange(0, i as int).push(s[i as int]));
            proof {
                s.subrange(0, i as int).lemma_filter_push(s[i as int], pred);
            }
            let keep = f(&e.0, &e.1);
            if keep {
                kept.push(e);
            }
            i = i + 1;
        }
        assert(s.subrange(0, n as int) =~= s);
        proof {
            lemma_entries_map_filter(s, p);
        }
        self.entries = kept;
    }

    /// Remove every entry.
    pub fn clear(&mut self)
        ensures
            final(self).wf(),
            final(self)@ == Map::<Seq<char>, T>::empty(),
            final(self).entries() == Seq::<(String, T)>::empty(),
    {
        self.entries.clear();
    }
}

/// The map that a list of entries stands for: later entries win.
pub open spec fn id_entries_map<T>(s: Seq<(u64, T)>) -> Map<u64, T>
    decreases s.len(),
{
    if s.len() == 0 {
        Map::empty()
    } else {
        id_entries_map(s.drop_last()).insert(s.last().0, s.last().1)
    }
}

/// No key occurs twice.
pub open spec fn id_keys_unique<T>(s: Seq<(u64, T)>) -> bool {
    forall|i: int, j: int| 0 <= i < j < s.len() ==> s[i].0 != s[j].0
}

/// The position of `k`, if present.
pub open spec fn id_key_pos<T>(s: Seq<(u64, T)>, k: u64) -> Option<int> {
    find_first(s, |e: (u64, T)| e.0 == k)
}

/// A key is in the map exactly when an entry has it, and the map gives that entry's value.
pub proof fn lemma_id_entries_map<T>(s: Seq<(u64, T)>)
    requires
        id_keys_unique(s),
    ensures
        forall|k: u64|
            #![trigger id_entries_map(s).dom().contains(k)]
            id_entries_map(s).dom().contains(k) <==> exists|i: int| 0 <= i < s.len() && s[i].0 == k,
        forall|i: int|
            0 <= i < s.len() ==> #[trigger] id_entries_map(s).dom().contains(s[i].0) && id_entries_map(
                s,
            )[s[i].0] == s[i].1,
        id_entries_map(s).dom().finite(),
        id_entries_map(s).dom().len() == s.len(),
    decreases s.len(),
{
    if s.len() > 0 {
        let t = s.drop_last();
        lemma_id_entries_map(t);
        let m = id_entries_map(t);
        let last = s.last();
        assert(!m.dom().contains(last.0)) by {
            if m.dom().contains(last.0) {
                let i = choose|i: int| 0 <= i < t.len() && t[i].0 == last.0;
                assert(s[i].0 == s[s.len() - 1].0);
            }
        }
        assert forall|k: u64|
            id_entries_map(s).dom().contains(k) <==> exists|i: int| 0 <= i < s.len() && s[i].0 == k by {
            if id_entries_map(s).dom().contains(k) && k != last.0 {
                let i = choose|i: int| 0 <= i < t.len() && t[i].0 == k;
                assert(s[i].0 == k);
            }
            if exists|i: int| 0 <= i < s.len() && s[i].0 == k {
                let i = choose|i: int| 0 <= i < s.len() && s[i].0 == k;
                if i < s.len() - 1 {
                    assert(t[i].0 == k);
                }
            }
        }
        assert forall|i: int| 0 <= i < s.len() implies #[trigger] id_entries_map(s).dom().contains(
            s[i].0,
        ) && id_entries_map(s)[s[i].0] == s[i].1 by {
            if i < s.len() - 1 {
                assert(t[i] == s[i]);
                assert(s[i].0 != last.0);
                assert(m.dom().contains(t[i].0));
                assert(m[t[i].0] == t[i].1);
                assert(id_entries_map(s) == m.insert(last.0, last.1));
            } else {
                assert(s[i] == last);
                assert(id_entries_map(s) == m.insert(last.0, last.1));
            }
        }
    }
}

/// Replacing the value of an entry is inserting into the map.
pub proof fn lemma_id_entries_map_update<T>(s: Seq<(u64, T)>, i: int, e: (u64, T))
    requires
        id_keys_unique(s),
        0 <= i < s.len(),
        e.0 == s[i].0,
    ensures
        id_entries_map(s.update(i, e)) == id_entries_map(s).insert(e.0, e.1),
        id_keys_unique(s.update(i, e)),
    decreases s.len(),
{
    let u = s.update(i, e);
    if i == s.len() - 1 {
        assert(u.drop_last() =~= s.drop_last());
        lemma_id_entries_map(s.drop_last());
        assert(!id_entries_map(s.drop_last()).dom().contains(e.0)) by {
            if id_entries_map(s.drop_last()).dom().contains(e.0) {
                let j = choose|j: int| 0 <= j < s.len() - 1 && s.drop_last()[j].0 == e.0;
                assert(s[j].0 == s[i].0);
            }
        }
        assert(id_entries_map(u) =~= id_entries_map(s).insert(e.0, e.1));
    } else {
        assert(u.drop_last() =~= s.drop_last().update(i, e));
        lemma_id_entries_map_update(s.drop_last(), i, e);
        assert(s.last().0 != e.0);
        assert(id_entries_map(u) =~= id_entries_map(s).insert(e.0, e.1));
    }
    assert forall|a: int, b: int| 0 <= a < b < u.len() implies u[a].0 != u[b].0 by {
        if a != i && b != i {
            assert(u[a] == s[a] && u[b] == s[b]);
        } else if a == i {
            assert(u[b] == s[b]);
        } else {
            assert(u[a] == s[a]);
        }
    }
}

/// Removing an entry is removing its key from the map.
pub proof fn lemma_id_entries_map_remove<T>(s: Seq<(u64, T)>, i: int)
    requires
        id_keys_unique(s),
        0 <= i < s.len(),
    ensures
        id_entries_map(s.remove(i)) == id_entries_map(s).remove(s[i].0),
        id_keys_unique(s.remove(i)),
    decreases s.len(),
{
    let r = s.remove(i);
    let k = s[i].0;
    if i == s.len() - 1 {
        assert(r =~= s.drop_last());
        lemma_id_entries_map(s.drop_last());
        assert(!id_entries_map(s.drop_last()).dom().contains(k)) by {
            if id_entries_map(s.drop_last()).dom().contains(k) {
                let j = choose|j: int| 0 <= j < s.len() - 1 && s.drop_last()[j].0 == k;
                assert(s[j].0 == s[i].0);
            }
        }
        assert(id_entries_map(r) =~= id_entries_map(s).remove(k));
    } else {
        assert(r.drop_last() =~= s.drop_last().remove(i));
        assert(r.last() == s.last());
        lemma_id_entries_map_remove(s.drop_last(), i);
        assert(s.last().0 != k);
        assert(id_entries_map(r) =~= id_entries_map(s).remove(k));
    }
    assert forall|a: int, b: int| 0 <= a < b < r.len() implies r[a].0 != r[b].0 by {
        if a < i {
            if b < i {
            } else {
                assert(r[b] == s[b + 1]);
            }
        } else {
            assert(r[a] == s[a + 1] && r[b] == s[b + 1]);
        }
    }
}

/// Keeping the entries whose key and value satisfy `p` restricts the map to those keys.
pub proof fn lemma_id_entries_map_filter<T>(s: Seq<(u64, T)>, p: spec_fn(u64, T) -> bool)
    requires
        id_keys_unique(s),
    ensures
        id_keys_unique(s.filter(|e: (u64, T)| p(e.0, e.1))),
        id_entries_map(s.filter(|e: (u64, T)| p(e.0, e.1))) == id_entries_map(s).restrict(
            id_entries_map(s).dom().filter(|k: u64| p(k, id_entries_map(s)[k])),
        ),
    decreases s.len(),
{
    let f = |e: (u64, T)| p(e.0, e.1);
    let fs = s.filter(f);
    reveal(Seq::filter);
    if s.len() == 0 {
        assert(fs =~= Seq::<(u64, T)>::empty());
        assert(id_entries_map(fs) =~= id_entries_map(s).restrict(
            id_entries_map(s).dom().filter(|k: u64| p(k, id_entries_map(s)[k])),
        ));
    } else {
        let t = s.drop_last();
        let x = s.last();
        lemma_id_entries_map_filter(t, p);
        lemma_id_entries_map(t);
        lemma_id_entries_map(s);
        let ft = t.filter(f);
        assert(fs == (if f(x) { ft.push(x) } else { ft }));
        assert(!id_entries_map(t).dom().contains(x.0)) by {
            if id_entries_map(t).dom().contains(x.0) {
                let i = choose|i: int| 0 <= i < t.len() && t[i].0 == x.0;
                assert(s[i].0 == s[s.len() - 1].0);
            }
        }
        let mt = id_entries_map(t);
        let ms = id_entries_map(s);
        assert(ms == mt.insert(x.0, x.1));
        let rt = mt.restrict(mt.dom().filter(|k: u64| p(k, mt[k])));
        let rs = ms.restrict(ms.dom().filter(|k: u64| p(k, ms[k])));
        assert(id_entries_map(ft) == rt);
        if f(x) {
            assert forall|a: int, b: int| 0 <= a < b < fs.len() implies fs[a].0 != fs[b].0 by {
                if b == ft.len() {
                    assert(ft.contains(ft[a]));
                    t.lemma_filter_contains_rev(f, ft[a]);
                    let i = choose|i: int| 0 <= i < t.len() && t[i] == ft[a];
                    assert(id_entries_map(t).dom().contains(t[i].0));
                }
            }
            assert(fs == ft.push(x));
            assert(fs.drop_last() =~= ft);
            assert(fs.last() == x);
            assert(id_entries_map(fs) == rt.insert(x.0, x.1));
            assert forall|k: u64| #[trigger] rs.dom().contains(k) <==> rt.insert(x.0, x.1).dom().contains(k) by {
                if k != x.0 {
                    assert(ms[k] == mt[k]);
                }
            }
            assert forall|k: u64| #[trigger] rs.dom().contains(k) implies rs[k] == rt.insert(x.0, x.1)[k] by {
                if k != x.0 {
                    assert(ms[k] == mt[k]);
                }
            }
            assert(id_entries_map(fs) =~= rs);
        } else {
            assert(fs == ft);
            assert forall|k: u64| #[trigger] rs.dom().contains(k) <==> rt.dom().contains(k) by {
                if k != x.0 {
                    assert(ms[k] == mt[k]);
                }
            }
            assert forall|k: u64| #[trigger] rs.dom().contains(k) implies rs[k] == rt[k] by {
                if k != x.0 {
                    assert(ms[k] == mt[k]);
                }
            }
            assert(id_entries_map(fs) =~= rs);
        }
    }
}

/// A table keyed by 64-bit ids, in the order the keys were first inserted.
#[derive(Debug, Clone)]
pub struct IdMap<T> {
    entries: Vec<(u64, T)>,
}

impl<T> View for IdMap<T> {
    type V = Map<u64, T>;

    closed spec fn view(&self) -> Map<u64, T> {
        id_entries_map(self.entries@)
    }
}

impl<T> IdMap<T> {
    /// The entries, in the order their keys were first inserted.
    pub closed spec fn entries(&self) -> Seq<(u64, T)> {
        self.entries@
    }

    /// The values, in the order their keys were first inserted.
    pub open spec fn values(&self) -> Seq<T> {
        self.entries().map_values(|e: (u64, T)| e.1)
    }

    /// No key occurs twice.
    pub closed spec fn wf(&self) -> bool {
        id_keys_unique(self.entries@)
    }

    /// What the map view says of the entries: a key is present exactly when an entry has it,
    /// with that entry's value, and there are as many keys as entries.
    pub proof fn lemma_view(&self)
        requires
            self.wf(),
        ensures
            forall|k: u64|
                #![trigger self@.dom().contains(k)]
                self@.dom().contains(k) <==> exists|i: int|
                    0 <= i < self.entries().len() && self.entries()[i].0 == k,
            forall|i: int|
                0 <= i < self.entries().len() ==> #[trigger] self@.dom().contains(
                    self.entries()[i].0,
                ) && self@[self.entries()[i].0] == self.entries()[i].1,
            self@.dom().finite(),
            self@.dom().len() == self.entries().len(),
            id_keys_unique(self.entries()),
    {
        lemma_id_entries_map(self.entries@);
        assert forall|k: u64|
            #![trigger self@.dom().contains(k)]
            self@.dom().contains(k) <==> exists|i: int|
                0 <= i < self.entries().len() && self.entries()[i].0 == k by {
            let s = self.entries@;
            assert(id_entries_map(s).dom().contains(k) == self@.dom().contains(k));
            if self@.dom().contains(k) {
                let i = choose|i: int| 0 <= i < s.len() && s[i].0 == k;
                assert(self.entries()[i].0 == k);
            }
            if exists|i: int| 0 <= i < self.entries().len() && self.entries()[i].0 == k {
                let i = choose|i: int| 0 <= i < self.entries().len() && self.entries()[i].0 == k;
                assert(s[i].0 == k);
            }
        }
    }

    pub fn new() -> (m: Self)
        ensures
            m.wf(),
            m@ == Map::<u64, T>::empty(),
            m.entries() == Seq::<(u64, T)>::empty(),
    {
        IdMap { entries: Vec::new() }
    }

    /// How many entries there are.
    pub fn len_entries(&self) -> (n: usize)
        ensures
            n == self.entries().len(),
    {
        self.entries.len()
    }

    /// How many keys there are.
    pub fn len(&self) -> (n: usize)
        requires
            self.wf(),
        ensures
            n == self@.dom().len(),
            n == self.entries().len(),
    {
        proof {
            lemma_id_entries_map(self.entries@);
        }
        self.entries.len()
    }

    fn find(&self, k: u64) -> (r: Option<usize>)
        requires
            self.wf(),
        ensures
            match r {
                Some(i) => i < self.entries@.len() && self.entries@[i as int].0 == k && id_key_pos(
                    self.entries@,
                    k,
                ) == Some(i as int),
                None => !self@.dom().contains(k) && id_key_pos(self.entries@, k) is None,
            },
    {
        proof {
            lemma_id_entries_map(self.entries@);
        }
        let ghost pred = |e: (u64, T)| e.0 == k;
        let mut i: usize = 0;
        while i < self.entries.len()
            invariant
                0 <= i <= self.entries@.len(),
                pred == (|e: (u64, T)| e.0 == k),
                forall|j: int| 0 <= j < i ==> self.entries@[j].0 != k,
            decreases self.entries@.len() - i,
        {
            if self.entries[i].0 == k {
                proof {
                    lemma_find_first_at(self.entries@, pred, i as int);
                }
                return Some(i);
            }
            i = i + 1;
        }
        proof {
            lemma_find_first(self.entries@, pred);
        }
        None
    }

    /// The position of `k` among the entries, if present.
    pub fn position(&self, k: u64) -> (r: Option<usize>)
        requires
            self.wf(),
        ensures
            match r {
                Some(i) => i < self.entries().len() && self.entries()[i as int].0 == k,
                None => !self@.dom().contains(k),
            },
            r is Some <==> self@.dom().contains(k),
    {
        proof {
            lemma_id_entries_map(self.entries@);
        }
        self.find(k)
    }

    /// Whether `k` is present.
    pub fn contains_key(&self, k: u64) -> (b: bool)
        requires
            self.wf(),
        ensures
            b == self@.dom().contains(k),
    {
        proof {
            lemma_id_entries_map(self.entries@);
        }
        self.find(k).is_some()
    }

    /// The value of `k`, if present.
    pub fn get(&self, k: u64) -> (r: Option<&T>)
        requires
            self.wf(),
        ensures
            match r {
                Some(v) => self@.dom().contains(k) && *v == self@[k],
                None => !self@.dom().contains(k),
            },
    {
        proof {
            lemma_id_entries_map(self.entries@);
        }
        match self.find(k) {
            Some(i) => {
                assert(self@.dom().contains(self.entries@[i as int].0));
                Some(&self.entries[i].1)
            },
            None => None,
        }
    }

    /// The key of the entry at `i`.
    pub fn key_at(&self, i: usize) -> (r: u64)
        requires
            i < self.entries().len(),
        ensures
            r == self.entries()[i as int].0,
    {
        self.entries[i].0
    }

    /// The value of the entry at `i`.
    pub fn value_at(&self, i: usize) -> (r: &T)
        requires
            i < self.entries().len(),
        ensures
            *r == self.entries()[i as int].1,
    {
        &self.entries[i].1
    }

    /// Set the value of `k`: an existing key keeps its place, a new one goes last.
    pub fn insert(&mut self, k: u64, v: T)
        requires
            old(self).wf(),
        ensures
            final(self).wf(),
            final(self)@ == old(self)@.insert(k, v),
            old(self)@.dom().contains(k) ==> final(self).entries() == old(self).entries().update(
                id_key_pos(old(self).entries(), k)->Some_0,
                (k, v),
            ),
            !old(self)@.dom().contains(k) ==> final(self).entries() == old(self).entries().push(
                (k, v),
            ),
    {
        proof {
            lemma_id_entries_map(self.entries@);
        }
        match self.find(k) {
            Some(i) => {
                let ghost s = self.entries@;
                let ghost e = (k, v);
                proof {
                    lemma_id_entries_map_update(s, i as int, e);
                }
                self.entries.set(i, (k, v));
            },
            None => {
                let ghost s = self.entries@;
                self.entries.push((k, v));
                proof {
                    assert(self.entries@.drop_last() =~= s);
                    assert forall|a: int, b: int|
                        0 <= a < b < self.entries@.len() implies self.entries@[a].0
                        != self.entries@[b].0 by {
                        if b == s.len() {
                            assert(s[a].0 != self.entries@[b].0);
                        }
                    }
                }
            },
        }
    }

    /// Remove `k`, giving back its value if it was present; the other entries keep their order.
    pub fn remove(&mut self, k: u64) -> (r: Option<T>)
        requires
            old(self).wf(),
        ensures
            final(self).wf(),
            final(self)@ == old(self)@.remove(k),
            match r {
                Some(v) => old(self)@.dom().contains(k) && v == old(self)@[k],
                None => !old(self)@.dom().contains(k) && final(self).entries() == old(
                    self,
                ).entries(),
            },
    {
        proof {
            lemma_id_entries_map(self.entries@);
        }
        match self.find(k) {
            Some(i) => {
                let ghost s = self.entries@;
                proof {
                    lemma_id_entries_map_remove(s, i as int);
                    assert(id_entries_map(s).dom().contains(s[i as int].0));
                }
                let (_, v) = self.entries.remove(i);
                Some(v)
            },
            None => {
                assert(self@.remove(k) =~= self@);
                None
            },
        }
    }

    /// Keep only the entries whose key and value satisfy `p`, which `f` computes; the kept
    /// entries keep their order.
    pub fn retain<F: Fn(u64, &T) -> bool>(&mut self, f: F, Ghost(p): Ghost<spec_fn(u64, T) -> bool>)
        requires
            old(self).wf(),
            forall|k: u64, v: &T| #[trigger] f.requires((k, v)),
            forall|k: u64, v: &T, b: bool| f.ensures((k, v), b) ==> b == p(k, *v),
        ensures
            final(self).wf(),
            final(self)@ == old(self)@.restrict(old(self)@.dom().filter(|k: u64| p(k, old(self)@[k]))),
            final(self).entries() == old(self).entries().filter(|e: (u64, T)| p(e.0, e.1)),
    {
        let ghost s = self.entries@;
        let ghost pred = |e: (u64, T)| p(e.0, e.1);
        let mut rest: Vec<(u64, T)> = Vec::new();
        std::mem::swap(&mut rest, &mut self.entries);
        let mut kept: Vec<(u64, T)> = Vec::new();
        let n = rest.len();
        let mut i: usize = 0;
        while i < n
            invariant
                n == s.len(),
                0 <= i <= n,
                pred == (|e: (u64, T)| p(e.0, e.1)),
                rest@ == s.subrange(i as int, n as int),
                kept@ == s.subrange(0, i as int).filter(pred),
                forall|k: u64, v: &T| #[trigger] f.requires((k, v)),
                forall|k: u64, v: &T, b: bool| f.ensures((k, v), b) ==> b == p(k, *v),
            decreases n - i,
        {
            let e = rest.remove(0);
            assert(e == s[i as int]);
            assert(rest@ =~= s.subrange(i + 1, n as int));
            assert(s.subrange(0, i + 1) =~= s.subrange(0, i as int).push(s[i as int]));
            proof {
                s.subrange(0, i as int).lemma_filter_push(s[i as int], pred);
            }
            let keep = f(e.0, &e.1);
            if keep {
                kept.push(e);
            }
            i = i + 1;
        }
        assert(s.subrange(0, n as int) =~= s);
        proof {
            lemma_id_entries_map_filter(s, p);
        }
        self.entries = kept;
    }

    /// Remove every entry.
    pub fn clear(&mut self)
        ensures
            final(self).wf(),
            final(self)@ == Map::<u64, T>::empty(),
            final(self).entries() == Seq::<(u64, T)>::empty(),
    {
        self.entries.clear();
    }
}

/// A set of strings, in the order they were first inserted.
#[derive(Debug, Clone)]
pub struct StrSet {
    map: StrMap<()>,
}

impl View for StrSet {
    type V = Set<Seq<char>>;

    closed spec fn view(&self) -> Set<Seq<char>> {
        self.map@.dom()
    }
}

impl StrSet {
    /// The members, in the order they were first inserted.
    pub closed spec fn members(&self) -> Seq<String> {
        self.map.entries().map_values(|e: (String, ())| e.0)
    }

    pub closed spec fn wf(&self) -> bool {
        self.map.wf()
    }

    /// The members' views are the set, each once.
    pub proof fn lemma_members(&self)
        requires
            self.wf(),
        ensures
            forall|k: Seq<char>|
                #![trigger self@.contains(k)]
                self@.contains(k) <==> exists|i: int|
                    0 <= i < self.members().len() && self.members()[i]@ == k,
            forall|i: int|
                0 <= i < self.members().len() ==> #[trigger] self@.contains(self.members()[i]@),
            forall|i: int, j: int|
                0 <= i < j < self.members().len() ==> self.members()[i]@ != self.members()[j]@,
            self@.finite(),
            self@.len() == self.members().len(),
    {
        self.map.lemma_view();
        assert forall|k: Seq<char>|
            #![trigger self@.contains(k)]
            self@.contains(k) <==> exists|i: int|
                0 <= i < self.members().len() && self.members()[i]@ == k by {
            if self@.contains(k) {
                let i = choose|i: int|
                    0 <= i < self.map.entries().len() && self.map.entries()[i].0@ == k;
                assert(self.members()[i]@ == k);
            }
            if exists|i: int| 0 <= i < self.members().len() && self.members()[i]@ == k {
                let i = choose|i: int| 0 <= i < self.members().len() && self.members()[i]@ == k;
                assert(self.map.entries()[i].0@ == k);
            }
        }
        assert forall|i: int| 0 <= i < self.members().len() implies #[trigger] self@.contains(
            self.members()[i]@,
        ) by {
            assert(self.map@.dom().contains(self.map.entries()[i].0@));
        }
    }

    pub fn new() -> (s: Self)
        ensures
            s.wf(),
            s@ == Set::<Seq<char>>::empty(),
            s.members() == Seq::<String>::empty(),
    {
        let s = StrSet { map: StrMap::new() };
        assert(s@ =~= Set::<Seq<char>>::empty());
        assert(s.members() =~= Seq::<String>::empty());
        s
    }

    /// A set of the given strings.
    pub fn from_vec(v: Vec<String>) -> (s: Self)
        ensures
            s.wf(),
            s@ == v@.map_values(|x: String| x@).to_set(),
    {
        let ghost all = v@;
        let mut s = StrSet::new();
        let mut rest = v;
        let n: usize = rest.len();
        let mut i: usize = 0;
        while rest.len() > 0
            invariant
                s.wf(),
                n == all.len(),
                0 <= i <= n,
                rest@ == all.subrange(i as int, n as int),
                s@ == all.take(i as int).map_values(|x: String| x@).to_set(),
            decreases rest.len(),
        {
            let x = rest.remove(0);
            assert(x == all[i as int]);
            let ghost before = s@;
            s.insert(x);
            assert(all.take(i + 1).map_values(|x: String| x@) =~= all.take(i as int).map_values(
                |x: String| x@,
            ).push(all[i as int]@));
            proof {
                all.take(i as int).map_values(|x: String| x@).lemma_push_to_set_commute(all[i as int]@);
            }
            assert(rest@ =~= all.subrange(i + 1, n as int));
            i = i + 1;
        }
        assert(all.take(n as int) =~= all);
        s
    }

    /// How many members there are.
    pub fn len(&self) -> (n: usize)
        requires
            self.wf(),
        ensures
            n == self@.len(),
            n == self.members().len(),
    {
        self.map.len()
    }

    /// Whether `k` is a member.
    pub fn contains(&self, k: &str) -> (b: bool)
        requires
            self.wf(),
        ensures
            b == self@.contains(k@),
    {
        self.map.contains_key(k)
    }

    /// The member at position `i`.
    pub fn member_at(&self, i: usize) -> (r: &String)
        requires
            i < self.members().len(),
        ensures
            *r == self.members()[i as int],
    {
        self.map.key_at(i)
    }

    /// Add `k`.
    pub fn insert(&mut self, k: String)
        requires
            old(self).wf(),
        ensures
            final(self).wf(),
            final(self)@ == old(self)@.insert(k@),
    {
        self.map.insert(k, ());
        assert(self@ =~= old(self)@.insert(k@));
    }
}

} // verus!
