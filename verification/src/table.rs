//! A string-keyed table that keeps its keys in insertion order.

use vstd::prelude::*;
use crate::text::str_equals;

verus! {

/// A map from strings to values, each key at most once, keys kept in the order
/// in which they were first inserted.
pub struct KeyedTable<V> {
    entries: Vec<(String, V)>,
}

impl<V> KeyedTable<V> {
    /// Some entry has key `k`.
    closed spec fn has(&self, k: Seq<char>) -> bool {
        exists|i: int| 0 <= i < self.entries@.len() && #[trigger] self.entries@[i].0@ == k
    }

    /// The position of an entry with key `k`.
    closed spec fn slot(&self, k: Seq<char>) -> int {
        choose|i: int| 0 <= i < self.entries@.len() && #[trigger] self.entries@[i].0@ == k
    }
}

impl<V> View for KeyedTable<V> {
    type V = Map<Seq<char>, V>;

    closed spec fn view(&self) -> Map<Seq<char>, V> {
        Map::new(|k: Seq<char>| self.has(k), |k: Seq<char>| self.entries@[self.slot(k)].1)
    }
}

impl<V> KeyedTable<V> {
    /// Each key occurs once.
    pub closed spec fn wf(&self) -> bool {
        forall|i: int, j: int|
            0 <= i < j < self.entries@.len() ==> #[trigger] self.entries@[i].0@ != #[trigger] self.entries@[j].0@
    }

    /// The keys, in insertion order.
    pub closed spec fn keys(&self) -> Seq<Seq<char>> {
        self.entries@.map_values(|e: (String, V)| e.0@)
    }

    /// The entry at position `i` is the one the map gives for its key.
    proof fn lemma_entry(&self, i: int)
        requires
            self.wf(),
            0 <= i < self.entries@.len(),
        ensures
            self@.contains_key(self.entries@[i].0@),
            self@[self.entries@[i].0@] == self.entries@[i].1,
            self.slot(self.entries@[i].0@) == i,
    {
        let k = self.entries@[i].0@;
        assert(self.has(k));
        let j = self.slot(k);
        if j < i {
            assert(self.entries@[j].0@ != self.entries@[i].0@);
        } else if j > i {
            assert(self.entries@[i].0@ != self.entries@[j].0@);
        }
    }

    /// Every key of the map is held by some entry.
    proof fn lemma_entries(&self)
        requires
            self.wf(),
        ensures
            forall|i: int| 0 <= i < self.entries@.len() ==> {
                &&& #[trigger] self@.contains_key(self.entries@[i].0@)
                &&& self@[self.entries@[i].0@] == self.entries@[i].1
            },
            forall|k: Seq<char>| #[trigger] self@.contains_key(k) ==> exists|i: int|
                0 <= i < self.entries@.len() && #[trigger] self.entries@[i].0@ == k,
    {
        assert forall|i: int| 0 <= i < self.entries@.len() implies {
            &&& #[trigger] self@.contains_key(self.entries@[i].0@)
            &&& self@[self.entries@[i].0@] == self.entries@[i].1
        } by {
            self.lemma_entry(i);
        }
    }

    /// A table whose entries are those of `self` with the value at `i` replaced
    /// maps the key at `i` to the new value and agrees with `self` elsewhere.
    proof fn lemma_updated(&self, i: int)
        requires
            self.wf(),
            0 <= i < self.entries@.len(),
        ensures
            forall|t: KeyedTable<V>| #[trigger] t.entries@ == self.entries@.update(i, (self.entries@[i].0, t.entries@[i].1)) ==> {
                &&& t.wf()
                &&& t@ == self@.insert(self.entries@[i].0@, t.entries@[i].1)
                &&& t.keys() == self.keys()
            },
    {
        assert forall|t: KeyedTable<V>| #[trigger] t.entries@ == self.entries@.update(i, (self.entries@[i].0, t.entries@[i].1)) implies {
            &&& t.wf()
            &&& t@ == self@.insert(self.entries@[i].0@, t.entries@[i].1)
            &&& t.keys() == self.keys()
        } by {
            let k = self.entries@[i].0@;
            let x = t.entries@[i].1;
            assert forall|a: int, b: int| 0 <= a < b < t.entries@.len() implies #[trigger] t.entries@[a].0@ != #[trigger] t.entries@[b].0@ by {
                assert(t.entries@[a].0@ == self.entries@[a].0@);
                assert(t.entries@[b].0@ == self.entries@[b].0@);
            }
            self.lemma_entries();
            t.lemma_entries();
            assert forall|m: Seq<char>| t@.contains_key(m) <==> self@.insert(k, x).contains_key(m) by {
                if t@.contains_key(m) {
                    let a = choose|a: int| 0 <= a < t.entries@.len() && #[trigger] t.entries@[a].0@ == m;
                    assert(self.entries@[a].0@ == m);
                }
                if self@.contains_key(m) {
                    let a = choose|a: int| 0 <= a < self.entries@.len() && #[trigger] self.entries@[a].0@ == m;
                    assert(t.entries@[a].0@ == m);
                }
                if m == k {
                    assert(t.entries@[i].0@ == m);
                }
            }
            assert forall|m: Seq<char>| t@.contains_key(m) implies t@[m] == self@.insert(k, x)[m] by {
                let a = choose|a: int| 0 <= a < t.entries@.len() && #[trigger] t.entries@[a].0@ == m;
                t.lemma_entry(a);
                if a != i {
                    self.lemma_entry(a);
                }
            }
            assert(t@ =~= self@.insert(k, x));
            assert(t.keys() =~= self.keys());
        }
    }

    /// Creates an empty table.
    pub fn new() -> (t: Self)
        ensures
            t.wf(),
            t@ == Map::<Seq<char>, V>::empty(),
            t.keys() == Seq::<Seq<char>>::empty(),
    {
        let t = KeyedTable { entries: Vec::new() };
        assert(t@ =~= Map::<Seq<char>, V>::empty());
        assert(t.keys() =~= Seq::<Seq<char>>::empty());
        t
    }

    /// The keys are those of the map, each once.
    pub proof fn lemma_keys(&self)
        requires
            self.wf(),
        ensures
            forall|i: int| 0 <= i < self.keys().len() ==> #[trigger] self@.contains_key(self.keys()[i]),
            forall|k: Seq<char>| #[trigger] self@.contains_key(k) <==> self.keys().contains(k),
            self.keys().no_duplicates(),
            self@.dom().finite(),
            self@.dom().len() == self.keys().len(),
    {
        self.lemma_entries();
        assert forall|i: int| 0 <= i < self.keys().len() implies #[trigger] self@.contains_key(self.keys()[i]) by {
            assert(self.keys()[i] == self.entries@[i].0@);
        }
        assert forall|k: Seq<char>| #[trigger] self@.contains_key(k) implies self.keys().contains(k) by {
            let i = choose|i: int| 0 <= i < self.entries@.len() && #[trigger] self.entries@[i].0@ == k;
            assert(self.keys()[i] == k);
        }
        assert forall|k: Seq<char>| self.keys().contains(k) implies #[trigger] self@.contains_key(k) by {
            let i = choose|i: int| 0 <= i < self.keys().len() && self.keys()[i] == k;
            assert(self.entries@[i].0@ == k);
        }
        assert forall|i: int, j: int| 0 <= i < self.keys().len() && 0 <= j < self.keys().len() && i != j
            implies self.keys()[i] != self.keys()[j] by {
            if i < j {
                assert(self.entries@[i].0@ != self.entries@[j].0@);
            } else {
                assert(self.entries@[j].0@ != self.entries@[i].0@);
            }
        }
        assert(self@.dom() =~= self.keys().to_set());
        self.keys().unique_seq_to_set();
    }

    /// Number of keys.
    pub fn len(&self) -> (n: usize)
        ensures
            n == self.keys().len(),
    {
        self.entries.len()
    }

    /// Position of `k` among the entries.
    fn position(&self, k: &str) -> (r: Option<usize>)
        requires
            self.wf(),
        ensures
            match r {
                Some(i) => i < self.entries@.len() && self.entries@[i as int].0@ == k@
                    && self@.contains_key(k@) && self@[k@] == self.entries@[i as int].1,
                None => !self@.contains_key(k@),
            },
    {
        let mut i: usize = 0;
        while i < self.entries.len()
            invariant
                self.wf(),
                i <= self.entries@.len(),
                forall|j: int| 0 <= j < i ==> self.entries@[j].0@ != k@,
            decreases self.entries@.len() - i,
        {
            if str_equals(self.entries[i].0.as_str(), k) {
                proof { self.lemma_entry(i as int); }
                return Some(i);
            }
            i = i + 1;
        }
        proof {
            if self@.contains_key(k@) {
                let j = choose|j: int| 0 <= j < self.entries@.len() && #[trigger] self.entries@[j].0@ == k@;
                assert(self.has(k@));
            }
        }
        None
    }

    /// Whether `k` is a key.
    pub fn contains_key(&self, k: &str) -> (r: bool)
        requires
            self.wf(),
        ensures
            r == self@.contains_key(k@),
    {
        match self.position(k) {
            Some(_) => true,
            None => false,
        }
    }

    /// The value stored under `k`.
    pub fn get(&self, k: &str) -> (r: Option<&V>)
        requires
            self.wf(),
        ensures
            match r {
                Some(v) => self@.contains_key(k@) && *v == self@[k@],
                None => !self@.contains_key(k@),
            },
    {
        match self.position(k) {
            Some(i) => Some(&self.entries[i].1),
            None => None,
        }
    }

    fn value_at_mut(&mut self, i: usize) -> (r: &mut V)
        requires
            i < old(self).entries@.len(),
        ensures
            *r == old(self).entries@[i as int].1,
            final(self).entries@ == old(self).entries@.update(i as int, (old(self).entries@[i as int].0, *final(r))),
    {
        &mut self.entries[i].1
    }

    /// The value stored under `k`, to change in place.
    pub fn get_mut(&mut self, k: &str) -> (r: Option<&mut V>)
        requires
            old(self).wf(),
        ensures
            match r {
                Some(v) => old(self)@.contains_key(k@) && *v == old(self)@[k@] && final(self).wf()
                    && final(self)@ == old(self)@.insert(k@, *final(v)) && final(self).keys() == old(self).keys(),
                None => !old(self)@.contains_key(k@) && *final(self) == *old(self),
            },
    {
        match self.position(k) {
            Some(i) => {
                proof { self.lemma_updated(i as int); }
                Some(self.value_at_mut(i))
            },
            None => None,
        }
    }

    /// Key and value at position `i` of the insertion order.
    pub fn entry_at(&self, i: usize) -> (r: (&String, &V))
        requires
            self.wf(),
            i < self.keys().len(),
        ensures
            r.0@ == self.keys()[i as int],
            self@.contains_key(r.0@),
            *r.1 == self@[r.0@],
    {
        proof { self.lemma_entry(i as int); }
        (&self.entries[i].0, &self.entries[i].1)
    }

    /// Stores `v` under `k`; a new key goes last, an existing key keeps its place.
    pub fn insert(&mut self, k: String, v: V)
        requires
            old(self).wf(),
        ensures
            final(self).wf(),
            final(self)@ == old(self)@.insert(k@, v),
            old(self)@.contains_key(k@) ==> final(self).keys() == old(self).keys(),
            !old(self)@.contains_key(k@) ==> final(self).keys() == old(self).keys().push(k@),
    {
        match self.position(k.as_str()) {
            Some(i) => {
                proof { self.lemma_updated(i as int); }
                let slot = self.value_at_mut(i);
                *slot = v;
            },
            None => {
                let ghost old_table = *self;
                self.entries.push((k, v));
                proof {
                    old_table.lemma_entries();
                    let n = old_table.entries@.len() as int;
                    assert forall|a: int, b: int| 0 <= a < b < self.entries@.len() implies #[trigger] self.entries@[a].0@ != #[trigger] self.entries@[b].0@ by {
                        if b == n {
                            assert(old_table@.contains_key(old_table.entries@[a].0@));
                        } else {
                            assert(old_table.entries@[a].0@ != old_table.entries@[b].0@);
                        }
                    }
                    self.lemma_entries();
                    assert forall|m: Seq<char>| self@.contains_key(m) <==> old_table@.insert(k@, v).contains_key(m) by {
                        if self@.contains_key(m) {
                            let a = choose|a: int| 0 <= a < self.entries@.len() && #[trigger] self.entries@[a].0@ == m;
                            if a < n {
                                assert(old_table.entries@[a].0@ == m);
                            }
                        }
                        if old_table@.contains_key(m) {
                            let a = choose|a: int| 0 <= a < old_table.entries@.len() && #[trigger] old_table.entries@[a].0@ == m;
                            assert(self.entries@[a].0@ == m);
                        }
                        if m == k@ {
                            assert(self.entries@[n].0@ == m);
                        }
                    }
                    assert forall|m: Seq<char>| self@.contains_key(m) implies self@[m] == old_table@.insert(k@, v)[m] by {
                        let a = choose|a: int| 0 <= a < self.entries@.len() && #[trigger] self.entries@[a].0@ == m;
                        self.lemma_entry(a);
                        if a < n {
                            old_table.lemma_entry(a);
                        }
                    }
                    assert(self@ =~= old_table@.insert(k@, v));
                    assert(self.keys() =~= old_table.keys().push(k@));
                }
            },
        }
    }

    /// Puts `v` in place of the value stored under `k` and returns the old value;
    /// a table without `k` is left as it was.
    pub fn replace(&mut self, k: &str, v: V) -> (r: Option<V>)
        requires
            old(self).wf(),
        ensures
            final(self).wf(),
            final(self).keys() == old(self).keys(),
            match r {
                Some(prev) => old(self)@.contains_key(k@) && prev == old(self)@[k@]
                    && final(self)@ == old(self)@.insert(k@, v),
                None => !old(self)@.contains_key(k@) && final(self)@ == old(self)@,
            },
    {
        match self.position(k) {
            Some(i) => {
                proof { self.lemma_updated(i as int); }
                let ghost old_entries = self.entries@;
                let (key, prev) = self.entries.remove(i);
                self.entries.insert(i, (key, v));
                proof {
                    assert(self.entries@ =~= old_entries.update(i as int, (old_entries[i as int].0, v)));
                }
                Some(prev)
            },
            None => None,
        }
    }

    /// Removes `k` and returns its value; the other keys keep their order.
    pub fn remove(&mut self, k: &str) -> (r: Option<V>)
        requires
            old(self).wf(),
        ensures
            final(self).wf(),
            final(self)@ == old(self)@.remove(k@),
            match r {
                Some(v) => old(self)@.contains_key(k@) && v == old(self)@[k@],
                None => !old(self)@.contains_key(k@),
            },
            final(self).keys() == old(self).keys().filter(|key: Seq<char>| key != k@),
    {
        let ghost old_table = *self;
        let ghost old_keys = self.keys();
        proof { old_table.lemma_entries(); }
        match self.position(k) {
            Some(i) => {
                let e = self.entries.remove(i);
                proof {
                    let old_entries = old_table.entries@;
                    let entries = self.entries@;
                    assert(entries =~= old_entries.subrange(0, i as int) + old_entries.subrange(i + 1, old_entries.len() as int));
                    assert forall|a: int, b: int| 0 <= a < b < entries.len() implies #[trigger] entries[a].0@ != #[trigger] entries[b].0@ by {
                        let oa = if a < i { a } else { a + 1 };
                        let ob = if b < i { b } else { b + 1 };
                        assert(entries[a] == old_entries[oa]);
                        assert(entries[b] == old_entries[ob]);
                    }
                    self.lemma_entries();
                    assert forall|m: Seq<char>| self@.contains_key(m) <==> old_table@.remove(k@).contains_key(m) by {
                        if self@.contains_key(m) {
                            let a = choose|a: int| 0 <= a < entries.len() && #[trigger] entries[a].0@ == m;
                            let oa = if a < i { a } else { a + 1 };
                            assert(entries[a] == old_entries[oa]);
                            assert(old_entries[oa].0@ != old_entries[i as int].0@ || oa == i);
                            if oa < i {
                                assert(old_entries[oa].0@ != old_entries[i as int].0@);
                            } else {
                                assert(old_entries[i as int].0@ != old_entries[oa].0@);
                            }
                        }
                        if old_table@.remove(k@).contains_key(m) {
                            let j = choose|j: int| 0 <= j < old_entries.len() && #[trigger] old_entries[j].0@ == m;
                            if j < i {
                                assert(entries[j] == old_entries[j]);
                            } else {
                                assert(j != i);
                                assert(entries[j - 1] == old_entries[j]);
                            }
                        }
                    }
                    assert forall|m: Seq<char>| self@.contains_key(m) implies self@[m] == old_table@.remove(k@)[m] by {
                        let a = choose|a: int| 0 <= a < entries.len() && #[trigger] entries[a].0@ == m;
                        self.lemma_entry(a);
                        let oa = if a < i { a } else { a + 1 };
                        assert(entries[a] == old_entries[oa]);
                        old_table.lemma_entry(oa);
                    }
                    assert(self@ =~= old_table@.remove(k@));
                    let f = |key: Seq<char>| key != k@;
                    assert forall|a: int| 0 <= a < old_keys.len() && a != i implies f(old_keys[a]) by {
                        if a < i {
                            assert(old_entries[a].0@ != old_entries[i as int].0@);
                        } else {
                            assert(old_entries[i as int].0@ != old_entries[a].0@);
                        }
                    }
                    lemma_filter_drop_one(old_keys, i as int, f);
                    assert(old_keys.subrange(0, i as int) + old_keys.subrange(i + 1, old_keys.len() as int)
                        =~= self.keys());
                }
                Some(e.1)
            },
            None => {
                proof {
                    assert(self@ =~= old_table@.remove(k@));
                    assert forall|a: int| 0 <= a < old_keys.len() implies old_keys[a] != k@ by {
                        assert(old_table@.contains_key(old_table.entries@[a].0@));
                    }
                    lemma_filter_all_kept(old_keys, |key: Seq<char>| key != k@);
                }
                None
            },
        }
    }
}

impl KeyedTable<String> {
    /// An independent copy with the same keys, order and values.
    pub fn duplicate(&self) -> (r: Self)
        requires
            self.wf(),
        ensures
            r.wf(),
            r@ == self@,
            r.keys() == self.keys(),
    {
        let mut entries: Vec<(String, String)> = Vec::new();
        let mut i: usize = 0;
        while i < self.entries.len()
            invariant
                i <= self.entries@.len(),
                entries@.len() == i,
                forall|j: int| 0 <= j < i ==> #[trigger] entries@[j] == self.entries@[j],
            decreases self.entries@.len() - i,
        {
            let k = self.entries[i].0.clone();
            let v = self.entries[i].1.clone();
            entries.push((k, v));
            i = i + 1;
        }
        assert(entries@ =~= self.entries@);
        let r = KeyedTable { entries };
        assert(r.entries@ == self.entries@);
        assert(r@ =~= self@);
        r
    }
}

proof fn lemma_filter_all_kept(s: Seq<Seq<char>>, f: spec_fn(Seq<char>) -> bool)
    requires
        forall|a: int| 0 <= a < s.len() ==> f(s[a]),
    ensures
        s.filter(f) == s,
    decreases s.len(),
{
    reveal(Seq::filter);
    if s.len() > 0 {
        lemma_filter_all_kept(s.drop_last(), f);
    }
}

proof fn lemma_filter_drop_one(s: Seq<Seq<char>>, i: int, f: spec_fn(Seq<char>) -> bool)
    requires
        0 <= i < s.len(),
        !f(s[i]),
        forall|a: int| 0 <= a < s.len() && a != i ==> f(s[a]),
    ensures
        s.filter(f) == s.subrange(0, i) + s.subrange(i + 1, s.len() as int),
    decreases s.len(),
{
    reveal(Seq::filter);
    if i == s.len() - 1 {
        lemma_filter_all_kept(s.drop_last(), f);
        assert(s.drop_last() =~= s.subrange(0, i));
        assert(s.subrange(i + 1, s.len() as int) =~= Seq::<Seq<char>>::empty());
        assert(s.subrange(0, i) + s.subrange(i + 1, s.len() as int) =~= s.subrange(0, i));
    } else {
        lemma_filter_drop_one(s.drop_last(), i, f);
        assert(s.drop_last().subrange(0, i) =~= s.subrange(0, i));
        assert(s.subrange(0, i) + s.subrange(i + 1, s.len() as int)
            =~= (s.drop_last().subrange(0, i) + s.drop_last().subrange(i + 1, s.drop_last().len() as int)).push(s.last()));
    }
}

} // verus!
