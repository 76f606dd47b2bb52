//! A map keyed by strings, kept as a list of entries whose keys are
//! pairwise distinct. Its abstract value is a `Map` from the keys' text to
//! the stored values.
use vstd::prelude::*;

verus! {

/// A map from strings to values of any type.
pub struct StringMap<V> {
    entries: Vec<(String, V)>,
}

impl<V> StringMap<V> {
    /// The text of the key of the `i`-th entry.
    pub closed spec fn key_at(self, i: int) -> Seq<char> {
        self.entries@[i].0@
    }

    /// No key occurs twice.
    pub closed spec fn wf(self) -> bool {
        forall|i: int, j: int|
            0 <= i < self.entries@.len() && 0 <= j < self.entries@.len() && i != j
                ==> #[trigger] self.key_at(i) != #[trigger] self.key_at(j)
    }

    /// Some entry has key `k`.
    pub closed spec fn has_key(self, k: Seq<char>) -> bool {
        exists|i: int| 0 <= i < self.entries@.len() && #[trigger] self.key_at(i) == k
    }

    /// The position of an entry with key `k`, where there is one.
    closed spec fn index_of(self, k: Seq<char>) -> int {
        choose|i: int| 0 <= i < self.entries@.len() && #[trigger] self.key_at(i) == k
    }

    /// The value stored under `k`, where there is one.
    closed spec fn value_of(self, k: Seq<char>) -> V {
        self.entries@[self.index_of(k)].1
    }

    /// In a well-formed map, the entry at `i` is the one that `index_of` picks.
    proof fn lemma_index_of(self, i: int)
        requires
            self.wf(),
            0 <= i < self.entries@.len(),
        ensures
            self.has_key(self.key_at(i)),
            self.index_of(self.key_at(i)) == i,
            self.value_of(self.key_at(i)) == self.entries@[i].1,
    {
        let k = self.key_at(i);
        assert(self.has_key(k));
        let j = self.index_of(k);
        assert(self.key_at(j) == k);
    }

    /// Two maps with the same entries have the same abstract value.
    proof fn lemma_same_entries(a: Self, b: Self)
        requires
            a.wf(),
            a.entries@ == b.entries@,
        ensures
            b.wf(),
            a@ == b@,
    {
        assert forall|i: int| 0 <= i < a.entries@.len() implies #[trigger] a.key_at(i) == b.key_at(i) by {}
        assert forall|i: int| 0 <= i < a.entries@.len() implies #[trigger] b.key_at(i) == a.key_at(i) by {}
        assert forall|k: Seq<char>| #![auto] a.has_key(k) == b.has_key(k) by {
            if a.has_key(k) {
                let j = a.index_of(k);
                assert(b.key_at(j) == k);
            }
            if b.has_key(k) {
                let j = b.index_of(k);
                assert(a.key_at(j) == k);
            }
        }
        assert forall|k: Seq<char>| a.has_key(k) implies #[trigger] a.value_of(k) == b.value_of(k) by {
            let j = a.index_of(k);
            a.lemma_index_of(j);
            b.lemma_index_of(j);
        }
        assert(a@ =~= b@);
    }

    /// The map with no entries.
    pub fn new() -> (m: Self)
        ensures
            m.wf(),
            m@ == Map::<Seq<char>, V>::empty(),
    {
        let m = StringMap { entries: Vec::new() };
        assert(m@ =~= Map::<Seq<char>, V>::empty());
        m
    }

    /// The position of the entry whose key has the text of `key`.
    fn find(&self, key: &String) -> (r: Option<usize>)
        requires
            self.wf(),
        ensures
            match r {
                Some(i) => i < self.entries@.len() && self.key_at(i as int) == key@,
                None => !self.has_key(key@),
            },
    {
        let n = self.entries.len();
        let mut i: usize = 0;
        while i < n
            invariant
                n == self.entries@.len(),
                i <= n,
                forall|j: int| 0 <= j < i ==> #[trigger] self.key_at(j) != key@,
            decreases n - i,
        {
            if self.entries[i].0 == *key {
                return Some(i);
            }
            i = i + 1;
        }
        None
    }

    /// Whether some entry has the key `key`.
    pub fn contains_key(&self, key: &String) -> (r: bool)
        requires
            self.wf(),
        ensures
            r == self@.contains_key(key@),
    {
        match self.find(key) {
            Some(_) => true,
            None => false,
        }
    }

    /// Calls the handler stored under `key` with `arg`, if there is one.
    /// The handler stays registered under its key; the other entries are
    /// left as they were.
    pub fn call(&mut self, key: &String, arg: String) -> (called: bool)
        where V: FnMut(String),
        requires
            old(self).wf(),
            old(self)@.contains_key(key@) ==> call_requires(old(self)@[key@], (arg,)),
        ensures
            final(self).wf(),
            final(self)@.dom() == old(self)@.dom(),
            final(self)@.remove(key@) == old(self)@.remove(key@),
            called == old(self)@.contains_key(key@),
            called ==> call_ensures(old(self)@[key@], (arg,), ()),
    {
        match self.find(key) {
            Some(i) => {
                proof {
                    self.lemma_index_of(i as int);
                }
                let entry = &mut self.entries[i];
                (entry.1)(arg);
                proof {
                    assert(self.entries@ =~= old(self).entries@);
                    Self::lemma_same_entries(*old(self), *self);
                }
                true
            },
            None => false,
        }
    }

    /// Stores `value` under `key`, replacing the value stored there before.
    pub fn insert(&mut self, key: String, value: V)
        requires
            old(self).wf(),
        ensures
            final(self).wf(),
            final(self)@ == old(self)@.insert(key@, value),
    {
        let ghost k = key@;
        match self.find(&key) {
            Some(i) => {
                self.entries.set(i, (key, value));
                proof {
                    assert(self.key_at(i as int) == k);
                    assert forall|j: int| 0 <= j < self.entries@.len() && j != i implies
                        #[trigger] self.key_at(j) == old(self).key_at(j) by {}
                    self.lemma_index_of(i as int);
                    assert forall|kk: Seq<char>| #![auto] self.has_key(kk) == old(self).has_key(kk) by {
                        if old(self).has_key(kk) {
                            let j = old(self).index_of(kk);
                            assert(self.key_at(j) == kk);
                        }
                        if self.has_key(kk) {
                            let j = self.index_of(kk);
                            assert(old(self).key_at(j) == kk);
                        }
                    }
                    assert forall|kk: Seq<char>| self.has_key(kk) && kk != k implies
                        #[trigger] self.value_of(kk) == old(self).value_of(kk) by {
                        let j = old(self).index_of(kk);
                        old(self).lemma_index_of(j);
                        self.lemma_index_of(j);
                    }
                    assert(self@ =~= old(self)@.insert(k, value));
                }
            },
            None => {
                self.entries.push((key, value));
                proof {
                    let n = old(self).entries@.len() as int;
                    assert forall|j: int| 0 <= j < n implies
                        #[trigger] self.key_at(j) == old(self).key_at(j) by {}
                    assert(self.key_at(n) == k);
                    assert forall|kk: Seq<char>| #![auto] self.has_key(kk) == (old(self).has_key(kk) || kk == k) by {
                        if old(self).has_key(kk) {
                            let j = old(self).index_of(kk);
                            assert(self.key_at(j) == kk);
                        }
                        if self.has_key(kk) && kk != k {
                            let j = self.index_of(kk);
                            assert(old(self).key_at(j) == kk);
                        }
                    }
                    self.lemma_index_of(n);
                    assert forall|kk: Seq<char>| self.has_key(kk) && kk != k implies
                        #[trigger] self.value_of(kk) == old(self).value_of(kk) by {
                        let j = old(self).index_of(kk);
                        old(self).lemma_index_of(j);
                        self.lemma_index_of(j);
                    }
                    assert(self@ =~= old(self)@.insert(k, value));
                }
            },
        }
    }

    /// Removes the entry under `key`, giving back its value if there was one.
    pub fn remove(&mut self, key: &String) -> (r: Option<V>)
        requires
            old(self).wf(),
        ensures
            final(self).wf(),
            final(self)@ == old(self)@.remove(key@),
            match r {
                Some(v) => old(self)@.contains_key(key@) && v == old(self)@[key@],
                None => !old(self)@.contains_key(key@),
            },
    {
        let ghost k = key@;
        match self.find(key) {
            Some(i) => {
                proof {
                    self.lemma_index_of(i as int);
                }
                let (_, v) = self.entries.remove(i);
                proof {
                    let n = old(self).entries@.len() as int;
                    assert forall|j: int| 0 <= j < n - 1 implies
                        #[trigger] self.key_at(j) == old(self).key_at(if j < i { j } else { j + 1 }) by {}
                    assert forall|j: int| 0 <= j < n - 1 implies
                        #[trigger] self.entries@[j] == old(self).entries@[if j < i { j } else { j + 1 }] by {}
                    assert forall|a: int, b: int|
                        0 <= a < self.entries@.len() && 0 <= b < self.entries@.len() && a != b
                        implies #[trigger] self.key_at(a) != #[trigger] self.key_at(b) by {
                        let oa = if a < i { a } else { a + 1 };
                        let ob = if b < i { b } else { b + 1 };
                        assert(old(self).key_at(oa) != old(self).key_at(ob));
                    }
                    assert forall|kk: Seq<char>| #![auto] self.has_key(kk) == (old(self).has_key(kk) && kk != k) by {
                        if old(self).has_key(kk) && kk != k {
                            let j = old(self).index_of(kk);
                            assert(j != i);
                            let nj = if j < i { j } else { j - 1 };
                            assert(self.key_at(nj) == kk);
                        }
                        if self.has_key(kk) {
                            let j = self.index_of(kk);
                            let oj = if j < i { j } else { j + 1 };
                            assert(old(self).key_at(oj) == kk);
                            assert(oj != i);
                        }
                    }
                    assert forall|kk: Seq<char>| self.has_key(kk) implies
                        #[trigger] self.value_of(kk) == old(self).value_of(kk) by {
                        let j = self.index_of(kk);
                        self.lemma_index_of(j);
                        let oj = if j < i { j } else { j + 1 };
                        old(self).lemma_index_of(oj);
                    }
                    assert(self@ =~= old(self)@.remove(k));
                }
                Some(v)
            },
            None => {
                proof {
                    assert(old(self)@.remove(k) =~= old(self)@);
                }
                None
            },
        }
    }
}

impl<V> View for StringMap<V> {
    type V = Map<Seq<char>, V>;

    closed spec fn view(&self) -> Map<Seq<char>, V> {
        Map::new(|k: Seq<char>| self.has_key(k), |k: Seq<char>| self.value_of(k))
    }
}

} // verus!
