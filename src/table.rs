use vstd::prelude::*;
use crate::text::same_text;

verus! {

/// A map from names to values, kept as a vector of entries whose names are
/// pairwise distinct.
pub struct Table<V> {
    items: Vec<(String, V)>,
}

impl<V> Table<V> {
    /// No two entries share a name.
    pub closed spec fn wf(&self) -> bool {
        forall|i: int, j: int|
            0 <= i < j < self.items@.len() ==> (#[trigger] self.items@[i]).0@ != (
            #[trigger] self.items@[j]).0@
    }

    spec fn has(&self, k: Seq<char>) -> bool {
        exists|i: int| 0 <= i < self.items@.len() && (#[trigger] self.items@[i]).0@ == k
    }

    /// The table as a map from names to values.
    pub closed spec fn map(&self) -> Map<Seq<char>, V> {
        Map::new(
            |k: Seq<char>| self.has(k),
            |k: Seq<char>|
                self.items@[choose|i: int|
                    0 <= i < self.items@.len() && (#[trigger] self.items@[i]).0@ == k].1,
        )
    }

    proof fn lemma_at(&self, i: int)
        requires
            self.wf(),
            0 <= i < self.items@.len(),
        ensures
            self.map().contains_key(self.items@[i].0@),
            self.map()[self.items@[i].0@] == self.items@[i].1,
    {
        let k = self.items@[i].0@;
        assert(self.has(k));
        let j = choose|j: int| 0 <= j < self.items@.len() && (#[trigger] self.items@[j]).0@ == k;
        if j != i {
            if j < i {
                assert(self.items@[j].0@ != self.items@[i].0@);
            } else {
                assert(self.items@[i].0@ != self.items@[j].0@);
            }
        }
    }

    /// An empty table.
    pub fn new() -> (r: Self)
        ensures
            r.wf(),
            r.map() == Map::<Seq<char>, V>::empty(),
    {
        let r = Table { items: Vec::new() };
        assert(r.map() =~= Map::<Seq<char>, V>::empty());
        r
    }

    /// The number of entries.
    pub fn len(&self) -> (r: usize)
        requires
            self.wf(),
        ensures
            r == self.map().dom().len(),
    {
        proof {
            self.lemma_len();
        }
        self.items.len()
    }

    proof fn lemma_len(&self)
        requires
            self.wf(),
        ensures
            self.map().dom().finite(),
            self.map().dom().len() == self.items@.len(),
        decreases self.items@.len(),
    {
        let keys = self.items@.map_values(|e: (String, V)| e.0@);
        assert forall|i: int, j: int| 0 <= i < j < keys.len() implies keys[i] != keys[j] by {
            assert(self.items@[i].0@ != self.items@[j].0@);
        }
        assert(keys.no_duplicates());
        keys.unique_seq_to_set();
        assert forall|k: Seq<char>| self.map().dom().contains(k) <==> keys.to_set().contains(k) by {
            if self.has(k) {
                let i = choose|i: int| 0 <= i < self.items@.len() && (#[trigger] self.items@[i]).0@ == k;
                assert(keys[i] == k);
            }
            if keys.to_set().contains(k) {
                let i = choose|i: int| 0 <= i < keys.len() && keys[i] == k;
                assert(self.items@[i].0@ == k);
            }
        }
        assert(self.map().dom() =~= keys.to_set());
    }

    /// The name and value of entry `i`, in the table's own order.
    pub fn entry(&self, i: usize) -> (r: (&String, &V))
        requires
            self.wf(),
            i < self.map().dom().len(),
        ensures
            self.map().contains_key(r.0@),
            self.map()[r.0@] == *r.1,
            self.key_at(i as int) == r.0@,
            forall|j: int| 0 <= j < self.map().dom().len() && j != i ==> #[trigger] self.key_at(j) != r.0@,
    {
        proof {
            self.lemma_len();
            self.lemma_at(i as int);
        }
        let e = &self.items[i];
        (&e.0, &e.1)
    }

    /// The name of entry `i`.
    pub closed spec fn key_at(&self, i: int) -> Seq<char> {
        self.items@[i].0@
    }

    /// Every name of the table stands at some position.
    pub proof fn lemma_keys(&self)
        requires
            self.wf(),
        ensures
            forall|k: Seq<char>|
                #[trigger] self.map().contains_key(k) ==> exists|j: int|
                    0 <= j < self.map().dom().len() && #[trigger] self.key_at(j) == k,
    {
        self.lemma_len();
        assert forall|k: Seq<char>| #[trigger] self.map().contains_key(k) implies exists|j: int|
            0 <= j < self.map().dom().len() && #[trigger] self.key_at(j) == k by {
            let i = choose|i: int| 0 <= i < self.items@.len() && (#[trigger] self.items@[i]).0@ == k;
            assert(self.key_at(i) == k);
        }
    }

    /// Where `key` stands, if it does.
    fn find(&self, key: &str) -> (r: Option<usize>)
        requires
            self.wf(),
        ensures
            r.is_none() ==> !self.map().contains_key(key@),
            r.is_some() ==> r.unwrap() < self.items@.len() && self.items@[r.unwrap() as int].0@
                == key@,
    {
        let mut i: usize = 0;
        while i < self.items.len()
            invariant
                i <= self.items@.len(),
                forall|k: int| 0 <= k < i ==> (#[trigger] self.items@[k]).0@ != key@,
            decreases self.items@.len() - i,
        {
            if same_text(self.items[i].0.as_str(), key) {
                return Some(i);
            }
            i = i + 1;
        }
        None
    }

    /// The value under `key`, if any.
    pub fn get(&self, key: &str) -> (r: Option<&V>)
        requires
            self.wf(),
        ensures
            r.is_some() == self.map().contains_key(key@),
            r.is_some() ==> *r.unwrap() == self.map()[key@],
    {
        match self.find(key) {
            Some(i) => {
                proof {
                    self.lemma_at(i as int);
                }
                Some(&self.items[i].1)
            },
            None => None,
        }
    }

    /// Whether `key` has an entry.
    pub fn contains(&self, key: &str) -> (r: bool)
        requires
            self.wf(),
        ensures
            r == self.map().contains_key(key@),
    {
        match self.find(key) {
            Some(i) => {
                proof {
                    self.lemma_at(i as int);
                }
                true
            },
            None => false,
        }
    }

    /// Puts `value` under `key`, replacing what was there.
    pub fn insert(&mut self, key: String, value: V)
        requires
            old(self).wf(),
        ensures
            final(self).wf(),
            final(self).map() == old(self).map().insert(key@, value),
    {
        let ghost k = key@;
        let ghost pre = *self;
        match self.find(key.as_str()) {
            Some(i) => {
                self.items.set(i, (key, value));
                proof {
                    assert forall|a: int, b: int| 0 <= a < b < self.items@.len() implies (
                    #[trigger] self.items@[a]).0@ != (#[trigger] self.items@[b]).0@ by {
                        if a != i && b != i {
                            assert(pre.items@[a].0@ != pre.items@[b].0@);
                        } else if a == i {
                            assert(pre.items@[a].0@ != pre.items@[b].0@);
                        } else {
                            assert(pre.items@[a].0@ != pre.items@[b].0@);
                        }
                    }
                    self.lemma_map_after_set(pre, i as int, k, value);
                }
            },
            None => {
                self.items.push((key, value));
                proof {
                    assert forall|a: int, b: int| 0 <= a < b < self.items@.len() implies (
                    #[trigger] self.items@[a]).0@ != (#[trigger] self.items@[b]).0@ by {
                        if b < pre.items@.len() {
                            assert(pre.items@[a].0@ != pre.items@[b].0@);
                        } else {
                            assert(self.items@[a] == pre.items@[a]);
                            if pre.items@[a].0@ == k {
                                assert(pre.has(k));
                            }
                        }
                    }
                    self.lemma_map_after_push(pre, k, value);
                }
            },
        }
    }

    proof fn lemma_map_after_set(&self, pre: Self, i: int, k: Seq<char>, value: V)
        requires
            pre.wf(),
            self.wf(),
            0 <= i < pre.items@.len(),
            pre.items@[i].0@ == k,
            self.items@.len() == pre.items@.len(),
            self.items@[i].0@ == k,
            self.items@[i].1 == value,
            forall|j: int| 0 <= j < pre.items@.len() && j != i ==> self.items@[j] == pre.items@[j],
        ensures
            self.map() == pre.map().insert(k, value),
    {
        assert forall|key: Seq<char>| self.map().contains_key(key) <==> pre.map().insert(k, value).contains_key(key) by {
            if self.has(key) {
                let j = choose|j: int| 0 <= j < self.items@.len() && (#[trigger] self.items@[j]).0@ == key;
                if j != i {
                    assert(pre.items@[j].0@ == key);
                }
            }
            if pre.has(key) {
                let j = choose|j: int| 0 <= j < pre.items@.len() && (#[trigger] pre.items@[j]).0@ == key;
                if j != i {
                    assert(self.items@[j].0@ == key);
                }
            }
            if key == k {
                assert(self.items@[i].0@ == key);
            }
        }
        assert forall|key: Seq<char>| #[trigger] self.map().contains_key(key) implies self.map()[key] == pre.map().insert(k, value)[key] by {
            let j = choose|j: int| 0 <= j < self.items@.len() && (#[trigger] self.items@[j]).0@ == key;
            self.lemma_at(j);
            if j != i {
                pre.lemma_at(j);
            }
        }
        assert(self.map() =~= pre.map().insert(k, value));
    }

    proof fn lemma_map_after_push(&self, pre: Self, k: Seq<char>, value: V)
        requires
            pre.wf(),
            self.wf(),
            self.items@ == pre.items@.push((self.items@.last().0, value)),
            self.items@.last().0@ == k,
        ensures
            self.map() == pre.map().insert(k, value),
    {
        let n = pre.items@.len() as int;
        assert forall|key: Seq<char>| self.map().contains_key(key) <==> pre.map().insert(k, value).contains_key(key) by {
            if self.has(key) {
                let j = choose|j: int| 0 <= j < self.items@.len() && (#[trigger] self.items@[j]).0@ == key;
                if j != n {
                    assert(pre.items@[j].0@ == key);
                }
            }
            if pre.has(key) {
                let j = choose|j: int| 0 <= j < pre.items@.len() && (#[trigger] pre.items@[j]).0@ == key;
                assert(self.items@[j].0@ == key);
            }
            if key == k {
                assert(self.items@[n].0@ == key);
            }
        }
        assert forall|key: Seq<char>| #[trigger] self.map().contains_key(key) implies self.map()[key] == pre.map().insert(k, value)[key] by {
            let j = choose|j: int| 0 <= j < self.items@.len() && (#[trigger] self.items@[j]).0@ == key;
            self.lemma_at(j);
            if j != n {
                assert(self.items@[j] == pre.items@[j]);
                pre.lemma_at(j);
            }
        }
        assert(self.map() =~= pre.map().insert(k, value));
    }

    /// Takes out the entry under `key`, if there is one, and hands back its value.
    pub fn take(&mut self, key: &str) -> (r: Option<V>)
        requires
            old(self).wf(),
        ensures
            final(self).wf(),
            final(self).map() == old(self).map().remove(key@),
            r.is_some() == old(self).map().contains_key(key@),
            r.is_some() ==> r.unwrap() == old(self).map()[key@],
    {
        let ghost pre = *self;
        match self.find(key) {
            Some(i) => {
                let e = self.items.remove(i);
                proof {
                    let ii = i as int;
                    assert forall|a: int, b: int| 0 <= a < b < self.items@.len() implies (
                    #[trigger] self.items@[a]).0@ != (#[trigger] self.items@[b]).0@ by {
                        let pa = if a < ii { a } else { a + 1 };
                        let pb = if b < ii { b } else { b + 1 };
                        assert(self.items@[a] == pre.items@[pa]);
                        assert(self.items@[b] == pre.items@[pb]);
                        assert(pre.items@[pa].0@ != pre.items@[pb].0@);
                    }
                    assert forall|k: Seq<char>| self.map().contains_key(k) <==> pre.map().remove(key@).contains_key(k) by {
                        if self.has(k) {
                            let j = choose|j: int| 0 <= j < self.items@.len() && (#[trigger] self.items@[j]).0@ == k;
                            let pj = if j < ii { j } else { j + 1 };
                            assert(pre.items@[pj].0@ == k);
                            assert(pre.items@[pj].0@ != pre.items@[ii].0@);
                        }
                        if pre.has(k) && k != key@ {
                            let j = choose|j: int| 0 <= j < pre.items@.len() && (#[trigger] pre.items@[j]).0@ == k;
                            let sj = if j < ii { j } else { j - 1 };
                            assert(self.items@[sj].0@ == k);
                        }
                    }
                    assert forall|k: Seq<char>| #[trigger] self.map().contains_key(k) implies self.map()[k] == pre.map()[k] by {
                        let j = choose|j: int| 0 <= j < self.items@.len() && (#[trigger] self.items@[j]).0@ == k;
                        self.lemma_at(j);
                        let pj = if j < ii { j } else { j + 1 };
                        assert(self.items@[j] == pre.items@[pj]);
                        pre.lemma_at(pj);
                    }
                    assert(self.map() =~= pre.map().remove(key@));
                    pre.lemma_at(ii);
                }
                Some(e.1)
            },
            None => {
                assert(self.map() =~= pre.map().remove(key@));
                None
            },
        }
    }

    /// Takes out the entry under `key`, if there is one.
    pub fn remove(&mut self, key: &str)
        requires
            old(self).wf(),
        ensures
            final(self).wf(),
            final(self).map() == old(self).map().remove(key@),
    {
        let _ = self.take(key);
    }
}

} // verus!
