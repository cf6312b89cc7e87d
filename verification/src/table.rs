//! Small tables: what is kept under a text or a byte string.
use vstd::prelude::*;

use crate::bytes::same_bytes;
use crate::text;

verus! {

/// What something may be kept under.
pub trait Key: Sized {
    /// What tells one key from another.
    type Model;

    spec fn model(&self) -> Self::Model;

    /// Whether two keys are the same.
    fn same(&self, other: &Self) -> (r: bool)
        ensures
            r == (self.model() == other.model()),
    ;
}

impl Key for String {
    type Model = Seq<char>;

    open spec fn model(&self) -> Seq<char> {
        self@
    }

    fn same(&self, other: &Self) -> (r: bool) {
        text::same_text(self, other)
    }
}

impl Key for Vec<u8> {
    type Model = Seq<u8>;

    open spec fn model(&self) -> Seq<u8> {
        self@
    }

    fn same(&self, other: &Self) -> (r: bool) {
        same_bytes(self.as_slice(), other.as_slice())
    }
}

/// A table of what is kept under each key.
#[derive(Debug)]
pub struct Table<K, V> {
    pub entries: Vec<(K, V)>,
}

impl<K: Key, V> Table<K, V> {
    /// Whether entry `i` is the one under `key`.
    pub open spec fn at(self, i: int, key: K::Model) -> bool {
        0 <= i < self.entries@.len() && self.entries@[i].0.model() == key
    }

    /// What is kept, by key.
    pub open spec fn map(self) -> Map<K::Model, V> {
        Map::new(
            |k: K::Model| exists|i: int| #[trigger] self.at(i, k),
            |k: K::Model| self.entries@[choose|i: int| #[trigger] self.at(i, k)].1,
        )
    }

    /// What every table meets: each key occurs once.
    pub open spec fn wf(self) -> bool {
        forall|i: int, j: int|
            0 <= i < self.entries@.len() && 0 <= j < self.entries@.len() && i != j ==> (
            #[trigger] self.entries@[i]).0.model() != (#[trigger] self.entries@[j]).0.model()
    }

    /// Each entry is in the map.
    pub proof fn lemma_entry(self, i: int)
        requires
            self.wf(),
            0 <= i < self.entries@.len(),
        ensures
            self.map().dom().contains(self.entries@[i].0.model()),
            self.map()[self.entries@[i].0.model()] == self.entries@[i].1,
    {
        let key = self.entries@[i].0.model();
        assert(self.at(i, key));
        let j = choose|j: int| #[trigger] self.at(j, key);
        assert(self.entries@[i].0.model() == self.entries@[j].0.model());
    }

    /// A table with nothing in it.
    pub fn new() -> (t: Table<K, V>)
        ensures
            t.wf(),
            t.map() == Map::<K::Model, V>::empty(),
    {
        let t = Table { entries: Vec::new() };
        assert(t.map() =~= Map::<K::Model, V>::empty());
        t
    }

    /// Whether there is nothing in it.
    pub fn is_empty(&self) -> (r: bool)
        requires
            self.wf(),
        ensures
            r == (self.map() == Map::<K::Model, V>::empty()),
    {
        let r = self.entries.len() == 0;
        proof {
            if r {
                assert(self.map() =~= Map::<K::Model, V>::empty());
            } else {
                self.lemma_entry(0);
            }
        }
        r
    }

    /// Where the entry under a key is.
    pub fn position(&self, key: &K) -> (position: Option<usize>)
        requires
            self.wf(),
        ensures
            position is Some <==> self.map().dom().contains(key.model()),
            position matches Some(i) ==> self.at(i as int, key.model())
                && self.map()[key.model()] == self.entries@[i as int].1,
    {
        let mut i: usize = 0;
        while i < self.entries.len()
            invariant
                i <= self.entries@.len(),
                self.wf(),
                forall|j: int| 0 <= j < i ==> (#[trigger] self.entries@[j]).0.model() != key.model(),
            decreases self.entries@.len() - i,
        {
            if self.entries[i].0.same(key) {
                proof {
                    self.lemma_entry(i as int);
                }
                return Some(i);
            }
            i += 1;
        }
        proof {
            if self.map().dom().contains(key.model()) {
                let j = choose|j: int| #[trigger] self.at(j, key.model());
                assert(self.entries@[j].0.model() != key.model());
            }
        }
        None
    }

    /// What is kept under a key.
    pub fn get(&self, key: &K) -> (value: Option<&V>)
        requires
            self.wf(),
        ensures
            value == if self.map().dom().contains(key.model()) {
                Some(&self.map()[key.model()])
            } else {
                None
            },
    {
        match self.position(key) {
            Some(i) => Some(&self.entries[i].1),
            None => None,
        }
    }

    /// Keeps something under a key, in place of what was there.
    pub fn insert(&mut self, key: K, value: V)
        requires
            old(self).wf(),
        ensures
            final(self).wf(),
            final(self).map() == old(self).map().insert(key.model(), value),
    {
        let ghost before = *self;
        let ghost model = key.model();
        match self.position(&key) {
            Some(i) => {
                self.entries.set(i, (key, value));
                proof {
                    self.lemma_changed(before, i as int, model, value);
                }
            },
            None => {
                self.entries.push((key, value));
                proof {
                    let n = before.entries@.len() as int;
                    assert forall|i: int| 0 <= i < n implies (
                    #[trigger] self.entries@[i]).0.model() != model by {
                        assert(before.at(i, self.entries@[i].0.model()));
                        before.lemma_entry(i);
                    }
                    assert(self.wf());
                    let expected = before.map().insert(model, value);
                    assert forall|k: K::Model| #[trigger]
                        self.map().dom().contains(k) <==> expected.dom().contains(k) by {
                        if self.map().dom().contains(k) {
                            let i = choose|i: int| #[trigger] self.at(i, k);
                            if i < n {
                                before.lemma_entry(i);
                            }
                        }
                        if expected.dom().contains(k) {
                            if k == model {
                                assert(self.at(n, k));
                            } else {
                                let i = choose|i: int| #[trigger] before.at(i, k);
                                assert(self.at(i, k));
                            }
                        }
                    }
                    assert forall|k: K::Model| #[trigger]
                        self.map().dom().contains(k) implies self.map()[k] == expected[k] by {
                        let i = choose|i: int| #[trigger] self.at(i, k);
                        self.lemma_entry(i);
                        if i < n {
                            before.lemma_entry(i);
                        }
                    }
                    assert(self.map() =~= expected);
                }
            },
        }
    }

    proof fn lemma_changed(self, before: Self, i: int, model: K::Model, value: V)
        requires
            before.wf(),
            before.at(i, model),
            self.entries@.len() == before.entries@.len(),
            self.entries@[i].0.model() == model,
            self.entries@[i].1 == value,
            forall|j: int|
                0 <= j < self.entries@.len() && j != i ==> #[trigger] self.entries@[j]
                    == before.entries@[j],
        ensures
            self.wf(),
            self.map() == before.map().insert(model, value),
    {
        assert forall|p: int, q: int|
            0 <= p < self.entries@.len() && 0 <= q < self.entries@.len() && p != q implies (
        #[trigger] self.entries@[p]).0.model() != (#[trigger] self.entries@[q]).0.model() by {
            assert(before.entries@[p].0.model() != before.entries@[q].0.model());
            if p == i {
                assert(before.entries@[p].0.model() == model);
            }
            if q == i {
                assert(before.entries@[q].0.model() == model);
            }
        }
        let expected = before.map().insert(model, value);
        assert forall|k: K::Model| #[trigger]
            self.map().dom().contains(k) <==> expected.dom().contains(k) by {
            if self.map().dom().contains(k) {
                let j = choose|j: int| #[trigger] self.at(j, k);
                if j != i {
                    assert(before.at(j, k));
                }
            }
            if expected.dom().contains(k) {
                if k == model {
                    assert(self.at(i, k));
                } else {
                    let j = choose|j: int| #[trigger] before.at(j, k);
                    assert(j != i);
                    assert(self.at(j, k));
                }
            }
        }
        assert forall|k: K::Model| #[trigger] self.map().dom().contains(k) implies self.map()[k]
            == expected[k] by {
            let j = choose|j: int| #[trigger] self.at(j, k);
            self.lemma_entry(j);
            if j != i {
                before.lemma_entry(j);
                assert(before.entries@[j].0.model() != before.entries@[i].0.model());
            }
        }
        assert(self.map() =~= expected);
    }

    /// Removes what is kept under a key, and hands it out.
    pub fn remove(&mut self, key: &K) -> (removed: Option<V>)
        requires
            old(self).wf(),
        ensures
            final(self).wf(),
            removed == if old(self).map().dom().contains(key.model()) {
                Some(old(self).map()[key.model()])
            } else {
                None
            },
            final(self).map() == old(self).map().remove(key.model()),
    {
        let ghost before = *self;
        let ghost model = key.model();
        match self.position(key) {
            Some(i) => {
                let entry = self.entries.remove(i);
                proof {
                    let gone = i as int;
                    assert(self.entries@ == before.entries@.remove(gone));
                    assert forall|p: int, q: int|
                        0 <= p < self.entries@.len() && 0 <= q < self.entries@.len() && p
                            != q implies (#[trigger] self.entries@[p]).0.model() != (
                    #[trigger] self.entries@[q]).0.model() by {
                        let p2 = if p < gone {
                            p
                        } else {
                            p + 1
                        };
                        let q2 = if q < gone {
                            q
                        } else {
                            q + 1
                        };
                        assert(before.entries@[p2].0.model() != before.entries@[q2].0.model());
                    }
                    let expected = before.map().remove(model);
                    assert forall|k: K::Model| #[trigger]
                        self.map().dom().contains(k) <==> expected.dom().contains(k) by {
                        if self.map().dom().contains(k) {
                            let j = choose|j: int| #[trigger] self.at(j, k);
                            let j2 = if j < gone {
                                j
                            } else {
                                j + 1
                            };
                            assert(before.at(j2, k));
                            assert(before.entries@[j2].0.model()
                                != before.entries@[gone].0.model());
                        }
                        if expected.dom().contains(k) {
                            let j = choose|j: int| #[trigger] before.at(j, k);
                            assert(j != gone);
                            let j2 = if j < gone {
                                j
                            } else {
                                j - 1
                            };
                            assert(self.at(j2, k));
                        }
                    }
                    assert forall|k: K::Model| #[trigger]
                        self.map().dom().contains(k) implies self.map()[k] == expected[k] by {
                        let j = choose|j: int| #[trigger] self.at(j, k);
                        let j2 = if j < gone {
                            j
                        } else {
                            j + 1
                        };
                        self.lemma_entry(j);
                        before.lemma_entry(j2);
                    }
                    assert(self.map() =~= expected);
                }
                Some(entry.1)
            },
            None => {
                assert(self.map() =~= before.map().remove(model));
                None
            },
        }
    }
}

} // verus!
