//! A small map from 32-byte keys to values, kept as a list in which no key
//! occurs twice.

use vstd::prelude::*;
use crate::bytes::bytes_equal;

verus! {

/// One key with its value.
pub struct KeyedEntry<V> {
    pub key: [u8; 32],
    pub value: V,
}

/// A map from 32-byte keys to values.
pub struct KeyedStore<V> {
    entries: Vec<KeyedEntry<V>>,
}

impl<V> KeyedStore<V> {
    /// The keys of the entries, in the order in which they are kept.
    pub closed spec fn keys(&self) -> Seq<Seq<u8>> {
        Seq::new(self.entries@.len(), |i: int| self.entries@[i].key@)
    }

    /// No key occurs twice.
    pub closed spec fn wf(&self) -> bool {
        self.keys().no_duplicates()
    }

    /// Where `key` is kept, if it is kept.
    pub closed spec fn position(&self, key: Seq<u8>) -> int {
        choose|i: int| 0 <= i < self.entries@.len() && self.entries@[i].key@ == key
    }

    /// The map that the store stands for.
    pub closed spec fn map(&self) -> Map<Seq<u8>, V> {
        Map::new(
            |key: Seq<u8>| self.keys().contains(key),
            |key: Seq<u8>| self.entries@[self.position(key)].value,
        )
    }

    proof fn lemma_entry(&self, i: int)
        requires
            self.wf(),
            0 <= i < self.entries@.len(),
        ensures
            self.map().contains_key(self.entries@[i].key@),
            self.position(self.entries@[i].key@) == i,
            self.map()[self.entries@[i].key@] == self.entries@[i].value,
    {
        let key = self.entries@[i].key@;
        assert(self.keys()[i] == key);
        let p = self.position(key);
        assert(0 <= p < self.entries@.len() && self.entries@[p].key@ == key);
        assert(self.keys()[p] == key);
    }

    proof fn lemma_absent(&self, key: Seq<u8>)
        requires
            forall|i: int| 0 <= i < self.entries@.len() ==> self.entries@[i].key@ != key,
        ensures
            !self.map().contains_key(key),
    {
        if self.keys().contains(key) {
            let i = choose|i: int| 0 <= i < self.keys().len() && self.keys()[i] == key;
            assert(self.entries@[i].key@ == key);
        }
    }

    /// Every key is 32 bytes long.
    pub proof fn lemma_key_len(&self, key: Seq<u8>)
        requires
            self.map().contains_key(key),
        ensures
            key.len() == 32,
    {
        let i = choose|i: int| 0 <= i < self.keys().len() && self.keys()[i] == key;
        assert(self.entries@[i].key@ == key);
    }

    /// The map of a well-formed store has finitely many keys.
    pub proof fn lemma_finite(&self)
        ensures
            self.map().dom().finite(),
    {
        assert(self.map().dom() =~= self.keys().to_set());
        vstd::seq_lib::seq_to_set_is_finite(self.keys());
    }

    /// A store without entries.
    pub fn new() -> (store: Self)
        ensures
            store.wf(),
            store.map() == Map::<Seq<u8>, V>::empty(),
    {
        let store = KeyedStore { entries: Vec::new() };
        assert(store.map() =~= Map::<Seq<u8>, V>::empty());
        store
    }

    /// The place of `key` in the list.
    fn find(&self, key: &[u8; 32]) -> (found: Option<usize>)
        requires
            self.wf(),
        ensures
            match found {
                Some(i) => i < self.entries@.len() && self.entries@[i as int].key@ == key@ && self.map().contains_key(
                    key@,
                ) && self.map()[key@] == self.entries@[i as int].value,
                None => !self.map().contains_key(key@),
            },
    {
        let mut i: usize = 0;
        while i < self.entries.len()
            invariant
                self.wf(),
                i <= self.entries@.len(),
                forall|j: int| 0 <= j < i ==> self.entries@[j].key@ != key@,
            decreases self.entries@.len() - i,
        {
            if bytes_equal(self.entries[i].key.as_slice(), key.as_slice()) {
                proof {
                    self.lemma_entry(i as int);
                }
                return Some(i);
            }
            i += 1;
        }
        proof {
            self.lemma_absent(key@);
        }
        None
    }

    /// Tells whether `key` has a value.
    pub fn contains_key(&self, key: &[u8; 32]) -> (found: bool)
        requires
            self.wf(),
        ensures
            found == self.map().contains_key(key@),
    {
        self.find(key).is_some()
    }

    /// The value of `key`, if it has one.
    pub fn get(&self, key: &[u8; 32]) -> (found: Option<&V>)
        requires
            self.wf(),
        ensures
            match found {
                Some(value) => self.map().contains_key(key@) && self.map()[key@] == *value,
                None => !self.map().contains_key(key@),
            },
    {
        match self.find(key) {
            Some(i) => Some(&self.entries[i].value),
            None => None,
        }
    }

    /// Gives `key` the value `value`. The key must be new.
    pub fn insert(&mut self, key: [u8; 32], value: V)
        requires
            old(self).wf(),
            !old(self).map().contains_key(key@),
        ensures
            final(self).wf(),
            final(self).map() == old(self).map().insert(key@, value),
    {
        let ghost before = *self;
        self.entries.push(KeyedEntry { key, value });
        proof {
            let n = before.entries@.len() as int;
            assert(self.keys() =~= before.keys().push(key@));
            assert(!before.keys().contains(key@));
            assert(self.wf()) by {
                assert forall|i: int, j: int| 0 <= i < self.keys().len() && 0 <= j < self.keys().len() && i != j implies self.keys()[i]
                    != self.keys()[j] by {
                    if i < n && j < n {
                        assert(before.keys()[i] != before.keys()[j]);
                    } else if i < n {
                        assert(before.keys().contains(before.keys()[i]));
                    } else {
                        assert(before.keys().contains(before.keys()[j]));
                    }
                }
            }
            assert forall|k: Seq<u8>| self.map().contains_key(k) implies #[trigger] self.map()[k] == before.map().insert(
                key@,
                value,
            )[k] by {
                let p = self.position(k);
                assert(self.keys().contains(k));
                let w = choose|i: int| 0 <= i < self.keys().len() && self.keys()[i] == k;
                assert(self.entries@[w].key@ == k);
                assert(0 <= p < self.entries@.len() && self.entries@[p].key@ == k);
                if k == key@ {
                    if p < n {
                        assert(before.keys()[p] == k);
                    }
                    assert(p == n);
                } else {
                    assert(p < n);
                    assert(before.entries@[p].key@ == k);
                    before.lemma_entry(p);
                }
            }
            assert forall|k: Seq<u8>| self.map().contains_key(k) <==> before.map().insert(key@, value).contains_key(
                k,
            ) by {
                if self.keys().contains(k) {
                    let w = choose|i: int| 0 <= i < self.keys().len() && self.keys()[i] == k;
                    if w < n {
                        assert(before.keys()[w] == k);
                    }
                }
                if before.keys().contains(k) {
                    let w = choose|i: int| 0 <= i < before.keys().len() && before.keys()[i] == k;
                    assert(self.keys()[w] == k);
                }
                if k == key@ {
                    assert(self.keys()[n] == k);
                }
            }
            assert(self.map() =~= before.map().insert(key@, value));
        }
    }

    /// Takes `key` and its value out of the store.
    pub fn remove(&mut self, key: &[u8; 32]) -> (removed: Option<V>)
        requires
            old(self).wf(),
        ensures
            final(self).wf(),
            final(self).map() == old(self).map().remove(key@),
            match removed {
                Some(value) => old(self).map().contains_key(key@) && old(self).map()[key@] == value,
                None => !old(self).map().contains_key(key@),
            },
    {
        let ghost before = *self;
        match self.find(key) {
            Some(i) => {
                let entry = self.entries.remove(i);
                proof {
                    let at = i as int;
                    assert(self.keys() =~= before.keys().remove(at));
                    assert(self.wf()) by {
                        assert forall|a: int, b: int| 0 <= a < self.keys().len() && 0 <= b < self.keys().len() && a != b implies self.keys()[a]
                            != self.keys()[b] by {
                            let a0 = if a < at { a } else { a + 1 };
                            let b0 = if b < at { b } else { b + 1 };
                            assert(before.keys()[a0] != before.keys()[b0]);
                        }
                    }
                    assert forall|k: Seq<u8>| self.map().contains_key(k) <==> before.map().remove(key@).contains_key(k) by {
                        if self.keys().contains(k) {
                            let a = choose|a: int| 0 <= a < self.keys().len() && self.keys()[a] == k;
                            let a0 = if a < at { a } else { a + 1 };
                            assert(before.keys()[a0] == k);
                            assert(before.keys()[at] == key@);
                        }
                        if before.keys().contains(k) && k != key@ {
                            let a0 = choose|a: int| 0 <= a < before.keys().len() && before.keys()[a] == k;
                            let a = if a0 < at { a0 } else { a0 - 1 };
                            assert(self.keys()[a] == k);
                        }
                    }
                    assert forall|k: Seq<u8>| self.map().contains_key(k) implies #[trigger] self.map()[k] == before.map()[k] by {
                        let p = self.position(k);
                        let a = choose|a: int| 0 <= a < self.keys().len() && self.keys()[a] == k;
                        assert(self.entries@[a].key@ == k);
                        assert(0 <= p < self.entries@.len() && self.entries@[p].key@ == k);
                        let p0 = if p < at { p } else { p + 1 };
                        assert(before.entries@[p0].key@ == k);
                        before.lemma_entry(p0);
                    }
                    assert(self.map() =~= before.map().remove(key@));
                }
                Some(entry.value)
            },
            None => {
                assert(self.map() =~= before.map().remove(key@));
                None
            },
        }
    }
}

} // verus!
