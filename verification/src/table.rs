//! A map from texts to values.
use vstd::prelude::*;

verus! {

/// A map from texts to values, in which no key occurs twice.
pub struct Table<V> {
    entries: Vec<(String, V)>,
}

impl<V> View for Table<V> {
    type V = Map<Seq<char>, V>;

    closed spec fn view(&self) -> Map<Seq<char>, V> {
        Map::new(
            |key: Seq<char>| self.keys().contains(key),
            |key: Seq<char>| self.entries@[self.keys().index_of(key)].1,
        )
    }
}

impl<V> Table<V> {
    /// The keys in the order in which they are kept.
    pub closed spec fn keys(self) -> Seq<Seq<char>> {
        Seq::new(self.entries@.len(), |i: int| self.entries@[i].0@)
    }

    /// No key occurs twice.
    pub open spec fn wf(self) -> bool {
        self.keys().no_duplicates()
    }

    /// The keys are those of the map, and as many.
    pub proof fn lemma_keys(self)
        requires
            self.wf(),
        ensures
            self@.dom().finite(),
            self@.len() == self.keys().len(),
            forall|key: Seq<char>|
                #![trigger self@.contains_key(key)]
                #![trigger self.keys().contains(key)]
                self@.contains_key(key) <==> self.keys().contains(key),
            forall|i: int| 0 <= i < self.keys().len() ==> self@.contains_key(#[trigger] self.keys()[i]),
    {
        self.keys().unique_seq_to_set();
        assert(self@.dom() =~= self.keys().to_set());
    }

    /// What the map holds under the key at a position.
    proof fn lemma_entry(self, i: int)
        requires
            self.wf(),
            0 <= i < self.entries@.len(),
        ensures
            self.keys()[i] == self.entries@[i].0@,
            self@.contains_key(self.entries@[i].0@),
            self@[self.entries@[i].0@] == self.entries@[i].1,
    {
        assert(self.keys()[i] == self.entries@[i].0@);
        assert(self.keys().contains(self.keys()[i]));
    }

    /// A map without entries.
    pub fn new() -> (r: Self)
        ensures
            r.wf(),
            r@ == Map::<Seq<char>, V>::empty(),
    {
        let r = Table { entries: Vec::new() };
        assert(r@ =~= Map::<Seq<char>, V>::empty());
        r
    }

    /// How many entries there are.
    pub fn len(&self) -> (r: usize)
        requires
            self.wf(),
        ensures
            r == self@.len(),
            r == self.keys().len(),
    {
        proof {
            self.lemma_keys();
        }
        self.entries.len()
    }

    /// The key at a position.
    pub fn key_at(&self, i: usize) -> (r: &String)
        requires
            self.wf(),
            i < self.keys().len(),
        ensures
            r@ == self.keys()[i as int],
            self@.contains_key(r@),
    {
        proof {
            self.lemma_entry(i as int);
        }
        &self.entries[i].0
    }

    /// The value under the key at a position.
    pub fn value_at(&self, i: usize) -> (r: &V)
        requires
            self.wf(),
            i < self.keys().len(),
        ensures
            self@.contains_key(self.keys()[i as int]),
            *r == self@[self.keys()[i as int]],
    {
        proof {
            self.lemma_entry(i as int);
        }
        &self.entries[i].1
    }

    /// The position of a key.
    fn position(&self, key: &str) -> (r: Option<usize>)
        ensures
            r is Some <==> self.keys().contains(key@),
            r matches Some(i) ==> i < self.entries@.len() && self.entries@[i as int].0@ == key@,
    {
        let wanted = key.to_string();
        let mut i: usize = 0;
        while i < self.entries.len()
            invariant
                i <= self.entries@.len(),
                wanted@ == key@,
                forall|k: int| 0 <= k < i ==> self.keys()[k] != key@,
            decreases self.entries@.len() - i,
        {
            if self.entries[i].0 == wanted {
                assert(self.keys()[i as int] == key@);
                return Some(i);
            }
            i = i + 1;
        }
        None
    }

    /// The value under a key.
    pub fn get(&self, key: &str) -> (r: Option<&V>)
        requires
            self.wf(),
        ensures
            r is Some <==> self@.contains_key(key@),
            r matches Some(value) ==> *value == self@[key@],
    {
        match self.position(key) {
            Some(i) => {
                proof {
                    self.lemma_entry(i as int);
                }
                Some(&self.entries[i].1)
            },
            None => None,
        }
    }

    /// Puts a value under a key, in place of what was there.
    pub fn insert(&mut self, key: &str, value: V)
        requires
            old(self).wf(),
        ensures
            final(self).wf(),
            final(self)@ == old(self)@.insert(key@, value),
    {
        let ghost before = *self;
        match self.position(key) {
            Some(i) => {
                self.entries.set(i, (key.to_string(), value));
                assert(self.keys() =~= before.keys());
                assert(self@ =~= before@.insert(key@, value)) by {
                    self.lemma_entry(i as int);
                    assert forall|k: Seq<char>| before.keys().contains(k) && k != key@ implies self@[k]
                        == before@[k] by {
                        let j = before.keys().index_of(k);
                        before.lemma_entry(j);
                        self.lemma_entry(j);
                    }
                }
            },
            None => {
                self.entries.push((key.to_string(), value));
                assert(self.keys() =~= before.keys().push(key@));
                assert(self@ =~= before@.insert(key@, value)) by {
                    self.lemma_entry(before.entries@.len() as int);
                    assert forall|k: Seq<char>|
                        self.keys().contains(k) <==> before.keys().contains(k) || k == key@ by {
                        if before.keys().contains(k) {
                            let j = before.keys().index_of(k);
                            assert(self.keys()[j] == k);
                        }
                    }
                    assert forall|k: Seq<char>| before.keys().contains(k) implies self@[k]
                        == before@[k] by {
                        let j = before.keys().index_of(k);
                        before.lemma_entry(j);
                        self.lemma_entry(j);
                    }
                }
            },
        }
    }

    /// Takes out the entry at a position; those behind it move up.
    pub fn remove_at(&mut self, i: usize)
        requires
            old(self).wf(),
            i < old(self).keys().len(),
        ensures
            final(self).wf(),
            final(self)@ == old(self)@.remove(old(self).keys()[i as int]),
            final(self).keys() == old(self).keys().remove(i as int),
    {
        let ghost before = *self;
        let ghost key = before.keys()[i as int];
        let _ = self.entries.remove(i);
        assert(self.keys() =~= before.keys().remove(i as int));
        assert(self@ =~= before@.remove(key)) by {
            assert forall|k: Seq<char>|
                self.keys().contains(k) <==> before.keys().contains(k) && k != key by {
                if before.keys().contains(k) && k != key {
                    let j = before.keys().index_of(k);
                    if j < i {
                        assert(self.keys()[j] == k);
                    } else {
                        assert(self.keys()[j - 1] == k);
                    }
                }
                if self.keys().contains(k) {
                    let j = self.keys().index_of(k);
                    if j < i {
                        assert(before.keys()[j] == k);
                    } else {
                        assert(before.keys()[j + 1] == k);
                    }
                }
            }
            assert forall|k: Seq<char>| self.keys().contains(k) implies self@[k] == before@[k] by {
                let j = self.keys().index_of(k);
                self.lemma_entry(j);
                before.lemma_entry(if j < i {
                    j
                } else {
                    j + 1
                });
            }
        }
    }

    /// Takes out the entry under a key; tells whether there was one.
    pub fn remove(&mut self, key: &str) -> (r: bool)
        requires
            old(self).wf(),
        ensures
            final(self).wf(),
            final(self)@ == old(self)@.remove(key@),
            r == old(self)@.contains_key(key@),
    {
        match self.position(key) {
            Some(i) => {
                self.remove_at(i);
                true
            },
            None => {
                assert(self@.remove(key@) =~= self@);
                false
            },
        }
    }
}

} // verus!
