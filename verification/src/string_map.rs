//! A small map keyed by text.

use crate::text::same_text;
use vstd::prelude::*;

verus! {

/// A map from texts to values, kept as a list of entries with distinct keys.
///
/// Its view is the mathematical map; lookups walk the list.
pub struct StringMap<V> {
    keys: Vec<String>,
    values: Vec<V>,
}

impl<V> View for StringMap<V> {
    type V = Map<Seq<char>, V>;

    closed spec fn view(&self) -> Map<Seq<char>, V> {
        Map::new(
            |key: Seq<char>| self.holds(key),
            |key: Seq<char>| self.values[self.slot(key)],
        )
    }
}

impl<V> StringMap<V> {
    /// No key occurs twice, and every key has its value.
    pub closed spec fn wf(&self) -> bool {
        &&& self.keys.len() == self.values.len()
        &&& forall|i: int, j: int|
            0 <= i < j < self.keys.len() ==> self.keys[i]@ != self.keys[j]@
    }

    spec fn holds(&self, key: Seq<char>) -> bool {
        exists|i: int| 0 <= i < self.keys.len() && self.keys[i]@ == key
    }

    spec fn slot(&self, key: Seq<char>) -> int {
        choose|i: int| 0 <= i < self.keys.len() && self.keys[i]@ == key
    }

    proof fn lemma_slot(&self, i: int)
        requires
            self.wf(),
            0 <= i < self.keys.len(),
        ensures
            self.holds(self.keys[i]@),
            self.slot(self.keys[i]@) == i,
            self@.contains_key(self.keys[i]@),
            self@[self.keys[i]@] == self.values[i],
    {
        let key = self.keys[i]@;
        assert(self.holds(key));
        let chosen = self.slot(key);
        assert(0 <= chosen < self.keys.len() && self.keys[chosen]@ == key);
        if chosen < i {
            assert(self.keys[chosen]@ != self.keys[i]@);
        } else if i < chosen {
            assert(self.keys[i]@ != self.keys[chosen]@);
        }
    }

    /// The empty map.
    pub fn new() -> (map: Self)
        ensures
            map.wf(),
            map@ == Map::<Seq<char>, V>::empty(),
    {
        let map = StringMap { keys: Vec::new(), values: Vec::new() };
        assert(map@ =~= Map::<Seq<char>, V>::empty());
        map
    }

    fn position(&self, key: &str) -> (found: Option<usize>)
        requires
            self.wf(),
        ensures
            match found {
                Some(i) => i < self.keys.len() && self.keys[i as int]@ == key@,
                None => !self.holds(key@),
            },
    {
        let mut i: usize = 0;
        while i < self.keys.len()
            invariant
                i <= self.keys.len(),
                forall|j: int| 0 <= j < i ==> self.keys[j]@ != key@,
            decreases self.keys.len() - i,
        {
            if same_text(self.keys[i].as_str(), key) {
                return Some(i);
            }
            i += 1;
        }
        None
    }

    /// The value stored under `key`, if any.
    pub fn get(&self, key: &str) -> (found: Option<&V>)
        requires
            self.wf(),
        ensures
            match found {
                Some(value) => self@.contains_key(key@) && *value == self@[key@],
                None => !self@.contains_key(key@),
            },
    {
        match self.position(key) {
            Some(i) => {
                proof {
                    self.lemma_slot(i as int);
                }
                Some(&self.values[i])
            },
            None => None,
        }
    }

    /// Stores `value` under `key`, replacing what was stored there.
    pub fn insert(&mut self, key: String, value: V)
        requires
            old(self).wf(),
        ensures
            final(self).wf(),
            final(self)@ == old(self)@.insert(key@, value),
    {
        match self.position(key.as_str()) {
            Some(i) => {
                self.values.set(i, value);
            },
            None => {
                self.keys.push(key);
                self.values.push(value);
            },
        }
        proof {
            assert(self.wf());
            assert forall|k: Seq<char>|
                self@.contains_key(k) <==> #[trigger] old(self)@.insert(key@, value).contains_key(k) by {
                if old(self).holds(k) {
                    let i = old(self).slot(k);
                    assert(self.keys[i]@ == k);
                }
                if self.holds(k) && k != key@ {
                    let i = self.slot(k);
                    assert(old(self).keys[i]@ == k);
                }
                if k == key@ {
                    if old(self).holds(k) {
                    } else {
                        assert(self.keys[self.keys.len() - 1]@ == k);
                    }
                }
            }
            assert forall|k: Seq<char>| self@.contains_key(k) implies self@[k] == old(self)@.insert(
                key@,
                value,
            )[k] by {
                let i = self.slot(k);
                self.lemma_slot(i);
                if k != key@ {
                    assert(old(self).keys[i]@ == k);
                    old(self).lemma_slot(i);
                }
            }
            assert(self@ =~= old(self)@.insert(key@, value));
        }
    }

    /// Takes out what is stored under `key`, if anything.
    pub fn remove(&mut self, key: &str) -> (taken: Option<V>)
        requires
            old(self).wf(),
        ensures
            final(self).wf(),
            final(self)@ == old(self)@.remove(key@),
            match taken {
                Some(value) => old(self)@.contains_key(key@) && value == old(self)@[key@],
                None => !old(self)@.contains_key(key@),
            },
    {
        match self.position(key) {
            Some(i) => {
                proof {
                    self.lemma_slot(i as int);
                }
                self.keys.remove(i);
                let value = self.values.remove(i);
                proof {
                    assert(self.wf());
                    assert forall|k: Seq<char>|
                        self@.contains_key(k) <==> #[trigger] old(self)@.remove(key@).contains_key(
                            k,
                        ) by {
                        if self.holds(k) {
                            let j = self.slot(k);
                            if j < i {
                                assert(old(self).keys[j]@ == k);
                            } else {
                                assert(old(self).keys[j + 1]@ == k);
                            }
                        }
                        if old(self).holds(k) && k != key@ {
                            let j = old(self).slot(k);
                            if j < i {
                                assert(self.keys[j]@ == k);
                            } else {
                                assert(self.keys[j - 1]@ == k);
                            }
                        }
                    }
                    assert forall|k: Seq<char>| self@.contains_key(k) implies self@[k] == old(
                        self,
                    )@.remove(key@)[k] by {
                        let j = self.slot(k);
                        self.lemma_slot(j);
                        if j < i {
                            old(self).lemma_slot(j);
                        } else {
                            old(self).lemma_slot(j + 1);
                        }
                    }
                    assert(self@ =~= old(self)@.remove(key@));
                }
                Some(value)
            },
            None => {
                assert(self@ =~= old(self)@.remove(key@));
                None
            },
        }
    }
}

} // verus!
