//! A small map keyed by text, kept as two parallel vectors.
//!
//! Account and asset identifiers are strings that the host supplies. The
//! stores that are keyed by one of them share this container; its model is a
//! `Map` from the key's characters to the model of the value.
use vstd::prelude::*;

verus! {

/// A map from strings to `V`. Lookups scan the keys in insertion order.
///
/// The fields are open so that a host can store the map and build it again
/// from what it stored; [`TextMap::is_wf`] tells whether what was built is a
/// map.
pub struct TextMap<V> {
    /// The keys, in the order of their insertion.
    pub keys: Vec<String>,
    /// The value of each key, at the key's index.
    pub values: Vec<V>,
}

impl<V: View> View for TextMap<V> {
    type V = Map<Seq<char>, V::V>;

    closed spec fn view(&self) -> Map<Seq<char>, V::V> {
        Map::new(
            |k: Seq<char>| exists|i: int| self.holds_at(i, k),
            |k: Seq<char>| self.values[choose|i: int| self.holds_at(i, k)]@,
        )
    }
}

impl<V: View> TextMap<V> {
    spec fn holds_at(&self, i: int, k: Seq<char>) -> bool {
        0 <= i < self.keys.len() && self.keys[i]@ == k
    }

    /// Every key has one value, and no key stands twice.
    pub closed spec fn wf(&self) -> bool {
        &&& self.keys.len() == self.values.len()
        &&& forall|i: int, j: int, k: Seq<char>| self.holds_at(i, k) && self.holds_at(j, k) ==> i == j
    }

    /// What the entries say of the model: each key maps to the value at its
    /// index, and the model has no other keys.
    pub proof fn lemma_entries(&self)
        requires
            self.wf(),
        ensures
            self.keys.len() == self.values.len(),
            forall|i: int|
                0 <= i < self.keys.len() ==>
                    self@.contains_key(#[trigger] self.keys[i]@) && self@[self.keys[i]@]
                    == self.values[i]@,
            forall|k: Seq<char>| #[trigger]
                self@.contains_key(k) ==>
                    exists|i: int| 0 <= i < self.keys.len() && #[trigger] self.keys[i]@ == k,
    {
        assert forall|i: int| 0 <= i < self.keys.len() implies self@.contains_key(#[trigger] self.keys[i]@)
            && self@[self.keys[i]@] == self.values[i]@ by {
            let k = self.keys[i]@;
            assert(self.holds_at(i, k));
            let j = choose|j: int| self.holds_at(j, k);
            assert(self.holds_at(j, k));
        }
        assert forall|k: Seq<char>| #[trigger] self@.contains_key(k) implies exists|i: int|
            0 <= i < self.keys.len() && #[trigger] self.keys[i]@ == k by {
            let j = choose|j: int| self.holds_at(j, k);
            assert(self.keys[j]@ == k);
        }
    }

    /// Whether the map is well-formed.
    pub fn is_wf(&self) -> (ok: bool)
        ensures
            ok == self.wf(),
    {
        if self.keys.len() != self.values.len() {
            return false;
        }
        let mut j: usize = 0;
        while j < self.keys.len()
            invariant
                j <= self.keys.len(),
                self.keys.len() == self.values.len(),
                forall|a: int, b: int| 0 <= a < b < j ==> self.keys[a]@ != self.keys[b]@,
            decreases self.keys.len() - j,
        {
            let mut i: usize = 0;
            while i < j
                invariant
                    i <= j < self.keys.len(),
                    forall|a: int| 0 <= a < i ==> self.keys[a]@ != self.keys[j as int]@,
                decreases j - i,
            {
                if self.keys[i] == self.keys[j] {
                    assert(self.holds_at(i as int, self.keys[i as int]@));
                    assert(self.holds_at(j as int, self.keys[i as int]@));
                    return false;
                }
                i += 1;
            }
            j += 1;
        }
        assert forall|a: int, b: int, k: Seq<char>| self.holds_at(a, k) && self.holds_at(b, k)
            implies a == b by {
            if a < b {
                assert(self.keys[a]@ != self.keys[b]@);
            } else if b < a {
                assert(self.keys[b]@ != self.keys[a]@);
            }
        }
        true
    }

    /// The map without keys.
    pub fn new() -> (map: TextMap<V>)
        ensures
            map.wf(),
            map@ == Map::<Seq<char>, V::V>::empty(),
    {
        let map = TextMap { keys: Vec::new(), values: Vec::new() };
        assert(map@ =~= Map::<Seq<char>, V::V>::empty());
        map
    }

    fn find(&self, key: &String) -> (found: Option<usize>)
        requires
            self.wf(),
        ensures
            match found {
                Some(i) => self.holds_at(i as int, key@)
                    && self@.contains_key(key@)
                    && self@[key@] == self.values[i as int]@,
                None => !self@.contains_key(key@),
            },
    {
        let mut i: usize = 0;
        while i < self.keys.len()
            invariant
                self.wf(),
                i <= self.keys.len(),
                forall|j: int| 0 <= j < i ==> !self.holds_at(j, key@),
            decreases self.keys.len() - i,
        {
            if self.keys[i] == *key {
                proof {
                    assert(self.holds_at(i as int, key@));
                    let j = choose|j: int| self.holds_at(j, key@);
                    assert(self.holds_at(j, key@));
                }
                return Some(i);
            }
            i += 1;
        }
        None
    }

    /// Whether `key` has a value.
    pub fn contains_key(&self, key: &String) -> (present: bool)
        requires
            self.wf(),
        ensures
            present == self@.contains_key(key@),
    {
        self.find(key).is_some()
    }

    /// The value under `key`, if there is one.
    pub fn get(&self, key: &String) -> (value: Option<&V>)
        requires
            self.wf(),
        ensures
            match value {
                Some(v) => self@.contains_key(key@) && v@ == self@[key@],
                None => !self@.contains_key(key@),
            },
    {
        match self.find(key) {
            Some(i) => Some(&self.values[i]),
            None => None,
        }
    }

    /// Puts `value` under `key`, in place of what was there.
    pub fn insert(&mut self, key: &String, value: V)
        requires
            old(self).wf(),
        ensures
            final(self).wf(),
            final(self)@ == old(self)@.insert(key@, value@),
    {
        match self.find(key) {
            Some(i) => {
                self.values[i] = value;
                proof {
                    assert forall|j: int, k: Seq<char>| self.holds_at(j, k) == old(self).holds_at(j, k) by {}
                    assert forall|k: Seq<char>| #[trigger] self@.contains_key(k)
                        implies self@[k] == old(self)@.insert(key@, value@)[k] by {
                        let j = choose|j: int| self.holds_at(j, k);
                        let j0 = choose|j: int| old(self).holds_at(j, k);
                        assert(old(self).holds_at(j, k));
                        assert(old(self).holds_at(j0, k));
                    }
                    assert(self@ =~= old(self)@.insert(key@, value@));
                }
            },
            None => {
                self.keys.push(key.clone());
                self.values.push(value);
                proof {
                    let n = old(self).keys.len() as int;
                    assert forall|j: int, k: Seq<char>| j != n
                        implies self.holds_at(j, k) == old(self).holds_at(j, k) by {}
                    assert forall|j: int| !old(self).holds_at(j, key@) by {
                        if old(self).holds_at(j, key@) {
                            assert(old(self)@.contains_key(key@));
                        }
                    }
                    assert(self.holds_at(n, key@));
                    assert forall|k: Seq<char>| #[trigger] self@.contains_key(k)
                        implies self@[k] == old(self)@.insert(key@, value@)[k] by {
                        let j = choose|j: int| self.holds_at(j, k);
                        if k != key@ {
                            assert(old(self).holds_at(j, k));
                            let j0 = choose|j: int| old(self).holds_at(j, k);
                            assert(old(self).holds_at(j0, k));
                        }
                    }
                    assert forall|k: Seq<char>| old(self)@.contains_key(k)
                        implies #[trigger] self@.contains_key(k) by {
                        let j0 = choose|j: int| old(self).holds_at(j, k);
                        assert(self.holds_at(j0, k));
                    }
                    assert(self@ =~= old(self)@.insert(key@, value@));
                }
            },
        }
    }

    /// Takes `key` and its value out of the map.
    pub fn remove(&mut self, key: &String) -> (value: Option<V>)
        requires
            old(self).wf(),
        ensures
            final(self).wf(),
            final(self)@ == old(self)@.remove(key@),
            match value {
                Some(v) => old(self)@.contains_key(key@) && v@ == old(self)@[key@],
                None => !old(self)@.contains_key(key@),
            },
    {
        match self.find(key) {
            Some(i) => {
                self.keys.remove(i);
                let value = self.values.remove(i);
                proof {
                    let at = i as int;
                    assert forall|j: int, k: Seq<char>| self.holds_at(j, k) == old(self).holds_at(
                        if j < at { j } else { j + 1 },
                        k,
                    ) by {}
                    assert forall|j: int, k: Seq<char>| j != at && old(self).holds_at(j, k)
                        implies self.holds_at(if j < at { j } else { j - 1 }, k) by {}
                    assert forall|k: Seq<char>| #[trigger] self@.contains_key(k)
                        implies old(self)@.contains_key(k) && k != key@ && self@[k] == old(self)@[k] by {
                        let j = choose|j: int| self.holds_at(j, k);
                        let up = if j < at { j } else { j + 1 };
                        assert(old(self).holds_at(up, k));
                        let j0 = choose|j: int| old(self).holds_at(j, k);
                        assert(old(self).holds_at(j0, k));
                    }
                    assert forall|k: Seq<char>| old(self)@.contains_key(k) && k != key@
                        implies #[trigger] self@.contains_key(k) by {
                        let j0 = choose|j: int| old(self).holds_at(j, k);
                        assert(self.holds_at(if j0 < at { j0 } else { j0 - 1 }, k));
                    }
                    assert(self@ =~= old(self)@.remove(key@));
                }
                Some(value)
            },
            None => {
                assert(self@ =~= old(self)@.remove(key@));
                None
            },
        }
    }
}

} // verus!
