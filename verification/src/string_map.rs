//! A map from names to values that is walked in the order of its names.
//!
//! The entries are kept strictly sorted by name, so the order in which a map is walked depends on
//! what it holds and never on the order in which it was filled.

use vstd::prelude::*;
use crate::name_order::{
    enumerates, lemma_enumerates, lemma_name_lt_connected, lemma_name_lt_irreflexive,
    lemma_name_lt_transitive, lemma_sorted_names, name_lt, sorted_names, str_eq, str_lt,
    strictly_sorted,
};

verus! {

/// A map keyed by names, held as two vectors of equal length: the names, strictly increasing, and
/// the value of each name at the same index.
pub struct StringMap<V> {
    keys: Vec<String>,
    values: Vec<V>,
}

impl<V> StringMap<V> {
    /// The names, in the order in which the map is walked.
    pub closed spec fn spec_keys(&self) -> Seq<Seq<char>> {
        Seq::new(self.keys@.len(), |i: int| self.keys@[i]@)
    }

    /// The values, each at the index of its name.
    pub closed spec fn spec_values(&self) -> Seq<V> {
        self.values@
    }

    /// The invariant of the type: one value per name, names strictly increasing.
    pub open spec fn wf(&self) -> bool {
        &&& self.spec_keys().len() == self.spec_values().len()
        &&& strictly_sorted(self.spec_keys())
    }

    /// Whether the map holds `key`.
    pub open spec fn spec_contains_key(&self, key: Seq<char>) -> bool {
        self.spec_keys().contains(key)
    }

    /// The index of `key` among the names.
    pub open spec fn spec_index_of(&self, key: Seq<char>) -> int {
        choose|i: int| 0 <= i < self.spec_keys().len() && self.spec_keys()[i] == key
    }

    /// The map as a mathematical map.
    pub open spec fn view(&self) -> Map<Seq<char>, V> {
        Map::new(
            |k: Seq<char>| self.spec_keys().contains(k),
            |k: Seq<char>| self.spec_values()[self.spec_index_of(k)],
        )
    }

    /// The names of a valid map are the sorted enumeration of its domain, and each value stands
    /// where its name stands.
    pub proof fn lemma_canonical(&self)
        requires
            self.wf(),
        ensures
            self.spec_keys() == sorted_names(self@.dom()),
            forall|i: int|
                0 <= i < self.spec_keys().len() ==> self.spec_index_of(
                    #[trigger] self.spec_keys()[i],
                ) == i,
            forall|i: int|
                0 <= i < self.spec_keys().len() ==> self@[#[trigger] self.spec_keys()[i]]
                    == self.spec_values()[i],
    {
        let keys = self.spec_keys();
        assert(keys.to_set() =~= self@.dom());
        lemma_sorted_names(keys);
        assert forall|i: int| 0 <= i < keys.len() implies self.spec_index_of(#[trigger] keys[i])
            == i by {
            let j = self.spec_index_of(keys[i]);
            lemma_name_lt_irreflexive(keys[i]);
            if j < i {
                assert(name_lt(keys[j], keys[i]));
            } else if i < j {
                assert(name_lt(keys[i], keys[j]));
            }
        }
        assert forall|i: int| 0 <= i < keys.len() implies self@[#[trigger] keys[i]]
            == self.spec_values()[i] by {
            assert(keys.contains(keys[i]));
        }
    }

    /// The names of a valid map can be enumerated in their order.
    pub proof fn lemma_enumerated(&self)
        requires
            self.wf(),
        ensures
            enumerates(self@.dom()),
    {
        lemma_enumerates(self.spec_keys(), self@.dom());
    }

    /// Two valid maps that are equal as mathematical maps hold the same names and values in the
    /// same order, however they were filled.
    pub proof fn lemma_same_view_same_order(&self, other: &Self)
        requires
            self.wf(),
            other.wf(),
            self@ == other@,
        ensures
            self.spec_keys() == other.spec_keys(),
            self.spec_values() == other.spec_values(),
    {
        self.lemma_canonical();
        other.lemma_canonical();
        assert(self.spec_values() =~= other.spec_values()) by {
            assert forall|i: int| 0 <= i < self.spec_values().len() implies self.spec_values()[i]
                == other.spec_values()[i] by {
                assert(self@[self.spec_keys()[i]] == self.spec_values()[i]);
                assert(other@[other.spec_keys()[i]] == other.spec_values()[i]);
            }
        }
    }

    /// An empty map.
    pub fn new() -> (r: Self)
        ensures
            r.wf(),
            r.spec_keys() == Seq::<Seq<char>>::empty(),
            r.spec_values() == Seq::<V>::empty(),
            r@ == Map::<Seq<char>, V>::empty(),
    {
        let r = StringMap { keys: Vec::new(), values: Vec::new() };
        assert(r.spec_keys() =~= Seq::<Seq<char>>::empty());
        assert(r@ =~= Map::<Seq<char>, V>::empty());
        r
    }

    /// The number of entries.
    pub fn len(&self) -> (r: usize)
        requires
            self.wf(),
        ensures
            r == self.spec_keys().len(),
    {
        self.keys.len()
    }

    /// Whether the map has no entry.
    pub fn is_empty(&self) -> (r: bool)
        requires
            self.wf(),
        ensures
            r == (self.spec_keys().len() == 0),
            r == (self@.dom() =~= Set::<Seq<char>>::empty()),
    {
        proof {
            if self.spec_keys().len() > 0 {
                assert(self.spec_keys().contains(self.spec_keys()[0]));
                assert(self@.dom().contains(self.spec_keys()[0]));
            }
        }
        self.keys.len() == 0
    }

    /// The name at index `i`.
    pub fn key_at(&self, i: usize) -> (r: &String)
        requires
            self.wf(),
            i < self.spec_keys().len(),
        ensures
            r@ == self.spec_keys()[i as int],
    {
        &self.keys[i]
    }

    /// The value at index `i`.
    pub fn value_at(&self, i: usize) -> (r: &V)
        requires
            self.wf(),
            i < self.spec_keys().len(),
        ensures
            *r == self.spec_values()[i as int],
    {
        &self.values[i]
    }

    /// The value at index `i`, to be changed in place. The names stay as they are.
    pub fn value_at_mut(&mut self, i: usize) -> (r: &mut V)
        requires
            old(self).wf(),
            i < old(self).spec_keys().len(),
        ensures
            *r == old(self).spec_values()[i as int],
            final(self).spec_keys() == old(self).spec_keys(),
            final(self).spec_values() == old(self).spec_values().update(i as int, *final(r)),
            final(self).wf(),
    {
        &mut self.values[i]
    }

    /// After the value at index `i` was replaced by `value`, the map binds the name at `i` to
    /// `value` and is otherwise unchanged.
    pub proof fn lemma_value_replaced(&self, after: &Self, i: int, value: V)
        requires
            self.wf(),
            0 <= i < self.spec_keys().len(),
            after.spec_keys() == self.spec_keys(),
            after.spec_values() == self.spec_values().update(i, value),
        ensures
            after.wf(),
            after@ == self@.insert(self.spec_keys()[i], value),
    {
        self.lemma_canonical();
        after.lemma_canonical();
        assert(after@ =~= self@.insert(self.spec_keys()[i], value)) by {
            assert forall|k: Seq<char>| after@.dom().contains(k) implies #[trigger] after@[k]
                == self@.insert(self.spec_keys()[i], value)[k] by {
                let j = self.spec_index_of(k);
                assert(self.spec_keys()[j] == k);
                assert(after.spec_index_of(after.spec_keys()[j]) == j);
            }
        }
    }

    /// Takes the entry with the greatest name out of the map, if the map has an entry.
    pub fn pop_last(&mut self) -> (r: Option<(String, V)>)
        requires
            old(self).wf(),
        ensures
            final(self).wf(),
            match r {
                Some((key, value)) => {
                    &&& old(self).spec_keys().len() > 0
                    &&& key@ == old(self).spec_keys().last()
                    &&& value == old(self).spec_values().last()
                    &&& final(self).spec_keys() == old(self).spec_keys().drop_last()
                    &&& final(self).spec_values() == old(self).spec_values().drop_last()
                },
                None => {
                    &&& old(self).spec_keys().len() == 0
                    &&& final(self).spec_keys() == old(self).spec_keys()
                    &&& final(self).spec_values() == old(self).spec_values()
                },
            },
    {
        let ghost old_keys = self.spec_keys();
        match self.keys.pop() {
            Some(key) => {
                let value = self.values.pop().unwrap();
                proof {
                    let keys = self.spec_keys();
                    assert(keys =~= old_keys.drop_last());
                    assert forall|i: int, j: int| 0 <= i < j < keys.len() implies name_lt(
                        #[trigger] keys[i],
                        #[trigger] keys[j],
                    ) by {
                        assert(name_lt(old_keys[i], old_keys[j]));
                    }
                }
                Some((key, value))
            },
            None => {
                assert(self.spec_keys() =~= old_keys);
                None
            },
        }
    }

    /// The index of the first name that does not come before `key`.
    fn lower_bound(&self, key: &str) -> (r: usize)
        requires
            self.wf(),
        ensures
            r <= self.spec_keys().len(),
            forall|i: int| 0 <= i < r ==> name_lt(#[trigger] self.spec_keys()[i], key@),
            forall|i: int|
                r <= i < self.spec_keys().len() ==> !name_lt(#[trigger] self.spec_keys()[i], key@),
    {
        let mut lo: usize = 0;
        let mut hi: usize = self.keys.len();
        while lo < hi
            invariant
                self.wf(),
                lo <= hi <= self.spec_keys().len(),
                self.spec_keys().len() == self.keys@.len(),
                forall|i: int| 0 <= i < lo ==> name_lt(#[trigger] self.spec_keys()[i], key@),
                forall|i: int|
                    hi <= i < self.spec_keys().len() ==> !name_lt(
                        #[trigger] self.spec_keys()[i],
                        key@,
                    ),
            decreases hi - lo,
        {
            let mid: usize = lo + (hi - lo) / 2;
            let ghost keys = self.spec_keys();
            if str_lt(self.keys[mid].as_str(), key) {
                proof {
                    assert forall|i: int| 0 <= i < mid + 1 implies name_lt(#[trigger] keys[i], key@) by {
                        if i < mid {
                            assert(name_lt(keys[i], keys[mid as int]));
                            lemma_name_lt_transitive(keys[i], keys[mid as int], key@);
                        }
                    }
                }
                lo = mid + 1;
            } else {
                proof {
                    assert forall|i: int| mid <= i < keys.len() implies !name_lt(
                        #[trigger] keys[i],
                        key@,
                    ) by {
                        if mid < i && name_lt(keys[i], key@) {
                            assert(name_lt(keys[mid as int], keys[i]));
                            lemma_name_lt_transitive(keys[mid as int], keys[i], key@);
                        }
                    }
                }
                hi = mid;
            }
        }
        lo
    }

    /// The index of `key`, if the map holds it.
    pub fn find(&self, key: &str) -> (r: Option<usize>)
        requires
            self.wf(),
        ensures
            match r {
                Some(i) => i < self.spec_keys().len() && self.spec_keys()[i as int] == key@,
                None => !self.spec_contains_key(key@),
            },
    {
        let p = self.lower_bound(key);
        if p < self.keys.len() && str_eq(self.keys[p].as_str(), key) {
            Some(p)
        } else {
            proof {
                let keys = self.spec_keys();
                if keys.contains(key@) {
                    let i = choose|i: int| 0 <= i < keys.len() && keys[i] == key@;
                    lemma_name_lt_irreflexive(key@);
                    if i < p {
                        assert(name_lt(keys[i], key@));
                    } else if i > p {
                        assert(name_lt(keys[p as int], keys[i]));
                        assert(!name_lt(keys[p as int], key@));
                    }
                }
            }
            None
        }
    }

    /// Whether the map holds `key`.
    pub fn contains_key(&self, key: &str) -> (r: bool)
        requires
            self.wf(),
        ensures
            r == self.spec_contains_key(key@),
            r == self@.dom().contains(key@),
    {
        let found = self.find(key);
        proof {
            if let Some(i) = found {
                assert(self.spec_keys()[i as int] == key@);
            }
        }
        found.is_some()
    }

    /// The value of `key`, if the map holds it.
    pub fn get(&self, key: &str) -> (r: Option<&V>)
        requires
            self.wf(),
        ensures
            match r {
                Some(v) => self@.dom().contains(key@) && *v == self@[key@],
                None => !self@.dom().contains(key@),
            },
    {
        match self.find(key) {
            Some(i) => {
                proof {
                    self.lemma_canonical();
                    assert(self.spec_keys().contains(self.spec_keys()[i as int]));
                }
                Some(&self.values[i])
            },
            None => None,
        }
    }

    /// Binds `key` to `value`. Returns the value that `key` had before, if it had one.
    pub fn insert(&mut self, key: String, value: V) -> (r: Option<V>)
        requires
            old(self).wf(),
        ensures
            final(self).wf(),
            final(self)@ == old(self)@.insert(key@, value),
            match r {
                Some(v) => old(self)@.dom().contains(key@) && v == old(self)@[key@]
                    && final(self).spec_keys() == old(self).spec_keys(),
                None => !old(self)@.dom().contains(key@),
            },
            final(self).spec_keys().contains(key@),
            final(self).spec_values()[final(self).spec_index_of(key@)] == value,
    {
        let p = self.lower_bound(key.as_str());
        let ghost old_keys = self.spec_keys();
        let ghost old_values = self.spec_values();
        let ghost old_view = self@;
        proof {
            self.lemma_canonical();
        }
        if p < self.keys.len() && str_eq(self.keys[p].as_str(), key.as_str()) {
            let mut value = value;
            let ghost new_value = value;
            core::mem::swap(&mut self.values[p], &mut value);
            proof {
                assert(self.spec_keys() =~= old_keys);
                assert(self.spec_values() =~= old_values.update(p as int, new_value));
                assert(old_keys.contains(old_keys[p as int]));
                self.lemma_canonical();
                assert(self@ =~= old_view.insert(key@, new_value)) by {
                    assert forall|k: Seq<char>| self@.dom().contains(k) implies #[trigger] self@[k]
                        == old_view.insert(key@, new_value)[k] by {
                        let i = self.spec_index_of(k);
                        assert(old_keys[i] == k);
                    }
                }
            }
            Some(value)
        } else {
            proof {
                let keys = old_keys;
                if keys.contains(key@) {
                    let i = choose|i: int| 0 <= i < keys.len() && keys[i] == key@;
                    lemma_name_lt_irreflexive(key@);
                    if i < p {
                        assert(name_lt(keys[i], key@));
                    } else if i > p {
                        assert(name_lt(keys[p as int], keys[i]));
                        assert(!name_lt(keys[p as int], key@));
                    }
                }
            }
            let ghost key_view = key@;
            self.keys.insert(p, key);
            self.values.insert(p, value);
            proof {
                let new_keys = self.spec_keys();
                assert(new_keys =~= old_keys.insert(p as int, key_view));
                assert(self.spec_values() =~= old_values.insert(p as int, value));
                assert forall|i: int, j: int| 0 <= i < j < new_keys.len() implies name_lt(
                    #[trigger] new_keys[i],
                    #[trigger] new_keys[j],
                ) by {
                    if j < p {
                        assert(name_lt(old_keys[i], old_keys[j]));
                    } else if j == p {
                        assert(name_lt(old_keys[i], key_view));
                    } else if i < p {
                        assert(name_lt(old_keys[i], old_keys[j - 1]));
                    } else if i == p {
                        assert(!name_lt(old_keys[j - 1], key_view));
                        assert(old_keys.contains(old_keys[j - 1]));
                        lemma_name_lt_connected(old_keys[j - 1], key_view);
                    } else {
                        assert(name_lt(old_keys[i - 1], old_keys[j - 1]));
                    }
                }
                assert(new_keys[p as int] == key_view);
                assert(new_keys.contains(key_view));
                self.lemma_canonical();
                assert(self@ =~= old_view.insert(key_view, value)) by {
                    assert forall|k: Seq<char>| self@.dom().contains(k) <==> old_view.insert(
                        key_view,
                        value,
                    ).dom().contains(k) by {
                        if new_keys.contains(k) {
                            let i = choose|i: int| 0 <= i < new_keys.len() && new_keys[i] == k;
                            if i < p {
                                assert(old_keys[i] == k);
                            } else if i > p {
                                assert(old_keys[i - 1] == k);
                            }
                        }
                        if old_keys.contains(k) {
                            let i = choose|i: int| 0 <= i < old_keys.len() && old_keys[i] == k;
                            if i < p {
                                assert(new_keys[i] == k);
                            } else {
                                assert(new_keys[i + 1] == k);
                            }
                        }
                    }
                    assert forall|k: Seq<char>| self@.dom().contains(k) implies #[trigger] self@[k]
                        == old_view.insert(key_view, value)[k] by {
                        let i = self.spec_index_of(k);
                        assert(new_keys[i] == k);
                        if i < p {
                            assert(old_keys[i] == k);
                            assert(old_keys.contains(k));
                        } else if i > p {
                            assert(old_keys[i - 1] == k);
                            assert(old_keys.contains(k));
                        }
                    }
                }
            }
            None
        }
    }
}

} // verus!
