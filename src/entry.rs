//! Views of one slot of the map, found by one search and consumed by one
//! follow-up insert, update or removal.
use vstd::prelude::*;
use std::cmp::Ordering;
use crate::map::{found_at, lemma_match_unique, match_index, BTreeMap};
use crate::order::{has_match, is_edge, keys_of, sorted_for, total};
use crate::search::SearchResult;

verus! {

broadcast use crate::map::lemma_view;

/// A view of the slot where a key is, or would be, in a map.
pub enum Entry<'a, K, V> {
    Vacant(VacantEntry<'a, K, V>),
    Occupied(OccupiedEntry<'a, K, V>),
}

/// The edge where an absent key belongs, with that key.
pub struct VacantEntry<'a, K, V> {
    pub key: K,
    pub map: &'a mut BTreeMap<K, V>,
    pub edge: usize,
}

/// The slot of an entry present in the map.
pub struct OccupiedEntry<'a, K, V> {
    pub map: &'a mut BTreeMap<K, V>,
    pub idx: usize,
}

/// The error `try_insert` returns when the key is present: the entry that
/// holds it, and the value that was not inserted.
pub struct OccupiedError<'a, K, V> {
    pub entry: OccupiedEntry<'a, K, V>,
    pub value: V,
}

impl<'a, K, V> VacantEntry<'a, K, V> {
    /// The edge lies within the map.
    pub open spec fn wf(&self) -> bool {
        self.edge <= self.map@.len()
    }

    /// The key that would be inserted.
    pub fn key(&self) -> (r: &K)
        ensures
            *r == self.key,
    {
        &self.key
    }

    /// Takes back the key, leaving the map as it was.
    pub fn into_key(self) -> (r: K)
        ensures
            r == self.key,
            final(self.map)@ == old(self.map)@,
    {
        self.key
    }

    /// Inserts the key with `value` at the held edge and returns a reference
    /// to the stored value.
    pub fn insert(self, value: V) -> (r: &'a mut V)
        requires
            self.wf(),
        ensures
            *r == value,
            final(self.map)@ == old(self.map)@.insert(self.edge as int, (self.key, *final(r))),
    {
        let map = self.map;
        map.entries.insert(self.edge, (self.key, value));
        let slot = &mut map.entries[self.edge];
        &mut slot.1
    }
}

impl<'a, K, V> OccupiedEntry<'a, K, V> {
    /// The slot lies within the map.
    pub open spec fn wf(&self) -> bool {
        self.idx < self.map@.len()
    }

    /// The key of the entry.
    pub fn key(&self) -> (r: &K)
        requires
            self.wf(),
        ensures
            *r == old(self.map)@[self.idx as int].0,
    {
        &self.map.entries[self.idx].0
    }

    /// The value of the entry.
    pub fn get(&self) -> (r: &V)
        requires
            self.wf(),
        ensures
            *r == old(self.map)@[self.idx as int].1,
    {
        &self.map.entries[self.idx].1
    }

    /// A mutable reference to the value of the entry.
    pub fn get_mut(&mut self) -> (r: &mut V)
        requires
            old(self).wf(),
        ensures
            final(final(self).map)@ == final(old(self).map)@,
            *r == old(self).map@[old(self).idx as int].1,
            final(self).idx == old(self).idx,
            final(self).map@ == old(self).map@.update(
                old(self).idx as int,
                (old(self).map@[old(self).idx as int].0, *final(r)),
            ),
    {
        let slot = &mut self.map.entries[self.idx];
        &mut slot.1
    }

    /// Converts the entry into a mutable reference to its value, which lives
    /// as long as the map's borrow.
    pub fn into_mut(self) -> (r: &'a mut V)
        requires
            self.wf(),
        ensures
            *r == old(self.map)@[self.idx as int].1,
            final(self.map)@ == old(self.map)@.update(self.idx as int, (old(self.map)@[self.idx as int].0, *final(r))),
    {
        let map = self.map;
        let slot = &mut map.entries[self.idx];
        &mut slot.1
    }

    /// Replaces the value of the entry and returns the old one.
    pub fn insert(&mut self, value: V) -> (r: V)
        requires
            old(self).wf(),
        ensures
            final(final(self).map)@ == final(old(self).map)@,
            r == old(self).map@[old(self).idx as int].1,
            final(self).idx == old(self).idx,
            final(self).map@ == old(self).map@.update(
                old(self).idx as int,
                (old(self).map@[old(self).idx as int].0, value),
            ),
    {
        let (k, v) = self.map.entries.remove(self.idx);
        self.map.entries.insert(self.idx, (k, value));
        proof {
            assert(self.map@ =~= old(self).map@.update(
                old(self).idx as int,
                (old(self).map@[old(self).idx as int].0, value),
            ));
        }
        v
    }

    /// Removes the entry from the map and returns it.
    pub fn remove_entry(self) -> (r: (K, V))
        requires
            self.wf(),
        ensures
            r == old(self.map)@[self.idx as int],
            final(self.map)@ == old(self.map)@.remove(self.idx as int),
    {
        let map = self.map;
        let r = map.entries.remove(self.idx);
        r
    }

    /// Removes the entry from the map and returns its value.
    pub fn remove(self) -> (r: V)
        requires
            self.wf(),
        ensures
            r == old(self.map)@[self.idx as int].1,
            final(self.map)@ == old(self.map)@.remove(self.idx as int),
    {
        self.remove_entry().1
    }
}

impl<'a, K, V> Entry<'a, K, V> {
    /// The key of the entry: the stored one where present, else the one
    /// that would be inserted.
    pub fn key(&self) -> (r: &K)
        requires
            match self {
                Entry::Vacant(v) => v.wf(),
                Entry::Occupied(o) => o.wf(),
            },
        ensures
            match self {
                Entry::Vacant(v) => *r == v.key,
                Entry::Occupied(o) => *r == o.map@[o.idx as int].0,
            },
    {
        match self {
            Entry::Vacant(v) => v.key(),
            Entry::Occupied(o) => o.key(),
        }
    }

    /// Inserts `default` if the entry is vacant, and returns a mutable
    /// reference to the value in the entry.
    pub fn or_insert(self, default: V) -> (r: &'a mut V)
        requires
            match self {
                Entry::Vacant(v) => v.wf(),
                Entry::Occupied(o) => o.wf(),
            },
        ensures
            match self {
                Entry::Vacant(v) => {
                    &&& *r == default
                    &&& final(v.map)@ == v.map@.insert(v.edge as int, (v.key, *final(r)))
                },
                Entry::Occupied(o) => {
                    &&& *r == o.map@[o.idx as int].1
                    &&& final(o.map)@ == o.map@.update(o.idx as int, (o.map@[o.idx as int].0, *final(r)))
                },
            },
    {
        match self {
            Entry::Vacant(v) => v.insert(default),
            Entry::Occupied(o) => o.into_mut(),
        }
    }
}

impl<K, V> BTreeMap<K, V> {
    /// Gets the entry for `key`, which `comp` probes for, for in-place
    /// manipulation.
    pub fn entry<C: Fn(&K) -> Ordering>(&mut self, key: K, comp: C) -> (r: Entry<'_, K, V>)
        requires
            total(comp),
        ensures
            match r {
                Entry::Vacant(v) => {
                    &&& v.key == key
                    &&& v.map@ == old(self)@
                    &&& final(v.map)@ == final(self)@
                    &&& v.wf()
                    &&& forall|f: spec_fn(K) -> Ordering| #[trigger] sorted_for(comp, f, keys_of(old(self)@)) ==> {
                        &&& is_edge(f, keys_of(old(self)@), 1, v.edge as int)
                        &&& !has_match(f, keys_of(old(self)@))
                    }
                },
                Entry::Occupied(o) => {
                    &&& o.map@ == old(self)@
                    &&& final(o.map)@ == final(self)@
                    &&& o.wf()
                    &&& forall|f: spec_fn(K) -> Ordering| #[trigger] sorted_for(comp, f, keys_of(old(self)@)) ==> found_at(f, old(self)@, o.idx as int)
                },
            },
    {
        match self.find(&comp) {
            SearchResult::Found(idx) => Entry::Occupied(OccupiedEntry { map: self, idx }),
            SearchResult::GoDown(edge) => Entry::Vacant(VacantEntry { key, map: self, edge }),
        }
    }

    /// The entry holding the first key, if any.
    pub fn first_entry(&mut self) -> (r: Option<OccupiedEntry<'_, K, V>>)
        ensures
            match r {
                Some(e) => {
                    &&& e.idx == 0
                    &&& e.map@ == old(self)@
                    &&& final(e.map)@ == final(self)@
                    &&& e.wf()
                },
                None => old(self)@.len() == 0 && final(self)@ == old(self)@,
            },
    {
        if self.entries.len() == 0 {
            None
        } else {
            Some(OccupiedEntry { map: self, idx: 0 })
        }
    }

    /// The entry holding the last key, if any.
    pub fn last_entry(&mut self) -> (r: Option<OccupiedEntry<'_, K, V>>)
        ensures
            match r {
                Some(e) => {
                    &&& e.idx == old(self)@.len() - 1
                    &&& e.map@ == old(self)@
                    &&& final(e.map)@ == final(self)@
                    &&& e.wf()
                },
                None => old(self)@.len() == 0 && final(self)@ == old(self)@,
            },
    {
        let n = self.entries.len();
        if n == 0 {
            None
        } else {
            Some(OccupiedEntry { map: self, idx: n - 1 })
        }
    }

    /// Inserts `(key, value)` where `comp` places it when the key is absent,
    /// and returns a mutable reference to the stored value; where the key is
    /// present, returns the occupied entry and the value, changing nothing.
    pub fn try_insert<C: Fn(&K) -> Ordering>(&mut self, key: K, value: V, comp: C) -> (r: Result<
        &mut V,
        OccupiedError<'_, K, V>,
    >)
        requires
            total(comp),
        ensures
            match r {
                Ok(v) => {
                    &&& *v == value
                    &&& exists|p: int|
                        0 <= p <= old(self)@.len() && final(self)@ == old(self)@.insert(p, (key, *final(v)))
                        && (forall|f: spec_fn(K) -> Ordering| #[trigger] sorted_for(comp, f, keys_of(old(self)@)) ==> is_edge(f, keys_of(old(self)@), 1, p))
                    &&& forall|f: spec_fn(K) -> Ordering| #[trigger] sorted_for(comp, f, keys_of(old(self)@)) ==> !has_match(f, keys_of(old(self)@))
                },
                Err(e) => {
                    &&& e.value == value
                    &&& e.entry.map@ == old(self)@
                    &&& final(e.entry.map)@ == final(self)@
                    &&& e.entry.wf()
                    &&& forall|f: spec_fn(K) -> Ordering| #[trigger] sorted_for(comp, f, keys_of(old(self)@)) ==> found_at(f, old(self)@, e.entry.idx as int)
                },
            },
    {
        match self.entry(key, comp) {
            Entry::Occupied(entry) => Err(OccupiedError { entry, value }),
            Entry::Vacant(entry) => Ok(entry.insert(value)),
        }
    }

    /// Returns a mutable reference to the value of the entry that `comp`
    /// probes for.
    pub fn get_mut<C: Fn(&K) -> Ordering>(&mut self, comp: C) -> (r: Option<&mut V>)
        requires
            total(comp),
        ensures
            final(self)@.len() == old(self)@.len(),
            forall|f: spec_fn(K) -> Ordering| #[trigger] sorted_for(comp, f, keys_of(old(self)@)) ==> match r {
                Some(v) => {
                    let i = match_index(f, old(self)@);
                    &&& found_at(f, old(self)@, i)
                    &&& *v == old(self)@[i].1
                    &&& final(self)@ == old(self)@.update(i, (old(self)@[i].0, *final(v)))
                },
                None => {
                    &&& final(self)@ == old(self)@
                    &&& !has_match(f, keys_of(old(self)@))
                },
            },
    {
        match self.find(&comp) {
            SearchResult::Found(idx) => {
                proof {
                    assert forall|f: spec_fn(K) -> Ordering| #[trigger] sorted_for(comp, f, keys_of(old(self)@)) implies match_index(
                        f,
                        old(self)@,
                    ) == idx as int by {
                        lemma_match_unique(f, old(self)@, idx as int);
                    }
                }
                let slot = &mut self.entries[idx];
                Some(&mut slot.1)
            },
            SearchResult::GoDown(_) => None,
        }
    }
}

} // verus!
