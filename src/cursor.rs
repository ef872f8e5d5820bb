//! Cursors: a position on the map's entries, seen as a circle with one
//! extra "ghost" position between the last entry and the first.
use vstd::prelude::*;
use std::cmp::Ordering;
use crate::map::BTreeMap;
use crate::order::{gives, keys_of, sorted_for, total};
use crate::search::{lower_edge, upper_edge, NodeRef, SearchBound};

verus! {

broadcast use crate::map::lemma_view;

/// The position after `pos` on a circle of `len` entries and the ghost
/// position (`None`).
pub open spec fn next_pos(len: int, pos: Option<int>) -> Option<int> {
    match pos {
        None => if len > 0 { Some(0) } else { None },
        Some(i) => if i + 1 < len { Some(i + 1) } else { None },
    }
}

/// The position before `pos` on a circle of `len` entries and the ghost
/// position (`None`).
pub open spec fn prev_pos(len: int, pos: Option<int>) -> Option<int> {
    match pos {
        None => if len > 0 { Some(len - 1) } else { None },
        Some(i) => if i > 0 { Some(i - 1) } else { None },
    }
}

/// A key that `comp` probes for fits between positions `lo` and `hi` of
/// `s`: the entry at `lo` lies below it and the entry at `hi` above it.
pub open spec fn fits_between<K, V, C: Fn(&K) -> Ordering>(
    comp: C,
    s: Seq<(K, V)>,
    lo: Option<int>,
    hi: Option<int>,
) -> bool {
    &&& (lo matches Some(i) ==> forall|o: Ordering| #[trigger] gives(comp, s[i].0, o) ==> o == Ordering::Greater)
    &&& (hi matches Some(j) ==> forall|o: Ordering| #[trigger] gives(comp, s[j].0, o) ==> o == Ordering::Less)
}

/// The entry at `pos` in `s`, if `pos` is not the ghost position.
pub open spec fn entry_at<K, V>(s: Seq<(K, V)>, pos: Option<int>) -> Option<(K, V)> {
    match pos {
        Some(i) => Some(s[i]),
        None => None,
    }
}

/// A position valid in a sequence of `len` entries.
pub open spec fn valid_pos(len: int, pos: Option<int>) -> bool {
    match pos {
        Some(i) => 0 <= i < len,
        None => true,
    }
}

/// The position right after edge `e`: the entry there, or the ghost.
pub open spec fn after_edge(len: int, e: int) -> Option<int> {
    if e < len { Some(e) } else { None }
}

/// The position right before edge `e`: the entry there, or the ghost.
pub open spec fn before_edge(e: int) -> Option<int> {
    if e > 0 { Some(e - 1) } else { None }
}

/// A read-only cursor over a map.
pub struct Cursor<'a, K, V> {
    map: &'a BTreeMap<K, V>,
    current: Option<usize>,
}

impl<'a, K, V> Cursor<'a, K, V> {
    #[verifier::type_invariant]
    spec fn inv(&self) -> bool {
        match self.current {
            Some(i) => i < self.map@.len(),
            None => true,
        }
    }

    /// The entries of the map the cursor moves over.
    pub closed spec fn entries(&self) -> Seq<(K, V)> {
        self.map@
    }

    /// The cursor's position: an entry index, or `None` for the ghost.
    pub closed spec fn pos(&self) -> Option<int> {
        match self.current {
            Some(i) => Some(i as int),
            None => None,
        }
    }

    /// Moves to the next position: from the ghost to the first entry, from
    /// the last entry to the ghost.
    pub fn move_next(&mut self)
        ensures
            final(self).entries() == old(self).entries(),
            final(self).pos() == next_pos(old(self).entries().len() as int, old(self).pos()),
    {
        proof {
            use_type_invariant(&*self);
        }
        let n = self.map.entries.len();
        self.current = match self.current {
            None => if n > 0 { Some(0) } else { None },
            Some(i) => if i + 1 < n { Some(i + 1) } else { None },
        };
    }

    /// Moves to the previous position: from the ghost to the last entry,
    /// from the first entry to the ghost.
    pub fn move_prev(&mut self)
        ensures
            final(self).entries() == old(self).entries(),
            final(self).pos() == prev_pos(old(self).entries().len() as int, old(self).pos()),
    {
        proof {
            use_type_invariant(&*self);
        }
        let n = self.map.entries.len();
        self.current = match self.current {
            None => if n > 0 { Some(n - 1) } else { None },
            Some(i) => if i > 0 { Some(i - 1) } else { None },
        };
    }

    /// The key at the cursor, or `None` at the ghost.
    pub fn key(&self) -> (r: Option<&'a K>)
        ensures
            match entry_at(self.entries(), self.pos()) {
                Some(e) => r == Some(&e.0),
                None => r is None,
            },
    {
        match self.key_value() {
            Some((k, _)) => Some(k),
            None => None,
        }
    }

    /// The value at the cursor, or `None` at the ghost.
    pub fn value(&self) -> (r: Option<&'a V>)
        ensures
            match entry_at(self.entries(), self.pos()) {
                Some(e) => r == Some(&e.1),
                None => r is None,
            },
    {
        match self.key_value() {
            Some((_, v)) => Some(v),
            None => None,
        }
    }

    /// The entry at the cursor, or `None` at the ghost.
    pub fn key_value(&self) -> (r: Option<(&'a K, &'a V)>)
        ensures
            match entry_at(self.entries(), self.pos()) {
                Some(e) => r == Some((&e.0, &e.1)),
                None => r is None,
            },
    {
        proof {
            use_type_invariant(self);
        }
        let map: &'a BTreeMap<K, V> = self.map;
        match self.current {
            Some(i) => {
                let e: &'a (K, V) = &map.entries[i];
                Some((&e.0, &e.1))
            },
            None => None,
        }
    }

    /// The entry at the next position, without moving.
    pub fn peek_next(&self) -> (r: Option<(&'a K, &'a V)>)
        ensures
            match entry_at(self.entries(), next_pos(self.entries().len() as int, self.pos())) {
                Some(e) => r == Some((&e.0, &e.1)),
                None => r is None,
            },
    {
        proof {
            use_type_invariant(self);
        }
        let mut next = Cursor { map: self.map, current: self.current };
        next.move_next();
        next.key_value()
    }

    /// The entry at the previous position, without moving.
    pub fn peek_prev(&self) -> (r: Option<(&'a K, &'a V)>)
        ensures
            match entry_at(self.entries(), prev_pos(self.entries().len() as int, self.pos())) {
                Some(e) => r == Some((&e.0, &e.1)),
                None => r is None,
            },
    {
        proof {
            use_type_invariant(self);
        }
        let mut prev = Cursor { map: self.map, current: self.current };
        prev.move_prev();
        prev.key_value()
    }
}

impl<K, V> BTreeMap<K, V> {
    /// A cursor at the first entry above the lower bound that `comp` probes
    /// with `bound`, or at the ghost if there is none.
    pub fn lower_bound<C: Fn(&K) -> Ordering>(&self, comp: C, bound: SearchBound) -> (r: Cursor<
        '_,
        K,
        V,
    >)
        requires
            total(comp),
        ensures
            r.entries() == self@,
            valid_pos(self@.len() as int, r.pos()),
            forall|f: spec_fn(K) -> Ordering| #[trigger] sorted_for(comp, f, keys_of(self@)) ==> exists|e: int|
                #[trigger] lower_edge(f, keys_of(self@), bound, e) && r.pos() == after_edge(self@.len() as int, e),
    {
        let node = NodeRef { entries: &self.entries };
        proof {
            assert(node.keys() == keys_of(self@));
        }
        let (e, _) = node.find_lower_bound_index(&comp, bound);
        let current = if e < self.entries.len() { Some(e) } else { None };
        Cursor { map: self, current }
    }

    /// A cursor at the last entry below the upper bound that `comp` probes
    /// with `bound`, or at the ghost if there is none.
    pub fn upper_bound<C: Fn(&K) -> Ordering>(&self, comp: C, bound: SearchBound) -> (r: Cursor<
        '_,
        K,
        V,
    >)
        requires
            total(comp),
        ensures
            r.entries() == self@,
            valid_pos(self@.len() as int, r.pos()),
            forall|f: spec_fn(K) -> Ordering| #[trigger] sorted_for(comp, f, keys_of(self@)) ==> exists|e: int|
                #[trigger] upper_edge(f, keys_of(self@), bound, 0, e) && r.pos() == before_edge(e),
    {
        let node = NodeRef { entries: &self.entries };
        proof {
            assert(node.keys() == keys_of(self@));
        }
        let (e, _) = node.find_upper_bound_index(&comp, bound, 0);
        let current = if e > 0 { Some(e - 1) } else { None };
        Cursor { map: self, current }
    }
}

/// A cursor over a map that can also edit it.
pub struct CursorMut<'a, K, V> {
    pub map: &'a mut BTreeMap<K, V>,
    pub current: Option<usize>,
}

impl<'a, K, V> CursorMut<'a, K, V> {
    /// The position lies within the map.
    pub open spec fn wf(&self) -> bool {
        valid_pos(self.map@.len() as int, self.pos())
    }

    /// The entries of the map as the cursor sees them now.
    pub open spec fn entries(&self) -> Seq<(K, V)> {
        self.map@
    }

    /// The cursor's position: an entry index, or `None` for the ghost.
    pub open spec fn pos(&self) -> Option<int> {
        match self.current {
            Some(i) => Some(i as int),
            None => None,
        }
    }

    /// Moves to the next position: from the ghost to the first entry, from
    /// the last entry to the ghost.
    pub fn move_next(&mut self)
        requires
            old(self).wf(),
        ensures
            final(self).wf(),
            final(self).map@ == old(self).map@,
            final(final(self).map)@ == final(old(self).map)@,
            final(self).pos() == next_pos(old(self).map@.len() as int, old(self).pos()),
    {
        let n = self.map.entries.len();
        self.current = match self.current {
            None => if n > 0 { Some(0) } else { None },
            Some(i) => if i + 1 < n { Some(i + 1) } else { None },
        };
    }

    /// Moves to the previous position: from the ghost to the last entry,
    /// from the first entry to the ghost.
    pub fn move_prev(&mut self)
        requires
            old(self).wf(),
        ensures
            final(self).wf(),
            final(self).map@ == old(self).map@,
            final(final(self).map)@ == final(old(self).map)@,
            final(self).pos() == prev_pos(old(self).map@.len() as int, old(self).pos()),
    {
        let n = self.map.entries.len();
        self.current = match self.current {
            None => if n > 0 { Some(n - 1) } else { None },
            Some(i) => if i > 0 { Some(i - 1) } else { None },
        };
    }

    /// The key at the cursor, or `None` at the ghost.
    pub fn key(&self) -> (r: Option<&K>)
        requires
            self.wf(),
        ensures
            match entry_at(self.entries(), self.pos()) {
                Some(e) => r == Some(&e.0),
                None => r is None,
            },
    {
        match self.current {
            Some(i) => Some(&self.map.entries[i].0),
            None => None,
        }
    }

    /// The value at the cursor, or `None` at the ghost.
    pub fn value(&self) -> (r: Option<&V>)
        requires
            self.wf(),
        ensures
            match entry_at(self.entries(), self.pos()) {
                Some(e) => r == Some(&e.1),
                None => r is None,
            },
    {
        match self.current {
            Some(i) => Some(&self.map.entries[i].1),
            None => None,
        }
    }

    /// The entry at the cursor, or `None` at the ghost.
    pub fn key_value(&self) -> (r: Option<(&K, &V)>)
        requires
            self.wf(),
        ensures
            match entry_at(self.entries(), self.pos()) {
                Some(e) => r == Some((&e.0, &e.1)),
                None => r is None,
            },
    {
        match self.current {
            Some(i) => {
                let e = &self.map.entries[i];
                Some((&e.0, &e.1))
            },
            None => None,
        }
    }

    /// A mutable reference to the value at the cursor, or `None` at the
    /// ghost.
    pub fn value_mut(&mut self) -> (r: Option<&mut V>)
        requires
            old(self).wf(),
        ensures
            final(final(self).map)@ == final(old(self).map)@,
            final(self).current == old(self).current,
            match old(self).current {
                Some(i) => r is Some && *r->0 == old(self).map@[i as int].1
                    && final(self).map@ == old(self).map@.update(i as int, (old(self).map@[i as int].0, *final(r->0))),
                None => r is None && final(self).map@ == old(self).map@,
            },
    {
        match self.current {
            Some(i) => {
                let slot = &mut self.map.entries[i];
                Some(&mut slot.1)
            },
            None => None,
        }
    }

    /// A mutable reference to the key at the cursor, or `None` at the ghost.
    /// A new key must keep the map's keys in ascending order; nothing checks
    /// that.
    pub fn key_mut_unchecked(&mut self) -> (r: Option<&mut K>)
        requires
            old(self).wf(),
        ensures
            final(final(self).map)@ == final(old(self).map)@,
            final(self).current == old(self).current,
            match old(self).current {
                Some(i) => r is Some && *r->0 == old(self).map@[i as int].0
                    && final(self).map@ == old(self).map@.update(i as int, (*final(r->0), old(self).map@[i as int].1)),
                None => r is None && final(self).map@ == old(self).map@,
            },
    {
        match self.current {
            Some(i) => {
                let slot = &mut self.map.entries[i];
                Some(&mut slot.0)
            },
            None => None,
        }
    }

    /// A read-only cursor at the same position.
    pub fn as_cursor(&self) -> (r: Cursor<'_, K, V>)
        requires
            self.wf(),
        ensures
            r.entries() == self.entries(),
            r.pos() == self.pos(),
    {
        Cursor { map: &*self.map, current: self.current }
    }

    /// Inserts an entry right after the cursor (at the front, from the
    /// ghost). The cursor stays on its entry. The key must keep the map's
    /// keys in ascending order; nothing checks that.
    pub fn insert_after_unchecked(&mut self, key: K, value: V)
        requires
            old(self).wf(),
        ensures
            final(self).wf(),
            final(self).current == old(self).current,
            final(final(self).map)@ == final(old(self).map)@,
            final(self).map@ == old(self).map@.insert(
                match old(self).current { Some(i) => i + 1, None => 0int },
                (key, value),
            ),
    {
        let _n = self.map.entries.len();
        let p = match self.current {
            Some(i) => i + 1,
            None => 0,
        };
        self.map.entries.insert(p, (key, value));
    }

    /// Inserts an entry right before the cursor (at the back, from the
    /// ghost). The cursor stays on its entry. The key must keep the map's
    /// keys in ascending order; nothing checks that.
    pub fn insert_before_unchecked(&mut self, key: K, value: V)
        requires
            old(self).wf(),
        ensures
            final(final(self).map)@ == final(old(self).map)@,
            final(self).wf(),
            final(self).pos() == match old(self).current { Some(i) => Some(i + 1), None => None::<int> },
            final(self).map@ == old(self).map@.insert(
                match old(self).current { Some(i) => i as int, None => old(self).map@.len() as int },
                (key, value),
            ),
    {
        let n = self.map.entries.len();
        match self.current {
            Some(i) => {
                self.map.entries.insert(i, (key, value));
                self.current = Some(i + 1);
            },
            None => {
                self.map.entries.insert(n, (key, value));
            },
        }
    }

    /// Removes the entry at the cursor and moves to the entry after it (to
    /// the ghost if it was the last). At the ghost, does nothing.
    pub fn remove_current(&mut self) -> (r: Option<(K, V)>)
        requires
            old(self).wf(),
        ensures
            final(final(self).map)@ == final(old(self).map)@,
            final(self).wf(),
            r == entry_at(old(self).map@, old(self).pos()),
            match old(self).current {
                Some(i) => {
                    &&& final(self).map@ == old(self).map@.remove(i as int)
                    &&& final(self).pos() == after_edge(old(self).map@.len() - 1, i as int)
                },
                None => final(self).map@ == old(self).map@ && final(self).current is None,
            },
    {
        match self.current {
            Some(i) => {
                let e = self.map.entries.remove(i);
                self.current = if i < self.map.entries.len() { Some(i) } else { None };
                Some(e)
            },
            None => None,
        }
    }

    /// Removes the entry at the cursor and moves to the entry before it (to
    /// the ghost if it was the first). At the ghost, does nothing.
    pub fn remove_current_and_move_back(&mut self) -> (r: Option<(K, V)>)
        requires
            old(self).wf(),
        ensures
            final(final(self).map)@ == final(old(self).map)@,
            final(self).wf(),
            r == entry_at(old(self).map@, old(self).pos()),
            match old(self).current {
                Some(i) => {
                    &&& final(self).map@ == old(self).map@.remove(i as int)
                    &&& final(self).pos() == before_edge(i as int)
                },
                None => final(self).map@ == old(self).map@ && final(self).current is None,
            },
    {
        match self.current {
            Some(i) => {
                let e = self.map.entries.remove(i);
                self.current = if i > 0 { Some(i - 1) } else { None };
                Some(e)
            },
            None => None,
        }
    }

    /// The entry at the cursor, with a mutable reference to its value, or
    /// `None` at the ghost.
    pub fn key_value_mut(&mut self) -> (r: Option<(&K, &mut V)>)
        requires
            old(self).wf(),
        ensures
            final(final(self).map)@ == final(old(self).map)@,
            final(self).current == old(self).current,
            match old(self).current {
                Some(i) => match r {
                    Some((k, v)) => *k == old(self).map@[i as int].0 && *v == old(self).map@[i as int].1
                        && final(self).map@ == old(self).map@.update(i as int, (old(self).map@[i as int].0, *final(v))),
                    None => false,
                },
                None => r is None && final(self).map@ == old(self).map@,
            },
    {
        match self.current {
            Some(i) => {
                let slot = &mut self.map.entries[i];
                let (k, v) = slot;
                Some((&*k, v))
            },
            None => None,
        }
    }

    /// The entry at position `pos`, with a mutable reference to its value.
    fn slot_at(&mut self, pos: Option<usize>) -> (r: Option<(&K, &mut V)>)
        requires
            valid_pos(old(self).map@.len() as int, match pos { Some(i) => Some(i as int), None => None::<int> }),
        ensures
            final(final(self).map)@ == final(old(self).map)@,
            final(self).current == old(self).current,
            match pos {
                Some(i) => match r {
                    Some((k, v)) => *k == old(self).map@[i as int].0 && *v == old(self).map@[i as int].1
                        && final(self).map@ == old(self).map@.update(i as int, (old(self).map@[i as int].0, *final(v))),
                    None => false,
                },
                None => r is None && final(self).map@ == old(self).map@,
            },
    {
        match pos {
            Some(i) => {
                let slot = &mut self.map.entries[i];
                let (k, v) = slot;
                Some((&*k, v))
            },
            None => None,
        }
    }

    /// The entry at the next position, with a mutable reference to its
    /// value, without moving.
    pub fn peek_next(&mut self) -> (r: Option<(&K, &mut V)>)
        requires
            old(self).wf(),
        ensures
            final(final(self).map)@ == final(old(self).map)@,
            final(self).current == old(self).current,
            match next_pos(old(self).map@.len() as int, old(self).pos()) {
                Some(i) => match r {
                    Some((k, v)) => *k == old(self).map@[i].0 && *v == old(self).map@[i].1
                        && final(self).map@ == old(self).map@.update(i, (old(self).map@[i].0, *final(v))),
                    None => false,
                },
                None => r is None && final(self).map@ == old(self).map@,
            },
    {
        let n = self.map.entries.len();
        let pos = match self.current {
            None => if n > 0 { Some(0) } else { None },
            Some(i) => if i + 1 < n { Some(i + 1) } else { None },
        };
        self.slot_at(pos)
    }

    /// The entry at the previous position, with a mutable reference to its
    /// value, without moving.
    pub fn peek_prev(&mut self) -> (r: Option<(&K, &mut V)>)
        requires
            old(self).wf(),
        ensures
            final(final(self).map)@ == final(old(self).map)@,
            final(self).current == old(self).current,
            match prev_pos(old(self).map@.len() as int, old(self).pos()) {
                Some(i) => match r {
                    Some((k, v)) => *k == old(self).map@[i].0 && *v == old(self).map@[i].1
                        && final(self).map@ == old(self).map@.update(i, (old(self).map@[i].0, *final(v))),
                    None => false,
                },
                None => r is None && final(self).map@ == old(self).map@,
            },
    {
        let n = self.map.entries.len();
        let pos = match self.current {
            None => if n > 0 { Some(n - 1) } else { None },
            Some(i) => if i > 0 { Some(i - 1) } else { None },
        };
        self.slot_at(pos)
    }

    /// Inserts an entry right after the cursor (at the front, from the
    /// ghost); the cursor stays on its entry. `comp` probes for `key`: the
    /// current entry must lie below it and the next one above it.
    pub fn insert_after<C: Fn(&K) -> Ordering>(&mut self, key: K, value: V, comp: C)
        requires
            old(self).wf(),
            fits_between(
                comp,
                old(self).map@,
                old(self).pos(),
                next_pos(old(self).map@.len() as int, old(self).pos()),
            ),
        ensures
            final(final(self).map)@ == final(old(self).map)@,
            final(self).wf(),
            final(self).current == old(self).current,
            final(self).map@ == old(self).map@.insert(
                match old(self).current { Some(i) => i + 1, None => 0int },
                (key, value),
            ),
    {
        self.insert_after_unchecked(key, value);
    }

    /// Inserts an entry right before the cursor (at the back, from the
    /// ghost); the cursor stays on its entry. `comp` probes for `key`: the
    /// previous entry must lie below it and the current one above it.
    pub fn insert_before<C: Fn(&K) -> Ordering>(&mut self, key: K, value: V, comp: C)
        requires
            old(self).wf(),
            fits_between(
                comp,
                old(self).map@,
                prev_pos(old(self).map@.len() as int, old(self).pos()),
                old(self).pos(),
            ),
        ensures
            final(final(self).map)@ == final(old(self).map)@,
            final(self).wf(),
            final(self).pos() == match old(self).current { Some(i) => Some(i + 1), None => None::<int> },
            final(self).map@ == old(self).map@.insert(
                match old(self).current { Some(i) => i as int, None => old(self).map@.len() as int },
                (key, value),
            ),
    {
        self.insert_before_unchecked(key, value);
    }
}

impl<K, V> BTreeMap<K, V> {
    /// An editing cursor at the first entry above the lower bound that
    /// `comp` probes with `bound`, or at the ghost if there is none.
    pub fn lower_bound_mut<C: Fn(&K) -> Ordering>(&mut self, comp: C, bound: SearchBound) -> (r:
        CursorMut<'_, K, V>)
        requires
            total(comp),
        ensures
            r.map@ == old(self)@,
            final(r.map)@ == final(self)@,
            r.wf(),
            forall|f: spec_fn(K) -> Ordering| #[trigger] sorted_for(comp, f, keys_of(old(self)@)) ==> exists|e: int|
                #[trigger] lower_edge(f, keys_of(old(self)@), bound, e) && r.pos() == after_edge(old(self)@.len() as int, e),
    {
        let node = NodeRef { entries: &self.entries };
        proof {
            assert(node.keys() == keys_of(self@));
        }
        let (e, _) = node.find_lower_bound_index(&comp, bound);
        let current = if e < self.entries.len() { Some(e) } else { None };
        CursorMut { map: self, current }
    }

    /// An editing cursor at the last entry below the upper bound that
    /// `comp` probes with `bound`, or at the ghost if there is none.
    pub fn upper_bound_mut<C: Fn(&K) -> Ordering>(&mut self, comp: C, bound: SearchBound) -> (r:
        CursorMut<'_, K, V>)
        requires
            total(comp),
        ensures
            r.map@ == old(self)@,
            final(r.map)@ == final(self)@,
            r.wf(),
            forall|f: spec_fn(K) -> Ordering| #[trigger] sorted_for(comp, f, keys_of(old(self)@)) ==> exists|e: int|
                #[trigger] upper_edge(f, keys_of(old(self)@), bound, 0, e) && r.pos() == before_edge(e),
    {
        let node = NodeRef { entries: &self.entries };
        proof {
            assert(node.keys() == keys_of(self@));
        }
        let (e, _) = node.find_upper_bound_index(&comp, bound, 0);
        let current = if e > 0 { Some(e - 1) } else { None };
        CursorMut { map: self, current }
    }
}

} // verus!
