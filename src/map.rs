//! The ordered map: its model, lookups and single-key updates.
use vstd::prelude::*;
use std::cmp::Ordering;
use crate::order::{has_match, is_edge, keys_of, probe_sorted, sorted_for, total};
use crate::search::{NodeRef, SearchResult};

verus! {

/// An ordered map whose entries are kept in ascending key order. The order is
/// not stored: every operation that needs it takes a probe (see `order`).
#[derive(Clone)]
pub struct BTreeMap<K, V> {
    pub(crate) entries: Vec<(K, V)>,
}

impl<K, V> Default for BTreeMap<K, V> {
    /// An empty map.
    fn default() -> (r: Self)
        ensures
            r@ == Seq::<(K, V)>::empty(),
    {
        BTreeMap::new()
    }
}

impl<K, V> View for BTreeMap<K, V> {
    type V = Seq<(K, V)>;

    /// The entries of the map, in ascending key order.
    closed spec fn view(&self) -> Seq<(K, V)> {
        self.entries@
    }
}

/// The entry at index `i` of `s` is the one whose key `f` answers `Equal`.
pub open spec fn found_at<K, V>(f: spec_fn(K) -> Ordering, s: Seq<(K, V)>, i: int) -> bool {
    0 <= i < s.len() && f(keys_of(s)[i]) == Ordering::Equal
}

/// The index of the entry whose key `f` answers `Equal`.
pub open spec fn match_index<K, V>(f: spec_fn(K) -> Ordering, s: Seq<(K, V)>) -> int {
    choose|i: int| found_at(f, s, i)
}

/// Where the keys are sorted for `f`, at most one entry answers `Equal`.
pub proof fn lemma_match_unique<K, V>(f: spec_fn(K) -> Ordering, s: Seq<(K, V)>, i: int)
    requires
        probe_sorted(f, keys_of(s)),
        found_at(f, s, i),
    ensures
        match_index(f, s) == i,
{
    let j = match_index(f, s);
    assert(found_at(f, s, j));
    if j < i {
        assert(!(f(keys_of(s)[j]) == Ordering::Equal && f(keys_of(s)[i]) == Ordering::Equal));
    } else if i < j {
        assert(!(f(keys_of(s)[i]) == Ordering::Equal && f(keys_of(s)[j]) == Ordering::Equal));
    }
}

/// `t` is `s` after inserting `(k, v)` where `f` places `k`, and `prev` is
/// the value that this replaced. A key already present keeps its place and
/// its stored key; only the value changes.
pub open spec fn inserted<K, V>(
    f: spec_fn(K) -> Ordering,
    s: Seq<(K, V)>,
    k: K,
    v: V,
    t: Seq<(K, V)>,
    prev: Option<V>,
) -> bool {
    match prev {
        Some(pv) => exists|i: int|
            #[trigger] found_at(f, s, i) && pv == s[i].1 && t == s.update(i, (s[i].0, v)),
        None => !has_match(f, keys_of(s)) && exists|p: int|
            #[trigger] is_edge(f, keys_of(s), 1, p) && t == s.insert(p, (k, v)),
    }
}

/// `t` is `s` without the entry whose key `f` answers `Equal`, and `out` is
/// that entry; with no such entry, `t` is `s` and `out` is `None`.
pub open spec fn removed<K, V>(f: spec_fn(K) -> Ordering, s: Seq<(K, V)>, t: Seq<(K, V)>, out: Option<(K, V)>) -> bool {
    match out {
        Some(e) => exists|i: int| #[trigger] found_at(f, s, i) && e == s[i] && t == s.remove(i),
        None => !has_match(f, keys_of(s)) && t == s,
    }
}

/// The model of a map is its entry vector.
pub(crate) broadcast proof fn lemma_view<K, V>(m: BTreeMap<K, V>)
    ensures
        #[trigger] m@ == m.entries@,
{
}

impl<K, V> BTreeMap<K, V> {
    /// Makes a new, empty map.
    pub fn new() -> (r: Self)
        ensures
            r@ == Seq::<(K, V)>::empty(),
    {
        BTreeMap { entries: Vec::new() }
    }

    /// The number of entries in the map.
    pub fn len(&self) -> (r: usize)
        ensures
            r == self@.len(),
    {
        self.entries.len()
    }

    /// Whether the map holds no entry.
    pub fn is_empty(&self) -> (r: bool)
        ensures
            r == (self@.len() == 0),
    {
        self.entries.len() == 0
    }

    /// Removes every entry.
    pub fn clear(&mut self)
        ensures
            final(self)@ == Seq::<(K, V)>::empty(),
    {
        self.entries = Vec::new();
    }

    /// Looks up the entry that `comp` probes for; its index, if any.
    pub(crate) fn find<C: Fn(&K) -> Ordering>(&self, comp: &C) -> (r: SearchResult)
        requires
            total(*comp),
        ensures
            match r {
                SearchResult::Found(i) => i < self@.len(),
                SearchResult::GoDown(i) => i <= self@.len(),
            },
            forall|f: spec_fn(K) -> Ordering| #[trigger] sorted_for(*comp, f, keys_of(self@)) ==> match r {
                SearchResult::Found(i) => found_at(f, self@, i as int),
                SearchResult::GoDown(i) => {
                    &&& is_edge(f, keys_of(self@), 1, i as int)
                    &&& !has_match(f, keys_of(self@))
                },
            },
    {
        let node = NodeRef { entries: &self.entries };
        let r = node.search_node(comp);
        proof {
            assert(node.keys() == keys_of(self@));
        }
        r
    }

    /// Returns the value of the entry that `comp` probes for.
    pub fn get<C: Fn(&K) -> Ordering>(&self, comp: C) -> (r: Option<&V>)
        requires
            total(comp),
        ensures
            forall|f: spec_fn(K) -> Ordering| #[trigger] sorted_for(comp, f, keys_of(self@)) ==> match r {
                Some(v) => exists|i: int| #[trigger] found_at(f, self@, i) && *v == self@[i].1,
                None => !has_match(f, keys_of(self@)),
            },
    {
        match self.find(&comp) {
            SearchResult::Found(i) => Some(&self.entries[i].1),
            SearchResult::GoDown(_) => None,
        }
    }

    /// Returns the key and value of the entry that `comp` probes for.
    pub fn get_key_value<C: Fn(&K) -> Ordering>(&self, comp: C) -> (r: Option<(&K, &V)>)
        requires
            total(comp),
        ensures
            forall|f: spec_fn(K) -> Ordering| #[trigger] sorted_for(comp, f, keys_of(self@)) ==> match r {
                Some((k, v)) => exists|i: int|
                    #[trigger] found_at(f, self@, i) && *k == self@[i].0 && *v == self@[i].1,
                None => !has_match(f, keys_of(self@)),
            },
    {
        match self.find(&comp) {
            SearchResult::Found(i) => {
                let e = &self.entries[i];
                Some((&e.0, &e.1))
            },
            SearchResult::GoDown(_) => None,
        }
    }

    /// Whether the map holds the key that `comp` probes for.
    pub fn contains_key<C: Fn(&K) -> Ordering>(&self, comp: C) -> (r: bool)
        requires
            total(comp),
        ensures
            forall|f: spec_fn(K) -> Ordering| #[trigger] sorted_for(comp, f, keys_of(self@)) ==> r == has_match(f, keys_of(self@)),
    {
        match self.find(&comp) {
            SearchResult::Found(_) => true,
            SearchResult::GoDown(_) => false,
        }
    }

    /// Inserts `(key, value)` where `comp` (which probes for `key`) places it.
    /// Where the key is present, only its value is replaced, and the old value
    /// is returned.
    pub fn insert<C: Fn(&K) -> Ordering>(&mut self, key: K, value: V, comp: C) -> (r: Option<V>)
        requires
            total(comp),
        ensures
            final(self)@.len() == old(self)@.len() + (if r is Some { 0int } else { 1int }),
            forall|f: spec_fn(K) -> Ordering| #[trigger] sorted_for(comp, f, keys_of(old(self)@)) ==> inserted(f, old(self)@, key, value, final(self)@, r),
    {
        match self.find(&comp) {
            SearchResult::Found(i) => {
                let (k0, v0) = self.entries.remove(i);
                self.entries.insert(i, (k0, value));
                proof {
                    assert(self@ =~= old(self)@.update(i as int, (old(self)@[i as int].0, value)));
                }
                Some(v0)
            },
            SearchResult::GoDown(i) => {
                self.entries.insert(i, (key, value));
                None
            },
        }
    }

    /// Removes the entry that `comp` probes for and returns its value.
    pub fn remove<C: Fn(&K) -> Ordering>(&mut self, comp: C) -> (r: Option<V>)
        requires
            total(comp),
        ensures
            final(self)@.len() == old(self)@.len() - (if r is Some { 1int } else { 0int }),
            forall|f: spec_fn(K) -> Ordering| #[trigger] sorted_for(comp, f, keys_of(old(self)@)) ==> match r {
                Some(v) => {
                    let i = match_index(f, old(self)@);
                    &&& found_at(f, old(self)@, i)
                    &&& v == old(self)@[i].1
                    &&& final(self)@ == old(self)@.remove(i)
                },
                None => !has_match(f, keys_of(old(self)@)) && final(self)@ == old(self)@,
            },
    {
        let ghost comp_g = comp;
        match self.remove_entry(comp) {
            Some((k, v)) => {
                proof {
                    assert forall|f: spec_fn(K) -> Ordering| #[trigger] sorted_for(comp_g, f, keys_of(old(self)@)) implies {
                        let i = match_index(f, old(self)@);
                        &&& found_at(f, old(self)@, i)
                        &&& v == old(self)@[i].1
                        &&& self@ == old(self)@.remove(i)
                    } by {
                        let i = choose|i: int|
                            #[trigger] found_at(f, old(self)@, i) && (k, v) == old(self)@[i] && self@ == old(
                                self,
                            )@.remove(i);
                        lemma_match_unique(f, old(self)@, i);
                    }
                }
                Some(v)
            },
            None => None,
        }
    }

    /// Removes the entry that `comp` probes for and returns it.
    pub fn remove_entry<C: Fn(&K) -> Ordering>(&mut self, comp: C) -> (r: Option<(K, V)>)
        requires
            total(comp),
        ensures
            final(self)@.len() == old(self)@.len() - (if r is Some { 1int } else { 0int }),
            forall|f: spec_fn(K) -> Ordering| #[trigger] sorted_for(comp, f, keys_of(old(self)@)) ==> removed(f, old(self)@, final(self)@, r),
    {
        match self.find(&comp) {
            SearchResult::Found(i) => Some(self.entries.remove(i)),
            SearchResult::GoDown(_) => None,
        }
    }

    /// The first entry, if any.
    pub fn first_key_value(&self) -> (r: Option<(&K, &V)>)
        ensures
            match r {
                Some((k, v)) => self@.len() > 0 && (*k, *v) == self@[0],
                None => self@.len() == 0,
            },
    {
        if self.entries.len() == 0 {
            None
        } else {
            let e = &self.entries[0];
            Some((&e.0, &e.1))
        }
    }

    /// The last entry, if any.
    pub fn last_key_value(&self) -> (r: Option<(&K, &V)>)
        ensures
            match r {
                Some((k, v)) => self@.len() > 0 && (*k, *v) == self@.last(),
                None => self@.len() == 0,
            },
    {
        let n = self.entries.len();
        if n == 0 {
            None
        } else {
            let e = &self.entries[n - 1];
            Some((&e.0, &e.1))
        }
    }

    /// Removes and returns the first entry, if any.
    pub fn pop_first(&mut self) -> (r: Option<(K, V)>)
        ensures
            match r {
                Some(e) => old(self)@.len() > 0 && e == old(self)@[0] && final(self)@ == old(self)@.drop_first(),
                None => old(self)@.len() == 0 && final(self)@ == old(self)@,
            },
    {
        if self.entries.len() == 0 {
            None
        } else {
            let e = self.entries.remove(0);
            proof {
                assert(self@ =~= old(self)@.drop_first());
            }
            Some(e)
        }
    }

    /// Removes and returns the last entry, if any.
    pub fn pop_last(&mut self) -> (r: Option<(K, V)>)
        ensures
            match r {
                Some(e) => old(self)@.len() > 0 && e == old(self)@.last() && final(self)@ == old(self)@.drop_last(),
                None => old(self)@.len() == 0 && final(self)@ == old(self)@,
            },
    {
        self.entries.pop()
    }
}

impl<K> BTreeMap<K, ()> {
    /// In a map used as a set: removes the key that `comp` probes for and
    /// returns the stored key.
    pub fn take<C: Fn(&K) -> Ordering>(&mut self, comp: C) -> (r: Option<K>)
        requires
            total(comp),
        ensures
            final(self)@.len() == old(self)@.len() - (if r is Some { 1int } else { 0int }),
            forall|f: spec_fn(K) -> Ordering| #[trigger] sorted_for(comp, f, keys_of(old(self)@)) ==> match r {
                Some(k) => {
                    let i = match_index(f, old(self)@);
                    &&& found_at(f, old(self)@, i)
                    &&& k == old(self)@[i].0
                    &&& final(self)@ == old(self)@.remove(i)
                },
                None => !has_match(f, keys_of(old(self)@)) && final(self)@ == old(self)@,
            },
    {
        match self.find(&comp) {
            SearchResult::Found(i) => {
                proof {
                    assert forall|f: spec_fn(K) -> Ordering| #[trigger] sorted_for(comp, f, keys_of(old(self)@)) implies match_index(
                        f,
                        old(self)@,
                    ) == i as int by {
                        lemma_match_unique(f, old(self)@, i as int);
                    }
                }
                let (k, _) = self.entries.remove(i);
                Some(k)
            },
            SearchResult::GoDown(_) => None,
        }
    }

    /// In a map used as a set: puts `key` in place of the stored key that
    /// `comp` (which probes for `key`) finds, and returns the stored one;
    /// where there is none, inserts `key` where `comp` places it.
    pub fn replace<C: Fn(&K) -> Ordering>(&mut self, key: K, comp: C) -> (r: Option<K>)
        requires
            total(comp),
        ensures
            final(self)@.len() == old(self)@.len() + (if r is Some { 0int } else { 1int }),
            forall|f: spec_fn(K) -> Ordering| #[trigger] sorted_for(comp, f, keys_of(old(self)@)) ==> match r {
                Some(k) => {
                    let i = match_index(f, old(self)@);
                    &&& found_at(f, old(self)@, i)
                    &&& k == old(self)@[i].0
                    &&& final(self)@ == old(self)@.update(i, (key, ()))
                },
                None => {
                    &&& !has_match(f, keys_of(old(self)@))
                    &&& exists|p: int|
                        #[trigger] is_edge(f, keys_of(old(self)@), 1, p) && final(self)@ == old(self)@.insert(p, (key, ()))
                },
            },
    {
        match self.find(&comp) {
            SearchResult::Found(i) => {
                proof {
                    assert forall|f: spec_fn(K) -> Ordering| #[trigger] sorted_for(comp, f, keys_of(old(self)@)) implies match_index(
                        f,
                        old(self)@,
                    ) == i as int by {
                        lemma_match_unique(f, old(self)@, i as int);
                    }
                }
                let (k, u) = self.entries.remove(i);
                self.entries.insert(i, (key, u));
                proof {
                    assert(self@ =~= old(self)@.update(i as int, (key, ())));
                }
                Some(k)
            },
            SearchResult::GoDown(i) => {
                self.entries.insert(i, (key, ()));
                None
            },
        }
    }
}

} // verus!

