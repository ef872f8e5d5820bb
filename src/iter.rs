//! Double-ended traversal of the map's entries: in full, by key, by value,
//! over a sub-range, and by value out of an owned map.
use vstd::prelude::*;
use std::cmp::Ordering;
use std::collections::VecDeque;
use crate::map::BTreeMap;
use crate::order::{keys_of, sorted_for, total, values_of};
use crate::search::{lower_edge, upper_edge, NodeRef, SearchBound};

verus! {

broadcast use crate::map::lemma_view;

/// A traversal of a run of the map's entries, from both ends.
pub struct Iter<'a, K, V> {
    entries: &'a Vec<(K, V)>,
    front: usize,
    back: usize,
}

impl<'a, K, V> Iter<'a, K, V> {
    #[verifier::type_invariant]
    spec fn inv(&self) -> bool {
        self.front <= self.back <= self.entries@.len()
    }

    /// The entries not yet handed out, in order.
    pub closed spec fn remaining(&self) -> Seq<(K, V)> {
        self.entries@.subrange(self.front as int, self.back as int)
    }

    /// Hands out the first entry not yet handed out.
    pub fn next(&mut self) -> (r: Option<(&'a K, &'a V)>)
        ensures
            match r {
                Some((k, v)) => {
                    &&& old(self).remaining().len() > 0
                    &&& (*k, *v) == old(self).remaining()[0]
                    &&& final(self).remaining() == old(self).remaining().drop_first()
                },
                None => old(self).remaining().len() == 0 && final(self).remaining() == old(self).remaining(),
            },
    {
        proof {
            use_type_invariant(&*self);
        }
        if self.front == self.back {
            None
        } else {
            let entries: &'a Vec<(K, V)> = self.entries;
            let e: &'a (K, V) = &entries[self.front];
            self.front = self.front + 1;
            proof {
                assert(self.remaining() =~= old(self).remaining().drop_first());
            }
            Some((&e.0, &e.1))
        }
    }

    /// Hands out the last entry not yet handed out.
    pub fn next_back(&mut self) -> (r: Option<(&'a K, &'a V)>)
        ensures
            match r {
                Some((k, v)) => {
                    &&& old(self).remaining().len() > 0
                    &&& (*k, *v) == old(self).remaining().last()
                    &&& final(self).remaining() == old(self).remaining().drop_last()
                },
                None => old(self).remaining().len() == 0 && final(self).remaining() == old(self).remaining(),
            },
    {
        proof {
            use_type_invariant(&*self);
        }
        if self.front == self.back {
            None
        } else {
            let entries: &'a Vec<(K, V)> = self.entries;
            self.back = self.back - 1;
            let e: &'a (K, V) = &entries[self.back];
            proof {
                assert(self.remaining() =~= old(self).remaining().drop_last());
            }
            Some((&e.0, &e.1))
        }
    }

    /// The number of entries not yet handed out.
    pub fn len(&self) -> (r: usize)
        ensures
            r == self.remaining().len(),
    {
        proof {
            use_type_invariant(self);
        }
        self.back - self.front
    }
}

/// A traversal of the map's keys.
pub struct Keys<'a, K, V> {
    inner: Iter<'a, K, V>,
}

impl<'a, K, V> Keys<'a, K, V> {
    /// The keys not yet handed out, in order.
    pub closed spec fn remaining(&self) -> Seq<K> {
        keys_of(self.inner.remaining())
    }

    /// Hands out the first key not yet handed out.
    pub fn next(&mut self) -> (r: Option<&'a K>)
        ensures
            match r {
                Some(k) => {
                    &&& old(self).remaining().len() > 0
                    &&& *k == old(self).remaining()[0]
                    &&& final(self).remaining() == old(self).remaining().drop_first()
                },
                None => old(self).remaining().len() == 0 && final(self).remaining() == old(self).remaining(),
            },
    {
        let r = self.inner.next();
        proof {
            assert(self.remaining() =~= old(self).remaining().drop_first() || r is None);
        }
        match r {
            Some((k, _)) => Some(k),
            None => None,
        }
    }

    /// Hands out the last key not yet handed out.
    pub fn next_back(&mut self) -> (r: Option<&'a K>)
        ensures
            match r {
                Some(k) => {
                    &&& old(self).remaining().len() > 0
                    &&& *k == old(self).remaining().last()
                    &&& final(self).remaining() == old(self).remaining().drop_last()
                },
                None => old(self).remaining().len() == 0 && final(self).remaining() == old(self).remaining(),
            },
    {
        let r = self.inner.next_back();
        proof {
            assert(self.remaining() =~= old(self).remaining().drop_last() || r is None);
        }
        match r {
            Some((k, _)) => Some(k),
            None => None,
        }
    }

    /// The number of keys not yet handed out.
    pub fn len(&self) -> (r: usize)
        ensures
            r == self.remaining().len(),
    {
        self.inner.len()
    }
}

/// A traversal of the map's values.
pub struct Values<'a, K, V> {
    inner: Iter<'a, K, V>,
}

impl<'a, K, V> Values<'a, K, V> {
    /// The values not yet handed out, in order.
    pub closed spec fn remaining(&self) -> Seq<V> {
        values_of(self.inner.remaining())
    }

    /// Hands out the first value not yet handed out.
    pub fn next(&mut self) -> (r: Option<&'a V>)
        ensures
            match r {
                Some(v) => {
                    &&& old(self).remaining().len() > 0
                    &&& *v == old(self).remaining()[0]
                    &&& final(self).remaining() == old(self).remaining().drop_first()
                },
                None => old(self).remaining().len() == 0 && final(self).remaining() == old(self).remaining(),
            },
    {
        let r = self.inner.next();
        proof {
            assert(self.remaining() =~= old(self).remaining().drop_first() || r is None);
        }
        match r {
            Some((_, v)) => Some(v),
            None => None,
        }
    }

    /// Hands out the last value not yet handed out.
    pub fn next_back(&mut self) -> (r: Option<&'a V>)
        ensures
            match r {
                Some(v) => {
                    &&& old(self).remaining().len() > 0
                    &&& *v == old(self).remaining().last()
                    &&& final(self).remaining() == old(self).remaining().drop_last()
                },
                None => old(self).remaining().len() == 0 && final(self).remaining() == old(self).remaining(),
            },
    {
        let r = self.inner.next_back();
        proof {
            assert(self.remaining() =~= old(self).remaining().drop_last() || r is None);
        }
        match r {
            Some((_, v)) => Some(v),
            None => None,
        }
    }

    /// The number of values not yet handed out.
    pub fn len(&self) -> (r: usize)
        ensures
            r == self.remaining().len(),
    {
        self.inner.len()
    }
}

/// A traversal of the entries within a range of keys.
pub struct Range<'a, K, V> {
    inner: Iter<'a, K, V>,
}

impl<'a, K, V> Range<'a, K, V> {
    /// The entries not yet handed out, in order.
    pub closed spec fn remaining(&self) -> Seq<(K, V)> {
        self.inner.remaining()
    }

    /// Hands out the first entry not yet handed out.
    pub fn next(&mut self) -> (r: Option<(&'a K, &'a V)>)
        ensures
            match r {
                Some((k, v)) => {
                    &&& old(self).remaining().len() > 0
                    &&& (*k, *v) == old(self).remaining()[0]
                    &&& final(self).remaining() == old(self).remaining().drop_first()
                },
                None => old(self).remaining().len() == 0 && final(self).remaining() == old(self).remaining(),
            },
    {
        self.inner.next()
    }

    /// Hands out the last entry not yet handed out.
    pub fn next_back(&mut self) -> (r: Option<(&'a K, &'a V)>)
        ensures
            match r {
                Some((k, v)) => {
                    &&& old(self).remaining().len() > 0
                    &&& (*k, *v) == old(self).remaining().last()
                    &&& final(self).remaining() == old(self).remaining().drop_last()
                },
                None => old(self).remaining().len() == 0 && final(self).remaining() == old(self).remaining(),
            },
    {
        self.inner.next_back()
    }
}

/// A traversal that moves the entries out of the map.
pub struct IntoIter<K, V> {
    inner: VecDeque<(K, V)>,
}

impl<K, V> IntoIter<K, V> {

    /// A traversal that moves out the entries of `entries`, in order.
    pub(crate) fn from_vec(entries: Vec<(K, V)>) -> (r: IntoIter<K, V>)
        ensures
            r.remaining() == entries@,
    {
        let mut entries = entries;
        let ghost all = entries@;
        let mut inner: VecDeque<(K, V)> = VecDeque::new();
        while entries.len() > 0
            invariant
                all == entries@ + inner@,
            decreases entries@.len(),
        {
            let e = entries.pop().unwrap();
            inner.push_front(e);
            proof {
                assert(all =~= entries@ + inner@);
            }
        }
        proof {
            assert(all =~= inner@);
        }
        IntoIter { inner }
    }
    /// The entries not yet handed out, in order.
    pub closed spec fn remaining(&self) -> Seq<(K, V)> {
        self.inner@
    }

    /// Hands out the first entry not yet handed out.
    pub fn next(&mut self) -> (r: Option<(K, V)>)
        ensures
            match r {
                Some(e) => {
                    &&& old(self).remaining().len() > 0
                    &&& e == old(self).remaining()[0]
                    &&& final(self).remaining() == old(self).remaining().drop_first()
                },
                None => old(self).remaining().len() == 0 && final(self).remaining() == old(self).remaining(),
            },
    {
        self.inner.pop_front()
    }

    /// Hands out the last entry not yet handed out.
    pub fn next_back(&mut self) -> (r: Option<(K, V)>)
        ensures
            match r {
                Some(e) => {
                    &&& old(self).remaining().len() > 0
                    &&& e == old(self).remaining().last()
                    &&& final(self).remaining() == old(self).remaining().drop_last()
                },
                None => old(self).remaining().len() == 0 && final(self).remaining() == old(self).remaining(),
            },
    {
        self.inner.pop_back()
    }

    /// The number of entries not yet handed out.
    pub fn len(&self) -> (r: usize)
        ensures
            r == self.remaining().len(),
    {
        self.inner.len()
    }
}

/// A traversal that moves the keys out of the map.
pub struct IntoKeys<K, V> {
    inner: IntoIter<K, V>,
}

impl<K, V> IntoKeys<K, V> {
    /// The keys not yet handed out, in order.
    pub closed spec fn remaining(&self) -> Seq<K> {
        keys_of(self.inner.remaining())
    }

    /// Hands out the first key not yet handed out.
    pub fn next(&mut self) -> (r: Option<K>)
        ensures
            match r {
                Some(k) => {
                    &&& old(self).remaining().len() > 0
                    &&& k == old(self).remaining()[0]
                    &&& final(self).remaining() == old(self).remaining().drop_first()
                },
                None => old(self).remaining().len() == 0 && final(self).remaining() == old(self).remaining(),
            },
    {
        let r = self.inner.next();
        proof {
            assert(self.remaining() =~= old(self).remaining().drop_first() || r is None);
        }
        match r {
            Some((k, _)) => Some(k),
            None => None,
        }
    }

    /// Hands out the last key not yet handed out.
    pub fn next_back(&mut self) -> (r: Option<K>)
        ensures
            match r {
                Some(k) => {
                    &&& old(self).remaining().len() > 0
                    &&& k == old(self).remaining().last()
                    &&& final(self).remaining() == old(self).remaining().drop_last()
                },
                None => old(self).remaining().len() == 0 && final(self).remaining() == old(self).remaining(),
            },
    {
        let r = self.inner.next_back();
        proof {
            assert(self.remaining() =~= old(self).remaining().drop_last() || r is None);
        }
        match r {
            Some((k, _)) => Some(k),
            None => None,
        }
    }

    /// The number of keys not yet handed out.
    pub fn len(&self) -> (r: usize)
        ensures
            r == self.remaining().len(),
    {
        self.inner.len()
    }
}

/// A traversal that moves the values out of the map.
pub struct IntoValues<K, V> {
    inner: IntoIter<K, V>,
}

impl<K, V> IntoValues<K, V> {
    /// The values not yet handed out, in order.
    pub closed spec fn remaining(&self) -> Seq<V> {
        values_of(self.inner.remaining())
    }

    /// Hands out the first value not yet handed out.
    pub fn next(&mut self) -> (r: Option<V>)
        ensures
            match r {
                Some(v) => {
                    &&& old(self).remaining().len() > 0
                    &&& v == old(self).remaining()[0]
                    &&& final(self).remaining() == old(self).remaining().drop_first()
                },
                None => old(self).remaining().len() == 0 && final(self).remaining() == old(self).remaining(),
            },
    {
        let r = self.inner.next();
        proof {
            assert(self.remaining() =~= old(self).remaining().drop_first() || r is None);
        }
        match r {
            Some((_, v)) => Some(v),
            None => None,
        }
    }

    /// Hands out the last value not yet handed out.
    pub fn next_back(&mut self) -> (r: Option<V>)
        ensures
            match r {
                Some(v) => {
                    &&& old(self).remaining().len() > 0
                    &&& v == old(self).remaining().last()
                    &&& final(self).remaining() == old(self).remaining().drop_last()
                },
                None => old(self).remaining().len() == 0 && final(self).remaining() == old(self).remaining(),
            },
    {
        let r = self.inner.next_back();
        proof {
            assert(self.remaining() =~= old(self).remaining().drop_last() || r is None);
        }
        match r {
            Some((_, v)) => Some(v),
            None => None,
        }
    }

    /// The number of values not yet handed out.
    pub fn len(&self) -> (r: usize)
        ensures
            r == self.remaining().len(),
    {
        self.inner.len()
    }
}

/// A traversal of a run of the map's entries that hands out each value
/// mutably.
pub struct IterMut<'a, K, V> {
    pub rest: &'a mut [(K, V)],
}

impl<'a, K, V> IterMut<'a, K, V> {
    /// The entries not yet handed out, in order.
    pub open spec fn remaining(&self) -> Seq<(K, V)> {
        self.rest@
    }

    /// Hands out the first entry not yet handed out, its value mutably.
    pub fn next(&mut self) -> (r: Option<(&'a K, &'a mut V)>)
        ensures
            match r {
                Some((k, v)) => {
                    &&& old(self).rest@.len() > 0
                    &&& *k == old(self).rest@[0].0
                    &&& *v == old(self).rest@[0].1
                    &&& final(self).rest@ == old(self).rest@.drop_first()
                    &&& final(old(self).rest)@ == seq![(*k, *final(v))] + final(final(self).rest)@
                },
                None => {
                    &&& old(self).rest@.len() == 0
                    &&& final(self).rest@ == old(self).rest@
                    &&& final(old(self).rest)@ == final(final(self).rest)@
                },
            },
    {
        if self.rest.len() == 0 {
            return None;
        }
        let mut taken: &'a mut [(K, V)] = &mut [];
        std::mem::swap(&mut taken, &mut self.rest);
        let (first, tail) = taken.split_at_mut(1);
        self.rest = tail;
        let e = first.first_mut().unwrap();
        let (k, v) = e;
        Some((&*k, v))
    }

    /// Hands out the last entry not yet handed out, its value mutably.
    pub fn next_back(&mut self) -> (r: Option<(&'a K, &'a mut V)>)
        ensures
            match r {
                Some((k, v)) => {
                    &&& old(self).rest@.len() > 0
                    &&& *k == old(self).rest@.last().0
                    &&& *v == old(self).rest@.last().1
                    &&& final(self).rest@ == old(self).rest@.drop_last()
                    &&& final(old(self).rest)@ == final(final(self).rest)@.push((*k, *final(v)))
                },
                None => {
                    &&& old(self).rest@.len() == 0
                    &&& final(self).rest@ == old(self).rest@
                    &&& final(old(self).rest)@ == final(final(self).rest)@
                },
            },
    {
        let n = self.rest.len();
        if n == 0 {
            return None;
        }
        let mut taken: &'a mut [(K, V)] = &mut [];
        std::mem::swap(&mut taken, &mut self.rest);
        let (head, last) = taken.split_at_mut(n - 1);
        self.rest = head;
        let e = last.first_mut().unwrap();
        let (k, v) = e;
        Some((&*k, v))
    }

    /// The number of entries not yet handed out.
    pub fn len(&self) -> (r: usize)
        ensures
            r == self.remaining().len(),
    {
        self.rest.len()
    }
}

/// A traversal of the map's values that hands each out mutably.
pub struct ValuesMut<'a, K, V> {
    pub inner: IterMut<'a, K, V>,
}

impl<'a, K, V> ValuesMut<'a, K, V> {
    /// Hands out the first value not yet handed out, mutably.
    pub fn next(&mut self) -> (r: Option<&'a mut V>)
        ensures
            match r {
                Some(v) => {
                    &&& old(self).inner.rest@.len() > 0
                    &&& *v == old(self).inner.rest@[0].1
                    &&& final(self).inner.rest@ == old(self).inner.rest@.drop_first()
                    &&& final(old(self).inner.rest)@ == seq![(old(self).inner.rest@[0].0, *final(v))]
                        + final(final(self).inner.rest)@
                },
                None => {
                    &&& old(self).inner.rest@.len() == 0
                    &&& final(self).inner.rest@ == old(self).inner.rest@
                    &&& final(old(self).inner.rest)@ == final(final(self).inner.rest)@
                },
            },
    {
        match self.inner.next() {
            Some((_, v)) => Some(v),
            None => None,
        }
    }

    /// Hands out the last value not yet handed out, mutably.
    pub fn next_back(&mut self) -> (r: Option<&'a mut V>)
        ensures
            match r {
                Some(v) => {
                    &&& old(self).inner.rest@.len() > 0
                    &&& *v == old(self).inner.rest@.last().1
                    &&& final(self).inner.rest@ == old(self).inner.rest@.drop_last()
                    &&& final(old(self).inner.rest)@ == final(final(self).inner.rest)@.push(
                        (old(self).inner.rest@.last().0, *final(v)),
                    )
                },
                None => {
                    &&& old(self).inner.rest@.len() == 0
                    &&& final(self).inner.rest@ == old(self).inner.rest@
                    &&& final(old(self).inner.rest)@ == final(final(self).inner.rest)@
                },
            },
    {
        match self.inner.next_back() {
            Some((_, v)) => Some(v),
            None => None,
        }
    }

    /// The number of values not yet handed out.
    pub fn len(&self) -> (r: usize)
        ensures
            r == self.inner.remaining().len(),
    {
        self.inner.len()
    }
}

/// A traversal of the entries within a range of keys that hands out each
/// value mutably.
pub struct RangeMut<'a, K, V> {
    pub inner: IterMut<'a, K, V>,
}

impl<'a, K, V> RangeMut<'a, K, V> {
    /// Hands out the first entry not yet handed out, its value mutably.
    pub fn next(&mut self) -> (r: Option<(&'a K, &'a mut V)>)
        ensures
            match r {
                Some((k, v)) => {
                    &&& old(self).inner.rest@.len() > 0
                    &&& *k == old(self).inner.rest@[0].0
                    &&& *v == old(self).inner.rest@[0].1
                    &&& final(self).inner.rest@ == old(self).inner.rest@.drop_first()
                    &&& final(old(self).inner.rest)@ == seq![(*k, *final(v))] + final(final(self).inner.rest)@
                },
                None => {
                    &&& old(self).inner.rest@.len() == 0
                    &&& final(self).inner.rest@ == old(self).inner.rest@
                    &&& final(old(self).inner.rest)@ == final(final(self).inner.rest)@
                },
            },
    {
        self.inner.next()
    }

    /// Hands out the last entry not yet handed out, its value mutably.
    pub fn next_back(&mut self) -> (r: Option<(&'a K, &'a mut V)>)
        ensures
            match r {
                Some((k, v)) => {
                    &&& old(self).inner.rest@.len() > 0
                    &&& *k == old(self).inner.rest@.last().0
                    &&& *v == old(self).inner.rest@.last().1
                    &&& final(self).inner.rest@ == old(self).inner.rest@.drop_last()
                    &&& final(old(self).inner.rest)@ == final(final(self).inner.rest)@.push((*k, *final(v)))
                },
                None => {
                    &&& old(self).inner.rest@.len() == 0
                    &&& final(self).inner.rest@ == old(self).inner.rest@
                    &&& final(old(self).inner.rest)@ == final(final(self).inner.rest)@
                },
            },
    {
        self.inner.next_back()
    }
}

impl<K, V> BTreeMap<K, V> {
    /// A traversal of the entries in ascending key order.
    pub fn iter(&self) -> (r: Iter<'_, K, V>)
        ensures
            r.remaining() == self@,
    {
        let r = Iter { entries: &self.entries, front: 0, back: self.entries.len() };
        proof {
            assert(r.remaining() =~= self@);
        }
        r
    }

    /// A traversal of the keys in ascending order.
    pub fn keys(&self) -> (r: Keys<'_, K, V>)
        ensures
            r.remaining() == keys_of(self@),
    {
        Keys { inner: self.iter() }
    }

    /// A traversal of the values in ascending key order.
    pub fn values(&self) -> (r: Values<'_, K, V>)
        ensures
            r.remaining() == values_of(self@),
    {
        Values { inner: self.iter() }
    }

    /// Moves the entries out of the map, in ascending key order.
    pub fn into_iter(self) -> (r: IntoIter<K, V>)
        ensures
            r.remaining() == self@,
    {
        IntoIter::from_vec(self.entries)
    }

    /// Moves the keys out of the map, in ascending order.
    pub fn into_keys(self) -> (r: IntoKeys<K, V>)
        ensures
            r.remaining() == keys_of(self@),
    {
        IntoKeys { inner: self.into_iter() }
    }

    /// Moves the values out of the map, in ascending key order.
    pub fn into_values(self) -> (r: IntoValues<K, V>)
        ensures
            r.remaining() == values_of(self@),
    {
        IntoValues { inner: self.into_iter() }
    }

    /// A traversal of the entries between a lower and an upper bound: the
    /// lower one probed by `lower_comp`, the upper one by `upper_comp`.
    /// Where the upper end lies below the lower one, the range is empty.
    pub fn range<C1: Fn(&K) -> Ordering, C2: Fn(&K) -> Ordering>(
        &self,
        lower_comp: C1,
        lower_bound: SearchBound,
        upper_comp: C2,
        upper_bound: SearchBound,
    ) -> (r: Range<'_, K, V>)
        requires
            total(lower_comp),
            total(upper_comp),
        ensures
            exists|l: int, u: int|
                #![trigger self@.subrange(l, u)]
                0 <= l <= u <= self@.len() && r.remaining() == self@.subrange(l, u) && forall|
                    f: spec_fn(K) -> Ordering,
                    g: spec_fn(K) -> Ordering,
                |
                    #[trigger] sorted_for(lower_comp, f, keys_of(self@)) && #[trigger] sorted_for(
                        upper_comp,
                        g,
                        keys_of(self@),
                    ) ==> lower_edge(f, keys_of(self@), lower_bound, l) && upper_edge(
                        g,
                        keys_of(self@),
                        upper_bound,
                        l,
                        u,
                    ),
    {
        let node = NodeRef { entries: &self.entries };
        proof {
            assert(node.keys() == keys_of(self@));
        }
        let (front, back) = match node.search_tree_for_bifurcation(
            lower_comp,
            lower_bound,
            upper_comp,
            upper_bound,
        ) {
            Ok((l, u, _, _)) => (l, u),
            Err(e) => (e, e),
        };
        let inner = Iter { entries: &self.entries, front, back };
        let r = Range { inner };
        proof {
            assert(r.remaining() == self@.subrange(front as int, back as int));
        }
        r
    }

    /// A traversal of the entries in ascending key order that hands out
    /// each value mutably.
    pub fn iter_mut(&mut self) -> (r: IterMut<'_, K, V>)
        ensures
            r.rest@ == old(self)@,
            final(self)@ == final(r.rest)@,
    {
        IterMut { rest: self.entries.as_mut_slice() }
    }

    /// A traversal of the values in ascending key order that hands each out
    /// mutably.
    pub fn values_mut(&mut self) -> (r: ValuesMut<'_, K, V>)
        ensures
            r.inner.rest@ == old(self)@,
            final(self)@ == final(r.inner.rest)@,
    {
        ValuesMut { inner: self.iter_mut() }
    }

    /// A traversal of the entries between a lower and an upper bound (as in
    /// `range`) that hands out each value mutably.
    pub fn range_mut<C1: Fn(&K) -> Ordering, C2: Fn(&K) -> Ordering>(
        &mut self,
        lower_comp: C1,
        lower_bound: SearchBound,
        upper_comp: C2,
        upper_bound: SearchBound,
    ) -> (r: RangeMut<'_, K, V>)
        requires
            total(lower_comp),
            total(upper_comp),
        ensures
            exists|l: int, u: int|
                #![trigger old(self)@.subrange(l, u)]
                0 <= l <= u <= old(self)@.len() && r.inner.rest@ == old(self)@.subrange(l, u)
                    && final(self)@ == old(self)@.subrange(0, l) + final(r.inner.rest)@ + old(self)@.subrange(
                    u,
                    old(self)@.len() as int,
                ) && (forall|f: spec_fn(K) -> Ordering, g: spec_fn(K) -> Ordering| #[trigger] sorted_for(lower_comp, f, keys_of(old(self)@)) && #[trigger] sorted_for(upper_comp, g, keys_of(old(self)@))
                    ==> lower_edge(f, keys_of(old(self)@), lower_bound, l) && upper_edge(
                    g,
                    keys_of(old(self)@),
                    upper_bound,
                    l,
                    u,
                )),
    {
        let node = NodeRef { entries: &self.entries };
        proof {
            assert(node.keys() == keys_of(self@));
        }
        let (front, back) = match node.search_tree_for_bifurcation(
            lower_comp,
            lower_bound,
            upper_comp,
            upper_bound,
        ) {
            Ok((l, u, _, _)) => (l, u),
            Err(e) => (e, e),
        };
        let all = self.entries.as_mut_slice();
        let ghost final_all = final(all)@;
        let (head, tail) = all.split_at_mut(back);
        let (before, mid) = head.split_at_mut(front);
        proof {
            assert(has_resolved(tail));
            assert(has_resolved(before));
            assert(final(tail)@ == tail@);
            assert(final(before)@ == before@);
            assert(before@ =~= old(self)@.subrange(0, front as int));
            assert(tail@ =~= old(self)@.subrange(back as int, old(self)@.len() as int));
            assert(mid@ =~= old(self)@.subrange(front as int, back as int));
            assert(final_all =~= old(self)@.subrange(0, front as int) + final(mid)@ + old(self)@.subrange(
                back as int,
                old(self)@.len() as int,
            ));
        }
        RangeMut { inner: IterMut { rest: mid } }
    }
}

} // verus!
