//! Whole-map operations: splitting, merging two maps, and removal by a
//! predicate.
use vstd::prelude::*;
use std::cmp::Ordering;
use crate::iter::IntoIter;
use crate::map::BTreeMap;
use crate::order::{is_edge, keys_of, sorted_for, total};
use crate::search::SearchResult;

verus! {

broadcast use crate::map::lemma_view;

/// Whatever `comp` answers on a pair of entries `(a, b)` is `g(a, b)`.
pub open spec fn refines_pair<K, V, C: Fn(&(K, V), &(K, V)) -> Ordering>(
    comp: C,
    g: spec_fn((K, V), (K, V)) -> Ordering,
) -> bool {
    forall|a: (K, V), b: (K, V), o: Ordering| #[trigger] call_ensures(comp, (&a, &b), o) ==> o == g(a, b)
}

/// The merge of two ascending runs `a` and `b` as `g` orders their
/// entries, taken from the back: the greater last entry goes last, and of
/// two equal ones the entry of `b` stays and that of `a` is dropped.
pub open spec fn merged<K, V>(g: spec_fn((K, V), (K, V)) -> Ordering, a: Seq<(K, V)>, b: Seq<(K, V)>) -> Seq<(K, V)>
    decreases a.len() + b.len(),
{
    if a.len() == 0 {
        b
    } else if b.len() == 0 {
        a
    } else {
        match g(a.last(), b.last()) {
            Ordering::Greater => merged(g, a.drop_last(), b).push(a.last()),
            Ordering::Less => merged(g, a, b.drop_last()).push(b.last()),
            Ordering::Equal => merged(g, a.drop_last(), b.drop_last()).push(b.last()),
        }
    }
}

/// Whatever `pred` answers on an entry `(k, v)` is `g(k, v)`.
pub open spec fn refines_pred<K, V, F: Fn(&K, &V) -> bool>(pred: F, g: spec_fn(K, V) -> bool) -> bool {
    forall|k: K, v: V, b: bool| #[trigger] call_ensures(pred, (&k, &v), b) ==> b == g(k, v)
}

/// The entries of `s` on which `g` answers `want`, in order.
pub open spec fn selected<K, V>(g: spec_fn(K, V) -> bool, s: Seq<(K, V)>, want: bool) -> Seq<(K, V)>
    decreases s.len(),
{
    if s.len() == 0 {
        s
    } else {
        let rest = selected(g, s.drop_first(), want);
        if g(s[0].0, s[0].1) == want {
            seq![s[0]] + rest
        } else {
            rest
        }
    }
}

impl<K, V> BTreeMap<K, V> {
    /// Splits the map at the edge where `comp` places its key: the entries
    /// below it stay, the rest move to the returned map.
    pub fn split_off<C: Fn(&K) -> Ordering>(&mut self, comp: C) -> (r: Self)
        requires
            total(comp),
        ensures
            old(self)@ == final(self)@ + r@,
            forall|f: spec_fn(K) -> Ordering| #[trigger] sorted_for(comp, f, keys_of(old(self)@)) ==> is_edge(
                f,
                keys_of(old(self)@),
                1,
                final(self)@.len() as int,
            ),
    {
        let at = match self.find(&comp) {
            SearchResult::Found(i) => i,
            SearchResult::GoDown(i) => i,
        };
        let right = self.entries.split_off(at);
        proof {
            assert(old(self)@ =~= self@ + right@);
        }
        BTreeMap { entries: right }
    }

    /// Moves every entry of `other` into the map, merging the two ascending
    /// runs as `mega_comp` orders their entries; where two keys are equal,
    /// the entry of `other` wins.
    pub fn append<C: Fn(&(K, V), &(K, V)) -> Ordering>(&mut self, other: &mut Self, mega_comp: C)
        requires
            forall|x: (K, V), y: (K, V)| call_requires(mega_comp, (&x, &y)),
        ensures
            final(other)@ == Seq::<(K, V)>::empty(),
            old(other)@.len() == 0 ==> final(self)@ == old(self)@,
            old(self)@.len() == 0 ==> final(self)@ == old(other)@,
            forall|g: spec_fn((K, V), (K, V)) -> Ordering| #[trigger] refines_pair(mega_comp, g) ==> final(self)@
                == merged(g, old(self)@, old(other)@),
    {
        if other.entries.len() == 0 {
            return;
        }
        if self.entries.len() == 0 {
            std::mem::swap(&mut self.entries, &mut other.entries);
            return;
        }
        let mut a: Vec<(K, V)> = Vec::new();
        let mut b: Vec<(K, V)> = Vec::new();
        std::mem::swap(&mut a, &mut self.entries);
        std::mem::swap(&mut b, &mut other.entries);
        let ghost sa = a@;
        let ghost sb = b@;
        let mut rev: Vec<(K, V)> = Vec::new();
        while a.len() > 0 && b.len() > 0
            invariant
                forall|x: (K, V), y: (K, V)| call_requires(mega_comp, (&x, &y)),
                a@ == sa.subrange(0, a@.len() as int),
                b@ == sb.subrange(0, b@.len() as int),
                a@.len() <= sa.len(),
                b@.len() <= sb.len(),
                forall|g: spec_fn((K, V), (K, V)) -> Ordering| #[trigger] refines_pair(mega_comp, g) ==> merged(g, sa, sb)
                    == merged(g, a@, b@) + rev@.reverse(),
            decreases a@.len() + b@.len(),
        {
            let na = a.len();
            let nb = b.len();
            let o = mega_comp(&a[na - 1], &b[nb - 1]);
            let ghost old_a = a@;
            let ghost old_b = b@;
            let ghost old_rev = rev@;
            let ghost la = a@.last();
            let ghost lb = b@.last();
            proof {
                assert(la == sa[na - 1]);
                assert(lb == sb[nb - 1]);
                assert(call_ensures(mega_comp, (&la, &lb), o));
            }
            match o {
                Ordering::Greater => {
                    let x = a.pop().unwrap();
                    rev.push(x);
                },
                Ordering::Less => {
                    let y = b.pop().unwrap();
                    rev.push(y);
                },
                Ordering::Equal => {
                    let _ = a.pop();
                    let y = b.pop().unwrap();
                    rev.push(y);
                },
            }
            proof {
                assert(a@ =~= sa.subrange(0, a@.len() as int));
                assert(b@ =~= sb.subrange(0, b@.len() as int));
                assert(rev@.reverse() =~= seq![rev@.last()] + old_rev.reverse());
                assert forall|g: spec_fn((K, V), (K, V)) -> Ordering| #[trigger] refines_pair(mega_comp, g) implies merged(
                    g,
                    sa,
                    sb,
                ) == merged(g, a@, b@) + rev@.reverse() by {
                    assert(o == g(la, lb));
                    assert(merged(g, old_a, old_b) == merged(g, a@, b@).push(rev@.last()));
                    assert(merged(g, a@, b@).push(rev@.last()) + old_rev.reverse() =~= merged(g, a@, b@)
                        + rev@.reverse());
                }
            }
        }
        let mut result = if a.len() > 0 {
            a
        } else {
            b
        };
        proof {
            assert forall|g: spec_fn((K, V), (K, V)) -> Ordering| #[trigger] refines_pair(mega_comp, g) implies merged(
                g,
                a@,
                b@,
            ) == result@ by {}
        }
        while rev.len() > 0
            invariant
                forall|g: spec_fn((K, V), (K, V)) -> Ordering| #[trigger] refines_pair(mega_comp, g) ==> merged(g, sa, sb)
                    == result@ + rev@.reverse(),
            decreases rev@.len(),
        {
            let ghost old_rev = rev@;
            let ghost old_result = result@;
            let x = rev.pop().unwrap();
            result.push(x);
            proof {
                assert(old_rev.reverse() =~= seq![x] + rev@.reverse());
                assert(old_result + old_rev.reverse() =~= result@ + rev@.reverse());
            }
        }
        proof {
            assert(rev@.reverse() =~= Seq::<(K, V)>::empty());
            assert(result@ + rev@.reverse() =~= result@);
        }
        self.entries = result;
    }

    /// Keeps the entries on which `f` answers `keep` and returns the others,
    /// both in ascending key order.
    fn split_by<F: Fn(&K, &V) -> bool>(&mut self, f: &F, keep: bool) -> (r: Vec<(K, V)>)
        requires
            forall|k: K, v: V| call_requires(*f, (&k, &v)),
        ensures
            final(self)@.len() + r@.len() == old(self)@.len(),
            forall|g: spec_fn(K, V) -> bool| #[trigger] refines_pred(*f, g) ==> {
                &&& final(self)@ == selected(g, old(self)@, keep)
                &&& r@ == selected(g, old(self)@, !keep)
            },
    {
        let mut taken: Vec<(K, V)> = Vec::new();
        std::mem::swap(&mut taken, &mut self.entries);
        let mut rest = IntoIter::from_vec(taken);
        let ghost all = old(self)@;
        let mut kept: Vec<(K, V)> = Vec::new();
        let mut out: Vec<(K, V)> = Vec::new();
        while rest.len() > 0
            invariant
                forall|k: K, v: V| call_requires(*f, (&k, &v)),
                rest.remaining() == all.subrange(all.len() - rest.remaining().len(), all.len() as int),
                rest.remaining().len() <= all.len(),
                kept@.len() + out@.len() + rest.remaining().len() == all.len(),
                forall|g: spec_fn(K, V) -> bool| #[trigger] refines_pred(*f, g) ==> {
                    &&& selected(g, all, keep) == kept@ + selected(g, rest.remaining(), keep)
                    &&& selected(g, all, !keep) == out@ + selected(g, rest.remaining(), !keep)
                },
            decreases rest.remaining().len(),
        {
            let ghost before = rest.remaining();
            let e = rest.next().unwrap();
            let b = f(&e.0, &e.1);
            proof {
                let i = all.len() - before.len();
                assert(before[0] == all[i]);
                assert(rest.remaining() =~= all.subrange(all.len() - rest.remaining().len(), all.len() as int));
                assert(before.drop_first() == rest.remaining());
                assert(call_ensures(*f, (&e.0, &e.1), b));
            }
            if b == keep {
                let ghost k0 = kept@;
                kept.push(e);
                proof {
                    assert forall|g: spec_fn(K, V) -> bool| #[trigger] refines_pred(*f, g) implies {
                        &&& selected(g, all, keep) == kept@ + selected(g, rest.remaining(), keep)
                        &&& selected(g, all, !keep) == out@ + selected(g, rest.remaining(), !keep)
                    } by {
                        assert(g(e.0, e.1) == b);
                        assert(k0 + selected(g, before, keep) =~= kept@ + selected(g, rest.remaining(), keep));
                    }
                }
            } else {
                let ghost o0 = out@;
                out.push(e);
                proof {
                    assert forall|g: spec_fn(K, V) -> bool| #[trigger] refines_pred(*f, g) implies {
                        &&& selected(g, all, keep) == kept@ + selected(g, rest.remaining(), keep)
                        &&& selected(g, all, !keep) == out@ + selected(g, rest.remaining(), !keep)
                    } by {
                        assert(g(e.0, e.1) == b);
                        assert(o0 + selected(g, before, !keep) =~= out@ + selected(g, rest.remaining(), !keep));
                    }
                }
            }
        }
        proof {
            assert forall|g: spec_fn(K, V) -> bool| #[trigger] refines_pred(*f, g) implies {
                &&& selected(g, all, keep) == kept@
                &&& selected(g, all, !keep) == out@
            } by {
                assert(kept@ + selected(g, rest.remaining(), keep) =~= kept@);
                assert(out@ + selected(g, rest.remaining(), !keep) =~= out@);
            }
        }
        self.entries = kept;
        out
    }

    /// Keeps only the entries on which `f` answers `true`.
    pub fn retain<F: Fn(&K, &V) -> bool>(&mut self, f: F)
        requires
            forall|k: K, v: V| call_requires(f, (&k, &v)),
        ensures
            final(self)@.len() <= old(self)@.len(),
            forall|g: spec_fn(K, V) -> bool| #[trigger] refines_pred(f, g) ==> final(self)@ == selected(g, old(self)@, true),
    {
        let _ = self.split_by(&f, true);
    }

    /// Removes every entry on which `pred` answers `true`, and hands them
    /// out in ascending key order. The removal is complete when this
    /// returns, whether or not the result is traversed.
    pub fn drain_filter<F: Fn(&K, &V) -> bool>(&mut self, pred: F) -> (r: IntoIter<K, V>)
        requires
            forall|k: K, v: V| call_requires(pred, (&k, &v)),
        ensures
            final(self)@.len() + r.remaining().len() == old(self)@.len(),
            forall|g: spec_fn(K, V) -> bool| #[trigger] refines_pred(pred, g) ==> {
                &&& final(self)@ == selected(g, old(self)@, false)
                &&& r.remaining() == selected(g, old(self)@, true)
            },
    {
        let out = self.split_by(&pred, false);
        IntoIter::from_vec(out)
    }
}

} // verus!
