//! Laws that relate the map's operations to one another, stated over the
//! same models that the operations' contracts use.
use vstd::prelude::*;
use std::cmp::Ordering;
use crate::bulk::merged;
use crate::cursor::{next_pos, prev_pos, valid_pos};
use crate::map::{found_at, inserted, lemma_match_unique, removed};
use crate::order::{has_match, is_edge, keys_of, probe_sorted, rank};

verus! {

/// `lt` is a strict total order.
pub open spec fn strict_total<K>(lt: spec_fn(K, K) -> bool) -> bool {
    &&& forall|a: K| !#[trigger] lt(a, a)
    &&& forall|a: K, b: K, c: K| #[trigger] lt(a, b) && #[trigger] lt(b, c) ==> lt(a, c)
    &&& forall|a: K, b: K| a != b ==> #[trigger] lt(a, b) || lt(b, a)
}

/// The keys `ks` ascend strictly under `lt`.
pub open spec fn ascending<K>(ks: Seq<K>, lt: spec_fn(K, K) -> bool) -> bool {
    forall|i: int, j: int| 0 <= i < j < ks.len() ==> lt(#[trigger] ks[i], #[trigger] ks[j])
}

/// `f` is the probe for target `t` under `lt`: its answer on `k` is
/// `Greater` when `k` lies below `t`, `Less` when `k` lies above `t`, and
/// `Equal` otherwise.
pub open spec fn probes_for<K>(f: spec_fn(K) -> Ordering, lt: spec_fn(K, K) -> bool, t: K) -> bool {
    forall|k: K| #[trigger] f(k) == (if lt(k, t) {
        Ordering::Greater
    } else if lt(t, k) {
        Ordering::Less
    } else {
        Ordering::Equal
    })
}

/// A probe for a key answers consistently along any key sequence that
/// ascends under the same order: such a sequence is sorted for the probe.
pub proof fn lemma_probe_sorted_of_order<K>(
    f: spec_fn(K) -> Ordering,
    lt: spec_fn(K, K) -> bool,
    t: K,
    ks: Seq<K>,
)
    requires
        strict_total(lt),
        ascending(ks, lt),
        probes_for(f, lt, t),
    ensures
        probe_sorted(f, ks),
{
    assert forall|i: int, j: int| 0 <= i < j < ks.len() implies rank(#[trigger] f(ks[i])) <= rank(
        #[trigger] f(ks[j]),
    ) && !(f(ks[i]) == Ordering::Equal && f(ks[j]) == Ordering::Equal) by {
        assert(lt(ks[i], ks[j]));
        if lt(t, ks[i]) {
            assert(lt(t, ks[j]));
        }
        if !lt(ks[i], t) && !lt(t, ks[i]) {
            assert(ks[i] == t);
            assert(lt(t, ks[j]));
        }
    }
}

/// Inserting a key with its own probe keeps the keys strictly ascending.
pub proof fn lemma_insert_keeps_order<K, V>(
    f: spec_fn(K) -> Ordering,
    lt: spec_fn(K, K) -> bool,
    s: Seq<(K, V)>,
    k: K,
    v: V,
    t: Seq<(K, V)>,
    prev: Option<V>,
)
    requires
        strict_total(lt),
        ascending(keys_of(s), lt),
        probes_for(f, lt, k),
        inserted(f, s, k, v, t, prev),
    ensures
        ascending(keys_of(t), lt),
{
    match prev {
        Some(pv) => {
            let i = choose|i: int| #[trigger] found_at(f, s, i) && pv == s[i].1 && t == s.update(i, (s[i].0, v));
            assert(keys_of(t) =~= keys_of(s));
        },
        None => {
            let p = choose|p: int| #[trigger] is_edge(f, keys_of(s), 1, p) && t == s.insert(p, (k, v));
            assert forall|i: int, j: int| 0 <= i < j < keys_of(t).len() implies lt(
                #[trigger] keys_of(t)[i],
                #[trigger] keys_of(t)[j],
            ) by {
                assert(keys_of(t)[i] == t[i].0);
                assert(keys_of(t)[j] == t[j].0);
                if i < p {
                    assert(keys_of(s)[i] == s[i].0);
                    if j < p {
                        assert(keys_of(s)[j] == s[j].0);
                    } else if j == p {
                        assert(lt(s[i].0, k));
                    } else {
                        assert(keys_of(s)[j - 1] == s[j - 1].0);
                    }
                } else if i == p {
                    assert(keys_of(s)[j - 1] == s[j - 1].0);
                    assert(rank(f(keys_of(s)[j - 1])) >= 1);
                    if f(keys_of(s)[j - 1]) == Ordering::Equal {
                        assert(found_at(f, s, j - 1));
                        assert(has_match(f, keys_of(s)));
                    }
                } else {
                    assert(keys_of(s)[i - 1] == s[i - 1].0);
                    assert(keys_of(s)[j - 1] == s[j - 1].0);
                }
            }
        },
    }
}

/// Removing an entry keeps the keys strictly ascending.
pub proof fn lemma_remove_keeps_order<K, V>(
    f: spec_fn(K) -> Ordering,
    lt: spec_fn(K, K) -> bool,
    s: Seq<(K, V)>,
    t: Seq<(K, V)>,
    out: Option<(K, V)>,
)
    requires
        ascending(keys_of(s), lt),
        removed(f, s, t, out),
    ensures
        ascending(keys_of(t), lt),
{
    if let Some(e) = out {
        let i = choose|i: int| #[trigger] found_at(f, s, i) && e == s[i] && t == s.remove(i);
        assert forall|a: int, b: int| 0 <= a < b < keys_of(t).len() implies lt(
            #[trigger] keys_of(t)[a],
            #[trigger] keys_of(t)[b],
        ) by {
            let a0 = if a < i { a } else { a + 1 };
            let b0 = if b < i { b } else { b + 1 };
            assert(keys_of(t)[a] == keys_of(s)[a0]);
            assert(keys_of(t)[b] == keys_of(s)[b0]);
        }
    }
}

/// After inserting `(k, v)` with the probe for `k`, the map is sorted for
/// that probe, holds `k`, and looking `k` up gives `v`; replacing a present
/// key leaves the length unchanged.
pub proof fn lemma_insert_then_get<K, V>(
    f: spec_fn(K) -> Ordering,
    lt: spec_fn(K, K) -> bool,
    s: Seq<(K, V)>,
    k: K,
    v: V,
    t: Seq<(K, V)>,
    prev: Option<V>,
)
    requires
        strict_total(lt),
        ascending(keys_of(s), lt),
        probes_for(f, lt, k),
        inserted(f, s, k, v, t, prev),
    ensures
        probe_sorted(f, keys_of(t)),
        has_match(f, keys_of(t)),
        forall|i: int| #[trigger] found_at(f, t, i) ==> t[i].1 == v,
        prev is Some ==> t.len() == s.len(),
        prev is None ==> t.len() == s.len() + 1,
{
    lemma_insert_keeps_order(f, lt, s, k, v, t, prev);
    lemma_probe_sorted_of_order(f, lt, k, keys_of(t));
    let w = match prev {
        Some(pv) => choose|i: int| #[trigger] found_at(f, s, i) && pv == s[i].1 && t == s.update(i, (s[i].0, v)),
        None => choose|p: int| #[trigger] is_edge(f, keys_of(s), 1, p) && t == s.insert(p, (k, v)),
    };
    match prev {
        Some(pv) => {
            assert(keys_of(t)[w] == keys_of(s)[w]);
            assert(found_at(f, t, w));
        },
        None => {
            assert(keys_of(t)[w] == k);
            assert(found_at(f, t, w));
        },
    }
    assert(has_match(f, keys_of(t)));
    assert forall|i: int| #[trigger] found_at(f, t, i) implies t[i].1 == v by {
        lemma_match_unique(f, t, i);
        lemma_match_unique(f, t, w);
    }
}

/// After removing the key that a probe looks for, the map is still sorted
/// for that probe and no longer holds the key; a removal takes exactly one
/// entry away.
pub proof fn lemma_remove_then_get<K, V>(
    f: spec_fn(K) -> Ordering,
    lt: spec_fn(K, K) -> bool,
    k: K,
    s: Seq<(K, V)>,
    t: Seq<(K, V)>,
    out: Option<(K, V)>,
)
    requires
        strict_total(lt),
        ascending(keys_of(s), lt),
        probes_for(f, lt, k),
        removed(f, s, t, out),
    ensures
        probe_sorted(f, keys_of(t)),
        !has_match(f, keys_of(t)),
        out is Some ==> t.len() == s.len() - 1,
        out is None ==> t == s,
{
    lemma_remove_keeps_order(f, lt, s, t, out);
    lemma_probe_sorted_of_order(f, lt, k, keys_of(s));
    lemma_probe_sorted_of_order(f, lt, k, keys_of(t));
    if let Some(e) = out {
        let i = choose|i: int| #[trigger] found_at(f, s, i) && e == s[i] && t == s.remove(i);
        if has_match(f, keys_of(t)) {
            let j = choose|j: int| 0 <= j < keys_of(t).len() && #[trigger] f(keys_of(t)[j]) == Ordering::Equal;
            let j0 = if j < i { j } else { j + 1 };
            assert(keys_of(t)[j] == keys_of(s)[j0]);
            assert(found_at(f, s, j0));
            lemma_match_unique(f, s, j0);
            lemma_match_unique(f, s, i);
        }
    }
}

/// Splitting keeps each part strictly ascending.
pub proof fn lemma_split_keeps_order<K, V>(
    lt: spec_fn(K, K) -> bool,
    s: Seq<(K, V)>,
    left: Seq<(K, V)>,
    right: Seq<(K, V)>,
)
    requires
        ascending(keys_of(s), lt),
        s == left + right,
    ensures
        ascending(keys_of(left), lt),
        ascending(keys_of(right), lt),
        left.len() + right.len() == s.len(),
{
    assert forall|i: int, j: int| 0 <= i < j < keys_of(left).len() implies lt(
        #[trigger] keys_of(left)[i],
        #[trigger] keys_of(left)[j],
    ) by {
        assert(keys_of(left)[i] == keys_of(s)[i]);
        assert(keys_of(left)[j] == keys_of(s)[j]);
    }
    assert forall|i: int, j: int| 0 <= i < j < keys_of(right).len() implies lt(
        #[trigger] keys_of(right)[i],
        #[trigger] keys_of(right)[j],
    ) by {
        assert(keys_of(right)[i] == keys_of(s)[left.len() + i]);
        assert(keys_of(right)[j] == keys_of(s)[left.len() + j]);
    }
}

/// Merging in an empty run changes nothing.
pub proof fn lemma_merge_empty<K, V>(g: spec_fn((K, V), (K, V)) -> Ordering, s: Seq<(K, V)>)
    ensures
        merged(g, s, Seq::<(K, V)>::empty()) == s,
        merged(g, Seq::<(K, V)>::empty(), s) == s,
{
}

/// Cursor moves on the circle of entries and the ghost: stepping back then
/// forward returns to the same position; from the ghost, a step forward
/// lands on the first entry; from the last entry, it reaches the ghost.
pub proof fn lemma_cursor_circle(len: int, p: Option<int>)
    requires
        len >= 0,
        valid_pos(len, p),
    ensures
        next_pos(len, prev_pos(len, p)) == p,
        prev_pos(len, next_pos(len, p)) == p,
        len > 0 ==> next_pos(len, None) == Some(0int),
        len > 0 ==> next_pos(len, Some(len - 1)) == None::<int>,
        len > 0 ==> next_pos(len, next_pos(len, Some(len - 1))) == Some(0int),
{
}

} // verus!
