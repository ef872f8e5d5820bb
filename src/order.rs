//! The vocabulary in which the map's contracts speak of comparators.
//!
//! A probe is a closure `comp` such that `comp(k)` tells where the probe's
//! target lies relative to the stored key `k`: `Greater` when the target comes
//! after `k`, `Equal` when it is `k`, `Less` when it comes before `k`.
//! Contracts speak of every spec function `f` that a probe refines, that is
//! every `f` such that whatever `comp` returns on `k` is `f(k)`.
use vstd::prelude::*;
use std::cmp::Ordering;

verus! {

/// `comp` may answer `o` on key `k`.
pub open spec fn gives<K, C: Fn(&K) -> Ordering>(comp: C, k: K, o: Ordering) -> bool {
    call_ensures(comp, (&k,), o)
}

/// `comp` accepts every key.
pub open spec fn total<K, C: Fn(&K) -> Ordering>(comp: C) -> bool {
    forall|k: K| call_requires(comp, (&k,))
}

/// Whatever `comp` answers on a key `k` is `f(k)`.
pub open spec fn refines<K, C: Fn(&K) -> Ordering>(comp: C, f: spec_fn(K) -> Ordering) -> bool {
    forall|k: K, o: Ordering| #[trigger] gives(comp, k, o) ==> o == f(k)
}

/// The place of an answer along an ascending key sequence: first the keys
/// below the target, then at most one key equal to it, then the keys above.
pub open spec fn rank(o: Ordering) -> int {
    match o {
        Ordering::Greater => 0,
        Ordering::Equal => 1,
        Ordering::Less => 2,
    }
}

/// The answers of `f` along `ks` ascend in rank, and at most one key answers
/// `Equal`. This is what it means for `ks` to be strictly ascending under
/// the order that `f` probes.
pub open spec fn probe_sorted<K>(f: spec_fn(K) -> Ordering, ks: Seq<K>) -> bool {
    forall|i: int, j: int|
        0 <= i < j < ks.len() ==> rank(#[trigger] f(ks[i])) <= rank(#[trigger] f(ks[j])) && !(f(ks[i])
            == Ordering::Equal && f(ks[j]) == Ordering::Equal)
}

/// `comp` answers as `f` does, and `ks` is sorted for `f`.
pub open spec fn sorted_for<K, C: Fn(&K) -> Ordering>(comp: C, f: spec_fn(K) -> Ordering, ks: Seq<K>) -> bool {
    refines(comp, f) && probe_sorted(f, ks)
}

/// `e` splits `ks` into the keys whose answer ranks below `r` and the keys
/// whose answer ranks at `r` or above.
pub open spec fn is_edge<K>(f: spec_fn(K) -> Ordering, ks: Seq<K>, r: int, e: int) -> bool {
    &&& 0 <= e <= ks.len()
    &&& forall|j: int| 0 <= j < e ==> rank(#[trigger] f(ks[j])) < r
    &&& forall|j: int| e <= j < ks.len() ==> rank(#[trigger] f(ks[j])) >= r
}

/// Some key of `ks` answers `Equal`.
pub open spec fn has_match<K>(f: spec_fn(K) -> Ordering, ks: Seq<K>) -> bool {
    exists|i: int| 0 <= i < ks.len() && #[trigger] f(ks[i]) == Ordering::Equal
}

/// The keys of a sequence of entries.
pub open spec fn keys_of<K, V>(s: Seq<(K, V)>) -> Seq<K> {
    s.map_values(|e: (K, V)| e.0)
}

/// The values of a sequence of entries.
pub open spec fn values_of<K, V>(s: Seq<(K, V)>) -> Seq<V> {
    s.map_values(|e: (K, V)| e.1)
}

/// A scan that saw `Greater` on every key before `i` and `o` on the key at
/// `i` tells where the target lies, for every `f` that the probe refines
/// and that `ks` is sorted for.
pub proof fn lemma_scan_stop<K, C: Fn(&K) -> Ordering>(
    comp: C,
    f: spec_fn(K) -> Ordering,
    ks: Seq<K>,
    start: int,
    i: int,
    o: Ordering,
)
    requires
        sorted_for(comp, f, ks),
        0 <= start <= i < ks.len(),
        forall|j: int| start <= j < i ==> #[trigger] gives(comp, ks[j], Ordering::Greater),
        gives(comp, ks[i], o),
        o != Ordering::Greater,
    ensures
        forall|j: int| start <= j < i ==> #[trigger] f(ks[j]) == Ordering::Greater,
        f(ks[i]) == o,
        forall|j: int| i < j < ks.len() ==> #[trigger] f(ks[j]) == Ordering::Less,
{
    assert forall|j: int| start <= j < i implies #[trigger] f(ks[j]) == Ordering::Greater by {
        assert(gives(comp, ks[j], Ordering::Greater));
    }
    assert forall|j: int| i < j < ks.len() implies #[trigger] f(ks[j]) == Ordering::Less by {
        assert(rank(f(ks[i])) <= rank(f(ks[j])));
    }
}

/// A scan that saw `Greater` on every key from `start` to the end.
pub proof fn lemma_scan_end<K, C: Fn(&K) -> Ordering>(
    comp: C,
    f: spec_fn(K) -> Ordering,
    ks: Seq<K>,
    start: int,
)
    requires
        refines(comp, f),
        0 <= start <= ks.len(),
        forall|j: int| start <= j < ks.len() ==> #[trigger] gives(comp, ks[j], Ordering::Greater),
    ensures
        forall|j: int| start <= j < ks.len() ==> #[trigger] f(ks[j]) == Ordering::Greater,
{
    assert forall|j: int| start <= j < ks.len() implies #[trigger] f(ks[j]) == Ordering::Greater by {
        assert(gives(comp, ks[j], Ordering::Greater));
    }
}

} // verus!
