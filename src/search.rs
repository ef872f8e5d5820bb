//! Point search and bound search over the ordered entries of a node.
use vstd::prelude::*;
use std::cmp::Ordering;
use std::ops::Bound;
use crate::order::{
    gives, has_match, is_edge, keys_of, lemma_scan_end, lemma_scan_stop, rank, sorted_for, total,
};

verus! {

#[verifier::external_type_specification]
#[verifier::reject_recursive_types(T)]
pub struct ExBound<T>(Bound<T>);

/// One endpoint of a range to look for.
#[derive(Clone, Copy, Debug, PartialEq, Eq, Structural)]
pub enum SearchBound {
    /// An inclusive bound to look for, just like `Bound::Included(T)`.
    Included,
    /// An exclusive bound to look for, just like `Bound::Excluded(T)`.
    Excluded,
    /// An unconditional inclusive bound, just like `Bound::Unbounded`.
    AllIncluded,
    /// An unconditional exclusive bound.
    AllExcluded,
}

impl SearchBound {
    /// The kind of bound that `range_bound` is, without its key.
    pub fn from_range<T>(range_bound: Bound<T>) -> (r: Self)
        ensures
            r == (match range_bound {
                Bound::Included(_) => SearchBound::Included,
                Bound::Excluded(_) => SearchBound::Excluded,
                Bound::Unbounded => SearchBound::AllIncluded,
            }),
    {
        match range_bound {
            Bound::Included(_) => SearchBound::Included,
            Bound::Excluded(_) => SearchBound::Excluded,
            Bound::Unbounded => SearchBound::AllIncluded,
        }
    }
}

/// One endpoint of a range to look for, as callers name it.
#[derive(Clone, Copy, Debug, PartialEq, Eq, Structural)]
pub enum SearchBoundCustom {
    /// An inclusive bound to look for, just like `Bound::Included(T)`.
    Included,
    /// An exclusive bound to look for, just like `Bound::Excluded(T)`.
    Excluded,
    /// An unconditional inclusive bound, just like `Bound::Unbounded`.
    AllIncluded,
    /// An unconditional exclusive bound.
    AllExcluded,
}

/// The search bound a caller's bound stands for.
pub open spec fn bound_of(b: SearchBoundCustom) -> SearchBound {
    match b {
        SearchBoundCustom::Included => SearchBound::Included,
        SearchBoundCustom::Excluded => SearchBound::Excluded,
        SearchBoundCustom::AllIncluded => SearchBound::AllIncluded,
        SearchBoundCustom::AllExcluded => SearchBound::AllExcluded,
    }
}

impl From<SearchBoundCustom> for SearchBound {
    fn from(bound_custom: SearchBoundCustom) -> (r: Self) {
        match bound_custom {
            SearchBoundCustom::Included => SearchBound::Included,
            SearchBoundCustom::Excluded => SearchBound::Excluded,
            SearchBoundCustom::AllIncluded => SearchBound::AllIncluded,
            SearchBoundCustom::AllExcluded => SearchBound::AllExcluded,
        }
    }
}

impl vstd::std_specs::convert::FromSpecImpl<SearchBoundCustom> for SearchBound {
    open spec fn obeys_from_spec() -> bool {
        true
    }

    open spec fn from_spec(v: SearchBoundCustom) -> Self {
        bound_of(v)
    }
}

/// The outcome of a point search: the slot of the matching entry, or the
/// edge (gap between entries) where the key belongs.
#[derive(Clone, Copy, Debug, PartialEq, Eq, Structural)]
pub enum SearchResult {
    Found(usize),
    GoDown(usize),
}

/// The outcome of a search within one node: an entry index or an edge index.
#[derive(Clone, Copy, Debug, PartialEq, Eq, Structural)]
pub enum IndexResult {
    KV(usize),
    Edge(usize),
}

/// The rank at which a lower bound starts its range.
pub open spec fn lower_rank(bound: SearchBound) -> int {
    match bound {
        SearchBound::Included => 1,
        SearchBound::Excluded => 2,
        SearchBound::AllIncluded => 0,
        SearchBound::AllExcluded => 3,
    }
}

/// The rank at which an upper bound ends its range.
pub open spec fn upper_rank(bound: SearchBound) -> int {
    match bound {
        SearchBound::Included => 2,
        SearchBound::Excluded => 1,
        SearchBound::AllIncluded => 3,
        SearchBound::AllExcluded => 0,
    }
}

/// `e` is the edge where a range with lower bound `bound` starts.
pub open spec fn lower_edge<K>(f: spec_fn(K) -> Ordering, ks: Seq<K>, bound: SearchBound, e: int) -> bool {
    match bound {
        SearchBound::AllIncluded => e == 0,
        SearchBound::AllExcluded => e == ks.len(),
        _ => is_edge(f, ks, lower_rank(bound), e),
    }
}

/// `e` is the edge where a range with upper bound `bound` ends, when the
/// range cannot end before `start`.
pub open spec fn upper_edge<K>(
    f: spec_fn(K) -> Ordering,
    ks: Seq<K>,
    bound: SearchBound,
    start: int,
    e: int,
) -> bool {
    match bound {
        SearchBound::AllIncluded => e == ks.len(),
        SearchBound::AllExcluded => e == start,
        _ => {
            &&& start <= e <= ks.len()
            &&& forall|j: int| start <= j < e ==> rank(#[trigger] f(ks[j])) < upper_rank(bound)
            &&& forall|j: int| e <= j < ks.len() ==> rank(#[trigger] f(ks[j])) >= upper_rank(bound)
        },
    }
}

/// The bound that carries a lower-bound search on below edge `e`.
pub open spec fn lower_child_bound<K>(
    f: spec_fn(K) -> Ordering,
    ks: Seq<K>,
    bound: SearchBound,
    e: int,
) -> SearchBound {
    match bound {
        SearchBound::Included => if e < ks.len() && f(ks[e]) == Ordering::Equal {
            SearchBound::AllExcluded
        } else {
            SearchBound::Included
        },
        SearchBound::Excluded => if 0 < e && f(ks[e - 1]) == Ordering::Equal {
            SearchBound::AllIncluded
        } else {
            SearchBound::Excluded
        },
        _ => bound,
    }
}

/// The bound that carries an upper-bound search on below edge `e`, for a
/// search that started at edge `start`.
pub open spec fn upper_child_bound<K>(
    f: spec_fn(K) -> Ordering,
    ks: Seq<K>,
    bound: SearchBound,
    start: int,
    e: int,
) -> SearchBound {
    match bound {
        SearchBound::Included => if start < e && f(ks[e - 1]) == Ordering::Equal {
            SearchBound::AllExcluded
        } else {
            SearchBound::Included
        },
        SearchBound::Excluded => if e < ks.len() && f(ks[e]) == Ordering::Equal {
            SearchBound::AllIncluded
        } else {
            SearchBound::Excluded
        },
        _ => bound,
    }
}

/// What a scan of `ks` from `start` saw: `comp` answered `Greater` on every
/// key it passed, and `Equal` on the entry it stopped at, or `Less` on the
/// key after the edge it stopped at.
pub open spec fn scanned<K, C: Fn(&K) -> Ordering>(comp: C, ks: Seq<K>, start: int, r: IndexResult) -> bool {
    match r {
        IndexResult::KV(i) => {
            &&& start <= i < ks.len()
            &&& gives(comp, ks[i as int], Ordering::Equal)
            &&& forall|j: int| start <= j < i ==> #[trigger] gives(comp, ks[j], Ordering::Greater)
        },
        IndexResult::Edge(i) => {
            &&& start <= i <= ks.len()
            &&& forall|j: int| start <= j < i ==> #[trigger] gives(comp, ks[j], Ordering::Greater)
            &&& i < ks.len() ==> gives(comp, ks[i as int], Ordering::Less)
        },
    }
}

/// Where the target of `f` lies in `ks`, past `start`: at the entry `i`, or
/// at the edge `i`.
pub open spec fn located<K>(f: spec_fn(K) -> Ordering, ks: Seq<K>, start: int, r: IndexResult) -> bool {
    match r {
        IndexResult::KV(i) => {
            &&& start <= i < ks.len()
            &&& f(ks[i as int]) == Ordering::Equal
            &&& forall|j: int| start <= j < i ==> #[trigger] f(ks[j]) == Ordering::Greater
            &&& forall|j: int| i < j < ks.len() ==> #[trigger] f(ks[j]) == Ordering::Less
        },
        IndexResult::Edge(i) => {
            &&& start <= i <= ks.len()
            &&& forall|j: int| start <= j < i ==> #[trigger] f(ks[j]) == Ordering::Greater
            &&& forall|j: int| i <= j < ks.len() ==> #[trigger] f(ks[j]) == Ordering::Less
        },
    }
}

/// What a scan saw tells where the target lies, for every `f` that the
/// probe refines and that the keys are sorted for.
pub proof fn lemma_located<K, C: Fn(&K) -> Ordering>(
    comp: C,
    f: spec_fn(K) -> Ordering,
    ks: Seq<K>,
    start: int,
    r: IndexResult,
)
    requires
        0 <= start,
        sorted_for(comp, f, ks),
        scanned(comp, ks, start, r),
    ensures
        located(f, ks, start, r),
{
    match r {
        IndexResult::KV(i) => {
            lemma_scan_stop(comp, f, ks, start, i as int, Ordering::Equal);
        },
        IndexResult::Edge(i) => {
            if i < ks.len() {
                lemma_scan_stop(comp, f, ks, start, i as int, Ordering::Less);
            } else {
                lemma_scan_end(comp, f, ks, start);
            }
        },
    }
}

/// A shared view of a node's ordered entries.
pub struct NodeRef<'a, K, V> {
    pub entries: &'a Vec<(K, V)>,
}

impl<'a, K, V> NodeRef<'a, K, V> {
    /// The keys of the node, in order.
    pub open spec fn keys(&self) -> Seq<K> {
        keys_of(self.entries@)
    }

    /// The number of entries in the node.
    pub fn len(&self) -> (r: usize)
        ensures
            r == self.entries@.len(),
    {
        self.entries.len()
    }

    /// Returns the index of the entry on which `comp` answers `Equal`, or the
    /// edge where the key belongs, scanning from `start_index` on.
    pub fn find_key_index<C: Fn(&K) -> Ordering>(&self, comp: &C, start_index: usize) -> (r:
        IndexResult)
        requires
            total(*comp),
            start_index <= self.entries@.len(),
        ensures
            scanned(*comp, self.keys(), start_index as int, r),
    {
        let mut i: usize = start_index;
        while i < self.entries.len()
            invariant
                total(*comp),
                start_index <= i <= self.entries@.len(),
                forall|j: int| start_index <= j < i ==> #[trigger] gives(*comp, self.keys()[j], Ordering::Greater),
            decreases self.entries@.len() - i,
        {
            let o = comp(&self.entries[i].0);
            proof {
                assert(self.keys()[i as int] == self.entries@[i as int].0);
                assert(gives(*comp, self.keys()[i as int], o));
            }
            match o {
                Ordering::Greater => {},
                Ordering::Equal => {
                    return IndexResult::KV(i);
                },
                Ordering::Less => {
                    return IndexResult::Edge(i);
                },
            }
            i = i + 1;
        }
        IndexResult::Edge(i)
    }

    /// Looks up the key that `comp` probes for. Returns a `Found` with the
    /// index of the matching entry, if any; otherwise a `GoDown` with the edge
    /// where the key belongs.
    pub fn search_node<C: Fn(&K) -> Ordering>(&self, comp: &C) -> (r: SearchResult)
        requires
            total(*comp),
        ensures
            match r {
                SearchResult::Found(i) => i < self.entries@.len(),
                SearchResult::GoDown(i) => i <= self.entries@.len(),
            },
            forall|f: spec_fn(K) -> Ordering| #[trigger] sorted_for(*comp, f, self.keys()) ==> match r {
                SearchResult::Found(i) => f(self.keys()[i as int]) == Ordering::Equal,
                SearchResult::GoDown(i) => {
                    &&& is_edge(f, self.keys(), 1, i as int)
                    &&& !has_match(f, self.keys())
                },
            },
    {
        let ir = self.find_key_index(comp, 0);
        proof {
            assert forall|f: spec_fn(K) -> Ordering| #[trigger] sorted_for(*comp, f, self.keys()) implies match ir {
                IndexResult::KV(i) => f(self.keys()[i as int]) == Ordering::Equal,
                IndexResult::Edge(i) => {
                    &&& is_edge(f, self.keys(), 1, i as int)
                    &&& !has_match(f, self.keys())
                },
            } by {
                lemma_located(*comp, f, self.keys(), 0, ir);
            }
        }
        match ir {
            IndexResult::KV(idx) => SearchResult::Found(idx),
            IndexResult::Edge(idx) => SearchResult::GoDown(idx),
        }
    }

    /// Looks up the key that `comp` probes for in the tree headed by this
    /// node. Returns a `Found` with the matching entry, if any; otherwise a
    /// `GoDown` with the leaf edge where the key belongs.
    pub fn search_tree<C: Fn(&K) -> Ordering>(self, comp: C) -> (r: SearchResult)
        requires
            total(comp),
        ensures
            match r {
                SearchResult::Found(i) => i < self.entries@.len(),
                SearchResult::GoDown(i) => i <= self.entries@.len(),
            },
            forall|f: spec_fn(K) -> Ordering| #[trigger] sorted_for(comp, f, self.keys()) ==> match r {
                SearchResult::Found(i) => f(self.keys()[i as int]) == Ordering::Equal,
                SearchResult::GoDown(i) => {
                    &&& is_edge(f, self.keys(), 1, i as int)
                    &&& !has_match(f, self.keys())
                },
            },
    {
        self.search_node(&comp)
    }

    /// Finds the edge where a range with lower bound `bound` starts, and the
    /// bound that carries the search on below that edge.
    pub fn find_lower_bound_index<C: Fn(&K) -> Ordering>(&self, comp: &C, bound: SearchBound) -> (r: (
        usize,
        SearchBound,
    ))
        requires
            total(*comp),
        ensures
            r.0 <= self.entries@.len(),
            forall|f: spec_fn(K) -> Ordering| #[trigger] sorted_for(*comp, f, self.keys()) ==> {
                &&& lower_edge(f, self.keys(), bound, r.0 as int)
                &&& r.1 == lower_child_bound(f, self.keys(), bound, r.0 as int)
            },
    {
        let _n = self.entries.len();
        match bound {
            SearchBound::Included | SearchBound::Excluded => {
                let ir = self.find_key_index(comp, 0);
                let r = match ir {
                    IndexResult::KV(idx) => if bound == SearchBound::Included {
                        (idx, SearchBound::AllExcluded)
                    } else {
                        (idx + 1, SearchBound::AllIncluded)
                    },
                    IndexResult::Edge(idx) => (idx, bound),
                };
                proof {
                    assert forall|f: spec_fn(K) -> Ordering| #[trigger] sorted_for(*comp, f, self.keys()) implies {
                        &&& lower_edge(f, self.keys(), bound, r.0 as int)
                        &&& r.1 == lower_child_bound(f, self.keys(), bound, r.0 as int)
                    } by {
                        lemma_located(*comp, f, self.keys(), 0, ir);
                    }
                }
                r
            },
            SearchBound::AllIncluded => (0, SearchBound::AllIncluded),
            SearchBound::AllExcluded => (self.entries.len(), SearchBound::AllExcluded),
        }
    }

    /// Finds the edge where a range with upper bound `bound` ends, scanning
    /// from `start_index` on, and the bound that carries the search on below
    /// that edge.
    pub fn find_upper_bound_index<C: Fn(&K) -> Ordering>(
        &self,
        comp: &C,
        bound: SearchBound,
        start_index: usize,
    ) -> (r: (usize, SearchBound))
        requires
            total(*comp),
            start_index <= self.entries@.len(),
        ensures
            start_index <= r.0 <= self.entries@.len(),
            forall|f: spec_fn(K) -> Ordering| #[trigger] sorted_for(*comp, f, self.keys()) ==> {
                &&& upper_edge(f, self.keys(), bound, start_index as int, r.0 as int)
                &&& r.1 == upper_child_bound(f, self.keys(), bound, start_index as int, r.0 as int)
            },
    {
        let _n = self.entries.len();
        match bound {
            SearchBound::Included | SearchBound::Excluded => {
                let ir = self.find_key_index(comp, start_index);
                let r = match ir {
                    IndexResult::KV(idx) => if bound == SearchBound::Included {
                        (idx + 1, SearchBound::AllExcluded)
                    } else {
                        (idx, SearchBound::AllIncluded)
                    },
                    IndexResult::Edge(idx) => (idx, bound),
                };
                proof {
                    assert forall|f: spec_fn(K) -> Ordering| #[trigger] sorted_for(*comp, f, self.keys()) implies {
                        &&& upper_edge(f, self.keys(), bound, start_index as int, r.0 as int)
                        &&& r.1 == upper_child_bound(f, self.keys(), bound, start_index as int, r.0 as int)
                    } by {
                        lemma_located(*comp, f, self.keys(), start_index as int, ir);
                    }
                }
                r
            },
            SearchBound::AllIncluded => (self.entries.len(), SearchBound::AllIncluded),
            SearchBound::AllExcluded => (start_index, SearchBound::AllExcluded),
        }
    }

    /// The edge where a range with lower bound `bound` starts, with the bound
    /// that carries the search on below it.
    pub fn find_lower_bound_edge<C: Fn(&K) -> Ordering>(self, comp: C, bound: SearchBound) -> (r: (
        usize,
        SearchBound,
    ))
        requires
            total(comp),
        ensures
            r.0 <= self.entries@.len(),
            forall|f: spec_fn(K) -> Ordering| #[trigger] sorted_for(comp, f, self.keys()) ==> {
                &&& lower_edge(f, self.keys(), bound, r.0 as int)
                &&& r.1 == lower_child_bound(f, self.keys(), bound, r.0 as int)
            },
    {
        self.find_lower_bound_index(&comp, bound)
    }

    /// The edge where a range with upper bound `bound` ends, with the bound
    /// that carries the search on below it.
    pub fn find_upper_bound_edge<C: Fn(&K) -> Ordering>(self, comp: C, bound: SearchBound) -> (r: (
        usize,
        SearchBound,
    ))
        requires
            total(comp),
        ensures
            r.0 <= self.entries@.len(),
            forall|f: spec_fn(K) -> Ordering| #[trigger] sorted_for(comp, f, self.keys()) ==> {
                &&& upper_edge(f, self.keys(), bound, 0, r.0 as int)
                &&& r.1 == upper_child_bound(f, self.keys(), bound, 0, r.0 as int)
            },
    {
        self.find_upper_bound_index(&comp, bound, 0)
    }

    /// Finds where the lower and upper ends of a range part. Returns an `Ok`
    /// with the two edges, in strictly ascending order, and the bounds that
    /// carry each search on below them, when the range holds an entry;
    /// otherwise an `Err` with the edge where the empty range sits.
    pub fn search_tree_for_bifurcation<C1: Fn(&K) -> Ordering, C2: Fn(&K) -> Ordering>(
        self,
        lower_comp: C1,
        lower_bound: SearchBound,
        upper_comp: C2,
        upper_bound: SearchBound,
    ) -> (r: Result<(usize, usize, SearchBound, SearchBound), usize>)
        requires
            total(lower_comp),
            total(upper_comp),
        ensures
            match r {
                Ok((l, u, _, _)) => l < u <= self.entries@.len(),
                Err(e) => e <= self.entries@.len(),
            },
            forall|f: spec_fn(K) -> Ordering, g: spec_fn(K) -> Ordering|
                #[trigger] sorted_for(lower_comp, f, self.keys()) && #[trigger] sorted_for(upper_comp, g, self.keys())
                    ==> match r {
                    Ok((l, u, lb, ub)) => {
                        &&& lower_edge(f, self.keys(), lower_bound, l as int)
                        &&& upper_edge(g, self.keys(), upper_bound, l as int, u as int)
                        &&& lb == lower_child_bound(f, self.keys(), lower_bound, l as int)
                        &&& ub == upper_child_bound(g, self.keys(), upper_bound, l as int, u as int)
                    },
                    Err(e) => {
                        &&& lower_edge(f, self.keys(), lower_bound, e as int)
                        &&& upper_edge(g, self.keys(), upper_bound, e as int, e as int)
                    },
                },
    {
        let (lower_edge_idx, lower_child) = self.find_lower_bound_index(&lower_comp, lower_bound);
        let (upper_edge_idx, upper_child) = self.find_upper_bound_index(
            &upper_comp,
            upper_bound,
            lower_edge_idx,
        );
        if lower_edge_idx < upper_edge_idx {
            Ok((lower_edge_idx, upper_edge_idx, lower_child, upper_child))
        } else {
            Err(lower_edge_idx)
        }
    }
}

} // verus!
