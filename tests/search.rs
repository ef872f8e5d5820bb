use copse::{IndexResult, NodeRef, SearchBound, SearchBoundCustom, SearchResult};
use std::cmp::Ordering;
use std::ops::Bound;

fn probe(t: i32) -> impl Fn(&i32) -> Ordering {
    move |k: &i32| t.cmp(k)
}

fn entries() -> Vec<(i32, i32)> {
    vec![(1, 10), (3, 30), (5, 50), (7, 70)]
}

#[test]
fn bound_kinds_from_range() {
    assert_eq!(SearchBound::from_range(Bound::Included(4)), SearchBound::Included);
    assert_eq!(SearchBound::from_range(Bound::Excluded(4)), SearchBound::Excluded);
    assert_eq!(SearchBound::from_range::<i32>(Bound::Unbounded), SearchBound::AllIncluded);
}

#[test]
fn bound_kinds_from_custom() {
    assert_eq!(SearchBound::from(SearchBoundCustom::Included), SearchBound::Included);
    assert_eq!(SearchBound::from(SearchBoundCustom::Excluded), SearchBound::Excluded);
    assert_eq!(SearchBound::from(SearchBoundCustom::AllIncluded), SearchBound::AllIncluded);
    assert_eq!(SearchBound::from(SearchBoundCustom::AllExcluded), SearchBound::AllExcluded);
}

#[test]
fn search_tree_found_and_go_down() {
    let e = entries();
    assert_eq!(NodeRef { entries: &e }.search_tree(probe(5)), SearchResult::Found(2));
    assert_eq!(NodeRef { entries: &e }.search_tree(probe(4)), SearchResult::GoDown(2));
    assert_eq!(NodeRef { entries: &e }.search_tree(probe(0)), SearchResult::GoDown(0));
    assert_eq!(NodeRef { entries: &e }.search_tree(probe(9)), SearchResult::GoDown(4));
    let empty: Vec<(i32, i32)> = Vec::new();
    assert_eq!(NodeRef { entries: &empty }.search_tree(probe(1)), SearchResult::GoDown(0));
}

#[test]
fn key_index_from_start() {
    let e = entries();
    let n = NodeRef { entries: &e };
    assert_eq!(n.find_key_index(&probe(3), 0), IndexResult::KV(1));
    assert_eq!(n.find_key_index(&probe(6), 1), IndexResult::Edge(3));
    assert_eq!(n.find_key_index(&probe(6), 4), IndexResult::Edge(4));
    assert_eq!(n.len(), 4);
}

#[test]
fn lower_bound_indices() {
    let e = entries();
    let n = NodeRef { entries: &e };
    assert_eq!(n.find_lower_bound_index(&probe(3), SearchBound::Included), (1, SearchBound::AllExcluded));
    assert_eq!(n.find_lower_bound_index(&probe(4), SearchBound::Included), (2, SearchBound::Included));
    assert_eq!(n.find_lower_bound_index(&probe(3), SearchBound::Excluded), (2, SearchBound::AllIncluded));
    assert_eq!(n.find_lower_bound_index(&probe(4), SearchBound::Excluded), (2, SearchBound::Excluded));
    assert_eq!(n.find_lower_bound_index(&probe(4), SearchBound::AllIncluded), (0, SearchBound::AllIncluded));
    assert_eq!(n.find_lower_bound_index(&probe(4), SearchBound::AllExcluded), (4, SearchBound::AllExcluded));
}

#[test]
fn upper_bound_indices() {
    let e = entries();
    let n = NodeRef { entries: &e };
    assert_eq!(n.find_upper_bound_index(&probe(5), SearchBound::Included, 0), (3, SearchBound::AllExcluded));
    assert_eq!(n.find_upper_bound_index(&probe(5), SearchBound::Excluded, 0), (2, SearchBound::AllIncluded));
    assert_eq!(n.find_upper_bound_index(&probe(6), SearchBound::Included, 1), (3, SearchBound::Included));
    assert_eq!(n.find_upper_bound_index(&probe(6), SearchBound::AllIncluded, 1), (4, SearchBound::AllIncluded));
    assert_eq!(n.find_upper_bound_index(&probe(6), SearchBound::AllExcluded, 1), (1, SearchBound::AllExcluded));
}

#[test]
fn bound_edges() {
    let e = entries();
    assert_eq!(NodeRef { entries: &e }.find_lower_bound_edge(probe(5), SearchBound::Included), (2, SearchBound::AllExcluded));
    assert_eq!(NodeRef { entries: &e }.find_upper_bound_edge(probe(5), SearchBound::Included), (3, SearchBound::AllExcluded));
}

#[test]
fn bifurcation_found_and_empty() {
    let e = entries();
    assert_eq!(
        NodeRef { entries: &e }.search_tree_for_bifurcation(probe(3), SearchBound::Included, probe(5), SearchBound::Included),
        Ok((1, 3, SearchBound::AllExcluded, SearchBound::AllExcluded))
    );
    assert_eq!(
        NodeRef { entries: &e }.search_tree_for_bifurcation(probe(3), SearchBound::Excluded, probe(5), SearchBound::Excluded),
        Err(2)
    );
    assert_eq!(
        NodeRef { entries: &e }.search_tree_for_bifurcation(probe(0), SearchBound::AllIncluded, probe(0), SearchBound::AllIncluded),
        Ok((0, 4, SearchBound::AllIncluded, SearchBound::AllIncluded))
    );
}
