use copse::{BTreeMap, SearchBound};
use std::cmp::Ordering;

fn probe(t: i32) -> impl Fn(&i32) -> Ordering {
    move |k: &i32| t.cmp(k)
}

fn map_of(keys: &[i32]) -> BTreeMap<i32, i32> {
    let mut m = BTreeMap::new();
    for &k in keys {
        m.insert(k, k * 10, probe(k));
    }
    m
}

fn keys(m: &BTreeMap<i32, i32>) -> Vec<i32> {
    let mut out = Vec::new();
    let mut it = m.keys();
    while let Some(k) = it.next() {
        out.push(*k);
    }
    out
}

#[test]
fn lower_bound_excluded_key() {
    let m = map_of(&[1, 2, 3, 4]);
    let c = m.lower_bound(probe(2), SearchBound::Excluded);
    assert_eq!(c.key(), Some(&3));
    let c = m.lower_bound(probe(2), SearchBound::Included);
    assert_eq!(c.key(), Some(&2));
    let c = m.lower_bound(probe(9), SearchBound::Included);
    assert_eq!(c.key(), None);
    let c = m.lower_bound(probe(0), SearchBound::AllIncluded);
    assert_eq!(c.key(), Some(&1));
}

#[test]
fn upper_bound_keys() {
    let m = map_of(&[1, 2, 3, 4]);
    let c = m.upper_bound(probe(3), SearchBound::Excluded);
    assert_eq!(c.key(), Some(&2));
    let c = m.upper_bound(probe(3), SearchBound::Included);
    assert_eq!(c.key(), Some(&3));
    let c = m.upper_bound(probe(0), SearchBound::AllIncluded);
    assert_eq!(c.key_value(), Some((&4, &40)));
    let c = m.upper_bound(probe(1), SearchBound::Excluded);
    assert_eq!(c.value(), None);
}

#[test]
fn cursor_ghost_is_circular() {
    let m = map_of(&[1, 2, 3]);
    let mut c = m.lower_bound(probe(0), SearchBound::AllIncluded);
    assert_eq!(c.key(), Some(&1));
    c.move_prev();
    assert_eq!(c.key(), None);
    c.move_next();
    assert_eq!(c.key(), Some(&1));
    c.move_next();
    c.move_next();
    assert_eq!(c.key(), Some(&3));
    c.move_next();
    assert_eq!(c.key(), None);
    c.move_next();
    assert_eq!(c.key(), Some(&1));
}

#[test]
fn cursor_peeks() {
    let m = map_of(&[1, 2, 3]);
    let c = m.lower_bound(probe(2), SearchBound::Included);
    assert_eq!(c.peek_next(), Some((&3, &30)));
    assert_eq!(c.peek_prev(), Some((&1, &10)));
    let g = m.lower_bound(probe(0), SearchBound::AllExcluded);
    assert_eq!(g.key(), None);
    assert_eq!(g.peek_next(), Some((&1, &10)));
    assert_eq!(g.peek_prev(), Some((&3, &30)));
}

#[test]
fn cursor_on_empty_map() {
    let m: BTreeMap<i32, i32> = BTreeMap::new();
    let mut c = m.lower_bound(probe(0), SearchBound::AllIncluded);
    assert_eq!(c.key(), None);
    c.move_next();
    assert_eq!(c.key(), None);
    c.move_prev();
    assert_eq!(c.peek_next(), None);
}

#[test]
fn cursor_mut_inserts() {
    let mut m = map_of(&[10, 30]);
    {
        let mut c = m.lower_bound_mut(probe(10), SearchBound::Included);
        c.insert_after(20, 200, probe(20));
        assert_eq!(c.key(), Some(&10));
        c.insert_before(5, 50, probe(5));
        assert_eq!(c.key(), Some(&10));
        assert_eq!(c.peek_next().map(|(k, v)| (*k, *v)), Some((20, 200)));
        assert_eq!(c.peek_prev().map(|(k, v)| (*k, *v)), Some((5, 50)));
    }
    assert_eq!(keys(&m), vec![5, 10, 20, 30]);
    {
        let mut c = m.lower_bound_mut(probe(99), SearchBound::Included);
        assert_eq!(c.key(), None);
        c.insert_before_unchecked(40, 400);
        c.insert_after_unchecked(1, 10);
        assert_eq!(c.key(), None);
    }
    assert_eq!(keys(&m), vec![1, 5, 10, 20, 30, 40]);
}

#[test]
fn cursor_mut_edits_values() {
    let mut m = map_of(&[1, 2, 3]);
    {
        let mut c = m.upper_bound_mut(probe(2), SearchBound::Included);
        if let Some(v) = c.value_mut() {
            *v = 7;
        }
        if let Some((k, v)) = c.key_value_mut() {
            assert_eq!(*k, 2);
            *v += 1;
        }
        if let Some((_, v)) = c.peek_next() {
            *v = 0;
        }
        assert_eq!(c.as_cursor().key(), Some(&2));
        assert_eq!(c.value(), Some(&8));
        assert_eq!(c.key_value(), Some((&2, &8)));
    }
    assert_eq!(m.get(probe(2)), Some(&8));
    assert_eq!(m.get(probe(3)), Some(&0));
}

#[test]
fn cursor_mut_key_edit() {
    let mut m = map_of(&[1, 2, 3]);
    {
        let mut c = m.lower_bound_mut(probe(2), SearchBound::Included);
        if let Some(k) = c.key_mut_unchecked() {
            *k = 2;
        }
        c.move_next();
        c.move_prev();
        assert_eq!(c.key(), Some(&2));
    }
    assert_eq!(keys(&m), vec![1, 2, 3]);
}

#[test]
fn cursor_mut_removals() {
    let mut m = map_of(&[1, 2, 3, 4]);
    {
        let mut c = m.lower_bound_mut(probe(2), SearchBound::Included);
        assert_eq!(c.remove_current(), Some((2, 20)));
        assert_eq!(c.key(), Some(&3));
        assert_eq!(c.remove_current_and_move_back(), Some((3, 30)));
        assert_eq!(c.key(), Some(&1));
        assert_eq!(c.remove_current_and_move_back(), Some((1, 10)));
        assert_eq!(c.key(), None);
        assert_eq!(c.remove_current(), None);
        c.move_prev();
        assert_eq!(c.remove_current(), Some((4, 40)));
        assert_eq!(c.key(), None);
    }
    assert!(m.is_empty());
}
