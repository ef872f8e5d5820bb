use copse::{BTreeMap, Entry, SearchBound};
use std::cmp::Ordering;

fn probe(t: i32) -> impl Fn(&i32) -> Ordering {
    move |k: &i32| t.cmp(k)
}

fn map_of(keys: &[i32]) -> BTreeMap<i32, i32> {
    let mut m = BTreeMap::new();
    for &k in keys {
        m.insert(k, k * 10, probe(k));
    }
    m
}

fn keys(m: &BTreeMap<i32, i32>) -> Vec<i32> {
    let mut out = Vec::new();
    let mut it = m.keys();
    while let Some(k) = it.next() {
        out.push(*k);
    }
    out
}

#[test]
fn insert_keeps_keys_ascending() {
    let m = map_of(&[5, 1, 4, 2, 3, 9, 0]);
    assert_eq!(keys(&m), vec![0, 1, 2, 3, 4, 5, 9]);
    assert_eq!(m.len(), 7);
    assert_eq!(m.iter().len(), 7);
}

#[test]
fn insert_then_get_round_trip() {
    let mut m = map_of(&[1, 2, 3]);
    assert_eq!(m.insert(7, 70, probe(7)), None);
    assert_eq!(m.get(probe(7)), Some(&70));
    assert_eq!(m.len(), 4);
    assert_eq!(m.insert(7, 71, probe(7)), Some(70));
    assert_eq!(m.get(probe(7)), Some(&71));
    assert_eq!(m.len(), 4);
}

#[test]
fn remove_then_get_absent() {
    let mut m = map_of(&[1, 2, 3]);
    assert_eq!(m.remove(probe(2)), Some(20));
    assert_eq!(m.get(probe(2)), None);
    assert_eq!(m.len(), 2);
    assert_eq!(m.remove(probe(2)), None);
    assert_eq!(m.len(), 2);
    assert_eq!(m.remove_entry(probe(3)), Some((3, 30)));
    assert_eq!(keys(&m), vec![1]);
}

#[test]
fn get_on_empty_map() {
    let m: BTreeMap<i32, i32> = BTreeMap::new();
    assert_eq!(m.get(probe(1)), None);
    assert!(!m.contains_key(probe(1)));
    assert!(m.is_empty());
    assert_eq!(m.first_key_value(), None);
    assert_eq!(m.last_key_value(), None);
}

#[test]
fn lookups_by_key() {
    let m = map_of(&[1, 2, 3]);
    assert_eq!(m.get_key_value(probe(2)), Some((&2, &20)));
    assert!(m.contains_key(probe(3)));
    assert!(!m.contains_key(probe(4)));
    assert_eq!(m.first_key_value(), Some((&1, &10)));
    assert_eq!(m.last_key_value(), Some((&3, &30)));
}

#[test]
fn get_mut_changes_value() {
    let mut m = map_of(&[1, 2, 3]);
    if let Some(v) = m.get_mut(probe(2)) {
        *v = 99;
    }
    assert_eq!(m.get(probe(2)), Some(&99));
    assert!(m.get_mut(probe(5)).is_none());
}

#[test]
fn pop_first_and_last() {
    let mut m = map_of(&[1, 2, 3]);
    assert_eq!(m.pop_first(), Some((1, 10)));
    assert_eq!(m.pop_last(), Some((3, 30)));
    assert_eq!(keys(&m), vec![2]);
    assert_eq!(m.pop_last(), Some((2, 20)));
    assert_eq!(m.pop_first(), None);
    assert_eq!(m.pop_last(), None);
}

#[test]
fn range_excluded_lower_starts_after_key() {
    let m = map_of(&[1, 2, 3, 4]);
    let mut r = m.range(probe(2), SearchBound::Excluded, probe(0), SearchBound::AllIncluded);
    assert_eq!(r.next(), Some((&3, &30)));
    assert_eq!(r.next(), Some((&4, &40)));
    assert_eq!(r.next(), None);
}

#[test]
fn range_bounds_of_each_kind() {
    let m = map_of(&[1, 2, 3, 4, 5]);
    let mut r = m.range(probe(2), SearchBound::Included, probe(4), SearchBound::Excluded);
    assert_eq!(r.next(), Some((&2, &20)));
    assert_eq!(r.next_back(), Some((&3, &30)));
    assert_eq!(r.next(), None);
    let mut r = m.range(probe(2), SearchBound::Excluded, probe(4), SearchBound::Included);
    assert_eq!(r.next_back(), Some((&4, &40)));
    assert_eq!(r.next_back(), Some((&3, &30)));
    assert_eq!(r.next_back(), None);
    let mut r = m.range(probe(0), SearchBound::AllExcluded, probe(9), SearchBound::AllIncluded);
    assert_eq!(r.next(), None);
    let mut r = m.range(probe(0), SearchBound::AllIncluded, probe(0), SearchBound::AllExcluded);
    assert_eq!(r.next(), None);
    let mut r = m.range(probe(4), SearchBound::Included, probe(2), SearchBound::Included);
    assert_eq!(r.next(), None);
}

#[test]
fn split_off_at_key() {
    let mut left = BTreeMap::new();
    for k in [1, 2, 3, 17, 41] {
        left.insert(k, k, probe(k));
    }
    let right = left.split_off(probe(3));
    assert_eq!(left.len(), 2);
    assert_eq!(right.len(), 3);
    assert_eq!(keys(&left), vec![1, 2]);
    assert_eq!(keys(&right), vec![3, 17, 41]);
}

#[test]
fn split_off_empty_and_past_end() {
    let mut m: BTreeMap<i32, i32> = BTreeMap::new();
    let r = m.split_off(probe(3));
    assert!(r.is_empty() && m.is_empty());
    let mut m = map_of(&[1, 2]);
    let r = m.split_off(probe(9));
    assert_eq!(keys(&m), vec![1, 2]);
    assert!(r.is_empty());
}

#[test]
fn retain_even_keys() {
    let mut m = BTreeMap::new();
    for k in 0..8 {
        m.insert(k, k, probe(k));
    }
    m.retain(|k: &i32, _v: &i32| k % 2 == 0);
    assert_eq!(keys(&m), vec![0, 2, 4, 6]);
}

#[test]
fn drain_filter_yields_removed_in_order() {
    let mut m = BTreeMap::new();
    for k in 0..8 {
        m.insert(k, k, probe(k));
    }
    let mut removed = m.drain_filter(|k: &i32, _v: &i32| k % 2 == 1);
    let mut out = Vec::new();
    while let Some((k, _)) = removed.next() {
        out.push(k);
    }
    assert_eq!(out, vec![1, 3, 5, 7]);
    assert_eq!(keys(&m), vec![0, 2, 4, 6]);
}

#[test]
fn drain_filter_abandoned_early() {
    let mut m = BTreeMap::new();
    for k in 0..8 {
        m.insert(k, k, probe(k));
    }
    {
        let mut removed = m.drain_filter(|k: &i32, _v: &i32| k % 2 == 1);
        assert_eq!(removed.next(), Some((1, 1)));
    }
    assert_eq!(keys(&m), vec![0, 2, 4, 6]);
    assert_eq!(m.len(), 4);
    assert_eq!(m.insert(3, 3, probe(3)), None);
    assert_eq!(keys(&m), vec![0, 2, 3, 4, 6]);
}

#[test]
fn clear_twice() {
    let mut m = map_of(&[1, 2, 3]);
    m.clear();
    assert!(m.is_empty());
    m.clear();
    assert!(m.is_empty());
    assert_eq!(m.len(), 0);
}

#[test]
fn append_empty_is_no_op() {
    let mut a = map_of(&[1, 2, 3]);
    let mut b: BTreeMap<i32, i32> = BTreeMap::new();
    a.append(&mut b, |x: &(i32, i32), y: &(i32, i32)| x.0.cmp(&y.0));
    assert_eq!(keys(&a), vec![1, 2, 3]);
    assert!(b.is_empty());
}

#[test]
fn append_into_empty_takes_other() {
    let mut a: BTreeMap<i32, i32> = BTreeMap::new();
    let mut b = map_of(&[4, 5]);
    a.append(&mut b, |x: &(i32, i32), y: &(i32, i32)| x.0.cmp(&y.0));
    assert_eq!(keys(&a), vec![4, 5]);
    assert!(b.is_empty());
}

#[test]
fn append_later_entries_win() {
    let mut a = BTreeMap::new();
    a.insert(1, "a", probe(1));
    a.insert(2, "b", probe(2));
    a.insert(3, "c", probe(3));
    let mut b = BTreeMap::new();
    b.insert(3, "d", probe(3));
    b.insert(4, "e", probe(4));
    b.insert(5, "f", probe(5));
    a.append(&mut b, |x: &(i32, &str), y: &(i32, &str)| x.0.cmp(&y.0));
    assert_eq!(a.len(), 5);
    assert_eq!(b.len(), 0);
    assert_eq!(a.get(probe(1)), Some(&"a"));
    assert_eq!(a.get(probe(2)), Some(&"b"));
    assert_eq!(a.get(probe(3)), Some(&"d"));
    assert_eq!(a.get(probe(4)), Some(&"e"));
    assert_eq!(a.get(probe(5)), Some(&"f"));
}

#[test]
fn append_interleaves() {
    let mut a = map_of(&[1, 4, 9]);
    let mut b = map_of(&[0, 5, 10, 11]);
    a.append(&mut b, |x: &(i32, i32), y: &(i32, i32)| x.0.cmp(&y.0));
    assert_eq!(keys(&a), vec![0, 1, 4, 5, 9, 10, 11]);
}

#[test]
fn entry_vacant_and_occupied() {
    let mut m = map_of(&[1, 3]);
    match m.entry(2, probe(2)) {
        Entry::Vacant(v) => {
            assert_eq!(*v.key(), 2);
            *v.insert(20) += 1;
        }
        Entry::Occupied(_) => panic!("key 2 is absent"),
    }
    assert_eq!(m.get(probe(2)), Some(&21));
    match m.entry(3, probe(3)) {
        Entry::Occupied(mut o) => {
            assert_eq!(*o.key(), 3);
            assert_eq!(*o.get(), 30);
            assert_eq!(o.insert(33), 30);
            *o.get_mut() += 1;
        }
        Entry::Vacant(_) => panic!("key 3 is present"),
    }
    assert_eq!(m.get(probe(3)), Some(&34));
    match m.entry(1, probe(1)) {
        Entry::Occupied(o) => assert_eq!(o.remove_entry(), (1, 10)),
        Entry::Vacant(_) => panic!("key 1 is present"),
    }
    assert_eq!(keys(&m), vec![2, 3]);
}

#[test]
fn entry_or_insert() {
    let mut m = map_of(&[1]);
    *m.entry(5, probe(5)).or_insert(0) += 7;
    *m.entry(5, probe(5)).or_insert(0) += 7;
    assert_eq!(m.get(probe(5)), Some(&14));
    assert_eq!(*m.entry(1, probe(1)).or_insert(0), 10);
    assert_eq!(*m.entry(9, probe(9)).key(), 9);
}

#[test]
fn vacant_into_key_leaves_map() {
    let mut m = map_of(&[1]);
    match m.entry(4, probe(4)) {
        Entry::Vacant(v) => assert_eq!(v.into_key(), 4),
        Entry::Occupied(_) => panic!("key 4 is absent"),
    }
    assert_eq!(keys(&m), vec![1]);
}

#[test]
fn first_and_last_entry() {
    let mut m = map_of(&[1, 2, 3]);
    if let Some(e) = m.first_entry() {
        assert_eq!(e.remove(), 10);
    }
    if let Some(mut e) = m.last_entry() {
        assert_eq!(*e.key(), 3);
        e.insert(0);
    }
    assert_eq!(m.get(probe(3)), Some(&0));
    assert_eq!(keys(&m), vec![2, 3]);
    let mut empty: BTreeMap<i32, i32> = BTreeMap::new();
    assert!(empty.first_entry().is_none());
    assert!(empty.last_entry().is_none());
}

#[test]
fn try_insert_absent_and_present() {
    let mut m = map_of(&[1]);
    match m.try_insert(2, 5, probe(2)) {
        Ok(v) => *v += 1,
        Err(_) => panic!("key 2 is absent"),
    }
    assert_eq!(m.get(probe(2)), Some(&6));
    match m.try_insert(1, 7, probe(1)) {
        Ok(_) => panic!("key 1 is present"),
        Err(e) => {
            assert_eq!(e.value, 7);
            assert_eq!(*e.entry.get(), 10);
        }
    }
    assert_eq!(m.get(probe(1)), Some(&10));
}

#[test]
fn iterators_from_both_ends() {
    let m = map_of(&[1, 2, 3]);
    let mut it = m.iter();
    assert_eq!(it.next(), Some((&1, &10)));
    assert_eq!(it.next_back(), Some((&3, &30)));
    assert_eq!(it.len(), 1);
    assert_eq!(it.next(), Some((&2, &20)));
    assert_eq!(it.next(), None);
    assert_eq!(it.next_back(), None);
    let mut vs = m.values();
    assert_eq!(vs.next_back(), Some(&30));
    assert_eq!(vs.next(), Some(&10));
    assert_eq!(vs.len(), 1);
    let mut ks = m.keys();
    assert_eq!(ks.next_back(), Some(&3));
    assert_eq!(ks.len(), 2);
}

#[test]
fn owning_iterators() {
    let m = map_of(&[1, 2, 3]);
    let mut it = m.clone().into_iter();
    assert_eq!(it.len(), 3);
    assert_eq!(it.next(), Some((1, 10)));
    assert_eq!(it.next_back(), Some((3, 30)));
    assert_eq!(it.next(), Some((2, 20)));
    assert_eq!(it.next(), None);
    let mut ks = m.clone().into_keys();
    assert_eq!(ks.next_back(), Some(3));
    assert_eq!(ks.next(), Some(1));
    assert_eq!(ks.len(), 1);
    let mut vs = m.into_values();
    assert_eq!(vs.next(), Some(10));
    assert_eq!(vs.next_back(), Some(30));
    assert_eq!(vs.len(), 1);
}

#[test]
fn default_is_empty() {
    let m: BTreeMap<i32, i32> = BTreeMap::default();
    assert!(m.is_empty());
}

#[test]
fn comparator_on_other_key_type() {
    let mut m: BTreeMap<String, usize> = BTreeMap::new();
    for w in ["pear", "apple", "fig"] {
        let t = w.to_string();
        m.insert(w.to_string(), w.len(), move |k: &String| t.as_str().cmp(k.as_str()));
    }
    assert_eq!(m.get(|k: &String| "fig".cmp(k.as_str())), Some(&3));
    let mut it = m.keys();
    assert_eq!(it.next().map(|s| s.as_str()), Some("apple"));
}

#[test]
fn iter_mut_changes_every_value() {
    let mut m = map_of(&[1, 2, 3]);
    {
        let mut it = m.iter_mut();
        assert_eq!(it.len(), 3);
        while let Some((k, v)) = it.next() {
            *v += *k;
        }
    }
    assert_eq!(m.get(probe(1)), Some(&11));
    assert_eq!(m.get(probe(3)), Some(&33));
    {
        let mut it = m.iter_mut();
        if let Some((k, v)) = it.next_back() {
            assert_eq!(*k, 3);
            *v = 0;
        }
        assert_eq!(it.len(), 2);
    }
    assert_eq!(m.get(probe(3)), Some(&0));
}

#[test]
fn values_mut_from_both_ends() {
    let mut m = map_of(&[1, 2, 3]);
    {
        let mut vs = m.values_mut();
        if let Some(v) = vs.next() {
            *v = 100;
        }
        if let Some(v) = vs.next_back() {
            *v = 300;
        }
        assert_eq!(vs.len(), 1);
    }
    assert_eq!(m.get(probe(1)), Some(&100));
    assert_eq!(m.get(probe(2)), Some(&20));
    assert_eq!(m.get(probe(3)), Some(&300));
}

#[test]
fn range_mut_touches_only_range() {
    let mut m = map_of(&[1, 2, 3, 4, 5]);
    {
        let mut r = m.range_mut(probe(2), SearchBound::Included, probe(4), SearchBound::Excluded);
        while let Some((_, v)) = r.next() {
            *v = -1;
        }
    }
    assert_eq!(m.get(probe(1)), Some(&10));
    assert_eq!(m.get(probe(2)), Some(&-1));
    assert_eq!(m.get(probe(3)), Some(&-1));
    assert_eq!(m.get(probe(4)), Some(&40));
    {
        let mut r = m.range_mut(probe(3), SearchBound::Excluded, probe(0), SearchBound::AllIncluded);
        assert_eq!(r.next_back().map(|(k, _)| *k), Some(5));
        assert_eq!(r.next().map(|(k, _)| *k), Some(4));
        assert!(r.next().is_none());
    }
}

#[test]
fn many_inserts_and_removals_match_a_reference_map() {
    let mut m: BTreeMap<i32, i32> = BTreeMap::new();
    let mut reference = std::collections::BTreeMap::new();
    let mut x: i64 = 12345;
    for step in 0..2000 {
        x = (x * 1103515245 + 12345) % 2147483648;
        let k = (x % 300) as i32;
        if step % 3 == 2 {
            assert_eq!(m.remove(probe(k)), reference.remove(&k));
        } else {
            assert_eq!(m.insert(k, step, probe(k)), reference.insert(k, step));
        }
        assert_eq!(m.len(), reference.len());
    }
    let mut it = m.iter();
    for (k, v) in reference.iter() {
        assert_eq!(it.next(), Some((k, v)));
    }
    assert_eq!(it.next(), None);
}

#[test]
fn set_style_take_and_replace() {
    let mut s: BTreeMap<(i32, &str), ()> = BTreeMap::new();
    let by_num = |t: i32| move |k: &(i32, &str)| t.cmp(&k.0);
    assert_eq!(s.replace((1, "one"), by_num(1)), None);
    assert_eq!(s.replace((2, "two"), by_num(2)), None);
    assert_eq!(s.replace((1, "uno"), by_num(1)), Some((1, "one")));
    assert_eq!(s.len(), 2);
    assert_eq!(s.get_key_value(by_num(1)), Some((&(1, "uno"), &())));
    assert_eq!(s.take(by_num(2)), Some((2, "two")));
    assert_eq!(s.take(by_num(2)), None);
    assert_eq!(s.len(), 1);
}
