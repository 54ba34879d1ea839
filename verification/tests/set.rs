use interning::intern::{EqWith, Interned, Interner};
use interning::set::{option_eq_by, set_eq_by, InternedSet};

fn handles(ids: &[u32]) -> Vec<Interned<String>> {
    ids.iter().map(|id| Interned::from_id(*id)).collect()
}

#[test]
fn empty_sets_are_equal() {
    let lhs: Vec<u32> = Vec::new();
    let rhs: Vec<u64> = Vec::new();
    assert!(set_eq_by(&lhs, &rhs, |x, y| u64::from(*x) == *y));
}

#[test]
fn single_different_elements_are_unequal() {
    assert!(!set_eq_by(&["A"], &["B"], |x, y| x == y));
    assert!(set_eq_by(&["A"], &["A"], |x, y| x == y));
}

#[test]
fn sizes_must_agree() {
    assert!(!set_eq_by(&[1u32, 2], &[1u32], |x, y| x == y));
    assert!(!set_eq_by(&[1u32], &[1u32, 1], |x, y| x == y));
    let none: [u32; 0] = [];
    assert!(!set_eq_by(&none, &[1u32], |x, y| x == y));
}

#[test]
fn order_does_not_matter() {
    assert!(set_eq_by(&[1u32, 2, 3], &[3u32, 1, 2], |x, y| x == y));
    assert!(set_eq_by(&[3u32, 2, 1], &[1u32, 2, 3], |x, y| x == y));
    assert!(!set_eq_by(&[1u32, 2, 3], &[3u32, 1, 4], |x, y| x == y));
}

#[test]
fn repeated_elements_are_counted() {
    assert!(set_eq_by(&[1u32, 1, 2], &[1u32, 2, 1], |x, y| x == y));
    assert!(!set_eq_by(&[1u32, 1, 2], &[1u32, 2, 2], |x, y| x == y));
}

#[test]
fn first_come_first_served_can_miss_a_pairing() {
    // 1 may pair with "a" or "b", 2 only with "a": taking the first free
    // partner for 1 leaves none for 2.
    let pred = |x: &u32, y: &&str| match (*x, *y) {
        (1, _) => true,
        (2, "a") => true,
        _ => false,
    };
    assert!(!set_eq_by(&[1u32, 2], &["a", "b"], pred));
    assert!(set_eq_by(&[2u32, 1], &["a", "b"], pred));
}

#[test]
fn optional_values_compare_by_presence_first() {
    let none: Option<u32> = None;
    assert!(option_eq_by(&none, &none, |x, y| x == y));
    assert!(!option_eq_by(&Some(1u32), &none, |x, y| x == y));
    assert!(!option_eq_by(&none, &Some(1u32), |x, y| x == y));
    assert!(option_eq_by(&Some(1u32), &Some(1u32), |x, y| x == y));
    assert!(!option_eq_by(&Some(1u32), &Some(2u32), |x, y| x == y));
}

#[test]
fn a_set_is_sorted_by_number() {
    let set = InternedSet::new(handles(&[7, 3, 5, 3, 0]));
    assert_eq!(set.ids(), vec![0u32, 3, 3, 5, 7]);
    assert_eq!(set.len(), 5);
    assert_eq!(set, InternedSet::new(handles(&[0, 3, 3, 5, 7])));
    assert_ne!(set, InternedSet::new(handles(&[0, 3, 5, 7])));
}

#[test]
fn a_set_compares_with_unresolved_values() {
    let mut store: Interner<String> = Interner::new();
    let mut set = Vec::new();
    for word in ["c", "a", "b"] {
        set.push(Interned::from(&mut store, word.to_owned()));
    }
    let set = InternedSet::new(set);
    let same = vec!["a".to_owned(), "b".to_owned(), "c".to_owned()];
    let other = vec!["a".to_owned(), "b".to_owned(), "d".to_owned()];
    let short = vec!["a".to_owned(), "b".to_owned()];
    assert!(set.set_eq_by(&same, |x, y| x.eq_with(y, &store)));
    assert!(!set.set_eq_by(&other, |x, y| x.eq_with(y, &store)));
    assert!(!set.set_eq_by(&short, |x, y| x.eq_with(y, &store)));
}

#[test]
fn a_set_is_written_as_run_length_tokens() {
    let set = InternedSet::new(handles(&[14, 5, 13, 6, 12, 7, 10]));
    assert_eq!(set.to_tokens(), vec![5i64, -2, 3, 2, -2]);
    let empty = InternedSet::new(handles(&[]));
    assert_eq!(empty.to_tokens(), Vec::<i64>::new());
}

#[test]
fn a_set_is_read_from_run_length_tokens() {
    let read: InternedSet<String> = InternedSet::from_tokens(&[5, -2, 3, 2, -2]).unwrap();
    assert_eq!(read.ids(), vec![5u32, 6, 7, 10, 12, 13, 14]);
    assert_eq!(read, InternedSet::new(handles(&[5, 6, 7, 10, 12, 13, 14])));
    let none: Option<InternedSet<String>> = InternedSet::from_tokens(&[0xffff_ffff, 1]);
    assert!(none.is_none());
}

#[test]
fn a_set_round_trips_through_its_tokens() {
    for ids in [vec![], vec![9], vec![4, 4], vec![1, 2, 3, 9, 10, 40], vec![0, 1, 0xffff_ffff]] {
        let set = InternedSet::new(handles(&ids));
        let read: InternedSet<String> = InternedSet::from_tokens(&set.to_tokens()).unwrap();
        assert_eq!(read, set);
    }
}

#[test]
fn sets_of_different_lengths_differ_whatever_the_predicate() {
    let calls = std::cell::Cell::new(0u32);
    let always = |_: &u32, _: &u32| {
        calls.set(calls.get() + 1);
        true
    };
    assert!(!set_eq_by(&[1u32, 2], &[1u32], &always));
    assert!(!set_eq_by(&[], &[1u32], &always));
    assert_eq!(calls.get(), 0);
    assert!(set_eq_by(&[1u32, 2], &[3u32, 4], &always));
    assert_eq!(calls.get(), 2);
    let set = InternedSet::new(handles(&[4, 2]));
    let yes = |_: &Interned<String>, _: &u32| {
        calls.set(calls.get() + 1);
        true
    };
    assert!(!set.set_eq_by(&[1u32, 2, 3], &yes));
    assert!(!set.set_eq_by(&[1u32], &yes));
    assert_eq!(calls.get(), 2);
    assert!(set.set_eq_by(&[1u32, 2], &yes));
}

#[test]
fn two_present_values_compare_as_the_predicate_answers() {
    assert!(option_eq_by(&Some(1u32), &Some("one"), |_, _| true));
    assert!(!option_eq_by(&Some(1u32), &Some(1u32), |_, _| false));
    let calls = std::cell::Cell::new(0u32);
    let counted = |x: &u32, y: &u32| {
        calls.set(calls.get() + 1);
        x == y
    };
    let none: Option<u32> = None;
    assert!(option_eq_by(&none, &none, &counted));
    assert!(!option_eq_by(&Some(1u32), &none, &counted));
    assert_eq!(calls.get(), 0);
    assert!(option_eq_by(&Some(1u32), &Some(1u32), &counted));
    assert_eq!(calls.get(), 1);
}
