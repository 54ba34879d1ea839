use interning::intern::{EqWith, Interned, Interner};

fn owned(s: &str) -> String {
    String::from(s)
}

#[test]
fn equal_contents_get_the_same_handle() {
    let mut store: Interner<String> = Interner::new();
    let owned = owned("metro");
    let built = ["me", "tro"].concat();
    let a = store.intern(owned);
    let b = store.intern(built);
    let c = store.intern("metro".to_owned());
    assert_eq!(a, b);
    assert_eq!(b, c);
    assert_eq!(store.len(), 1);
    assert_eq!(store.references(), 3);
}

#[test]
fn distinct_contents_get_dense_handles_from_zero() {
    let mut store: Interner<String> = Interner::new();
    assert_eq!(store.intern(owned("a")), 0);
    assert_eq!(store.intern(owned("b")), 1);
    assert_eq!(store.intern(owned("a")), 0);
    assert_eq!(store.intern(owned("c")), 2);
    assert_eq!(store.intern(owned("")), 3);
    assert_eq!(store.intern(owned("b")), 1);
    assert_eq!(store.len(), 4);
    assert_eq!(store.references(), 6);
}

#[test]
fn lookup_gives_back_what_was_interned() {
    let mut store: Interner<String> = Interner::new();
    for word in ["bus", "tram", "rer", "bus", "métro"] {
        let id = store.intern(owned(word));
        assert_eq!(store.lookup(id), word);
    }
}

#[test]
fn many_values_keep_their_handles() {
    let mut store: Interner<String> = Interner::new();
    for i in 0..2000u32 {
        assert_eq!(store.intern(format!("value {}", i)), i);
    }
    for i in 0..2000u32 {
        assert_eq!(store.intern(format!("value {}", i)), i);
        assert_eq!(store.lookup(i), &format!("value {}", i));
    }
    assert_eq!(store.len(), 2000);
    assert_eq!(store.references(), 4000);
}

#[test]
fn handle_from_a_store() {
    let mut store: Interner<String> = Interner::new();
    let a = Interned::from(&mut store, owned("x"));
    let b = Interned::from(&mut store, owned("y"));
    let again = Interned::from(&mut store, owned("x"));
    assert_eq!(a.id(), 0);
    assert_eq!(b.id(), 1);
    assert_eq!(a, again);
    assert_ne!(a, b);
    assert_eq!(a.lookup(&store), "x");
    assert_eq!(b.lookup(&store), "y");
}

#[test]
fn handle_from_its_number() {
    let handle: Interned<String> = Interned::from_id(17);
    assert_eq!(handle.id(), 17);
    assert_eq!(handle, Interned::from_id(17));
    assert_ne!(handle, Interned::from_id(18));
}

#[test]
fn handle_compares_with_the_value_it_names() {
    let mut store: Interner<String> = Interner::new();
    let a = Interned::from(&mut store, owned("ligne 1"));
    let b = Interned::from(&mut store, owned("ligne 2"));
    assert!(a.eq_with(&owned("ligne 1"), &store));
    assert!(!a.eq_with(&owned("ligne 2"), &store));
    assert!(b.eq_with(&owned("ligne 2"), &store));
}

#[test]
fn handle_of_a_handle_compares_through_both_stores() {
    let mut texts: Interner<String> = Interner::new();
    let mut handles: Interner<Interned<String>> = Interner::new();
    let inner = Interned::from(&mut texts, owned("nested"));
    let outer = Interned::from(&mut handles, inner);
    assert!(outer.eq_with_more(&owned("nested"), &handles, &texts));
    assert!(!outer.eq_with_more(&owned("other"), &handles, &texts));
}

#[test]
fn push_appends_without_looking() {
    let mut store: Interner<String> = Interner::new();
    assert_eq!(store.push(owned("a")), 0);
    assert_eq!(store.push(owned("b")), 1);
    assert_eq!(store.references(), 0);
    assert_eq!(store.intern(owned("b")), 1);
    assert_eq!(store.intern(owned("a")), 0);
    assert_eq!(store.len(), 2);
}

#[test]
fn room_counts_down() {
    let mut store: Interner<String> = Interner::new();
    assert_eq!(store.room(), 0x1_0000_0000);
    store.intern(owned("a"));
    assert_eq!(store.room(), 0xffff_ffff);
    store.intern(owned("a"));
    assert_eq!(store.room(), 0xffff_ffff);
}

#[test]
fn a_store_is_rebuilt_from_its_values() {
    let mut store: Interner<String> = Interner::new();
    for word in ["c", "a", "b", "a", "c"] {
        store.intern(owned(word));
    }
    let values: Vec<String> = store.values().clone();
    assert_eq!(values, vec![owned("c"), owned("a"), owned("b")]);
    let rebuilt = Interner::from_values(values).unwrap();
    assert!(rebuilt == store);
    assert_eq!(rebuilt.references(), 0);
    let mut rebuilt = rebuilt;
    assert_eq!(rebuilt.intern(owned("a")), 1);
    assert_eq!(rebuilt.intern(owned("d")), 3);
}

#[test]
fn repeated_values_rebuild_no_store() {
    let values = vec![owned("a"), owned("b"), owned("a")];
    assert!(Interner::from_values(values).is_none());
}

#[test]
fn stores_compare_by_their_values() {
    let mut left: Interner<String> = Interner::new();
    let mut right: Interner<String> = Interner::default();
    assert!(left == right);
    left.intern(owned("a"));
    assert!(left != right);
    right.intern(owned("a"));
    right.intern(owned("a"));
    assert!(left == right);
    left.intern(owned("b"));
    right.intern(owned("c"));
    assert!(left != right);
}

#[test]
fn handles_are_hashed_and_ordered_by_their_number() {
    let mut seen = std::collections::HashSet::new();
    assert!(seen.insert(Interned::<String>::from_id(3)));
    assert!(seen.insert(Interned::<String>::from_id(4)));
    assert!(!seen.insert(Interned::<String>::from_id(3)));
    assert!(Interned::<String>::from_id(3) < Interned::<String>::from_id(4));
    assert!(Interned::<String>::from_id(4) > Interned::<String>::from_id(3));
    assert!(Interned::<String>::from_id(4) >= Interned::<String>::from_id(4));
    assert_eq!(
        Interned::<String>::from_id(1).partial_cmp(&Interned::from_id(1)),
        Some(std::cmp::Ordering::Equal)
    );
}

#[test]
fn a_held_content_keeps_its_place_and_a_new_one_gets_the_next() {
    let mut store: Interner<String> = Interner::new();
    assert_eq!(store.intern(owned("a")), 0);
    assert_eq!(store.intern(owned("b")), 1);
    assert_eq!((store.len(), store.references()), (2, 2));
    // A held content: the store keeps its length, the counter goes on.
    assert_eq!(store.intern(owned("a")), 0);
    assert_eq!((store.len(), store.references()), (2, 3));
    // A new content: the number of values held before.
    assert_eq!(store.intern(owned("c")), 2);
    assert_eq!((store.len(), store.references()), (3, 4));
    // The same handle after further requests.
    assert_eq!(store.intern(owned("b")), 1);
    assert_eq!(store.lookup(1), "b");
    assert_eq!(store.values(), &vec![owned("a"), owned("b"), owned("c")]);
}
