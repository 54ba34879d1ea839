use interning::intern::{Interned, Interner};
use interning::schema::source;
use interning::schema::Uuid;
use interning::set::InternedSet;
use interning::size::{estimated_total, EstimateSize, StackSize};
use interning::time::TimestampMillis;

#[test]
fn plain_values_own_nothing() {
    assert_eq!(7i32.stack_bytes(), 4);
    assert_eq!(7i32.allocated_bytes(), 0);
    assert_eq!(7i32.estimated_bytes(), 4);
    assert_eq!(Uuid::from_u128(1).estimated_bytes(), 16);
    assert_eq!(Interned::<String>::from_id(3).estimated_bytes(), 4);
    assert_eq!(TimestampMillis::from_millis(3).estimated_bytes(), 8);
}

#[test]
fn a_text_owns_its_bytes() {
    let text = String::from("métro");
    assert_eq!(text.allocated_bytes(), 6);
    assert_eq!(text.estimated_bytes(), std::mem::size_of::<String>() + 6);
    assert_eq!("métro".allocated_bytes(), 6);
    assert_eq!("métro".stack_bytes(), 0);
    assert_eq!(String::new().allocated_bytes(), 0);
}

#[test]
fn an_optional_value_owns_what_its_value_owns() {
    let none: Option<String> = None;
    assert_eq!(none.allocated_bytes(), 0);
    assert_eq!(Some(String::from("abc")).allocated_bytes(), 3);
}

#[test]
fn a_list_owns_its_items_and_what_they_own() {
    let list = vec![String::from("ab"), String::new(), String::from("cde")];
    let each = std::mem::size_of::<String>();
    assert_eq!(list.allocated_bytes(), 3 * each + 5);
    assert_eq!(estimated_total(&list), 3 * each + 5);
    assert_eq!(list.estimated_bytes(), std::mem::size_of::<Vec<String>>() + 3 * each + 5);
    assert_eq!(Vec::<i32>::new().allocated_bytes(), 0);
}

#[test]
fn a_set_owns_its_handles() {
    let set: InternedSet<String> =
        InternedSet::new(vec![Interned::from_id(2), Interned::from_id(1), Interned::from_id(9)]);
    assert_eq!(set.allocated_bytes(), 12);
}

#[test]
fn a_store_owns_its_values_and_its_index() {
    let mut store: Interner<String> = Interner::new();
    assert_eq!(store.allocated_bytes(), 0);
    store.intern(String::from("ab"));
    store.intern(String::from("ab"));
    store.intern(String::from("cde"));
    let each = std::mem::size_of::<String>();
    assert_eq!(store.allocated_bytes(), 2 * each + 5 + 2 * 12);
}

#[test]
fn a_record_owns_what_its_fields_own() {
    let period = source::ApplicationPeriod {
        begin: String::from("20240101T080000"),
        end: String::from("20240101T100000"),
    };
    assert_eq!(period.allocated_bytes(), 30);
    let object = source::ImpactedObject {
        typ: String::from("stop"),
        id: String::from("1"),
        name: String::from("Nation"),
        disruption_ids: vec![Uuid::from_u128(1), Uuid::from_u128(2)],
    };
    assert_eq!(object.allocated_bytes(), 4 + 1 + 6 + 2 * 16);
}
