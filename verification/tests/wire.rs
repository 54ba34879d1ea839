use interning::intern::{Interned, Interner};
use interning::schema::optimized::{Data, Interners, Object};
use interning::schema::source;
use interning::schema::Uuid;
use interning::set::InternedSet;

fn sample_set() -> InternedSet<String> {
    let handles: Vec<Interned<String>> =
        [40u32, 3, 4, 5, 9, 0, 41, 42].iter().map(|id| Interned::from_id(*id)).collect();
    InternedSet::new(handles)
}

fn sample_store() -> Interner<String> {
    let mut store = Interner::new();
    for word in ["bus", "métro", "tram", "bus", "", "rer"] {
        store.intern(word.to_owned());
    }
    store
}

#[test]
fn a_set_survives_json() {
    let set = sample_set();
    let bytes = serde_json::to_vec(&set.to_tokens()).unwrap();
    assert_eq!(bytes, b"[0,3,-2,4,31,-2]".to_vec());
    let tokens: Vec<i64> = serde_json::from_slice(&bytes).unwrap();
    let read: InternedSet<String> = InternedSet::from_tokens(&tokens).unwrap();
    assert_eq!(read, set);
}

#[test]
fn a_set_survives_bincode() {
    let set = sample_set();
    let bytes = bincode::serialize(&set.to_tokens()).unwrap();
    let tokens: Vec<i64> = bincode::deserialize(&bytes).unwrap();
    let read: InternedSet<String> = InternedSet::from_tokens(&tokens).unwrap();
    assert_eq!(read, set);
}

#[test]
fn a_set_survives_cbor() {
    let set = sample_set();
    let mut bytes = Vec::new();
    ciborium::into_writer(&set.to_tokens(), &mut bytes).unwrap();
    let tokens: Vec<i64> = ciborium::from_reader(bytes.as_slice()).unwrap();
    let read: InternedSet<String> = InternedSet::from_tokens(&tokens).unwrap();
    assert_eq!(read, set);
}

#[test]
fn a_set_survives_postcard() {
    let set = sample_set();
    let bytes = postcard::to_stdvec(&set.to_tokens()).unwrap();
    let tokens: Vec<i64> = postcard::from_bytes(&bytes).unwrap();
    let read: InternedSet<String> = InternedSet::from_tokens(&tokens).unwrap();
    assert_eq!(read, set);
}

#[test]
fn a_store_survives_every_encoding() {
    let store = sample_store();
    let values: &Vec<String> = store.values();

    let json = serde_json::to_vec(values).unwrap();
    let read: Vec<String> = serde_json::from_slice(&json).unwrap();
    assert!(Interner::from_values(read).unwrap() == store);

    let pretty = serde_json::to_vec_pretty(values).unwrap();
    let read: Vec<String> = serde_json::from_slice(&pretty).unwrap();
    assert!(Interner::from_values(read).unwrap() == store);

    let binary = bincode::serialize(values).unwrap();
    let read: Vec<String> = bincode::deserialize(&binary).unwrap();
    assert!(Interner::from_values(read).unwrap() == store);

    let mut cbor = Vec::new();
    ciborium::into_writer(values, &mut cbor).unwrap();
    let read: Vec<String> = ciborium::from_reader(cbor.as_slice()).unwrap();
    assert!(Interner::from_values(read).unwrap() == store);

    let packed = postcard::to_stdvec(values).unwrap();
    let read: Vec<String> = postcard::from_bytes(&packed).unwrap();
    assert!(Interner::from_values(read).unwrap() == store);
}

#[test]
fn a_handle_is_written_as_its_number() {
    let handle: Interned<String> = Interned::from_id(0xdead_beef);
    let bytes = bincode::serialize(&handle.id()).unwrap();
    assert_eq!(bytes, vec![0xef, 0xbe, 0xad, 0xde]);
    let id: u32 = bincode::deserialize(&bytes).unwrap();
    assert_eq!(Interned::<String>::from_id(id), handle);
    assert_eq!(serde_json::to_string(&handle.id()).unwrap(), "3735928559");
}

#[test]
fn rebuilt_stores_give_the_same_handles() {
    let store = sample_store();
    let mut rebuilt = Interner::from_values(store.values().clone()).unwrap();
    for (id, word) in ["bus", "métro", "tram", "", "rer"].iter().enumerate() {
        assert_eq!(rebuilt.intern((*word).to_owned()) as usize, id);
    }
}

fn small_feed() -> source::Data {
    source::Data {
        disruptions: Some(vec![source::Disruption {
            id: Uuid::from_u128(7),
            application_periods: vec![source::ApplicationPeriod {
                begin: "20240101T080000".to_owned(),
                end: "20240101T100000".to_owned(),
            }],
            last_update: "20240101T073000".to_owned(),
            cause: "TRAVAUX".to_owned(),
            severity: "BLOQUANTE".to_owned(),
            tags: Some(vec!["Actualité".to_owned()]),
            title: "Bus 42".to_owned(),
            message: "".to_owned(),
            disruption_id: None,
        }]),
        lines: Some(vec![source::Line {
            id: "line:1".to_owned(),
            name: "RER A".to_owned(),
            short_name: "A".to_owned(),
            mode: "RapidTransit".to_owned(),
            network_id: "network:1".to_owned(),
            impacted_objects: vec![source::ImpactedObject {
                typ: "stop_area".to_owned(),
                id: "stop_area:1".to_owned(),
                name: "Nation".to_owned(),
                disruption_ids: vec![Uuid::from_u128(7)],
            }],
        }]),
        last_updated_date: Some("2024-01-01T00:00:00.000Z".to_owned()),
        status_code: None,
        error: None,
        message: None,
    }
}

#[test]
fn stores_that_were_filled_are_closed() {
    let mut interners = Interners::new();
    assert!(interners.is_closed());
    let data = Data::from(&mut interners, small_feed());
    assert!(interners.is_closed());
    assert!(data.fits_in(&interners));
    assert!(!data.fits_in(&Interners::new()));
}

#[test]
fn a_handle_that_leads_nowhere_is_found() {
    let mut interners = Interners::new();
    Data::from(&mut interners, small_feed());
    let texts = interners.string.len() as u32;
    let dangling = Object {
        typ: Interned::from_id(0),
        id: Interned::from_id(texts),
        name: Interned::from_id(1),
    };
    assert!(!dangling.fits_in(&interners));
    interners.object.intern(dangling);
    assert!(!interners.is_closed());
    interners.string.intern("one more".to_owned());
    assert!(interners.is_closed());
}
