use interning::intern::EqWith;
use interning::schema::compaction::CompactError;
use interning::schema::optimized::{
    ApplicationPeriod, Data, Disruption, ImpactedObject, Interners, Line,
};
use interning::schema::source;
use interning::schema::Uuid;

fn uuid(text: &str) -> Uuid {
    Uuid::from_u128(uuid::Uuid::parse_str(text).unwrap().as_u128())
}

fn text(s: &str) -> String {
    String::from(s)
}

fn period(begin: &str, end: &str) -> source::ApplicationPeriod {
    source::ApplicationPeriod { begin: text(begin), end: text(end) }
}

fn first_disruption() -> source::Disruption {
    source::Disruption {
        id: uuid("11111111-2222-3333-4444-555555555555"),
        application_periods: vec![
            period("20240101T080000", "20240101T100000"),
            period("20240102T080000", "20240102T100000"),
        ],
        last_update: text("20240101T073000"),
        cause: text("TRAVAUX"),
        severity: text("BLOQUANTE"),
        tags: Some(vec![text("Actualité"), text("Ascenseur")]),
        title: text("Bus 42 : arrêt non desservi"),
        message: text("<p>Travaux de voirie</p>"),
        disruption_id: Some(uuid("aaaaaaaa-bbbb-cccc-dddd-eeeeeeeeeeee")),
    }
}

fn second_disruption() -> source::Disruption {
    source::Disruption {
        id: uuid("99999999-8888-7777-6666-555555555555"),
        application_periods: vec![period("20240101T080000", "20240101T100000")],
        last_update: text("20240101T073000"),
        cause: text("PERTURBATION"),
        severity: text("BLOQUANTE"),
        tags: None,
        title: text("Métro 1 : trafic interrompu"),
        message: text("<p>Incident technique</p>"),
        disruption_id: None,
    }
}

fn object(name: &str, disruptions: Vec<Uuid>) -> source::ImpactedObject {
    source::ImpactedObject {
        typ: text("stop_area"),
        id: text(&format!("stop_area:{}", name)),
        name: text(name),
        disruption_ids: disruptions,
    }
}

fn line() -> source::Line {
    source::Line {
        id: text("line:IDFM:C01742"),
        name: text("RER A"),
        short_name: text("A"),
        mode: text("RapidTransit"),
        network_id: text("network:IDFM:1046"),
        impacted_objects: vec![
            object("Nation", vec![
                uuid("11111111-2222-3333-4444-555555555555"),
                uuid("99999999-8888-7777-6666-555555555555"),
            ]),
            object("Auber", vec![uuid("11111111-2222-3333-4444-555555555555")]),
        ],
    }
}

fn feed() -> source::Data {
    source::Data {
        disruptions: Some(vec![first_disruption(), second_disruption()]),
        lines: Some(vec![]),
        last_updated_date: Some(text("2024-01-01T00:00:00.000Z")),
        status_code: None,
        error: None,
        message: None,
    }
}

fn feed_with_lines() -> source::Data {
    let mut data = feed();
    data.lines = Some(vec![line()]);
    data
}

fn failure() -> source::Data {
    source::Data {
        disruptions: None,
        lines: None,
        last_updated_date: None,
        status_code: Some(503),
        error: Some(text("Service Unavailable")),
        message: Some(text("try again later")),
    }
}

fn compact(source: &source::Data) -> (Interners, Data) {
    let mut interners = Interners::new();
    assert!(interners.has_room_for(source));
    let data = Data::from(&mut interners, source.clone());
    (interners, data)
}

#[test]
fn a_compacted_feed_is_equivalent_to_its_source() {
    let source = feed();
    let (interners, data) = compact(&source);
    assert!(data.eq_with(&source, &interners));
}

#[test]
fn a_compacted_feed_with_lines_is_equivalent_to_its_source() {
    let source = feed_with_lines();
    let (interners, data) = compact(&source);
    assert!(data.eq_with(&source, &interners));
}

#[test]
fn a_compacted_error_is_equivalent_to_its_source() {
    let source = failure();
    let (interners, data) = compact(&source);
    assert!(matches!(data, Data::Error(_)));
    assert!(data.eq_with(&source, &interners));
    assert_eq!(interners.string.len(), 2);
}

#[test]
fn the_order_of_the_source_does_not_matter() {
    let source = feed_with_lines();
    let (interners, data) = compact(&source);
    let mut shuffled = source.clone();
    shuffled.disruptions.as_mut().unwrap().reverse();
    shuffled.disruptions.as_mut().unwrap()[1].application_periods.reverse();
    shuffled.disruptions.as_mut().unwrap()[1].tags.as_mut().unwrap().reverse();
    shuffled.lines.as_mut().unwrap()[0].impacted_objects.reverse();
    shuffled.lines.as_mut().unwrap()[0].impacted_objects[1].disruption_ids.reverse();
    assert!(data.eq_with(&shuffled, &interners));
}

fn changed<F: FnOnce(&mut source::Data)>(change: F) -> bool {
    let source = feed_with_lines();
    let (interners, data) = compact(&source);
    let mut other = source.clone();
    change(&mut other);
    data.eq_with(&other, &interners)
}

#[test]
fn a_changed_disruption_leaf_is_noticed() {
    assert!(!changed(|d| d.disruptions.as_mut().unwrap()[0].id = uuid("00000000-0000-0000-0000-000000000001")));
    assert!(!changed(|d| d.disruptions.as_mut().unwrap()[0].application_periods[0].begin = text("20240101T080001")));
    assert!(!changed(|d| d.disruptions.as_mut().unwrap()[0].application_periods[1].end = text("20240102T100001")));
    assert!(!changed(|d| d.disruptions.as_mut().unwrap()[0].last_update = text("20240101T073001")));
    assert!(!changed(|d| d.disruptions.as_mut().unwrap()[0].cause = text("INCIDENT")));
    assert!(!changed(|d| d.disruptions.as_mut().unwrap()[1].severity = text("INFORMATION")));
    assert!(!changed(|d| d.disruptions.as_mut().unwrap()[0].tags.as_mut().unwrap()[1] = text("Escalator")));
    assert!(!changed(|d| d.disruptions.as_mut().unwrap()[0].tags = None));
    assert!(!changed(|d| d.disruptions.as_mut().unwrap()[1].tags = Some(vec![])));
    assert!(!changed(|d| d.disruptions.as_mut().unwrap()[0].title = text("Bus 43")));
    assert!(!changed(|d| d.disruptions.as_mut().unwrap()[1].message = text("")));
    assert!(!changed(|d| d.disruptions.as_mut().unwrap()[0].disruption_id = None));
    assert!(!changed(|d| d.disruptions.as_mut().unwrap()[1].disruption_id = Some(uuid("00000000-0000-0000-0000-000000000001"))));
    assert!(!changed(|d| d.disruptions.as_mut().unwrap()[0].disruption_id = Some(uuid("00000000-0000-0000-0000-000000000001"))));
}

#[test]
fn a_changed_line_leaf_is_noticed() {
    assert!(!changed(|d| d.lines.as_mut().unwrap()[0].id = text("line:IDFM:C01743")));
    assert!(!changed(|d| d.lines.as_mut().unwrap()[0].name = text("RER B")));
    assert!(!changed(|d| d.lines.as_mut().unwrap()[0].short_name = text("B")));
    assert!(!changed(|d| d.lines.as_mut().unwrap()[0].mode = text("Bus")));
    assert!(!changed(|d| d.lines.as_mut().unwrap()[0].network_id = text("network:IDFM:1")));
    assert!(!changed(|d| d.lines.as_mut().unwrap()[0].impacted_objects[0].typ = text("line")));
    assert!(!changed(|d| d.lines.as_mut().unwrap()[0].impacted_objects[0].id = text("stop_area:X")));
    assert!(!changed(|d| d.lines.as_mut().unwrap()[0].impacted_objects[1].name = text("Opéra")));
    assert!(!changed(|d| d.lines.as_mut().unwrap()[0].impacted_objects[0].disruption_ids[1] = uuid("00000000-0000-0000-0000-000000000001")));
    assert!(!changed(|d| { d.lines.as_mut().unwrap()[0].impacted_objects[1].disruption_ids.pop(); }));
}

#[test]
fn a_changed_feed_leaf_is_noticed() {
    assert!(!changed(|d| d.last_updated_date = Some(text("2024-01-01T00:00:00.001Z"))));
    assert!(!changed(|d| d.last_updated_date = None));
    assert!(!changed(|d| { d.disruptions.as_mut().unwrap().pop(); }));
    assert!(!changed(|d| d.disruptions.as_mut().unwrap().push(second_disruption())));
    assert!(!changed(|d| d.disruptions = None));
    assert!(!changed(|d| d.lines.as_mut().unwrap().push(line())));
    assert!(!changed(|d| d.lines = None));
    assert!(changed(|_| ()));
}

#[test]
fn a_success_is_no_error_and_an_error_no_success() {
    assert!(!changed(|d| d.status_code = Some(200)));
    assert!(!changed(|d| d.error = Some(text("no error"))));
    assert!(!changed(|d| d.message = Some(text("fine"))));
    let source = failure();
    let (interners, data) = compact(&source);
    let mut other = source.clone();
    other.disruptions = Some(vec![]);
    assert!(!data.eq_with(&other, &interners));
    let mut other = source.clone();
    other.lines = Some(vec![]);
    assert!(!data.eq_with(&other, &interners));
    let mut other = source.clone();
    other.last_updated_date = Some(text("2024-01-01T00:00:00.000Z"));
    assert!(!data.eq_with(&other, &interners));
    let mut other = source.clone();
    other.status_code = Some(500);
    assert!(!data.eq_with(&other, &interners));
    let mut other = source.clone();
    other.error = Some(text("Gateway Timeout"));
    assert!(!data.eq_with(&other, &interners));
    let mut other = source.clone();
    other.message = None;
    assert!(!data.eq_with(&other, &interners));
    assert!(!data.eq_with(&feed(), &interners));
}

#[test]
fn a_feed_of_both_kinds_is_refused() {
    let mut source = feed();
    source.status_code = Some(200);
    let mut interners = Interners::new();
    assert_eq!(Data::try_from(&mut interners, source), Err(CompactError::InvalidRecord));
    assert!(interners == Interners::new());
    assert_eq!(interners.string.references(), 0);
}

#[test]
fn a_feed_of_neither_kind_is_refused() {
    let mut interners = Interners::new();
    let mut source = failure();
    source.message = None;
    assert_eq!(Data::try_from(&mut interners, source), Err(CompactError::InvalidRecord));
    let mut source = feed();
    source.lines = None;
    assert_eq!(Data::try_from(&mut interners, source), Err(CompactError::InvalidRecord));
    let empty = source::Data {
        disruptions: None,
        lines: None,
        last_updated_date: None,
        status_code: None,
        error: None,
        message: None,
    };
    assert_eq!(Data::try_from(&mut interners, empty), Err(CompactError::InvalidRecord));
    assert!(interners == Interners::new());
}

#[test]
fn a_date_that_does_not_read_is_refused() {
    let mut source = feed();
    source.last_updated_date = Some(text("yesterday"));
    assert_eq!(Data::try_from(&mut Interners::new(), source), Err(CompactError::InvalidTimestamp));
    let mut source = feed();
    source.disruptions.as_mut().unwrap()[1].last_update = text("2024-01-01T07:30:00");
    assert_eq!(Data::try_from(&mut Interners::new(), source), Err(CompactError::InvalidTimestamp));
    let mut source = feed();
    source.disruptions.as_mut().unwrap()[0].application_periods[1].end = text("");
    assert_eq!(Data::try_from(&mut Interners::new(), source), Err(CompactError::InvalidTimestamp));
    let mut gap = first_disruption();
    gap.application_periods[0].begin = text("20240331T023000");
    assert_eq!(
        Disruption::try_from(&mut Interners::new(), gap),
        Err(CompactError::InvalidTimestamp)
    );
}

#[test]
fn repeated_parts_are_stored_once() {
    let source = feed_with_lines();
    let (interners, _) = compact(&source);
    // Both disruptions share one span of time; the first has one more.
    assert_eq!(interners.application_period.len(), 2);
    assert_eq!(interners.application_period.references(), 3);
    assert_eq!(interners.disruption.len(), 2);
    assert_eq!(interners.disruption_set.len(), 1);
    assert_eq!(interners.line.len(), 1);
    assert_eq!(interners.line_set.len(), 1);
    assert_eq!(interners.line_header.len(), 1);
    assert_eq!(interners.impacted_object.len(), 2);
    assert_eq!(interners.object.len(), 2);
    assert_eq!(interners.uuid_set.len(), 2);
    // Two disruptions, one parent, and the two disruptions again under the stops.
    assert_eq!(interners.uuid.len(), 3);
    assert_eq!(interners.uuid.references(), 6);
}

#[test]
fn the_same_feed_twice_adds_nothing() {
    let source = feed_with_lines();
    let mut interners = Interners::new();
    let first = Data::from(&mut interners, source.clone());
    let texts = interners.string.len();
    let requests = interners.string.references();
    let second = Data::from(&mut interners, source.clone());
    assert_eq!(first, second);
    assert_eq!(interners.string.len(), texts);
    assert_eq!(interners.string.references(), 2 * requests);
    assert_eq!(interners.disruption.len(), 2);
    assert!(second.eq_with(&source, &interners));
    assert!(first.eq_with(&source, &interners));
}

#[test]
fn two_feeds_share_their_stores() {
    let mut interners = Interners::new();
    let one = feed();
    let mut two = feed_with_lines();
    two.disruptions.as_mut().unwrap().pop();
    let first = Data::from(&mut interners, one.clone());
    let second = Data::from(&mut interners, two.clone());
    assert_ne!(first, second);
    assert!(first.eq_with(&one, &interners));
    assert!(second.eq_with(&two, &interners));
    assert!(!first.eq_with(&two, &interners));
    assert!(!second.eq_with(&one, &interners));
    assert_eq!(interners.disruption.len(), 2);
    assert_eq!(interners.disruption_set.len(), 2);
}

#[test]
fn parts_are_compacted_on_their_own() {
    let mut interners = Interners::new();
    let source = line();
    let compact = Line::from(&mut interners, source.clone());
    assert!(compact.eq_with(&source, &interners));
    assert_eq!(compact.impacted_objects.ids(), vec![0u32, 1]);
    let stop = object("Nation", vec![
        uuid("99999999-8888-7777-6666-555555555555"),
        uuid("11111111-2222-3333-4444-555555555555"),
    ]);
    let again = ImpactedObject::from(&mut interners, stop.clone());
    assert!(again.eq_with(&stop, &interners));
    assert_eq!(again.object.id(), 0);
    assert_eq!(again.disruption_ids.id(), 0);
    assert_eq!(interners.impacted_object.len(), 2);
    let disruption = Disruption::from(&mut interners, first_disruption());
    assert!(disruption.eq_with(&first_disruption(), &interners));
    assert!(!disruption.eq_with(&second_disruption(), &interners));
    assert_eq!(disruption.last_update.seconds(), 1704090600);
}

#[test]
fn requests_are_counted_before_compacting() {
    assert_eq!(failure().count_requests(), 2);
    assert_eq!(first_disruption().count_requests(), 5 + 2 + 2 + 1);
    assert_eq!(second_disruption().count_requests(), 5 + 1);
    assert_eq!(line().count_requests(), 6 + (5 + 2 + 1) + (5 + 1 + 1));
    assert_eq!(feed().count_requests(), 2 + (10 + 1) + (6 + 1));
    let mut both = feed();
    both.error = Some(text("x"));
    assert_eq!(both.count_requests(), 0);
    let source = feed_with_lines();
    let (interners, _) = compact(&source);
    let made = interners.string.references() + interners.uuid.references()
        + interners.disruption_set.references() + interners.disruption.references()
        + interners.application_period.references() + interners.line_set.references()
        + interners.line.references() + interners.line_header.references()
        + interners.impacted_object.references() + interners.object.references()
        + interners.uuid_set.references();
    assert_eq!(made as u64, source.count_requests());
    assert!(interners.room() <= 0x1_0000_0000 - 3);
}

#[test]
fn each_store_counts_its_requests() {
    let source = feed_with_lines();
    let (interners, _) = compact(&source);
    // Four texts for each disruption and two tags; five for the line and
    // three for each of its two stops.
    assert_eq!(interners.string.references(), 4 + 2 + 4 + 5 + 3 + 3);
    assert_eq!(interners.uuid.references(), 2 + 1 + 2 + 1);
    assert_eq!(interners.application_period.references(), 2 + 1);
    assert_eq!(interners.disruption.references(), 2);
    assert_eq!(interners.disruption_set.references(), 1);
    assert_eq!(interners.line.references(), 1);
    assert_eq!(interners.line_set.references(), 1);
    assert_eq!(interners.line_header.references(), 1);
    assert_eq!(interners.impacted_object.references(), 2);
    assert_eq!(interners.object.references(), 2);
    assert_eq!(interners.uuid_set.references(), 2);
    let (interners, _) = compact(&failure());
    assert_eq!(interners.string.references(), 2);
    assert_eq!(interners.uuid.references(), 0);
}

#[test]
fn a_refused_feed_leaves_the_stores_as_they_are() {
    let mut interners = Interners::new();
    let kept = Data::from(&mut interners, failure());
    let mut source = feed_with_lines();
    source.disruptions.as_mut().unwrap()[1].last_update = text("soon");
    assert_eq!(Data::try_from(&mut interners, source), Err(CompactError::InvalidTimestamp));
    assert_eq!(interners.disruption.len(), 0);
    assert_eq!(interners.uuid.len(), 0);
    assert_eq!(interners.uuid.references(), 0);
    assert_eq!(interners.application_period.references(), 0);
    assert_eq!(interners.string.len(), 2);
    assert_eq!(interners.string.references(), 2);
    assert!(kept.eq_with(&failure(), &interners));
    assert!(interners.is_closed());
}

#[test]
fn a_feed_that_reads_is_compacted_either_way() {
    let source = feed_with_lines();
    assert!(source.has_success_fields());
    assert!(!source.has_error_fields());
    assert!(source.has_timestamps_that_read());
    let mut tried = Interners::new();
    let compact = Data::try_from(&mut tried, source.clone()).unwrap();
    let mut plain = Interners::new();
    assert!(Data::from(&mut plain, source.clone()) == compact);
    assert!(tried == plain);
    assert!(compact.eq_with(&source, &tried));
    let mut tried = Interners::new();
    let compact = Data::try_from(&mut tried, failure()).unwrap();
    assert!(compact.eq_with(&failure(), &tried));
    assert_eq!(tried.string.len(), 2);
}

#[test]
fn the_kind_of_a_feed_is_told_from_its_fields() {
    assert!(failure().has_error_fields());
    assert!(!failure().has_success_fields());
    assert!(failure().has_timestamps_that_read());
    let mut both = feed();
    both.error = Some(text("Service Unavailable"));
    assert!(!both.has_success_fields());
    assert!(!both.has_error_fields());
    assert!(both.has_timestamps_that_read());
    let mut late = feed();
    late.last_updated_date = Some(text("yesterday"));
    assert!(late.has_success_fields());
    assert!(!late.has_timestamps_that_read());
}

#[test]
fn a_disruption_is_well_formed_where_its_local_times_read() {
    assert!(first_disruption().is_well_formed());
    assert!(period("20240101T080000", "20240101T100000").is_well_formed());
    assert!(!period("20240101T080000", "20240331T023000").is_well_formed());
    assert!(!period("", "20240101T100000").is_well_formed());
    let mut late = first_disruption();
    late.last_update = text("2024-01-01T07:30:00");
    assert!(!late.is_well_formed());
    let mut gap = first_disruption();
    gap.application_periods[1].begin = text("20240331T023000");
    assert!(!gap.is_well_formed());
}

#[test]
fn a_disruption_that_reads_is_compacted_either_way() {
    let mut tried = Interners::new();
    let compact = Disruption::try_from(&mut tried, first_disruption()).unwrap();
    let mut plain = Interners::new();
    assert!(Disruption::from(&mut plain, first_disruption()) == compact);
    assert!(tried == plain);
    assert!(compact.eq_with(&first_disruption(), &tried));
    assert_eq!(tried.application_period.len(), 2);
    let mut late = first_disruption();
    late.last_update = text("soon");
    assert_eq!(Disruption::try_from(&mut tried, late), Err(CompactError::InvalidTimestamp));
    assert!(tried == plain);
}

#[test]
fn a_span_of_time_is_compacted_to_its_two_instants() {
    let mut interners = Interners::new();
    let span = period("20240101T000000", "20240715T123456");
    let compact = ApplicationPeriod::from(&mut interners, span.clone());
    assert_eq!(compact.begin.seconds(), 1704063600);
    assert_eq!(compact.end.seconds(), 1721039696);
    assert!(ApplicationPeriod::try_from(&mut interners, span.clone()) == Ok(compact));
    assert!(interners == Interners::new());
    assert_eq!(
        ApplicationPeriod::try_from(&mut interners, period("20240101T000000", "tomorrow")),
        Err(CompactError::InvalidTimestamp)
    );
}

#[test]
fn handles_follow_the_order_of_first_requests() {
    let mut interners = Interners::new();
    let data = Data::from(&mut interners, feed_with_lines());
    let texts: Vec<&str> = interners.string.values().iter().map(|t| t.as_str()).collect();
    assert_eq!(
        texts,
        vec![
            "TRAVAUX",
            "BLOQUANTE",
            "Actualité",
            "Ascenseur",
            "Bus 42 : arrêt non desservi",
            "<p>Travaux de voirie</p>",
            "PERTURBATION",
            "Métro 1 : trafic interrompu",
            "<p>Incident technique</p>",
            "line:IDFM:C01742",
            "RER A",
            "A",
            "RapidTransit",
            "network:IDFM:1046",
            "stop_area",
            "stop_area:Nation",
            "Nation",
            "stop_area:Auber",
            "Auber",
        ]
    );
    let first = &interners.disruption.values()[0];
    assert_eq!(first.id.id(), 0);
    assert_eq!(first.application_periods.ids(), vec![0u32, 1]);
    assert_eq!(first.cause.id(), 0);
    assert_eq!(first.severity.id(), 1);
    assert_eq!(first.tags.as_ref().unwrap().ids(), vec![2u32, 3]);
    assert_eq!(first.title.id(), 4);
    assert_eq!(first.message.id(), 5);
    assert_eq!(first.disruption_id.as_ref().unwrap().id(), 1);
    let second = &interners.disruption.values()[1];
    assert_eq!(second.id.id(), 2);
    assert_eq!(second.application_periods.ids(), vec![0u32]);
    assert_eq!(second.severity.id(), 1);
    match data {
        Data::Success(data) => {
            assert_eq!(data.disruptions.id(), 0);
            assert_eq!(data.lines.id(), 0);
            assert_eq!(data.last_updated_date.millis(), 1704067200000);
        }
        Data::Error(_) => panic!("a success was compacted"),
    }
    assert_eq!(interners.disruption_set.values()[0].ids(), vec![0u32, 1]);
}

#[test]
fn a_date_that_is_written_otherwise_than_read_is_noticed() {
    // The date reads, but is written back with the decimals of the second.
    let mut source = feed();
    source.last_updated_date = Some(text("2024-01-01T00:00:00Z"));
    let (interners, data) = compact(&source);
    assert!(!data.eq_with(&source, &interners));
    source.last_updated_date = Some(text("2024-01-01T00:00:00.000Z"));
    assert!(data.eq_with(&source, &interners));
    // An hour that the clocks showed twice is read as its first instant and
    // written back as the same hour.
    let mut source = feed();
    source.disruptions.as_mut().unwrap()[0].last_update = text("20231029T023000");
    let (interners, data) = compact(&source);
    assert!(data.eq_with(&source, &interners));
}

#[test]
fn what_is_stored_later_changes_no_comparison() {
    let mut interners = Interners::new();
    let one = feed();
    let first = Data::from(&mut interners, one.clone());
    let mut changed = one.clone();
    changed.disruptions.as_mut().unwrap()[0].cause = text("GREVE");
    assert!(first.eq_with(&one, &interners));
    assert!(!first.eq_with(&changed, &interners));
    Data::from(&mut interners, changed.clone());
    Data::from(&mut interners, feed_with_lines());
    Data::from(&mut interners, failure());
    assert!(first.fits_in(&interners));
    assert!(first.eq_with(&one, &interners));
    assert!(!first.eq_with(&changed, &interners));
}

#[test]
fn a_feed_compacted_again_later_adds_nothing() {
    let mut interners = Interners::new();
    let source = feed_with_lines();
    let first = Data::from(&mut interners, source.clone());
    Data::from(&mut interners, failure());
    let mut other = feed();
    other.disruptions.as_mut().unwrap()[1].title = text("Tram 3 : retards");
    Data::from(&mut interners, other);
    let held = [
        interners.string.len(),
        interners.uuid.len(),
        interners.disruption.len(),
        interners.disruption_set.len(),
        interners.application_period.len(),
        interners.line.len(),
        interners.line_set.len(),
        interners.line_header.len(),
        interners.impacted_object.len(),
        interners.object.len(),
        interners.uuid_set.len(),
    ];
    let again = Data::from(&mut interners, source.clone());
    assert_eq!(again, first);
    assert_eq!(
        held,
        [
            interners.string.len(),
            interners.uuid.len(),
            interners.disruption.len(),
            interners.disruption_set.len(),
            interners.application_period.len(),
            interners.line.len(),
            interners.line_set.len(),
            interners.line_header.len(),
            interners.impacted_object.len(),
            interners.object.len(),
            interners.uuid_set.len(),
        ]
    );
}
