use interning::time::{Mapped, TimestampMillis, TimestampSecondsParis};

const FORMAT: &str = "%Y%m%dT%H%M%S";

#[test]
fn local_time_in_winter_is_one_hour_ahead() {
    let instant = TimestampSecondsParis::from_formatted("20240101T000000", FORMAT);
    assert_eq!(instant.seconds(), 1704063600);
}

#[test]
fn local_time_in_summer_is_two_hours_ahead() {
    let instant = TimestampSecondsParis::from_formatted("20240715T123456", FORMAT);
    assert_eq!(instant.seconds(), 1721039696);
}

#[test]
fn a_time_shown_twice_is_the_earlier_instant() {
    let instant = TimestampSecondsParis::from_formatted("20231029T023000", FORMAT);
    assert_eq!(instant.seconds(), 1698539400);
}

#[test]
fn a_time_shown_twice_has_two_instants_an_hour_apart() {
    assert_eq!(
        TimestampSecondsParis::shown_twice("20231029T023000", FORMAT),
        Some((1698539400, 1698543000))
    );
    assert_eq!(TimestampSecondsParis::shown_twice("20240101T000000", FORMAT), None);
    assert_eq!(TimestampSecondsParis::shown_twice("20240331T023000", FORMAT), None);
    assert_eq!(TimestampSecondsParis::shown_twice("soon", FORMAT), None);
}

#[test]
fn a_skipped_time_is_none() {
    assert!(TimestampSecondsParis::try_from_formatted("20240331T023000", FORMAT).is_none());
}

#[test]
fn a_text_that_is_no_time_is_none() {
    assert!(TimestampSecondsParis::try_from_formatted("2024-01-01", FORMAT).is_none());
    assert!(TimestampSecondsParis::try_from_formatted("", FORMAT).is_none());
    assert!(TimestampSecondsParis::try_from_formatted("20241301T000000", FORMAT).is_none());
}

#[test]
fn a_time_that_reads_is_read_either_way() {
    assert_eq!(
        TimestampSecondsParis::try_from_formatted("20240101T000000", FORMAT),
        Some(TimestampSecondsParis::from_seconds(1704063600))
    );
    assert_eq!(
        TimestampSecondsParis::try_from_formatted("20231029T023000", FORMAT),
        Some(TimestampSecondsParis::from_seconds(1698539400))
    );
    assert_eq!(
        TimestampMillis::try_from_rfc3339("2024-01-01T01:00:00.250+01:00"),
        Some(TimestampMillis::from_millis(1704067200250))
    );
}

#[test]
fn mapped_times_are_chosen_as_documented() {
    assert_eq!(
        TimestampSecondsParis::from_mapped(Some(Mapped::Single(5))),
        Some(TimestampSecondsParis::from_seconds(5))
    );
    assert_eq!(
        TimestampSecondsParis::from_mapped(Some(Mapped::Ambiguous(5, 3605))),
        Some(TimestampSecondsParis::from_seconds(5))
    );
    assert_eq!(TimestampSecondsParis::from_mapped(Some(Mapped::Gap)), None);
    assert_eq!(TimestampSecondsParis::from_mapped(None), None);
}

#[test]
fn seconds_are_written_as_local_time() {
    let instant = TimestampSecondsParis::from_seconds(1704063600);
    assert_eq!(instant.to_formatted(FORMAT), Some("20240101T000000".to_owned()));
    let summer = TimestampSecondsParis::from_seconds(1721039696);
    assert_eq!(summer.to_formatted(FORMAT), Some("20240715T123456".to_owned()));
    assert_eq!(
        TimestampSecondsParis::from_seconds(0).to_formatted("%Y-%m-%d %H:%M"),
        Some("1970-01-01 01:00".to_owned())
    );
}

#[test]
fn both_instants_of_a_time_shown_twice_are_written_alike() {
    let earlier = TimestampSecondsParis::from_seconds(1698539400);
    let later = TimestampSecondsParis::from_seconds(1698543000);
    assert_eq!(earlier.to_formatted(FORMAT), Some("20231029T023000".to_owned()));
    assert_eq!(later.to_formatted(FORMAT), Some("20231029T023000".to_owned()));
}

#[test]
fn seconds_beyond_the_calendar_are_not_written() {
    assert_eq!(TimestampSecondsParis::from_seconds(i64::MAX).to_formatted(FORMAT), None);
    assert_eq!(TimestampSecondsParis::from_seconds(i64::MIN).to_formatted(FORMAT), None);
}

#[test]
fn a_pattern_that_is_none_writes_nothing() {
    assert_eq!(TimestampSecondsParis::from_seconds(0).to_formatted("%Q"), None);
}

#[test]
fn written_as_compares_with_the_written_form() {
    let instant = TimestampSecondsParis::from_seconds(1704063600);
    assert!(instant.written_as(&"20240101T000000".to_owned(), FORMAT));
    assert!(!instant.written_as(&"20240101T000001".to_owned(), FORMAT));
    assert!(!TimestampSecondsParis::from_seconds(i64::MAX).written_as(&String::new(), FORMAT));
}

#[test]
fn rfc3339_is_read_to_milliseconds() {
    let instant = TimestampMillis::from_rfc3339("2024-01-01T00:00:00.000Z");
    assert_eq!(instant.millis(), 1704067200000);
    let offset = TimestampMillis::from_rfc3339("2024-01-01T01:00:00.250+01:00");
    assert_eq!(offset.millis(), 1704067200250);
}

#[test]
fn a_text_that_is_no_rfc3339_is_none() {
    assert!(TimestampMillis::try_from_rfc3339("20240101T000000").is_none());
    assert!(TimestampMillis::try_from_rfc3339("").is_none());
}

#[test]
fn milliseconds_are_written_as_rfc3339() {
    let instant = TimestampMillis::from_millis(1704067200000);
    assert_eq!(instant.to_rfc3339(), Some("2024-01-01T00:00:00.000Z".to_owned()));
    let later = TimestampMillis::from_millis(1704067200250);
    assert_eq!(later.to_rfc3339(), Some("2024-01-01T00:00:00.250Z".to_owned()));
    assert_eq!(TimestampMillis::from_millis(i64::MAX).to_rfc3339(), None);
}

#[test]
fn read_instants_are_kept_as_read() {
    assert_eq!(TimestampMillis::from_read(Some(12)), Some(TimestampMillis::from_millis(12)));
    assert_eq!(TimestampMillis::from_read(None), None);
}

#[test]
fn rfc3339_written_as_compares_with_the_written_form() {
    let instant = TimestampMillis::from_millis(1704067200000);
    assert!(instant.written_as(&"2024-01-01T00:00:00.000Z".to_owned()));
    assert!(!instant.written_as(&"2024-01-01T00:00:00Z".to_owned()));
    assert!(!instant.written_as(&"2024-01-01T01:00:00.000+01:00".to_owned()));
}
