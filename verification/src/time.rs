//! Instants as the compact records hold them, and their written forms.
//!
//! Reading and writing dates is chrono's work, with the rules of the Paris
//! time zone from chrono-tz. What those calls return is named here and taken
//! on trust; what the library does with it is proved.
use chrono::offset::LocalResult;
use chrono::{DateTime, NaiveDateTime, Offset, SecondsFormat};
use chrono_tz::Europe::Paris;
use std::fmt::Write;
use vstd::prelude::*;

verus! {

/// The instants, in seconds since the epoch, that a local time of day in a
/// time zone can mean.
#[derive(Clone, Copy, Debug, PartialEq, Eq, Structural)]
pub enum Mapped {
    /// The clocks showed this time once.
    Single(i64),
    /// The clocks showed this time twice, as they were set back: the earlier
    /// and the later instant.
    Ambiguous(i64, i64),
    /// The clocks never showed this time, as they were set forward over it.
    Gap,
}

/// What chrono reads from `text` under the pattern `format` as a date and
/// time of day, mapped to instants by the rules of the Paris time zone. `None`
/// where the text does not fit the pattern.
pub uninterp spec fn paris_instants(text: Seq<char>, format: Seq<char>) -> Option<Mapped>;

/// What chrono writes under the pattern `format` for the date and time of day
/// that the clocks in Paris show at `seconds` after the epoch. `None` where
/// that date is beyond what chrono can hold, or the pattern is not one.
pub uninterp spec fn paris_text(seconds: i64, format: Seq<char>) -> Option<Seq<char>>;

/// The instant, in milliseconds since the epoch, that chrono reads from
/// `text` as an RFC 3339 date and time. `None` where the text is none.
pub uninterp spec fn rfc3339_millis(text: Seq<char>) -> Option<i64>;

/// What chrono writes as the RFC 3339 date and time in UTC, with three
/// decimals of the second, of the instant `millis` milliseconds after the
/// epoch; with `Z` for the offset where `zulu` is set. `None` where that date
/// is beyond what chrono can hold.
pub uninterp spec fn rfc3339_text(millis: i64, zulu: bool) -> Option<Seq<char>>;

/// The characters of a text that may be absent.
pub open spec fn chars_of(text: Option<String>) -> Option<Seq<char>> {
    match text {
        Some(t) => Some(t@),
        None => None,
    }
}

/// Calls chrono's `NaiveDateTime::parse_from_str`, then `and_local_timezone`
/// with chrono-tz's `Europe::Paris`, and takes `timestamp` of each instant
/// that comes back. Trusted: the result is the named `paris_instants` of the
/// two texts, which says only that equal texts give equal results.
#[verifier::external_body]
fn read_paris(text: &str, format: &str) -> (read: Option<Mapped>)
    ensures
        read == paris_instants(text@, format@),
{
    let naive = NaiveDateTime::parse_from_str(text, format).ok()?;
    Some(
        match naive.and_local_timezone(Paris) {
            LocalResult::Single(only) => Mapped::Single(only.timestamp()),
            LocalResult::Ambiguous(first, second) => Mapped::Ambiguous(
                first.timestamp(),
                second.timestamp(),
            ),
            LocalResult::None => Mapped::Gap,
        },
    )
}

/// Calls chrono's `DateTime::from_timestamp_secs`, `with_timezone` with
/// chrono-tz's `Europe::Paris`, `checked_add_offset` for the local date and
/// time, and `format`. Trusted: the text is the named `paris_text` of the
/// seconds and the pattern; it is absent where one of the calls fails.
#[verifier::external_body]
fn write_paris(seconds: i64, format: &str) -> (text: Option<String>)
    ensures
        chars_of(text) == paris_text(seconds, format@),
{
    let zoned = DateTime::from_timestamp_secs(seconds)?.with_timezone(&Paris);
    let local = zoned.naive_utc().checked_add_offset(zoned.offset().fix())?;
    let mut text = String::new();
    write!(text, "{}", local.format(format)).ok()?;
    Some(text)
}

/// Calls chrono's `DateTime::parse_from_rfc3339` and takes `timestamp_millis`
/// of the instant. Trusted: the result is the named `rfc3339_millis` of the
/// text.
#[verifier::external_body]
fn read_rfc3339(text: &str) -> (millis: Option<i64>)
    ensures
        millis == rfc3339_millis(text@),
{
    Some(DateTime::parse_from_rfc3339(text).ok()?.timestamp_millis())
}

/// Calls chrono's `DateTime::from_timestamp_millis` and `to_rfc3339_opts`
/// with `SecondsFormat::Millis`. Trusted: the text is the named
/// `rfc3339_text`; it is absent where the instant is beyond chrono's range.
#[verifier::external_body]
fn write_rfc3339(millis: i64, zulu: bool) -> (text: Option<String>)
    ensures
        chars_of(text) == rfc3339_text(millis, zulu),
{
    Some(DateTime::from_timestamp_millis(millis)?.to_rfc3339_opts(SecondsFormat::Millis, zulu))
}

/// The instant that a local time stands for: the only one; the earlier one
/// where the clocks showed the time twice; none where they never showed it or
/// nothing was read.
pub open spec fn chosen(read: Option<Mapped>) -> Option<i64> {
    match read {
        Some(Mapped::Single(only)) => Some(only),
        Some(Mapped::Ambiguous(first, _)) => Some(first),
        Some(Mapped::Gap) => None,
        None => None,
    }
}

/// An instant in whole seconds since the epoch, written as local time in
/// Paris.
#[derive(Debug, Hash, PartialEq, Eq, Structural)]
pub struct TimestampSecondsParis(i64);

impl View for TimestampSecondsParis {
    type V = i64;

    closed spec fn view(&self) -> i64 {
        self.0
    }
}

impl TimestampSecondsParis {
    /// The instant `seconds` seconds after the epoch.
    pub fn from_seconds(seconds: i64) -> (instant: Self)
        ensures
            instant@ == seconds,
    {
        TimestampSecondsParis(seconds)
    }

    /// Seconds since the epoch.
    pub fn seconds(&self) -> (seconds: i64)
        ensures
            seconds == self@,
    {
        self.0
    }

    /// The instant that a local time which was read stands for: see `chosen`.
    pub fn from_mapped(read: Option<Mapped>) -> (instant: Option<Self>)
        ensures
            chosen(read) == match instant {
                Some(t) => Some(t@),
                None => None,
            },
    {
        match read {
            Some(Mapped::Single(only)) => Some(TimestampSecondsParis(only)),
            Some(Mapped::Ambiguous(first, _)) => Some(TimestampSecondsParis(first)),
            Some(Mapped::Gap) => None,
            None => None,
        }
    }

    /// Reads a local time in Paris under the pattern `format`. The text has
    /// to fit the pattern and name a time that the clocks showed:
    /// `try_from_formatted` is for a text of which that is not known.
    pub fn from_formatted(x: &str, format: &str) -> (instant: Self)
        requires
            chosen(paris_instants(x@, format@)) is Some,
        ensures
            chosen(paris_instants(x@, format@)) == Some(instant@),
    {
        Self::from_mapped(read_paris(x, format)).unwrap()
    }

    /// Reads a local time in Paris under the pattern `format`. `None` where
    /// the text does not fit or names a time that the clocks skipped.
    pub fn try_from_formatted(x: &str, format: &str) -> (instant: Option<Self>)
        ensures
            chosen(paris_instants(x@, format@)) == match instant {
                Some(t) => Some(t@),
                None => None,
            },
    {
        Self::from_mapped(read_paris(x, format))
    }

    /// The two instants, the earlier first, of a local time that the clocks
    /// in Paris showed twice; `None` for every other text.
    pub fn shown_twice(x: &str, format: &str) -> (twice: Option<(i64, i64)>)
        ensures
            twice == match paris_instants(x@, format@) {
                Some(Mapped::Ambiguous(first, second)) => Some((first, second)),
                _ => None,
            },
    {
        match read_paris(x, format) {
            Some(Mapped::Ambiguous(first, second)) => Some((first, second)),
            _ => None,
        }
    }

    /// Writes the instant as local time in Paris under the pattern `format`.
    /// `None` where the date cannot be written.
    pub fn to_formatted(&self, format: &str) -> (text: Option<String>)
        ensures
            chars_of(text) == paris_text(self@, format@),
    {
        write_paris(self.0, format)
    }

    /// This instant, written under `format`, reads `text`.
    pub open spec fn reads(&self, text: Seq<char>, format: Seq<char>) -> bool {
        paris_text(self@, format) == Some(text)
    }

    /// Decides whether this instant, written under `format`, reads `text`.
    pub fn written_as(&self, text: &String, format: &str) -> (same: bool)
        ensures
            same == self.reads(text@, format@),
    {
        match self.to_formatted(format) {
            Some(written) => written == *text,
            None => false,
        }
    }
}

/// An instant in milliseconds since the epoch, written as RFC 3339 in UTC.
#[derive(Debug, Hash, PartialEq, Eq, Structural)]
pub struct TimestampMillis(i64);

impl View for TimestampMillis {
    type V = i64;

    closed spec fn view(&self) -> i64 {
        self.0
    }
}

impl TimestampMillis {
    /// The instant `millis` milliseconds after the epoch.
    pub fn from_millis(millis: i64) -> (instant: Self)
        ensures
            instant@ == millis,
    {
        TimestampMillis(millis)
    }

    /// Milliseconds since the epoch.
    pub fn millis(&self) -> (millis: i64)
        ensures
            millis == self@,
    {
        self.0
    }

    /// The instant that was read, where one was.
    pub fn from_read(read: Option<i64>) -> (instant: Option<Self>)
        ensures
            read == match instant {
                Some(t) => Some(t@),
                None => None,
            },
    {
        match read {
            Some(millis) => Some(TimestampMillis(millis)),
            None => None,
        }
    }

    /// Reads an RFC 3339 date and time. The text has to be one:
    /// `try_from_rfc3339` is for a text of which that is not known.
    pub fn from_rfc3339(x: &str) -> (instant: Self)
        requires
            rfc3339_millis(x@) is Some,
        ensures
            rfc3339_millis(x@) == Some(instant@),
    {
        Self::from_read(read_rfc3339(x)).unwrap()
    }

    /// Reads an RFC 3339 date and time. `None` where the text is none.
    pub fn try_from_rfc3339(x: &str) -> (instant: Option<Self>)
        ensures
            rfc3339_millis(x@) == match instant {
                Some(t) => Some(t@),
                None => None,
            },
    {
        Self::from_read(read_rfc3339(x))
    }

    /// Writes the instant as RFC 3339 in UTC, with milliseconds and `Z`.
    /// `None` where the date cannot be written.
    pub fn to_rfc3339(&self) -> (text: Option<String>)
        ensures
            chars_of(text) == rfc3339_text(self@, true),
    {
        write_rfc3339(self.0, true)
    }

    /// This instant, written as RFC 3339, reads `text`.
    pub open spec fn reads(&self, text: Seq<char>) -> bool {
        rfc3339_text(self@, true) == Some(text)
    }

    /// Decides whether this instant, written as RFC 3339, reads `text`.
    pub fn written_as(&self, text: &String) -> (same: bool)
        ensures
            same == self.reads(text@),
    {
        match self.to_rfc3339() {
            Some(written) => written == *text,
            None => false,
        }
    }
}

} // verus!
