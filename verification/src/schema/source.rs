//! The records as they are read: plain texts and lists.
use crate::schema::Uuid;
use crate::time::{chosen, paris_instants, rfc3339_millis, TimestampMillis, TimestampSecondsParis};
use vstd::prelude::*;

verus! {

/// The pattern of the local times in the records.
pub const LOCAL_FORMAT: &'static str = "%Y%m%dT%H%M%S";

/// The instant that a local time in a record stands for, where it is one.
pub open spec fn local_instant(text: Seq<char>) -> Option<i64> {
    chosen(paris_instants(text, LOCAL_FORMAT@))
}

/// A count as it fits in 64 bits: itself, or the largest number that does.
pub open spec fn capped(count: nat) -> u64 {
    if count > u64::MAX {
        u64::MAX
    } else {
        count as u64
    }
}

/// A feed: either disruptions and lines with the date of their last update,
/// or a status code with an error and a message.
#[derive(Clone, Debug)]
pub struct Data {
    pub disruptions: Option<Vec<Disruption>>,
    pub lines: Option<Vec<Line>>,
    pub last_updated_date: Option<String>,
    pub status_code: Option<i32>,
    pub error: Option<String>,
    pub message: Option<String>,
}

/// A disruption of the service.
#[derive(Clone, Debug)]
pub struct Disruption {
    pub id: Uuid,
    pub application_periods: Vec<ApplicationPeriod>,
    pub last_update: String,
    pub cause: String,
    pub severity: String,
    pub tags: Option<Vec<String>>,
    pub title: String,
    pub message: String,
    pub disruption_id: Option<Uuid>,
}

/// A span of time during which a disruption applies, as two local times.
#[derive(Clone, Debug)]
pub struct ApplicationPeriod {
    pub begin: String,
    pub end: String,
}

/// A line with the objects on it that disruptions touch.
#[derive(Clone, Debug)]
pub struct Line {
    pub id: String,
    pub name: String,
    pub short_name: String,
    pub mode: String,
    pub network_id: String,
    pub impacted_objects: Vec<ImpactedObject>,
}

/// A stop, a line or another object, with the disruptions that touch it.
#[derive(Clone, Debug)]
pub struct ImpactedObject {
    pub typ: String,
    pub id: String,
    pub name: String,
    pub disruption_ids: Vec<Uuid>,
}

impl ApplicationPeriod {
    /// Both ends of the span are local times.
    pub open spec fn well_formed(&self) -> bool {
        local_instant(self.begin@) is Some && local_instant(self.end@) is Some
    }

    /// Decides whether both ends of the span are local times.
    pub fn is_well_formed(&self) -> (reads: bool)
        ensures
            reads == self.well_formed(),
    {
        TimestampSecondsParis::try_from_formatted(self.begin.as_str(), LOCAL_FORMAT).is_some()
            && TimestampSecondsParis::try_from_formatted(self.end.as_str(), LOCAL_FORMAT).is_some()
    }
}

/// Each of the spans is well-formed.
pub open spec fn periods_well_formed(periods: Seq<ApplicationPeriod>) -> bool {
    forall|k: int| 0 <= k < periods.len() ==> (#[trigger] periods[k]).well_formed()
}

impl Disruption {
    /// Number of requests that compacting the disruption makes to the stores.
    pub open spec fn requests(&self) -> nat {
        5 + self.application_periods@.len() + (match self.tags {
            Some(tags) => tags@.len(),
            None => 0,
        }) + (if self.disruption_id is Some {
            1nat
        } else {
            0nat
        })
    }

    /// The spans and the date of the last update are local times.
    pub open spec fn well_formed(&self) -> bool {
        periods_well_formed(self.application_periods@) && local_instant(self.last_update@) is Some
    }

    /// Decides whether the spans and the date of the last update are local
    /// times.
    pub fn is_well_formed(&self) -> (reads: bool)
        ensures
            reads == self.well_formed(),
    {
        let mut i: usize = 0;
        while i < self.application_periods.len()
            invariant
                i <= self.application_periods@.len(),
                forall|k: int| 0 <= k < i ==> (#[trigger] self.application_periods@[k]).well_formed(),
            decreases self.application_periods@.len() - i,
        {
            if !self.application_periods[i].is_well_formed() {
                return false;
            }
            i = i + 1;
        }
        TimestampSecondsParis::try_from_formatted(self.last_update.as_str(), LOCAL_FORMAT).is_some()
    }
}

impl Disruption {
    /// Counts the requests that compacting the disruption makes to the
    /// stores, up to the largest number that fits.
    pub fn count_requests(&self) -> (count: u64)
        ensures
            count == capped(self.requests()),
    {
        let count: u64 = 5u64.saturating_add(self.application_periods.len() as u64);
        let count: u64 = match &self.tags {
            Some(tags) => count.saturating_add(tags.len() as u64),
            None => count,
        };
        match &self.disruption_id {
            Some(_) => count.saturating_add(1),
            None => count,
        }
    }
}

/// Number of requests that compacting the disruptions makes, and storing
/// each.
pub open spec fn disruptions_requests(disruptions: Seq<Disruption>) -> nat
    decreases disruptions.len(),
{
    if disruptions.len() == 0 {
        0
    } else {
        disruptions_requests(disruptions.drop_last()) + disruptions.last().requests() + 1
    }
}

/// The first disruptions of a list ask for no more than all of them.
pub proof fn lemma_disruptions_requests(disruptions: Seq<Disruption>, k: int)
    requires
        0 <= k <= disruptions.len(),
    ensures
        disruptions_requests(disruptions.take(k)) <= disruptions_requests(disruptions),
        k < disruptions.len() ==> disruptions_requests(disruptions.take(k + 1))
            == disruptions_requests(disruptions.take(k)) + disruptions[k].requests() + 1,
    decreases disruptions.len(),
{
    if k < disruptions.len() {
        assert(disruptions.take(k + 1).drop_last() =~= disruptions.take(k));
        assert(disruptions.drop_last().take(k) =~= disruptions.take(k));
        lemma_disruptions_requests(disruptions.drop_last(), k);
    } else {
        assert(disruptions.take(k) =~= disruptions);
    }
}

/// Each of the disruptions is well-formed.
pub open spec fn disruptions_well_formed(disruptions: Seq<Disruption>) -> bool {
    forall|k: int| 0 <= k < disruptions.len() ==> (#[trigger] disruptions[k]).well_formed()
}

impl ImpactedObject {
    /// Number of requests that compacting the object makes to the stores.
    pub open spec fn requests(&self) -> nat {
        5 + self.disruption_ids@.len()
    }
}

impl ImpactedObject {
    /// Counts the requests that compacting the object makes to the stores,
    /// up to the largest number that fits.
    pub fn count_requests(&self) -> (count: u64)
        ensures
            count == capped(self.requests()),
    {
        5u64.saturating_add(self.disruption_ids.len() as u64)
    }
}

/// Number of requests that compacting the objects makes, and storing each.
pub open spec fn objects_requests(objects: Seq<ImpactedObject>) -> nat
    decreases objects.len(),
{
    if objects.len() == 0 {
        0
    } else {
        objects_requests(objects.drop_last()) + objects.last().requests() + 1
    }
}

/// The first objects of a list ask for no more than all of them.
pub proof fn lemma_objects_requests(objects: Seq<ImpactedObject>, k: int)
    requires
        0 <= k <= objects.len(),
    ensures
        objects_requests(objects.take(k)) <= objects_requests(objects),
        k < objects.len() ==> objects_requests(objects.take(k + 1)) == objects_requests(
            objects.take(k),
        ) + objects[k].requests() + 1,
    decreases objects.len(),
{
    if k < objects.len() {
        assert(objects.take(k + 1).drop_last() =~= objects.take(k));
        assert(objects.drop_last().take(k) =~= objects.take(k));
        lemma_objects_requests(objects.drop_last(), k);
    } else {
        assert(objects.take(k) =~= objects);
    }
}

impl Line {
    /// Number of requests that compacting the line makes to the stores.
    pub open spec fn requests(&self) -> nat {
        6 + objects_requests(self.impacted_objects@)
    }
}

impl Line {
    /// Counts the requests that compacting the line makes to the stores, up
    /// to the largest number that fits.
    pub fn count_requests(&self) -> (count: u64)
        ensures
            count == capped(self.requests()),
    {
        let mut count: u64 = 6;
        let mut i: usize = 0;
        while i < self.impacted_objects.len()
            invariant
                i <= self.impacted_objects@.len(),
                count == capped(6 + objects_requests(self.impacted_objects@.take(i as int))),
            decreases self.impacted_objects@.len() - i,
        {
            proof {
                lemma_objects_requests(self.impacted_objects@, i as int);
            }
            count = count.saturating_add(self.impacted_objects[i].count_requests()).saturating_add(1);
            i = i + 1;
        }
        assert(self.impacted_objects@.take(i as int) =~= self.impacted_objects@);
        count
    }
}

/// Number of requests that compacting the lines makes, and storing each.
pub open spec fn lines_requests(lines: Seq<Line>) -> nat
    decreases lines.len(),
{
    if lines.len() == 0 {
        0
    } else {
        lines_requests(lines.drop_last()) + lines.last().requests() + 1
    }
}

/// The first lines of a list ask for no more than all of them.
pub proof fn lemma_lines_requests(lines: Seq<Line>, k: int)
    requires
        0 <= k <= lines.len(),
    ensures
        lines_requests(lines.take(k)) <= lines_requests(lines),
        k < lines.len() ==> lines_requests(lines.take(k + 1)) == lines_requests(lines.take(k))
            + lines[k].requests() + 1,
    decreases lines.len(),
{
    if k < lines.len() {
        assert(lines.take(k + 1).drop_last() =~= lines.take(k));
        assert(lines.drop_last().take(k) =~= lines.take(k));
        lemma_lines_requests(lines.drop_last(), k);
    } else {
        assert(lines.take(k) =~= lines);
    }
}

impl Data {
    /// The feed holds disruptions, lines and a date, and nothing else.
    pub open spec fn is_success(&self) -> bool {
        &&& self.disruptions is Some
        &&& self.lines is Some
        &&& self.last_updated_date is Some
        &&& self.status_code is None
        &&& self.error is None
        &&& self.message is None
    }

    /// The feed holds a status code, an error and a message, and nothing
    /// else.
    pub open spec fn is_error(&self) -> bool {
        &&& self.disruptions is None
        &&& self.lines is None
        &&& self.last_updated_date is None
        &&& self.status_code is Some
        &&& self.error is Some
        &&& self.message is Some
    }

    /// Number of requests that compacting the feed makes to the stores.
    pub open spec fn requests(&self) -> nat {
        if self.is_success() {
            disruptions_requests(self.disruptions->0@) + lines_requests(self.lines->0@) + 2
        } else if self.is_error() {
            2
        } else {
            0
        }
    }

    /// Counts the requests that compacting the feed makes to the stores, up
    /// to the largest number that fits.
    pub fn count_requests(&self) -> (count: u64)
        ensures
            count == capped(self.requests()),
    {
        match (
            &self.disruptions,
            &self.lines,
            &self.last_updated_date,
            &self.status_code,
            &self.error,
            &self.message,
        ) {
            (Some(disruptions), Some(lines), Some(_), None, None, None) => {
                let mut count: u64 = 2;
                let mut i: usize = 0;
                while i < disruptions.len()
                    invariant
                        i <= disruptions@.len(),
                        count == capped(2 + disruptions_requests(disruptions@.take(i as int))),
                    decreases disruptions@.len() - i,
                {
                    proof {
                        lemma_disruptions_requests(disruptions@, i as int);
                    }
                    count = count.saturating_add(disruptions[i].count_requests()).saturating_add(1);
                    i = i + 1;
                }
                assert(disruptions@.take(i as int) =~= disruptions@);
                let mut j: usize = 0;
                while j < lines.len()
                    invariant
                        j <= lines@.len(),
                        count == capped(
                            2 + disruptions_requests(disruptions@) + lines_requests(
                                lines@.take(j as int),
                            ),
                        ),
                    decreases lines@.len() - j,
                {
                    proof {
                        lemma_lines_requests(lines@, j as int);
                    }
                    count = count.saturating_add(lines[j].count_requests()).saturating_add(1);
                    j = j + 1;
                }
                assert(lines@.take(j as int) =~= lines@);
                count
            },
            (None, None, None, Some(_), Some(_), Some(_)) => 2,
            _ => 0,
        }
    }

    /// Every date and time of the feed reads as one.
    pub open spec fn timestamps_read(&self) -> bool {
        self.is_success() ==> disruptions_well_formed(self.disruptions->0@) && rfc3339_millis(
            self.last_updated_date->0@,
        ) is Some
    }

    /// Decides whether the feed holds disruptions, lines and a date, and
    /// nothing else.
    pub fn has_success_fields(&self) -> (yes: bool)
        ensures
            yes == self.is_success(),
    {
        self.disruptions.is_some() && self.lines.is_some() && self.last_updated_date.is_some()
            && self.status_code.is_none() && self.error.is_none() && self.message.is_none()
    }

    /// Decides whether the feed holds a status code, an error and a message,
    /// and nothing else.
    pub fn has_error_fields(&self) -> (yes: bool)
        ensures
            yes == self.is_error(),
    {
        self.disruptions.is_none() && self.lines.is_none() && self.last_updated_date.is_none()
            && self.status_code.is_some() && self.error.is_some() && self.message.is_some()
    }

    /// Decides whether every date and time of the feed reads as one.
    pub fn has_timestamps_that_read(&self) -> (reads: bool)
        ensures
            reads == self.timestamps_read(),
    {
        if !self.has_success_fields() {
            return true;
        }
        match (&self.disruptions, &self.last_updated_date) {
            (Some(disruptions), Some(date)) => {
                let mut i: usize = 0;
                while i < disruptions.len()
                    invariant
                        i <= disruptions@.len(),
                        self.is_success(),
                        self.disruptions == Some(*disruptions),
                        forall|k: int| 0 <= k < i ==> (#[trigger] disruptions@[k]).well_formed(),
                    decreases disruptions@.len() - i,
                {
                    if !disruptions[i].is_well_formed() {
                        assert(!disruptions@[i as int].well_formed());
                        return false;
                    }
                    i = i + 1;
                }
                TimestampMillis::try_from_rfc3339(date.as_str()).is_some()
            },
            _ => true,
        }
    }
}

} // verus!
