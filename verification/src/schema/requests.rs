//! How many requests compacting a record makes to each store.
use crate::schema::source::{Data, Disruption, ImpactedObject, Line};
use vstd::prelude::*;

verus! {

/// A number of requests for each store.
pub struct Requests {
    pub string: nat,
    pub uuid: nat,
    pub disruption_set: nat,
    pub disruption: nat,
    pub application_period: nat,
    pub line_set: nat,
    pub line: nat,
    pub line_header: nat,
    pub impacted_object: nat,
    pub object: nat,
    pub uuid_set: nat,
}

impl Requests {
    /// No request to any store.
    pub open spec fn none() -> Requests {
        Requests {
            string: 0,
            uuid: 0,
            disruption_set: 0,
            disruption: 0,
            application_period: 0,
            line_set: 0,
            line: 0,
            line_header: 0,
            impacted_object: 0,
            object: 0,
            uuid_set: 0,
        }
    }

    /// The requests of both, store by store.
    pub open spec fn plus(self, other: Requests) -> Requests {
        Requests {
            string: self.string + other.string,
            uuid: self.uuid + other.uuid,
            disruption_set: self.disruption_set + other.disruption_set,
            disruption: self.disruption + other.disruption,
            application_period: self.application_period + other.application_period,
            line_set: self.line_set + other.line_set,
            line: self.line + other.line,
            line_header: self.line_header + other.line_header,
            impacted_object: self.impacted_object + other.impacted_object,
            object: self.object + other.object,
            uuid_set: self.uuid_set + other.uuid_set,
        }
    }

    /// No store is asked more by `self` than by `other`.
    pub open spec fn le(self, other: Requests) -> bool {
        &&& self.string <= other.string
        &&& self.uuid <= other.uuid
        &&& self.disruption_set <= other.disruption_set
        &&& self.disruption <= other.disruption
        &&& self.application_period <= other.application_period
        &&& self.line_set <= other.line_set
        &&& self.line <= other.line
        &&& self.line_header <= other.line_header
        &&& self.impacted_object <= other.impacted_object
        &&& self.object <= other.object
        &&& self.uuid_set <= other.uuid_set
    }

    /// The requests to all stores together.
    pub open spec fn total(self) -> nat {
        self.string + self.uuid + self.disruption_set + self.disruption + self.application_period
            + self.line_set + self.line + self.line_header + self.impacted_object + self.object
            + self.uuid_set
    }

    /// `count` requests to the store of texts.
    pub open spec fn strings(count: nat) -> Requests {
        Requests { string: count, ..Requests::none() }
    }

    /// `count` requests to the store of identifiers.
    pub open spec fn uuids(count: nat) -> Requests {
        Requests { uuid: count, ..Requests::none() }
    }

    /// `count` requests to the store of sets of disruptions.
    pub open spec fn disruption_sets(count: nat) -> Requests {
        Requests { disruption_set: count, ..Requests::none() }
    }

    /// `count` requests to the store of disruptions.
    pub open spec fn disruptions(count: nat) -> Requests {
        Requests { disruption: count, ..Requests::none() }
    }

    /// `count` requests to the store of spans of time.
    pub open spec fn application_periods(count: nat) -> Requests {
        Requests { application_period: count, ..Requests::none() }
    }

    /// `count` requests to the store of sets of lines.
    pub open spec fn line_sets(count: nat) -> Requests {
        Requests { line_set: count, ..Requests::none() }
    }

    /// `count` requests to the store of lines.
    pub open spec fn lines(count: nat) -> Requests {
        Requests { line: count, ..Requests::none() }
    }

    /// `count` requests to the store of headers of lines.
    pub open spec fn line_headers(count: nat) -> Requests {
        Requests { line_header: count, ..Requests::none() }
    }

    /// `count` requests to the store of impacted objects.
    pub open spec fn impacted_objects(count: nat) -> Requests {
        Requests { impacted_object: count, ..Requests::none() }
    }

    /// `count` requests to the store of objects.
    pub open spec fn objects(count: nat) -> Requests {
        Requests { object: count, ..Requests::none() }
    }

    /// `count` requests to the store of sets of identifiers.
    pub open spec fn uuid_sets(count: nat) -> Requests {
        Requests { uuid_set: count, ..Requests::none() }
    }
}

impl ImpactedObject {
    /// The requests that compacting the object makes, store by store: one for
    /// each of its identifiers and of its three texts, one for the object and
    /// one for the set of its identifiers.
    pub open spec fn requests_by_store(&self) -> Requests {
        Requests {
            uuid: self.disruption_ids@.len(),
            string: 3,
            object: 1,
            uuid_set: 1,
            ..Requests::none()
        }
    }

    /// The requests to all stores are the requests store by store, together.
    pub proof fn lemma_requests(&self)
        ensures
            self.requests() == self.requests_by_store().total(),
    {
    }
}

/// The requests that compacting the objects makes, and storing each.
pub open spec fn objects_requests_by_store(objects: Seq<ImpactedObject>) -> Requests
    decreases objects.len(),
{
    if objects.len() == 0 {
        Requests::none()
    } else {
        objects_requests_by_store(objects.drop_last()).plus(
            objects.last().requests_by_store(),
        ).plus(Requests::impacted_objects(1))
    }
}

/// The first objects of a list ask no store more than all of them do.
proof fn lemma_objects_requests_grow(objects: Seq<ImpactedObject>, k: int)
    requires
        0 <= k <= objects.len(),
    ensures
        objects_requests_by_store(objects.take(k)).le(objects_requests_by_store(objects)),
    decreases objects.len(),
{
    if k < objects.len() {
        assert(objects.drop_last().take(k) =~= objects.take(k));
        lemma_objects_requests_grow(objects.drop_last(), k);
    } else {
        assert(objects.take(k) =~= objects);
    }
}

/// The requests of the first objects and of the next one are those of the
/// first objects with the next; all together they are as many as are
/// counted; and they ask no store more than all objects do.
pub proof fn lemma_objects_requests_by_store(objects: Seq<ImpactedObject>, k: int)
    requires
        0 <= k <= objects.len(),
    ensures
        objects_requests_by_store(objects.take(k)).total() == crate::schema::source::objects_requests(
            objects.take(k),
        ),
        k < objects.len() ==> objects_requests_by_store(objects.take(k + 1))
            == objects_requests_by_store(objects.take(k)).plus(objects[k].requests_by_store()).plus(
            Requests::impacted_objects(1),
        ),
        objects_requests_by_store(objects.take(k)).le(objects_requests_by_store(objects)),
    decreases k,
{
    lemma_objects_requests_grow(objects, k);
    if k < objects.len() {
        assert(objects.take(k + 1).drop_last() =~= objects.take(k));
    }
    if k > 0 {
        assert(objects.take(k).drop_last() =~= objects.take(k - 1));
        lemma_objects_requests_by_store(objects, k - 1);
    }
}

impl Line {
    /// The requests that compacting the line makes, store by store: one for
    /// each of its five texts, one for its header, and those of its objects.
    pub open spec fn requests_by_store(&self) -> Requests {
        Requests::strings(5).plus(Requests::line_headers(1)).plus(
            objects_requests_by_store(self.impacted_objects@),
        )
    }

    /// The requests to all stores are the requests store by store, together.
    pub proof fn lemma_requests(&self)
        ensures
            self.requests() == self.requests_by_store().total(),
    {
        lemma_objects_requests_by_store(self.impacted_objects@, self.impacted_objects@.len() as int);
        assert(self.impacted_objects@.take(self.impacted_objects@.len() as int)
            =~= self.impacted_objects@);
    }
}

/// The requests that compacting the lines makes, and storing each.
pub open spec fn lines_requests_by_store(lines: Seq<Line>) -> Requests
    decreases lines.len(),
{
    if lines.len() == 0 {
        Requests::none()
    } else {
        lines_requests_by_store(lines.drop_last()).plus(lines.last().requests_by_store()).plus(
            Requests::lines(1),
        )
    }
}

/// The first lines of a list ask no store more than all of them do.
proof fn lemma_lines_requests_grow(lines: Seq<Line>, k: int)
    requires
        0 <= k <= lines.len(),
    ensures
        lines_requests_by_store(lines.take(k)).le(lines_requests_by_store(lines)),
    decreases lines.len(),
{
    if k < lines.len() {
        assert(lines.drop_last().take(k) =~= lines.take(k));
        lemma_lines_requests_grow(lines.drop_last(), k);
    } else {
        assert(lines.take(k) =~= lines);
    }
}

/// The requests of the first lines and of the next one are those of the
/// first lines with the next; all together they are as many as are counted;
/// and they ask no store more than all lines do.
pub proof fn lemma_lines_requests_by_store(lines: Seq<Line>, k: int)
    requires
        0 <= k <= lines.len(),
    ensures
        lines_requests_by_store(lines.take(k)).total() == crate::schema::source::lines_requests(
            lines.take(k),
        ),
        k < lines.len() ==> lines_requests_by_store(lines.take(k + 1)) == lines_requests_by_store(
            lines.take(k),
        ).plus(lines[k].requests_by_store()).plus(Requests::lines(1)),
        lines_requests_by_store(lines.take(k)).le(lines_requests_by_store(lines)),
    decreases k,
{
    lemma_lines_requests_grow(lines, k);
    if k < lines.len() {
        assert(lines.take(k + 1).drop_last() =~= lines.take(k));
    }
    if k > 0 {
        assert(lines.take(k).drop_last() =~= lines.take(k - 1));
        assert(lines.take(k).last() == lines[k - 1]);
        lines[k - 1].lemma_requests();
        lemma_lines_requests_by_store(lines, k - 1);
    }
}

impl Disruption {
    /// The requests that compacting the disruption makes, store by store:
    /// one for each of its identifiers, of its spans of time, of its four
    /// texts and of its tags.
    pub open spec fn requests_by_store(&self) -> Requests {
        Requests {
            uuid: if self.disruption_id is Some {
                2
            } else {
                1
            },
            application_period: self.application_periods@.len(),
            string: 4 + (match self.tags {
                Some(tags) => tags@.len(),
                None => 0,
            }),
            ..Requests::none()
        }
    }

    /// The requests to all stores are the requests store by store, together.
    pub proof fn lemma_requests(&self)
        ensures
            self.requests() == self.requests_by_store().total(),
    {
    }
}

/// The requests that compacting the disruptions makes, and storing each.
pub open spec fn disruptions_requests_by_store(disruptions: Seq<Disruption>) -> Requests
    decreases disruptions.len(),
{
    if disruptions.len() == 0 {
        Requests::none()
    } else {
        disruptions_requests_by_store(disruptions.drop_last()).plus(
            disruptions.last().requests_by_store(),
        ).plus(Requests::disruptions(1))
    }
}

/// The first disruptions of a list ask no store more than all of them do.
proof fn lemma_disruptions_requests_grow(disruptions: Seq<Disruption>, k: int)
    requires
        0 <= k <= disruptions.len(),
    ensures
        disruptions_requests_by_store(disruptions.take(k)).le(
            disruptions_requests_by_store(disruptions),
        ),
    decreases disruptions.len(),
{
    if k < disruptions.len() {
        assert(disruptions.drop_last().take(k) =~= disruptions.take(k));
        lemma_disruptions_requests_grow(disruptions.drop_last(), k);
    } else {
        assert(disruptions.take(k) =~= disruptions);
    }
}

/// The requests of the first disruptions and of the next one are those of
/// the first disruptions with the next; all together they are as many as are
/// counted; and they ask no store more than all disruptions do.
pub proof fn lemma_disruptions_requests_by_store(disruptions: Seq<Disruption>, k: int)
    requires
        0 <= k <= disruptions.len(),
    ensures
        disruptions_requests_by_store(disruptions.take(k)).total()
            == crate::schema::source::disruptions_requests(disruptions.take(k)),
        k < disruptions.len() ==> disruptions_requests_by_store(disruptions.take(k + 1))
            == disruptions_requests_by_store(disruptions.take(k)).plus(
            disruptions[k].requests_by_store(),
        ).plus(Requests::disruptions(1)),
        disruptions_requests_by_store(disruptions.take(k)).le(
            disruptions_requests_by_store(disruptions),
        ),
    decreases k,
{
    lemma_disruptions_requests_grow(disruptions, k);
    if k < disruptions.len() {
        assert(disruptions.take(k + 1).drop_last() =~= disruptions.take(k));
    }
    if k > 0 {
        assert(disruptions.take(k).drop_last() =~= disruptions.take(k - 1));
        lemma_disruptions_requests_by_store(disruptions, k - 1);
    }
}

impl Data {
    /// The requests that compacting the feed makes, store by store: those of
    /// its disruptions and lines and one for each of the two sets; or two for
    /// the texts of an error; or none.
    pub open spec fn requests_by_store(&self) -> Requests {
        if self.is_success() {
            disruptions_requests_by_store(self.disruptions->0@).plus(
                lines_requests_by_store(self.lines->0@),
            ).plus(Requests::disruption_sets(1)).plus(Requests::line_sets(1))
        } else if self.is_error() {
            Requests::strings(2)
        } else {
            Requests::none()
        }
    }

    /// The requests to all stores are the requests store by store, together.
    pub proof fn lemma_requests(&self)
        ensures
            self.requests() == self.requests_by_store().total(),
    {
        if self.is_success() {
            let disruptions = self.disruptions->0@;
            let lines = self.lines->0@;
            lemma_disruptions_requests_by_store(disruptions, disruptions.len() as int);
            lemma_lines_requests_by_store(lines, lines.len() as int);
            assert(disruptions.take(disruptions.len() as int) =~= disruptions);
            assert(lines.take(lines.len() as int) =~= lines);
        }
    }
}

} // verus!
