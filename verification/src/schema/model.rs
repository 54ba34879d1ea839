//! Compacting as a function: what the stores hold and what comes back, for
//! each record and each state of the stores.
use crate::intern::{contents_of, place, put};
use crate::schema::optimized::{DataContent, DisruptionContent, Interners};
use crate::schema::source;
use crate::schema::source::local_instant;
use crate::schema::Uuid;
use crate::set::sorted;
use crate::time::rfc3339_millis;
use vstd::prelude::*;

verus! {

/// What the stores hold: the contents of each, place by place.
pub struct Contents {
    pub string: Seq<Seq<char>>,
    pub uuid: Seq<u128>,
    pub disruption_set: Seq<Seq<u32>>,
    pub disruption: Seq<DisruptionContent>,
    pub application_period: Seq<(i64, i64)>,
    pub line_set: Seq<Seq<u32>>,
    pub line: Seq<(u32, Seq<u32>)>,
    pub line_header: Seq<(u32, u32, u32, u32, u32)>,
    pub impacted_object: Seq<(u32, u32)>,
    pub object: Seq<(u32, u32, u32)>,
    pub uuid_set: Seq<Seq<u32>>,
}

impl Contents {
    /// Stores that hold nothing.
    pub open spec fn empty() -> Contents {
        Contents {
            string: Seq::empty(),
            uuid: Seq::empty(),
            disruption_set: Seq::empty(),
            disruption: Seq::empty(),
            application_period: Seq::empty(),
            line_set: Seq::empty(),
            line: Seq::empty(),
            line_header: Seq::empty(),
            impacted_object: Seq::empty(),
            object: Seq::empty(),
            uuid_set: Seq::empty(),
        }
    }

    /// The contents after a request for a text, and the handle that the
    /// request returns.
    pub open spec fn put_string(self, content: Seq<char>) -> (Contents, u32) {
        (
            Contents { string: put(self.string, content), ..self },
            place(self.string, content),
        )
    }

    /// The contents after a request for an identifier, and the handle that the
    /// request returns.
    pub open spec fn put_uuid(self, content: u128) -> (Contents, u32) {
        (
            Contents { uuid: put(self.uuid, content), ..self },
            place(self.uuid, content),
        )
    }

    /// The contents after a request for a set of disruptions, and the handle that the
    /// request returns.
    pub open spec fn put_disruption_set(self, content: Seq<u32>) -> (Contents, u32) {
        (
            Contents { disruption_set: put(self.disruption_set, content), ..self },
            place(self.disruption_set, content),
        )
    }

    /// The contents after a request for a disruption, and the handle that the
    /// request returns.
    pub open spec fn put_disruption(self, content: DisruptionContent) -> (Contents, u32) {
        (
            Contents { disruption: put(self.disruption, content), ..self },
            place(self.disruption, content),
        )
    }

    /// The contents after a request for a span of time, and the handle that the
    /// request returns.
    pub open spec fn put_application_period(self, content: (i64, i64)) -> (Contents, u32) {
        (
            Contents { application_period: put(self.application_period, content), ..self },
            place(self.application_period, content),
        )
    }

    /// The contents after a request for a set of lines, and the handle that the
    /// request returns.
    pub open spec fn put_line_set(self, content: Seq<u32>) -> (Contents, u32) {
        (
            Contents { line_set: put(self.line_set, content), ..self },
            place(self.line_set, content),
        )
    }

    /// The contents after a request for a line, and the handle that the
    /// request returns.
    pub open spec fn put_line(self, content: (u32, Seq<u32>)) -> (Contents, u32) {
        (
            Contents { line: put(self.line, content), ..self },
            place(self.line, content),
        )
    }

    /// The contents after a request for the header of a line, and the handle that the
    /// request returns.
    pub open spec fn put_line_header(self, content: (u32, u32, u32, u32, u32)) -> (Contents, u32) {
        (
            Contents { line_header: put(self.line_header, content), ..self },
            place(self.line_header, content),
        )
    }

    /// The contents after a request for an impacted object, and the handle that the
    /// request returns.
    pub open spec fn put_impacted_object(self, content: (u32, u32)) -> (Contents, u32) {
        (
            Contents { impacted_object: put(self.impacted_object, content), ..self },
            place(self.impacted_object, content),
        )
    }

    /// The contents after a request for an object, and the handle that the
    /// request returns.
    pub open spec fn put_object(self, content: (u32, u32, u32)) -> (Contents, u32) {
        (
            Contents { object: put(self.object, content), ..self },
            place(self.object, content),
        )
    }

    /// The contents after a request for a set of identifiers, and the handle that the
    /// request returns.
    pub open spec fn put_uuid_set(self, content: Seq<u32>) -> (Contents, u32) {
        (
            Contents { uuid_set: put(self.uuid_set, content), ..self },
            place(self.uuid_set, content),
        )
    }
}

impl Interners {
    /// What the stores hold.
    #[verifier::opaque]
    pub open spec fn contents(&self) -> Contents {
        Contents {
            string: contents_of(self.string@),
            uuid: contents_of(self.uuid@),
            disruption_set: contents_of(self.disruption_set@),
            disruption: contents_of(self.disruption@),
            application_period: contents_of(self.application_period@),
            line_set: contents_of(self.line_set@),
            line: contents_of(self.line@),
            line_header: contents_of(self.line_header@),
            impacted_object: contents_of(self.impacted_object@),
            object: contents_of(self.object@),
            uuid_set: contents_of(self.uuid_set@),
        }
    }
}

/// Requests for each of the identifiers, in order: what the stores hold
/// after them, and the handles that they return.
pub open spec fn put_uuids(held: Contents, ids: Seq<Uuid>) -> (Contents, Seq<u32>)
    decreases ids.len(),
{
    if ids.len() == 0 {
        (held, Seq::empty())
    } else {
        let (held, handles) = put_uuids(held, ids.drop_last());
        let (held, handle) = held.put_uuid(ids.last()@);
        (held, handles.push(handle))
    }
}

/// Requests for each of the texts, in order: what the stores hold after
/// them, and the handles that they return.
pub open spec fn put_texts(held: Contents, texts: Seq<String>) -> (Contents, Seq<u32>)
    decreases texts.len(),
{
    if texts.len() == 0 {
        (held, Seq::empty())
    } else {
        let (held, handles) = put_texts(held, texts.drop_last());
        let (held, handle) = held.put_string(texts.last()@);
        (held, handles.push(handle))
    }
}

/// Compacting an impacted object: what the stores hold after it, and the
/// content of the compact object.
pub open spec fn compact_impacted_object(held: Contents, source: source::ImpactedObject) -> (
    Contents,
    (u32, u32),
) {
    let (held, ids) = put_uuids(held, source.disruption_ids@);
    let (held, typ) = held.put_string(source.typ@);
    let (held, id) = held.put_string(source.id@);
    let (held, name) = held.put_string(source.name@);
    let (held, object) = held.put_object((typ, id, name));
    let (held, disruption_ids) = held.put_uuid_set(sorted(ids));
    (held, (object, disruption_ids))
}

/// Compacting each of the impacted objects and storing it, in order: what
/// the stores hold after them, and the handles of the compact objects.
pub open spec fn compact_impacted_objects(held: Contents, objects: Seq<source::ImpactedObject>) -> (
    Contents,
    Seq<u32>,
)
    decreases objects.len(),
{
    if objects.len() == 0 {
        (held, Seq::empty())
    } else {
        let (held, handles) = compact_impacted_objects(held, objects.drop_last());
        let (held, content) = compact_impacted_object(held, objects.last());
        let (held, handle) = held.put_impacted_object(content);
        (held, handles.push(handle))
    }
}

/// Compacting a line: what the stores hold after it, and the content of the
/// compact line.
pub open spec fn compact_line(held: Contents, source: source::Line) -> (Contents, (u32, Seq<u32>)) {
    let (held, id) = held.put_string(source.id@);
    let (held, name) = held.put_string(source.name@);
    let (held, short_name) = held.put_string(source.short_name@);
    let (held, mode) = held.put_string(source.mode@);
    let (held, network_id) = held.put_string(source.network_id@);
    let (held, header) = held.put_line_header((id, name, short_name, mode, network_id));
    let (held, handles) = compact_impacted_objects(held, source.impacted_objects@);
    (held, (header, sorted(handles)))
}

/// Compacting each of the lines and storing it, in order: what the stores
/// hold after them, and the handles of the compact lines.
pub open spec fn compact_lines(held: Contents, lines: Seq<source::Line>) -> (Contents, Seq<u32>)
    decreases lines.len(),
{
    if lines.len() == 0 {
        (held, Seq::empty())
    } else {
        let (held, handles) = compact_lines(held, lines.drop_last());
        let (held, content) = compact_line(held, lines.last());
        let (held, handle) = held.put_line(content);
        (held, handles.push(handle))
    }
}

/// Compacting a span of time whose two local times read: its two instants.
pub open spec fn compact_period(source: source::ApplicationPeriod) -> (i64, i64) {
    (local_instant(source.begin@)->0, local_instant(source.end@)->0)
}

/// Compacting each of the spans of time and storing it, in order: what the
/// stores hold after them, and the handles of the compact spans.
pub open spec fn compact_periods(held: Contents, periods: Seq<source::ApplicationPeriod>) -> (
    Contents,
    Seq<u32>,
)
    decreases periods.len(),
{
    if periods.len() == 0 {
        (held, Seq::empty())
    } else {
        let (held, handles) = compact_periods(held, periods.drop_last());
        let (held, handle) = held.put_application_period(compact_period(periods.last()));
        (held, handles.push(handle))
    }
}

/// The tags of a disruption: requests for each of them, where there are
/// tags, and their handles in ascending order.
pub open spec fn put_tags(held: Contents, tags: Option<Vec<String>>) -> (
    Contents,
    Option<Seq<u32>>,
) {
    match tags {
        Some(tags) => {
            let (held, handles) = put_texts(held, tags@);
            (held, Some(sorted(handles)))
        },
        None => (held, None),
    }
}

/// A request for an identifier that may be absent.
pub open spec fn put_optional_uuid(held: Contents, id: Option<Uuid>) -> (Contents, Option<u32>) {
    match id {
        Some(id) => {
            let (held, handle) = held.put_uuid(id@);
            (held, Some(handle))
        },
        None => (held, None),
    }
}

/// Compacting a disruption whose dates read: what the stores hold after it,
/// and the content of the compact disruption.
pub open spec fn compact_disruption(held: Contents, source: source::Disruption) -> (
    Contents,
    DisruptionContent,
) {
    let (held, id) = held.put_uuid(source.id@);
    let (held, periods) = compact_periods(held, source.application_periods@);
    let (held, cause) = held.put_string(source.cause@);
    let (held, severity) = held.put_string(source.severity@);
    let (held, tags) = put_tags(held, source.tags);
    let (held, title) = held.put_string(source.title@);
    let (held, message) = held.put_string(source.message@);
    let (held, disruption_id) = put_optional_uuid(held, source.disruption_id);
    (
        held,
        DisruptionContent {
            id,
            application_periods: sorted(periods),
            last_update: local_instant(source.last_update@)->0,
            cause,
            severity,
            tags,
            title,
            message,
            disruption_id,
        },
    )
}

/// Compacting each of the disruptions and storing it, in order: what the
/// stores hold after them, and the handles of the compact disruptions.
pub open spec fn compact_disruptions(held: Contents, disruptions: Seq<source::Disruption>) -> (
    Contents,
    Seq<u32>,
)
    decreases disruptions.len(),
{
    if disruptions.len() == 0 {
        (held, Seq::empty())
    } else {
        let (held, handles) = compact_disruptions(held, disruptions.drop_last());
        let (held, content) = compact_disruption(held, disruptions.last());
        let (held, handle) = held.put_disruption(content);
        (held, handles.push(handle))
    }
}

/// Compacting a feed of one of the two kinds whose dates read: what the
/// stores hold after it, and the content of the compact feed.
pub open spec fn compact_data(held: Contents, source: source::Data) -> (Contents, DataContent) {
    if source.is_success() {
        let (held, disruptions) = compact_disruptions(held, source.disruptions->0@);
        let (held, lines) = compact_lines(held, source.lines->0@);
        let (held, disruptions) = held.put_disruption_set(sorted(disruptions));
        let (held, lines) = held.put_line_set(sorted(lines));
        (
            held,
            DataContent::Success(
                disruptions,
                lines,
                rfc3339_millis(source.last_updated_date->0@)->0,
            ),
        )
    } else {
        let (held, error) = held.put_string(source.error->0@);
        let (held, message) = held.put_string(source.message->0@);
        (held, DataContent::Error(source.status_code->0, error, message))
    }
}

} // verus!
