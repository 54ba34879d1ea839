//! Deciding whether a compact record still says what the record it was made
//! from says: handle by handle, field by field, set by set.
use crate::intern::{EqWith, Interned};
use crate::schema::optimized::{
    ApplicationPeriod, Data, DataError, DataSuccess, Disruption, ImpactedObject, Interners,
    Line, LineHeader, Object,
};
use crate::schema::source;
use crate::schema::source::LOCAL_FORMAT;
use crate::schema::Uuid;
use crate::set::{
    below, decides, decides_optional, option_eq_by, option_eq_spec, set_eq_spec, InternedSet,
};
use vstd::prelude::*;

verus! {

/// The handle names the identifier in the store of identifiers.
pub open spec fn uuid_equal(interners: &Interners) -> spec_fn(Interned<Uuid>, Uuid) -> bool {
    |x: Interned<Uuid>, y: Uuid| x.eq_with_spec(&y, &interners.uuid)
}

/// The handle names the text in the store of texts.
pub open spec fn text_equal(interners: &Interners) -> spec_fn(Interned<String>, String) -> bool {
    |x: Interned<String>, y: String| x.eq_with_spec(&y, &interners.string)
}

/// Compares a set of handles of identifiers with identifiers that were read.
fn uuids_eq(set: &InternedSet<Uuid>, ids: &Vec<Uuid>, interners: &Interners) -> (same: bool)
    requires
        below(set@, interners.uuid@.len()),
    ensures
        same == set_eq_spec(set.handles(), ids@, uuid_equal(interners)),
{
    let pred = |x: &Interned<Uuid>, y: &Uuid| -> (same: bool)
        requires
            x@ < interners.uuid@.len(),
        ensures
            same == x.eq_with_spec(y, &interners.uuid),
        { x.eq_with(y, &interners.uuid) };
    proof {
        set.lemma_handles();
        assert(decides(pred, set.handles(), ids@, uuid_equal(interners)));
    }
    set.set_eq_by(ids.as_slice(), pred)
}

/// Compares a set of handles of texts with texts that were read.
fn texts_eq(set: &InternedSet<String>, texts: &Vec<String>, interners: &Interners) -> (same: bool)
    requires
        below(set@, interners.string@.len()),
    ensures
        same == set_eq_spec(set.handles(), texts@, text_equal(interners)),
{
    let pred = |x: &Interned<String>, y: &String| -> (same: bool)
        requires
            x@ < interners.string@.len(),
        ensures
            same == x.eq_with_spec(y, &interners.string),
        { x.eq_with(y, &interners.string) };
    proof {
        set.lemma_handles();
        assert(decides(pred, set.handles(), texts@, text_equal(interners)));
    }
    set.set_eq_by(texts.as_slice(), pred)
}

impl EqWith<source::ImpactedObject, Interners> for Object {
    open spec fn resolvable(&self, interners: &Interners) -> bool {
        interners.wf() && self.fits(interners)
    }

    open spec fn eq_with_spec(&self, other: &source::ImpactedObject, interners: &Interners) -> bool {
        &&& self.typ.eq_with_spec(&other.typ, &interners.string)
        &&& self.id.eq_with_spec(&other.id, &interners.string)
        &&& self.name.eq_with_spec(&other.name, &interners.string)
    }

    fn eq_with(&self, other: &source::ImpactedObject, interners: &Interners) -> (same: bool) {
        self.typ.eq_with(&other.typ, &interners.string) && self.id.eq_with(
            &other.id,
            &interners.string,
        ) && self.name.eq_with(&other.name, &interners.string)
    }
}

impl EqWith<source::ImpactedObject, Interners> for ImpactedObject {
    open spec fn resolvable(&self, interners: &Interners) -> bool {
        interners.wf() && self.fits(interners)
    }

    open spec fn eq_with_spec(&self, other: &source::ImpactedObject, interners: &Interners) -> bool {
        &&& interners.object@[self.object@ as int].eq_with_spec(other, interners)
        &&& set_eq_spec(
            interners.uuid_set@[self.disruption_ids@ as int].handles(),
            other.disruption_ids@,
            uuid_equal(interners),
        )
    }

    fn eq_with(&self, other: &source::ImpactedObject, interners: &Interners) -> (same: bool) {
        proof {
            reveal(Interners::closed);
        }
        self.object.eq_with_more(other, &interners.object, interners) && uuids_eq(
            self.disruption_ids.lookup(&interners.uuid_set),
            &other.disruption_ids,
            interners,
        )
    }
}

impl EqWith<source::Line, Interners> for LineHeader {
    open spec fn resolvable(&self, interners: &Interners) -> bool {
        interners.wf() && self.fits(interners)
    }

    open spec fn eq_with_spec(&self, other: &source::Line, interners: &Interners) -> bool {
        &&& self.id.eq_with_spec(&other.id, &interners.string)
        &&& self.name.eq_with_spec(&other.name, &interners.string)
        &&& self.short_name.eq_with_spec(&other.short_name, &interners.string)
        &&& self.mode.eq_with_spec(&other.mode, &interners.string)
        &&& self.network_id.eq_with_spec(&other.network_id, &interners.string)
    }

    fn eq_with(&self, other: &source::Line, interners: &Interners) -> (same: bool) {
        self.id.eq_with(&other.id, &interners.string) && self.name.eq_with(
            &other.name,
            &interners.string,
        ) && self.short_name.eq_with(&other.short_name, &interners.string) && self.mode.eq_with(
            &other.mode,
            &interners.string,
        ) && self.network_id.eq_with(&other.network_id, &interners.string)
    }
}

impl EqWith<source::ApplicationPeriod, Interners> for ApplicationPeriod {
    open spec fn resolvable(&self, interners: &Interners) -> bool {
        true
    }

    open spec fn eq_with_spec(&self, other: &source::ApplicationPeriod, interners: &Interners) -> bool {
        &&& self.begin.reads(other.begin@, LOCAL_FORMAT@)
        &&& self.end.reads(other.end@, LOCAL_FORMAT@)
    }

    fn eq_with(&self, other: &source::ApplicationPeriod, _interners: &Interners) -> (same: bool) {
        self.begin.written_as(&other.begin, LOCAL_FORMAT) && self.end.written_as(
            &other.end,
            LOCAL_FORMAT,
        )
    }
}

/// The handle names a compact form of the impacted object.
pub open spec fn impacted_object_equal(interners: &Interners) -> spec_fn(
    Interned<ImpactedObject>,
    source::ImpactedObject,
) -> bool {
    |x: Interned<ImpactedObject>, y: source::ImpactedObject|
        interners.impacted_object@[x@ as int].eq_with_spec(&y, interners)
}

/// The handle names a compact form of the span of time.
pub open spec fn period_equal(interners: &Interners) -> spec_fn(
    Interned<ApplicationPeriod>,
    source::ApplicationPeriod,
) -> bool {
    |x: Interned<ApplicationPeriod>, y: source::ApplicationPeriod|
        interners.application_period@[x@ as int].eq_with_spec(&y, interners)
}

/// The set holds a handle for each of the texts, paired off one by one.
pub open spec fn texts_equal(interners: &Interners) -> spec_fn(
    InternedSet<String>,
    Vec<String>,
) -> bool {
    |x: InternedSet<String>, y: Vec<String>| set_eq_spec(x.handles(), y@, text_equal(interners))
}

impl EqWith<source::Line, Interners> for Line {
    open spec fn resolvable(&self, interners: &Interners) -> bool {
        interners.wf() && self.fits(interners)
    }

    open spec fn eq_with_spec(&self, other: &source::Line, interners: &Interners) -> bool {
        &&& interners.line_header@[self.header@ as int].eq_with_spec(other, interners)
        &&& set_eq_spec(
            self.impacted_objects.handles(),
            other.impacted_objects@,
            impacted_object_equal(interners),
        )
    }

    fn eq_with(&self, other: &source::Line, interners: &Interners) -> (same: bool) {
        proof {
            reveal(Interners::closed);
        }
        let pred = |x: &Interned<ImpactedObject>, y: &source::ImpactedObject| -> (same: bool)
            requires
                x@ < interners.impacted_object@.len(),
                interners.impacted_object@[x@ as int].resolvable(interners),
            ensures
                same == interners.impacted_object@[x@ as int].eq_with_spec(y, interners),
            { x.eq_with_more(y, &interners.impacted_object, interners) };
        proof {
            self.impacted_objects.lemma_handles();
            assert(decides(
                pred,
                self.impacted_objects.handles(),
                other.impacted_objects@,
                impacted_object_equal(interners),
            ));
        }
        self.header.eq_with_more(other, &interners.line_header, interners)
            && self.impacted_objects.set_eq_by(other.impacted_objects.as_slice(), pred)
    }
}

impl EqWith<source::Disruption, Interners> for Disruption {
    open spec fn resolvable(&self, interners: &Interners) -> bool {
        interners.wf() && self.fits(interners)
    }

    open spec fn eq_with_spec(&self, other: &source::Disruption, interners: &Interners) -> bool {
        &&& self.id.eq_with_spec(&other.id, &interners.uuid)
        &&& set_eq_spec(
            self.application_periods.handles(),
            other.application_periods@,
            period_equal(interners),
        )
        &&& self.last_update.reads(other.last_update@, LOCAL_FORMAT@)
        &&& self.cause.eq_with_spec(&other.cause, &interners.string)
        &&& self.severity.eq_with_spec(&other.severity, &interners.string)
        &&& option_eq_spec(self.tags, other.tags, texts_equal(interners))
        &&& self.title.eq_with_spec(&other.title, &interners.string)
        &&& self.message.eq_with_spec(&other.message, &interners.string)
        &&& option_eq_spec(self.disruption_id, other.disruption_id, uuid_equal(interners))
    }

    fn eq_with(&self, other: &source::Disruption, interners: &Interners) -> (same: bool) {
        let periods = |x: &Interned<ApplicationPeriod>, y: &source::ApplicationPeriod| -> (same: bool)
            requires
                x@ < interners.application_period@.len(),
            ensures
                same == interners.application_period@[x@ as int].eq_with_spec(y, interners),
            { x.eq_with_more(y, &interners.application_period, interners) };
        let tags = |x: &InternedSet<String>, y: &Vec<String>| -> (same: bool)
            requires
                below(x@, interners.string@.len()),
            ensures
                same == set_eq_spec(x.handles(), y@, text_equal(interners)),
            { texts_eq(x, y, interners) };
        let disruption_id = |x: &Interned<Uuid>, y: &Uuid| -> (same: bool)
            requires
                x@ < interners.uuid@.len(),
            ensures
                same == x.eq_with_spec(y, &interners.uuid),
            { x.eq_with(y, &interners.uuid) };
        proof {
            self.application_periods.lemma_handles();
            assert(decides(
                periods,
                self.application_periods.handles(),
                other.application_periods@,
                period_equal(interners),
            ));
            assert(decides_optional(tags, self.tags, other.tags, texts_equal(interners)));
            assert(decides_optional(
                disruption_id,
                self.disruption_id,
                other.disruption_id,
                uuid_equal(interners),
            ));
        }
        self.id.eq_with(&other.id, &interners.uuid) && self.application_periods.set_eq_by(
            other.application_periods.as_slice(),
            periods,
        ) && self.last_update.written_as(&other.last_update, LOCAL_FORMAT) && self.cause.eq_with(
            &other.cause,
            &interners.string,
        ) && self.severity.eq_with(&other.severity, &interners.string) && option_eq_by(
            &self.tags,
            &other.tags,
            tags,
        ) && self.title.eq_with(&other.title, &interners.string) && self.message.eq_with(
            &other.message,
            &interners.string,
        ) && option_eq_by(&self.disruption_id, &other.disruption_id, disruption_id)
    }
}

/// The handle names a compact form of the disruption.
pub open spec fn disruption_equal(interners: &Interners) -> spec_fn(
    Interned<Disruption>,
    source::Disruption,
) -> bool {
    |x: Interned<Disruption>, y: source::Disruption|
        interners.disruption@[x@ as int].eq_with_spec(&y, interners)
}

/// The handle names a compact form of the line.
pub open spec fn line_equal(interners: &Interners) -> spec_fn(Interned<Line>, source::Line) -> bool {
    |x: Interned<Line>, y: source::Line| interners.line@[x@ as int].eq_with_spec(&y, interners)
}

/// Compares a set of handles of disruptions with disruptions that were read.
fn disruptions_eq(
    set: &InternedSet<Disruption>,
    disruptions: &Vec<source::Disruption>,
    interners: &Interners,
) -> (same: bool)
    requires
        interners.wf(),
        below(set@, interners.disruption@.len()),
    ensures
        same == set_eq_spec(set.handles(), disruptions@, disruption_equal(interners)),
{
    let pred = |x: &Interned<Disruption>, y: &source::Disruption| -> (same: bool)
        requires
            x@ < interners.disruption@.len(),
            interners.disruption@[x@ as int].resolvable(interners),
        ensures
            same == interners.disruption@[x@ as int].eq_with_spec(y, interners),
        { x.eq_with_more(y, &interners.disruption, interners) };
    proof {
        reveal(Interners::closed);
        set.lemma_handles();
        assert(decides(pred, set.handles(), disruptions@, disruption_equal(interners)));
    }
    set.set_eq_by(disruptions.as_slice(), pred)
}

/// Compares a set of handles of lines with lines that were read.
fn lines_eq(set: &InternedSet<Line>, lines: &Vec<source::Line>, interners: &Interners) -> (same: bool)
    requires
        interners.wf(),
        below(set@, interners.line@.len()),
    ensures
        same == set_eq_spec(set.handles(), lines@, line_equal(interners)),
{
    let pred = |x: &Interned<Line>, y: &source::Line| -> (same: bool)
        requires
            x@ < interners.line@.len(),
            interners.line@[x@ as int].resolvable(interners),
        ensures
            same == interners.line@[x@ as int].eq_with_spec(y, interners),
        { x.eq_with_more(y, &interners.line, interners) };
    proof {
        reveal(Interners::closed);
        set.lemma_handles();
        assert(decides(pred, set.handles(), lines@, line_equal(interners)));
    }
    set.set_eq_by(lines.as_slice(), pred)
}

impl EqWith<source::Data, Interners> for DataSuccess {
    open spec fn resolvable(&self, interners: &Interners) -> bool {
        interners.wf() && self.fits(interners)
    }

    open spec fn eq_with_spec(&self, other: &source::Data, interners: &Interners) -> bool {
        &&& other.disruptions matches Some(disruptions) && set_eq_spec(
            interners.disruption_set@[self.disruptions@ as int].handles(),
            disruptions@,
            disruption_equal(interners),
        )
        &&& other.lines matches Some(lines) && set_eq_spec(
            interners.line_set@[self.lines@ as int].handles(),
            lines@,
            line_equal(interners),
        )
        &&& other.last_updated_date matches Some(date) && self.last_updated_date.reads(date@)
        &&& other.status_code is None
        &&& other.error is None
        &&& other.message is None
    }

    fn eq_with(&self, other: &source::Data, interners: &Interners) -> (same: bool) {
        proof {
            reveal(Interners::closed);
        }
        (match &other.disruptions {
            Some(disruptions) => disruptions_eq(
                self.disruptions.lookup(&interners.disruption_set),
                disruptions,
                interners,
            ),
            None => false,
        }) && (match &other.lines {
            Some(lines) => lines_eq(self.lines.lookup(&interners.line_set), lines, interners),
            None => false,
        }) && (match &other.last_updated_date {
            Some(date) => self.last_updated_date.written_as(date),
            None => false,
        }) && other.status_code.is_none() && other.error.is_none() && other.message.is_none()
    }
}

impl EqWith<source::Data, Interners> for DataError {
    open spec fn resolvable(&self, interners: &Interners) -> bool {
        interners.wf() && self.fits(interners)
    }

    open spec fn eq_with_spec(&self, other: &source::Data, interners: &Interners) -> bool {
        &&& other.status_code == Some(self.status_code)
        &&& other.error matches Some(error) && self.error.eq_with_spec(&error, &interners.string)
        &&& other.message matches Some(message) && self.message.eq_with_spec(
            &message,
            &interners.string,
        )
        &&& other.disruptions is None
        &&& other.lines is None
        &&& other.last_updated_date is None
    }

    fn eq_with(&self, other: &source::Data, interners: &Interners) -> (same: bool) {
        (match &other.status_code {
            Some(status_code) => self.status_code == *status_code,
            None => false,
        }) && (match &other.error {
            Some(error) => self.error.eq_with(error, &interners.string),
            None => false,
        }) && (match &other.message {
            Some(message) => self.message.eq_with(message, &interners.string),
            None => false,
        }) && other.disruptions.is_none() && other.lines.is_none()
            && other.last_updated_date.is_none()
    }
}

impl EqWith<source::Data, Interners> for Data {
    open spec fn resolvable(&self, interners: &Interners) -> bool {
        interners.wf() && self.fits(interners)
    }

    open spec fn eq_with_spec(&self, other: &source::Data, interners: &Interners) -> bool {
        match self {
            Data::Success(data) => data.eq_with_spec(other, interners),
            Data::Error(data) => data.eq_with_spec(other, interners),
        }
    }

    fn eq_with(&self, other: &source::Data, interners: &Interners) -> (same: bool) {
        match self {
            Data::Success(data) => data.eq_with(other, interners),
            Data::Error(data) => data.eq_with(other, interners),
        }
    }
}

} // verus!
