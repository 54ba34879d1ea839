//! Compacting a record a second time: whatever was stored in between, the
//! stores stay as they are and the same compact record comes back.
use crate::intern::{contents_of, distinct, extends, place, put};
use crate::schema::model::{
    compact_data, compact_disruption, compact_disruptions, compact_impacted_object,
    compact_impacted_objects, compact_line, compact_lines, compact_period, compact_periods,
    put_optional_uuid, put_tags, put_texts, put_uuids, Contents,
};
use crate::schema::optimized::{Data, Interners};
use crate::schema::source;
use crate::schema::Uuid;
use crate::set::sorted;
use vstd::prelude::*;

verus! {

impl Contents {
    /// Each store still holds, at the same places, what it held in
    /// `earlier`.
    pub open spec fn extends(self, earlier: Contents) -> bool {
        &&& extends(self.string, earlier.string)
        &&& extends(self.uuid, earlier.uuid)
        &&& extends(self.disruption_set, earlier.disruption_set)
        &&& extends(self.disruption, earlier.disruption)
        &&& extends(self.application_period, earlier.application_period)
        &&& extends(self.line_set, earlier.line_set)
        &&& extends(self.line, earlier.line)
        &&& extends(self.line_header, earlier.line_header)
        &&& extends(self.impacted_object, earlier.impacted_object)
        &&& extends(self.object, earlier.object)
        &&& extends(self.uuid_set, earlier.uuid_set)
    }

    /// No store holds a content twice.
    pub open spec fn distinct(self) -> bool {
        &&& self.string.no_duplicates()
        &&& self.uuid.no_duplicates()
        &&& self.disruption_set.no_duplicates()
        &&& self.disruption.no_duplicates()
        &&& self.application_period.no_duplicates()
        &&& self.line_set.no_duplicates()
        &&& self.line.no_duplicates()
        &&& self.line_header.no_duplicates()
        &&& self.impacted_object.no_duplicates()
        &&& self.object.no_duplicates()
        &&& self.uuid_set.no_duplicates()
    }

    /// What has grown from what has grown has grown from the first.
    pub proof fn lemma_extends_further(self, middle: Contents, earlier: Contents)
        requires
            self.extends(middle),
            middle.extends(earlier),
        ensures
            self.extends(earlier),
    {
        lemma_extends_further(self.string, middle.string, earlier.string);
        lemma_extends_further(self.uuid, middle.uuid, earlier.uuid);
        lemma_extends_further(self.disruption_set, middle.disruption_set, earlier.disruption_set);
        lemma_extends_further(self.disruption, middle.disruption, earlier.disruption);
        lemma_extends_further(
            self.application_period,
            middle.application_period,
            earlier.application_period,
        );
        lemma_extends_further(self.line_set, middle.line_set, earlier.line_set);
        lemma_extends_further(self.line, middle.line, earlier.line);
        lemma_extends_further(self.line_header, middle.line_header, earlier.line_header);
        lemma_extends_further(self.impacted_object, middle.impacted_object, earlier.impacted_object);
        lemma_extends_further(self.object, middle.object, earlier.object);
        lemma_extends_further(self.uuid_set, middle.uuid_set, earlier.uuid_set);
    }
}

/// A list that starts with one that starts with a third starts with the
/// third.
pub proof fn lemma_extends_further<V>(longer: Seq<V>, middle: Seq<V>, shorter: Seq<V>)
    requires
        extends(longer, middle),
        extends(middle, shorter),
    ensures
        extends(longer, shorter),
{
    assert forall|i: int| 0 <= i < shorter.len() implies #[trigger] longer[i] == shorter[i] by {
        assert(middle[i] == shorter[i]);
    }
}

/// A request keeps what a store held. A request for a content that a store
/// without repeated contents holds since an earlier request for it leaves
/// that store as it is and returns the handle that the earlier request
/// returned.
pub proof fn lemma_put_again<V>(held: Seq<V>, content: V, later: Seq<V>)
    ensures
        extends(put(held, content), held),
        later.no_duplicates() && extends(later, put(held, content)) ==> put(later, content) == later
            && place(later, content) == place(held, content),
{
    let first = put(held, content);
    if !held.contains(content) {
        assert(first[held.len() as int] == content);
    }
    assert(first.contains(content));
    let at = first.index_of(content);
    if later.no_duplicates() && extends(later, first) {
        assert(later[at] == first[at]);
        assert(later.contains(content));
        let found = later.index_of(content);
        assert(later[found] == content);
    }
}

/// Requests for identifiers keep what the stores held; made again on stores
/// that have grown since, they leave the stores as they are and return the
/// same handles.
pub proof fn lemma_put_uuids_again(held: Contents, ids: Seq<Uuid>, later: Contents)
    ensures
        put_uuids(held, ids).0.extends(held),
        later.distinct() && later.extends(put_uuids(held, ids).0) ==> put_uuids(later, ids) == (
            later,
            put_uuids(held, ids).1,
        ),
    decreases ids.len(),
{
    if ids.len() > 0 {
        let front = put_uuids(held, ids.drop_last());
        let last = front.0.put_uuid(ids.last()@);
        lemma_put_uuids_again(held, ids.drop_last(), later);
        lemma_put_again(front.0.uuid, ids.last()@, later.uuid);
        last.0.lemma_extends_further(front.0, held);
        if later.distinct() && later.extends(last.0) {
            later.lemma_extends_further(last.0, front.0);
        }
    }
}

/// Requests for texts keep what the stores held; made again on stores that
/// have grown since, they leave the stores as they are and return the same
/// handles.
pub proof fn lemma_put_texts_again(held: Contents, texts: Seq<String>, later: Contents)
    ensures
        put_texts(held, texts).0.extends(held),
        later.distinct() && later.extends(put_texts(held, texts).0) ==> put_texts(later, texts) == (
            later,
            put_texts(held, texts).1,
        ),
    decreases texts.len(),
{
    if texts.len() > 0 {
        let front = put_texts(held, texts.drop_last());
        let last = front.0.put_string(texts.last()@);
        lemma_put_texts_again(held, texts.drop_last(), later);
        lemma_put_again(front.0.string, texts.last()@, later.string);
        last.0.lemma_extends_further(front.0, held);
        if later.distinct() && later.extends(last.0) {
            later.lemma_extends_further(last.0, front.0);
        }
    }
}

/// Compacting an impacted object keeps what the stores held; done again on
/// stores that have grown since, it leaves the stores as they are and gives
/// the same compact object.
pub proof fn lemma_compact_impacted_object_again(
    held: Contents,
    source: source::ImpactedObject,
    later: Contents,
)
    ensures
        compact_impacted_object(held, source).0.extends(held),
        later.distinct() && later.extends(compact_impacted_object(held, source).0)
            ==> compact_impacted_object(later, source) == (
            later,
            compact_impacted_object(held, source).1,
        ),
{
    let ids = put_uuids(held, source.disruption_ids@);
    let typ = ids.0.put_string(source.typ@);
    let id = typ.0.put_string(source.id@);
    let name = id.0.put_string(source.name@);
    let object = name.0.put_object((typ.1, id.1, name.1));
    let set = object.0.put_uuid_set(sorted(ids.1));
    lemma_put_uuids_again(held, source.disruption_ids@, later);
    lemma_put_again(ids.0.string, source.typ@, later.string);
    lemma_put_again(typ.0.string, source.id@, later.string);
    lemma_put_again(id.0.string, source.name@, later.string);
    lemma_put_again(name.0.object, (typ.1, id.1, name.1), later.object);
    lemma_put_again(object.0.uuid_set, sorted(ids.1), later.uuid_set);
    typ.0.lemma_extends_further(ids.0, held);
    id.0.lemma_extends_further(typ.0, held);
    name.0.lemma_extends_further(id.0, held);
    object.0.lemma_extends_further(name.0, held);
    set.0.lemma_extends_further(object.0, held);
    if later.distinct() && later.extends(set.0) {
        later.lemma_extends_further(set.0, object.0);
        later.lemma_extends_further(object.0, name.0);
        later.lemma_extends_further(name.0, id.0);
        later.lemma_extends_further(id.0, typ.0);
        later.lemma_extends_further(typ.0, ids.0);
    }
}

/// Compacting and storing impacted objects keeps what the stores held; done
/// again on stores that have grown since, it leaves the stores as they are
/// and returns the same handles.
pub proof fn lemma_compact_impacted_objects_again(
    held: Contents,
    objects: Seq<source::ImpactedObject>,
    later: Contents,
)
    ensures
        compact_impacted_objects(held, objects).0.extends(held),
        later.distinct() && later.extends(compact_impacted_objects(held, objects).0)
            ==> compact_impacted_objects(later, objects) == (
            later,
            compact_impacted_objects(held, objects).1,
        ),
    decreases objects.len(),
{
    if objects.len() > 0 {
        let front = compact_impacted_objects(held, objects.drop_last());
        let content = compact_impacted_object(front.0, objects.last());
        let last = content.0.put_impacted_object(content.1);
        lemma_compact_impacted_objects_again(held, objects.drop_last(), later);
        lemma_compact_impacted_object_again(front.0, objects.last(), later);
        lemma_put_again(content.0.impacted_object, content.1, later.impacted_object);
        content.0.lemma_extends_further(front.0, held);
        last.0.lemma_extends_further(content.0, held);
        if later.distinct() && later.extends(last.0) {
            later.lemma_extends_further(last.0, content.0);
            later.lemma_extends_further(content.0, front.0);
        }
    }
}

/// Compacting a line keeps what the stores held; done again on stores that
/// have grown since, it leaves the stores as they are and gives the same
/// compact line.
pub proof fn lemma_compact_line_again(held: Contents, source: source::Line, later: Contents)
    ensures
        compact_line(held, source).0.extends(held),
        later.distinct() && later.extends(compact_line(held, source).0) ==> compact_line(
            later,
            source,
        ) == (later, compact_line(held, source).1),
{
    let id = held.put_string(source.id@);
    let name = id.0.put_string(source.name@);
    let short_name = name.0.put_string(source.short_name@);
    let mode = short_name.0.put_string(source.mode@);
    let network_id = mode.0.put_string(source.network_id@);
    let header = network_id.0.put_line_header((id.1, name.1, short_name.1, mode.1, network_id.1));
    let objects = compact_impacted_objects(header.0, source.impacted_objects@);
    lemma_put_again(held.string, source.id@, later.string);
    lemma_put_again(id.0.string, source.name@, later.string);
    lemma_put_again(name.0.string, source.short_name@, later.string);
    lemma_put_again(short_name.0.string, source.mode@, later.string);
    lemma_put_again(mode.0.string, source.network_id@, later.string);
    lemma_put_again(
        network_id.0.line_header,
        (id.1, name.1, short_name.1, mode.1, network_id.1),
        later.line_header,
    );
    lemma_compact_impacted_objects_again(header.0, source.impacted_objects@, later);
    name.0.lemma_extends_further(id.0, held);
    short_name.0.lemma_extends_further(name.0, held);
    mode.0.lemma_extends_further(short_name.0, held);
    network_id.0.lemma_extends_further(mode.0, held);
    header.0.lemma_extends_further(network_id.0, held);
    objects.0.lemma_extends_further(header.0, held);
    if later.distinct() && later.extends(objects.0) {
        later.lemma_extends_further(objects.0, header.0);
        later.lemma_extends_further(header.0, network_id.0);
        later.lemma_extends_further(network_id.0, mode.0);
        later.lemma_extends_further(mode.0, short_name.0);
        later.lemma_extends_further(short_name.0, name.0);
        later.lemma_extends_further(name.0, id.0);
    }
}

/// Compacting and storing lines keeps what the stores held; done again on
/// stores that have grown since, it leaves the stores as they are and
/// returns the same handles.
pub proof fn lemma_compact_lines_again(held: Contents, lines: Seq<source::Line>, later: Contents)
    ensures
        compact_lines(held, lines).0.extends(held),
        later.distinct() && later.extends(compact_lines(held, lines).0) ==> compact_lines(
            later,
            lines,
        ) == (later, compact_lines(held, lines).1),
    decreases lines.len(),
{
    if lines.len() > 0 {
        let front = compact_lines(held, lines.drop_last());
        let content = compact_line(front.0, lines.last());
        let last = content.0.put_line(content.1);
        lemma_compact_lines_again(held, lines.drop_last(), later);
        lemma_compact_line_again(front.0, lines.last(), later);
        lemma_put_again(content.0.line, content.1, later.line);
        content.0.lemma_extends_further(front.0, held);
        last.0.lemma_extends_further(content.0, held);
        if later.distinct() && later.extends(last.0) {
            later.lemma_extends_further(last.0, content.0);
            later.lemma_extends_further(content.0, front.0);
        }
    }
}

/// Compacting and storing spans of time keeps what the stores held; done
/// again on stores that have grown since, it leaves the stores as they are
/// and returns the same handles.
pub proof fn lemma_compact_periods_again(
    held: Contents,
    periods: Seq<source::ApplicationPeriod>,
    later: Contents,
)
    ensures
        compact_periods(held, periods).0.extends(held),
        later.distinct() && later.extends(compact_periods(held, periods).0) ==> compact_periods(
            later,
            periods,
        ) == (later, compact_periods(held, periods).1),
    decreases periods.len(),
{
    if periods.len() > 0 {
        let front = compact_periods(held, periods.drop_last());
        let last = front.0.put_application_period(compact_period(periods.last()));
        lemma_compact_periods_again(held, periods.drop_last(), later);
        lemma_put_again(
            front.0.application_period,
            compact_period(periods.last()),
            later.application_period,
        );
        last.0.lemma_extends_further(front.0, held);
        if later.distinct() && later.extends(last.0) {
            later.lemma_extends_further(last.0, front.0);
        }
    }
}

/// Compacting a disruption keeps what the stores held; done again on stores
/// that have grown since, it leaves the stores as they are and gives the same
/// compact disruption.
pub proof fn lemma_compact_disruption_again(
    held: Contents,
    source: source::Disruption,
    later: Contents,
)
    ensures
        compact_disruption(held, source).0.extends(held),
        later.distinct() && later.extends(compact_disruption(held, source).0)
            ==> compact_disruption(later, source) == (later, compact_disruption(held, source).1),
{
    let id = held.put_uuid(source.id@);
    let periods = compact_periods(id.0, source.application_periods@);
    let cause = periods.0.put_string(source.cause@);
    let severity = cause.0.put_string(source.severity@);
    let tags = put_tags(severity.0, source.tags);
    let title = tags.0.put_string(source.title@);
    let message = title.0.put_string(source.message@);
    let last = put_optional_uuid(message.0, source.disruption_id);
    lemma_put_again(held.uuid, source.id@, later.uuid);
    lemma_compact_periods_again(id.0, source.application_periods@, later);
    lemma_put_again(periods.0.string, source.cause@, later.string);
    lemma_put_again(cause.0.string, source.severity@, later.string);
    if let Some(texts) = source.tags {
        lemma_put_texts_again(severity.0, texts@, later);
    }
    lemma_put_again(tags.0.string, source.title@, later.string);
    lemma_put_again(title.0.string, source.message@, later.string);
    if let Some(uuid) = source.disruption_id {
        lemma_put_again(message.0.uuid, uuid@, later.uuid);
    }
    periods.0.lemma_extends_further(id.0, held);
    cause.0.lemma_extends_further(periods.0, held);
    severity.0.lemma_extends_further(cause.0, held);
    tags.0.lemma_extends_further(severity.0, held);
    title.0.lemma_extends_further(tags.0, held);
    message.0.lemma_extends_further(title.0, held);
    last.0.lemma_extends_further(message.0, held);
    if later.distinct() && later.extends(last.0) {
        later.lemma_extends_further(last.0, message.0);
        later.lemma_extends_further(message.0, title.0);
        later.lemma_extends_further(title.0, tags.0);
        later.lemma_extends_further(tags.0, severity.0);
        later.lemma_extends_further(severity.0, cause.0);
        later.lemma_extends_further(cause.0, periods.0);
        later.lemma_extends_further(periods.0, id.0);
    }
}

/// Compacting and storing disruptions keeps what the stores held; done again
/// on stores that have grown since, it leaves the stores as they are and
/// returns the same handles.
pub proof fn lemma_compact_disruptions_again(
    held: Contents,
    disruptions: Seq<source::Disruption>,
    later: Contents,
)
    ensures
        compact_disruptions(held, disruptions).0.extends(held),
        later.distinct() && later.extends(compact_disruptions(held, disruptions).0)
            ==> compact_disruptions(later, disruptions) == (
            later,
            compact_disruptions(held, disruptions).1,
        ),
    decreases disruptions.len(),
{
    if disruptions.len() > 0 {
        let front = compact_disruptions(held, disruptions.drop_last());
        let content = compact_disruption(front.0, disruptions.last());
        let last = content.0.put_disruption(content.1);
        lemma_compact_disruptions_again(held, disruptions.drop_last(), later);
        lemma_compact_disruption_again(front.0, disruptions.last(), later);
        lemma_put_again(content.0.disruption, content.1, later.disruption);
        content.0.lemma_extends_further(front.0, held);
        last.0.lemma_extends_further(content.0, held);
        if later.distinct() && later.extends(last.0) {
            later.lemma_extends_further(last.0, content.0);
            later.lemma_extends_further(content.0, front.0);
        }
    }
}

/// Compacting a feed keeps what the stores held. Compacting the same feed
/// again, on stores without repeated contents that have grown since by
/// whatever requests, leaves the stores as they are and gives the same
/// compact feed.
pub proof fn lemma_compact_data_again(held: Contents, source: source::Data, later: Contents)
    ensures
        compact_data(held, source).0.extends(held),
        later.distinct() && later.extends(compact_data(held, source).0) ==> compact_data(
            later,
            source,
        ) == (later, compact_data(held, source).1),
{
    if source.is_success() {
        let disruptions = compact_disruptions(held, source.disruptions->0@);
        let lines = compact_lines(disruptions.0, source.lines->0@);
        let listed = lines.0.put_disruption_set(sorted(disruptions.1));
        let last = listed.0.put_line_set(sorted(lines.1));
        lemma_compact_disruptions_again(held, source.disruptions->0@, later);
        lemma_compact_lines_again(disruptions.0, source.lines->0@, later);
        lemma_put_again(lines.0.disruption_set, sorted(disruptions.1), later.disruption_set);
        lemma_put_again(listed.0.line_set, sorted(lines.1), later.line_set);
        lines.0.lemma_extends_further(disruptions.0, held);
        listed.0.lemma_extends_further(lines.0, held);
        last.0.lemma_extends_further(listed.0, held);
        if later.distinct() && later.extends(last.0) {
            later.lemma_extends_further(last.0, listed.0);
            later.lemma_extends_further(listed.0, lines.0);
            later.lemma_extends_further(lines.0, disruptions.0);
        }
    } else {
        let error = held.put_string(source.error->0@);
        let last = error.0.put_string(source.message->0@);
        lemma_put_again(held.string, source.error->0@, later.string);
        lemma_put_again(error.0.string, source.message->0@, later.string);
        last.0.lemma_extends_further(error.0, held);
        if later.distinct() && later.extends(last.0) {
            later.lemma_extends_further(last.0, error.0);
        }
    }
}

/// Values without repeated contents have contents without repetition.
pub proof fn lemma_contents_distinct<T: View>(values: Seq<T>)
    requires
        distinct(values),
    ensures
        contents_of(values).no_duplicates(),
{
    let held = contents_of(values);
    assert forall|i: int, j: int| 0 <= i < held.len() && 0 <= j < held.len() && i != j implies held[i]
        != held[j] by {
        assert(values[i]@ == held[i]);
        assert(values[j]@ == held[j]);
    }
}

/// The contents of values that start with others start with the contents of
/// those; where the contents are the same, so are the values.
pub proof fn lemma_contents_extend<T: View>(longer: Seq<T>, shorter: Seq<T>)
    requires
        extends(longer, shorter),
    ensures
        extends(contents_of(longer), contents_of(shorter)),
        contents_of(longer) == contents_of(shorter) ==> longer == shorter,
{
    assert forall|i: int| 0 <= i < shorter.len() implies #[trigger] contents_of(longer)[i]
        == contents_of(shorter)[i] by {
        assert(longer[i] == shorter[i]);
    }
    if contents_of(longer) == contents_of(shorter) {
        assert(contents_of(longer).len() == longer.len());
        assert(contents_of(shorter).len() == shorter.len());
        assert(longer =~= shorter);
    }
}

impl Interners {
    /// Well-formed stores hold no content twice.
    pub proof fn lemma_contents_distinct(&self)
        requires
            self.stores_wf(),
        ensures
            self.contents().distinct(),
    {
        reveal(Interners::contents);
        self.string.lemma_wf();
        self.uuid.lemma_wf();
        self.disruption_set.lemma_wf();
        self.disruption.lemma_wf();
        self.application_period.lemma_wf();
        self.line_set.lemma_wf();
        self.line.lemma_wf();
        self.line_header.lemma_wf();
        self.impacted_object.lemma_wf();
        self.object.lemma_wf();
        self.uuid_set.lemma_wf();
        lemma_contents_distinct(self.string@);
        lemma_contents_distinct(self.uuid@);
        lemma_contents_distinct(self.disruption_set@);
        lemma_contents_distinct(self.disruption@);
        lemma_contents_distinct(self.application_period@);
        lemma_contents_distinct(self.line_set@);
        lemma_contents_distinct(self.line@);
        lemma_contents_distinct(self.line_header@);
        lemma_contents_distinct(self.impacted_object@);
        lemma_contents_distinct(self.object@);
        lemma_contents_distinct(self.uuid_set@);
    }

    /// Stores that have grown hold what they held. Where they hold the same
    /// contents as before, nothing was added: each store holds the values
    /// that it held.
    pub proof fn lemma_contents_extend(&self, earlier: &Interners)
        requires
            self.extends(earlier),
        ensures
            self.contents().extends(earlier.contents()),
            self.contents() == earlier.contents() ==> {
                &&& self.string@ == earlier.string@
                &&& self.uuid@ == earlier.uuid@
                &&& self.disruption_set@ == earlier.disruption_set@
                &&& self.disruption@ == earlier.disruption@
                &&& self.application_period@ == earlier.application_period@
                &&& self.line_set@ == earlier.line_set@
                &&& self.line@ == earlier.line@
                &&& self.line_header@ == earlier.line_header@
                &&& self.impacted_object@ == earlier.impacted_object@
                &&& self.object@ == earlier.object@
                &&& self.uuid_set@ == earlier.uuid_set@
            },
    {
        reveal(Interners::contents);
        lemma_contents_extend(self.string@, earlier.string@);
        lemma_contents_extend(self.uuid@, earlier.uuid@);
        lemma_contents_extend(self.disruption_set@, earlier.disruption_set@);
        lemma_contents_extend(self.disruption@, earlier.disruption@);
        lemma_contents_extend(self.application_period@, earlier.application_period@);
        lemma_contents_extend(self.line_set@, earlier.line_set@);
        lemma_contents_extend(self.line@, earlier.line@);
        lemma_contents_extend(self.line_header@, earlier.line_header@);
        lemma_contents_extend(self.impacted_object@, earlier.impacted_object@);
        lemma_contents_extend(self.object@, earlier.object@);
        lemma_contents_extend(self.uuid_set@, earlier.uuid_set@);
    }

    /// Compacting a feed a second time adds nothing. Where `first` is what
    /// the stores `start` became by compacting `source`, and `self` is what
    /// `first` has grown to since, compacting `source` on `self` leaves every
    /// store holding what it holds and gives the compact feed that the first
    /// time gave.
    pub proof fn lemma_compact_data_again(
        &self,
        start: &Interners,
        first: &Interners,
        source: source::Data,
    )
        requires
            self.stores_wf(),
            self.extends(first),
            first.contents() == compact_data(start.contents(), source).0,
        ensures
            compact_data(self.contents(), source) == (
                self.contents(),
                compact_data(start.contents(), source).1,
            ),
    {
        self.lemma_contents_distinct();
        self.lemma_contents_extend(first);
        lemma_compact_data_again(start.contents(), source, self.contents());
    }

    /// The same law over what two calls that compact a feed ensure. The
    /// first call took the stores from `start` to `first` and gave `one`;
    /// `later` is what `first` has grown to; the second call took `later` to
    /// `self` and gave `two`. Then `two` is `one`, and no store has changed.
    pub proof fn lemma_compacted_twice(
        &self,
        later: &Interners,
        first: &Interners,
        start: &Interners,
        source: source::Data,
        one: Data,
        two: Data,
    )
        requires
            (first.contents(), one@) == compact_data(start.contents(), source),
            later.stores_wf(),
            later.extends(first),
            self.extends(later),
            (self.contents(), two@) == compact_data(later.contents(), source),
        ensures
            two@ == one@,
            self.contents() == later.contents(),
            self.string@ == later.string@,
            self.uuid@ == later.uuid@,
            self.disruption_set@ == later.disruption_set@,
            self.disruption@ == later.disruption@,
            self.application_period@ == later.application_period@,
            self.line_set@ == later.line_set@,
            self.line@ == later.line@,
            self.line_header@ == later.line_header@,
            self.impacted_object@ == later.impacted_object@,
            self.object@ == later.object@,
            self.uuid_set@ == later.uuid_set@,
    {
        later.lemma_compact_data_again(start, first, source);
        self.lemma_contents_extend(later);
    }

    /// Compacting a disruption a second time adds nothing: as for a feed.
    pub proof fn lemma_compact_disruption_again(
        &self,
        start: &Interners,
        first: &Interners,
        source: source::Disruption,
    )
        requires
            self.stores_wf(),
            self.extends(first),
            first.contents() == compact_disruption(start.contents(), source).0,
        ensures
            compact_disruption(self.contents(), source) == (
                self.contents(),
                compact_disruption(start.contents(), source).1,
            ),
    {
        self.lemma_contents_distinct();
        self.lemma_contents_extend(first);
        lemma_compact_disruption_again(start.contents(), source, self.contents());
    }

    /// Compacting a line a second time adds nothing: as for a feed.
    pub proof fn lemma_compact_line_again(
        &self,
        start: &Interners,
        first: &Interners,
        source: source::Line,
    )
        requires
            self.stores_wf(),
            self.extends(first),
            first.contents() == compact_line(start.contents(), source).0,
        ensures
            compact_line(self.contents(), source) == (
                self.contents(),
                compact_line(start.contents(), source).1,
            ),
    {
        self.lemma_contents_distinct();
        self.lemma_contents_extend(first);
        lemma_compact_line_again(start.contents(), source, self.contents());
    }
}

} // verus!
