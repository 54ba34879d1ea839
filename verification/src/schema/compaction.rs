//! Compacting: from a record as it is read to the record as it is kept, with
//! every text and every repeated part in its store.
use crate::codec::ascending;
use crate::intern::{names, EqWith, Interned};
use crate::schema::model::{
    compact_data, compact_disruption, compact_disruptions, compact_impacted_object,
    compact_impacted_objects, compact_line, compact_lines, compact_period, compact_periods,
    put_texts, put_uuids,
};
use crate::schema::optimized::{
    ApplicationPeriod, Data, DataError, DataSuccess, Disruption, ImpactedObject, Interners,
    Line, LineHeader, Object,
};
use crate::schema::requests::{
    disruptions_requests_by_store, lemma_disruptions_requests_by_store,
    lemma_lines_requests_by_store, lemma_objects_requests_by_store, lines_requests_by_store,
    objects_requests_by_store, Requests,
};
use crate::schema::source;
use crate::schema::source::{
    disruptions_well_formed, local_instant, periods_well_formed, LOCAL_FORMAT,
};
use crate::schema::Uuid;
use crate::set::{below, ids_of, sorted, InternedSet};
use crate::time::{rfc3339_millis, TimestampMillis, TimestampSecondsParis};
use vstd::prelude::*;

verus! {

/// There is one handle for each item, and it stands for that item.
pub open spec fn one_each<S>(
    handles: Seq<u32>,
    items: Seq<S>,
    stands_for: spec_fn(u32, S) -> bool,
) -> bool {
    handles.len() == items.len() && forall|k: int|
        0 <= k < items.len() ==> stands_for(#[trigger] handles[k], items[k])
}

/// `ids` holds one handle for each of `items`, each as often as it comes,
/// in ascending order.
pub open spec fn set_compacts<S>(
    ids: Seq<u32>,
    items: Seq<S>,
    stands_for: spec_fn(u32, S) -> bool,
) -> bool {
    ascending(ids) && exists|handles: Seq<u32>| #[trigger]
        one_each(handles, items, stands_for) && handles.to_multiset() == ids.to_multiset()
}

/// Two sequences with the same members, each as often, are below the same
/// bounds.
pub proof fn lemma_same_members(ids: Seq<u32>, handles: Seq<u32>, len: nat)
    requires
        ids.to_multiset() == handles.to_multiset(),
        below(handles, len),
    ensures
        below(ids, len),
{
    ids.to_multiset_ensures();
    handles.to_multiset_ensures();
    assert forall|i: int| 0 <= i < ids.len() implies #[trigger] ids[i] < len by {
        assert(ids.contains(ids[i]));
        assert(ids.to_multiset().count(ids[i]) > 0);
        assert(handles.to_multiset().count(ids[i]) > 0);
        assert(handles.contains(ids[i]));
        let k = choose|k: int| 0 <= k < handles.len() && handles[k] == ids[i];
        assert(handles[k] < len);
    }
}

/// Why a record could not be compacted.
#[derive(Clone, Copy, Debug, PartialEq, Eq, Structural)]
pub enum CompactError {
    /// The feed is neither disruptions and lines with a date and nothing
    /// else, nor a status code with an error and a message and nothing else.
    InvalidRecord,
    /// A date or a time of the record does not read as one.
    InvalidTimestamp,
}

/// Handles that stand for items under one relation stand for them under
/// every relation that holds wherever the first does.
pub proof fn lemma_set_compacts_wider<S>(
    ids: Seq<u32>,
    items: Seq<S>,
    narrow: spec_fn(u32, S) -> bool,
    wide: spec_fn(u32, S) -> bool,
)
    requires
        set_compacts(ids, items, narrow),
        forall|id: u32, item: S| #[trigger] narrow(id, item) ==> wide(id, item),
    ensures
        set_compacts(ids, items, wide),
{
    let handles = choose|handles: Seq<u32>| #[trigger]
        one_each(handles, items, narrow) && handles.to_multiset() == ids.to_multiset();
    assert(one_each(handles, items, wide));
}

/// A handle stands for a text where it names it in the store of texts.
pub open spec fn text_named(interners: &Interners) -> spec_fn(u32, String) -> bool {
    |id: u32, text: String| names(interners.string@, id, text@)
}

/// A handle stands for a span of time that is read where it names its
/// compact form.
pub open spec fn period_named(interners: &Interners) -> spec_fn(u32, source::ApplicationPeriod) -> bool {
    |id: u32, period: source::ApplicationPeriod|
        id < interners.application_period@.len() && interners.application_period@[id as int].compacts(
            &period,
        )
}

/// A handle stands for an identifier where it names it in the store of
/// identifiers.
pub open spec fn uuid_named(interners: &Interners) -> spec_fn(u32, Uuid) -> bool {
    |id: u32, uuid: Uuid| names(interners.uuid@, id, uuid@)
}

/// A handle stands for an impacted object that is read where it names its
/// compact form.
pub open spec fn impacted_object_named(interners: &Interners) -> spec_fn(
    u32,
    source::ImpactedObject,
) -> bool {
    |id: u32, object: source::ImpactedObject|
        id < interners.impacted_object@.len() && interners.impacted_object@[id as int].compacts(
            &object,
            interners,
        )
}

/// Stores each identifier and returns the set of the handles.
fn intern_uuids(interners: &mut Interners, items: Vec<Uuid>) -> (set: InternedSet<Uuid>)
    requires
        old(interners).wf(),
        old(interners).has_room(Requests::uuids(items@.len())),
    ensures
        final(interners).wf(),
        final(interners).follows(old(interners), Requests::uuids(items@.len())),
        final(interners).contents() == put_uuids(old(interners).contents(), items@).0,
        set@ == sorted(put_uuids(old(interners).contents(), items@).1),
        set_compacts(set@, items@, uuid_named(final(interners))),
        below(set@, final(interners).uuid@.len()),
{
    let ghost start = *interners;
    let ghost read = items@;
    let mut handles: Vec<Interned<Uuid>> = Vec::new();
    proof {
        start.lemma_follows_none();
        assert(read.take(0) =~= Seq::<Uuid>::empty());
        assert(ids_of(handles@) =~= Seq::<u32>::empty());
    }
    for x in it: items
        invariant
            interners.wf(),
            interners.follows(&start, Requests::uuids(it.index() as nat)),
            (interners.contents(), ids_of(handles@)) == put_uuids(
                start.contents(),
                read.take(it.index()),
            ),
            it.seq() == read,
            start.has_room(Requests::uuids(read.len())),
            handles@.len() == it.index(),
            one_each(ids_of(handles@), read.take(it.index()), uuid_named(interners)),
    {
        let ghost before = *interners;
        let ghost found = handles@;
        let ghost asked = Requests::uuids(it.index() as nat);
        proof {
            interners.lemma_room_left(
                &start,
                Requests::uuids(read.len()),
                asked,
                Requests::uuids(1),
            );
        }
        let handle = interners.intern_uuid(x);
        handles.push(handle);
        proof {
            interners.lemma_follows(&before, &start, asked, Requests::uuids(1));
            let taken = read.take(it.index() + 1);
            assert(taken.drop_last() =~= read.take(it.index()));
            assert(ids_of(handles@) =~= ids_of(found).push(handle@));
            assert forall|k: int| 0 <= k < taken.len() implies uuid_named(interners)(
                #[trigger] ids_of(handles@)[k],
                taken[k],
            ) by {
                if k < found.len() {
                    assert(uuid_named(&before)(ids_of(found)[k], read.take(it.index())[k]));
                }
            }
        }
    }
    let ghost listed = ids_of(handles@);
    let set = InternedSet::new(handles);
    proof {
        assert(read.take(read.len() as int) =~= read);
        assert(below(listed, interners.uuid@.len())) by {
            assert forall|k: int| 0 <= k < listed.len() implies #[trigger] listed[k]
                < interners.uuid@.len() by {
                assert(uuid_named(interners)(listed[k], read[k]));
            }
        }
        lemma_same_members(set@, listed, interners.uuid@.len());
        assert(one_each(listed, read, uuid_named(interners)));
    }
    set
}

impl Object {
    /// The object holds the handles of the texts of `source`.
    pub open spec fn compacts(&self, source: &source::ImpactedObject, interners: &Interners) -> bool {
        &&& names(interners.string@, self.typ@, source.typ@)
        &&& names(interners.string@, self.id@, source.id@)
        &&& names(interners.string@, self.name@, source.name@)
    }
}

impl ImpactedObject {
    /// The impacted object holds the handle of the object of `source` and
    /// that of the set of its disruptions.
    pub open spec fn compacts(&self, source: &source::ImpactedObject, interners: &Interners) -> bool {
        &&& self.fits(interners)
        &&& interners.object@[self.object@ as int].compacts(source, interners)
        &&& set_compacts(
            interners.uuid_set@[self.disruption_ids@ as int]@,
            source.disruption_ids@,
            uuid_named(interners),
        )
    }

    /// What compacts an object still does after the stores have grown.
    pub proof fn lemma_compacts_later(
        &self,
        source: &source::ImpactedObject,
        earlier: &Interners,
        later: &Interners,
    )
        requires
            self.compacts(source, earlier),
            later.extends(earlier),
        ensures
            self.compacts(source, later),
    {
        let ids = earlier.uuid_set@[self.disruption_ids@ as int]@;
        let handles = choose|handles: Seq<u32>| #[trigger]
            one_each(handles, source.disruption_ids@, uuid_named(earlier)) && handles.to_multiset()
                == ids.to_multiset();
        assert(one_each(handles, source.disruption_ids@, uuid_named(later)));
    }

    /// Compacts an impacted object: its identifiers, its texts, the object and
    /// the set of identifiers each go to their store.
    pub fn from(interners: &mut Interners, source: source::ImpactedObject) -> (compact: Self)
        requires
            old(interners).wf(),
            old(interners).has_room(source.requests_by_store()),
        ensures
            final(interners).wf(),
            final(interners).follows(old(interners), source.requests_by_store()),
            compact.compacts(&source, final(interners)),
            (final(interners).contents(), compact@) == compact_impacted_object(
                old(interners).contents(),
                source,
            ),
            compact.eq_with_spec(&source, final(interners)),
    {
        let ghost start = *interners;
        let ghost read = source;
        let ghost all = source.requests_by_store();
        let ghost asked = Requests::uuids(source.disruption_ids@.len());
        proof {
            start.lemma_follows_none();
            interners.lemma_room_left(&start, all, Requests::none(), asked);
        }
        let disruption_ids = intern_uuids(interners, source.disruption_ids);
        let ghost listed = *interners;
        proof {
            interners.lemma_room_left(&start, all, asked, Requests::strings(1));
        }
        let typ = interners.intern_string(source.typ);
        let ghost first = *interners;
        proof {
            first.lemma_follows(&listed, &start, asked, Requests::strings(1));
            interners.lemma_room_left(
                &start,
                all,
                asked.plus(Requests::strings(1)),
                Requests::strings(1),
            );
        }
        let id = interners.intern_string(source.id);
        let ghost second = *interners;
        proof {
            second.lemma_follows(&first, &start, asked.plus(Requests::strings(1)), Requests::strings(1));
            interners.lemma_room_left(
                &start,
                all,
                asked.plus(Requests::strings(2)),
                Requests::strings(1),
            );
        }
        let name = interners.intern_string(source.name);
        let ghost third = *interners;
        let ghost asked = asked.plus(Requests::strings(3));
        proof {
            third.lemma_follows(
                &second,
                &start,
                Requests::uuids(read.disruption_ids@.len()).plus(Requests::strings(2)),
                Requests::strings(1),
            );
            interners.lemma_room_left(&start, all, asked, Requests::objects(1));
        }
        let object = interners.intern_object(Object { typ, id, name });
        let ghost fourth = *interners;
        proof {
            fourth.lemma_follows(&third, &start, asked, Requests::objects(1));
            interners.lemma_room_left(
                &start,
                all,
                asked.plus(Requests::objects(1)),
                Requests::uuid_sets(1),
            );
        }
        let ghost kept = disruption_ids@;
        let disruption_ids = interners.intern_uuid_set(disruption_ids);
        proof {
            interners.lemma_follows(
                &fourth,
                &start,
                asked.plus(Requests::objects(1)),
                Requests::uuid_sets(1),
            );
            lemma_set_compacts_wider(
                kept,
                read.disruption_ids@,
                uuid_named(&listed),
                uuid_named(interners),
            );
        }
        let compact = ImpactedObject { object, disruption_ids };
        proof {
            compact.lemma_compact_is_equal(&read, interners);
        }
        compact
    }
}

impl LineHeader {
    /// The header holds the handles of the texts that name `source`.
    pub open spec fn compacts(&self, source: &source::Line, interners: &Interners) -> bool {
        &&& names(interners.string@, self.id@, source.id@)
        &&& names(interners.string@, self.name@, source.name@)
        &&& names(interners.string@, self.short_name@, source.short_name@)
        &&& names(interners.string@, self.mode@, source.mode@)
        &&& names(interners.string@, self.network_id@, source.network_id@)
    }
}

impl Line {
    /// The line holds the handle of the header of `source` and one handle for
    /// each of its impacted objects.
    pub open spec fn compacts(&self, source: &source::Line, interners: &Interners) -> bool {
        &&& self.fits(interners)
        &&& interners.line_header@[self.header@ as int].compacts(source, interners)
        &&& set_compacts(
            self.impacted_objects@,
            source.impacted_objects@,
            impacted_object_named(interners),
        )
    }

    /// What compacts a line still does after the stores have grown.
    pub proof fn lemma_compacts_later(
        &self,
        source: &source::Line,
        earlier: &Interners,
        later: &Interners,
    )
        requires
            self.compacts(source, earlier),
            later.extends(earlier),
        ensures
            self.compacts(source, later),
    {
        let handles = choose|handles: Seq<u32>| #[trigger]
            one_each(handles, source.impacted_objects@, impacted_object_named(earlier))
                && handles.to_multiset() == self.impacted_objects@.to_multiset();
        assert forall|k: int| 0 <= k < source.impacted_objects@.len() implies impacted_object_named(
            later,
        )(#[trigger] handles[k], source.impacted_objects@[k]) by {
            assert(impacted_object_named(earlier)(handles[k], source.impacted_objects@[k]));
            earlier.impacted_object@[handles[k] as int].lemma_compacts_later(
                &source.impacted_objects@[k],
                earlier,
                later,
            );
        }
        assert(one_each(handles, source.impacted_objects@, impacted_object_named(later)));
    }

    /// Compacts a line: its texts, its header and its impacted objects each
    /// go to their store.
    #[verifier::rlimit(20)]
    pub fn from(interners: &mut Interners, source: source::Line) -> (compact: Self)
        requires
            old(interners).wf(),
            old(interners).has_room(source.requests_by_store()),
        ensures
            final(interners).wf(),
            final(interners).follows(old(interners), source.requests_by_store()),
            compact.compacts(&source, final(interners)),
            (final(interners).contents(), compact@) == compact_line(old(interners).contents(), source),
            compact.eq_with_spec(&source, final(interners)),
    {
        let ghost start = *interners;
        let ghost read = source;
        let ghost all = source.requests_by_store();
        proof {
            start.lemma_follows_none();
            interners.lemma_room_left(&start, all, Requests::none(), Requests::strings(1));
        }
        let id = interners.intern_string(source.id);
        let ghost first = *interners;
        proof {
            interners.lemma_room_left(&start, all, Requests::strings(1), Requests::strings(1));
        }
        let name = interners.intern_string(source.name);
        let ghost second = *interners;
        proof {
            second.lemma_follows(&first, &start, Requests::strings(1), Requests::strings(1));
            interners.lemma_room_left(&start, all, Requests::strings(2), Requests::strings(1));
        }
        let short_name = interners.intern_string(source.short_name);
        let ghost third = *interners;
        proof {
            third.lemma_follows(&second, &start, Requests::strings(2), Requests::strings(1));
            interners.lemma_room_left(&start, all, Requests::strings(3), Requests::strings(1));
        }
        let mode = interners.intern_string(source.mode);
        let ghost fourth = *interners;
        proof {
            fourth.lemma_follows(&third, &start, Requests::strings(3), Requests::strings(1));
            interners.lemma_room_left(&start, all, Requests::strings(4), Requests::strings(1));
        }
        let network_id = interners.intern_string(source.network_id);
        let ghost fifth = *interners;
        proof {
            fifth.lemma_follows(&fourth, &start, Requests::strings(4), Requests::strings(1));
            interners.lemma_room_left(&start, all, Requests::strings(5), Requests::line_headers(1));
        }
        let header = interners.intern_line_header(
            LineHeader { id, name, short_name, mode, network_id },
        );
        let ghost named = *interners;
        let ghost head = Requests::strings(5).plus(Requests::line_headers(1));
        proof {
            named.lemma_follows(&fifth, &start, Requests::strings(5), Requests::line_headers(1));
            assert(read.impacted_objects@.take(0) =~= Seq::<source::ImpactedObject>::empty());
        }
        let mut handles: Vec<Interned<ImpactedObject>> = Vec::new();
        proof {
            assert(ids_of(handles@) =~= Seq::<u32>::empty());
        }
        for x in it: source.impacted_objects
            invariant
                interners.wf(),
                interners.follows(
                    &start,
                    head.plus(objects_requests_by_store(read.impacted_objects@.take(it.index()))),
                ),
                interners.extends(&named),
                (interners.contents(), ids_of(handles@)) == compact_impacted_objects(
                    named.contents(),
                    read.impacted_objects@.take(it.index()),
                ),
                it.seq() == read.impacted_objects@,
                start.has_room(all),
                all == read.requests_by_store(),
                head == Requests::strings(5).plus(Requests::line_headers(1)),
                handles@.len() == it.index(),
                one_each(
                    ids_of(handles@),
                    read.impacted_objects@.take(it.index()),
                    impacted_object_named(interners),
                ),
        {
            let ghost before = *interners;
            let ghost found = handles@;
            let ghost object = x;
            let ghost asked = head.plus(
                objects_requests_by_store(read.impacted_objects@.take(it.index())),
            );
            proof {
                lemma_objects_requests_by_store(read.impacted_objects@, it.index());
                lemma_objects_requests_by_store(read.impacted_objects@, it.index() + 1);
                interners.lemma_room_left(&start, all, asked, object.requests_by_store());
            }
            let impacted_object = ImpactedObject::from(interners, x);
            let ghost compacted = *interners;
            let ghost kept = impacted_object;
            proof {
                compacted.lemma_follows(&before, &start, asked, object.requests_by_store());
                interners.lemma_room_left(
                    &start,
                    all,
                    asked.plus(object.requests_by_store()),
                    Requests::impacted_objects(1),
                );
            }
            let handle = interners.intern_impacted_object(impacted_object);
            handles.push(handle);
            proof {
                interners.lemma_follows(
                    &compacted,
                    &start,
                    asked.plus(object.requests_by_store()),
                    Requests::impacted_objects(1),
                );
                let stored = interners.impacted_object@[handle@ as int];
                assert(stored.compacts(&object, &compacted));
                stored.lemma_compacts_later(&object, &compacted, interners);
                let taken = read.impacted_objects@.take(it.index() + 1);
                assert(taken.drop_last() =~= read.impacted_objects@.take(it.index()));
                assert(ids_of(handles@) =~= ids_of(found).push(handle@));
                assert forall|k: int| 0 <= k < taken.len() implies impacted_object_named(interners)(
                    #[trigger] ids_of(handles@)[k],
                    taken[k],
                ) by {
                    if k < found.len() {
                        assert(impacted_object_named(&before)(
                            ids_of(found)[k],
                            read.impacted_objects@.take(it.index())[k],
                        ));
                        before.impacted_object@[ids_of(found)[k] as int].lemma_compacts_later(
                            &taken[k],
                            &before,
                            interners,
                        );
                    }
                }
            }
        }
        proof {
            assert(read.impacted_objects@.take(read.impacted_objects@.len() as int)
                =~= read.impacted_objects@);
            assert(below(ids_of(handles@), interners.impacted_object@.len())) by {
                assert forall|k: int| 0 <= k < handles@.len() implies #[trigger] ids_of(handles@)[k]
                    < interners.impacted_object@.len() by {
                    assert(impacted_object_named(interners)(
                        ids_of(handles@)[k],
                        read.impacted_objects@[k],
                    ));
                }
            }
        }
        let ghost listed = ids_of(handles@);
        let impacted_objects = InternedSet::new(handles);
        proof {
            lemma_same_members(impacted_objects@, listed, interners.impacted_object@.len());
            assert(one_each(listed, read.impacted_objects@, impacted_object_named(interners)));
        }
        let compact = Line { header, impacted_objects };
        proof {
            compact.lemma_compact_is_equal(&read, interners);
        }
        compact
    }
}

impl ApplicationPeriod {
    /// The span holds the instants that the two local times of `source`
    /// stand for.
    pub open spec fn compacts(&self, source: &source::ApplicationPeriod) -> bool {
        local_instant(source.begin@) == Some(self.begin@) && local_instant(source.end@) == Some(
            self.end@,
        )
    }

    /// Compacts a span of time: reads its two local times, which have to read
    /// (`try_from` is for a span of which that is not known). The stores are
    /// left as they are.
    pub fn from(_interners: &mut Interners, source: source::ApplicationPeriod) -> (compact: Self)
        requires
            source.well_formed(),
        ensures
            *final(_interners) == *old(_interners),
            compact.compacts(&source),
            compact@ == compact_period(source),
            source.writes_back() ==> compact.eq_with_spec(&source, final(_interners)),
    {
        let begin = TimestampSecondsParis::from_formatted(source.begin.as_str(), LOCAL_FORMAT);
        let end = TimestampSecondsParis::from_formatted(source.end.as_str(), LOCAL_FORMAT);
        let compact = ApplicationPeriod { begin, end };
        proof {
            if source.writes_back() {
                compact.lemma_compact_is_equal(&source, _interners);
            }
        }
        compact
    }

    /// Compacts a span of time where its two local times read, and refuses it
    /// where one does not. The stores are left as they are.
    pub fn try_from(interners: &mut Interners, source: source::ApplicationPeriod) -> (compacted:
        Result<Self, CompactError>)
        ensures
            *final(interners) == *old(interners),
            match compacted {
                Ok(compact) => {
                    &&& source.well_formed()
                    &&& compact.compacts(&source)
                    &&& compact@ == compact_period(source)
                    &&& source.writes_back() ==> compact.eq_with_spec(&source, final(interners))
                },
                Err(error) => error == CompactError::InvalidTimestamp && !source.well_formed(),
            },
    {
        if source.is_well_formed() {
            Ok(Self::from(interners, source))
        } else {
            Err(CompactError::InvalidTimestamp)
        }
    }
}

/// Stores each text and returns the set of the handles.
fn intern_texts(interners: &mut Interners, items: Vec<String>) -> (set: InternedSet<String>)
    requires
        old(interners).wf(),
        old(interners).has_room(Requests::strings(items@.len())),
    ensures
        final(interners).wf(),
        final(interners).follows(old(interners), Requests::strings(items@.len())),
        final(interners).contents() == put_texts(old(interners).contents(), items@).0,
        set@ == sorted(put_texts(old(interners).contents(), items@).1),
        set_compacts(set@, items@, text_named(final(interners))),
        below(set@, final(interners).string@.len()),
{
    let ghost start = *interners;
    let ghost read = items@;
    let mut handles: Vec<Interned<String>> = Vec::new();
    proof {
        start.lemma_follows_none();
        assert(read.take(0) =~= Seq::<String>::empty());
        assert(ids_of(handles@) =~= Seq::<u32>::empty());
    }
    for x in it: items
        invariant
            interners.wf(),
            interners.follows(&start, Requests::strings(it.index() as nat)),
            (interners.contents(), ids_of(handles@)) == put_texts(
                start.contents(),
                read.take(it.index()),
            ),
            it.seq() == read,
            start.has_room(Requests::strings(read.len())),
            handles@.len() == it.index(),
            one_each(ids_of(handles@), read.take(it.index()), text_named(interners)),
    {
        let ghost before = *interners;
        let ghost found = handles@;
        let ghost asked = Requests::strings(it.index() as nat);
        proof {
            interners.lemma_room_left(
                &start,
                Requests::strings(read.len()),
                asked,
                Requests::strings(1),
            );
        }
        let handle = interners.intern_string(x);
        handles.push(handle);
        proof {
            interners.lemma_follows(&before, &start, asked, Requests::strings(1));
            let taken = read.take(it.index() + 1);
            assert(taken.drop_last() =~= read.take(it.index()));
            assert(ids_of(handles@) =~= ids_of(found).push(handle@));
            assert forall|k: int| 0 <= k < taken.len() implies text_named(interners)(
                #[trigger] ids_of(handles@)[k],
                taken[k],
            ) by {
                if k < found.len() {
                    assert(text_named(&before)(ids_of(found)[k], read.take(it.index())[k]));
                }
            }
        }
    }
    let ghost listed = ids_of(handles@);
    let set = InternedSet::new(handles);
    proof {
        assert(read.take(read.len() as int) =~= read);
        assert(below(listed, interners.string@.len())) by {
            assert forall|k: int| 0 <= k < listed.len() implies #[trigger] listed[k]
                < interners.string@.len() by {
                assert(text_named(interners)(listed[k], read[k]));
            }
        }
        lemma_same_members(set@, listed, interners.string@.len());
        assert(one_each(listed, read, text_named(interners)));
    }
    set
}

/// Compacts and stores each span of time and returns the set of the
/// handles.
fn intern_periods(interners: &mut Interners, periods: Vec<source::ApplicationPeriod>) -> (set:
    InternedSet<ApplicationPeriod>)
    requires
        old(interners).wf(),
        old(interners).has_room(Requests::application_periods(periods@.len())),
        periods_well_formed(periods@),
    ensures
        final(interners).wf(),
        final(interners).follows(old(interners), Requests::application_periods(periods@.len())),
        final(interners).contents() == compact_periods(old(interners).contents(), periods@).0,
        set@ == sorted(compact_periods(old(interners).contents(), periods@).1),
        set_compacts(set@, periods@, period_named(final(interners))),
        below(set@, final(interners).application_period@.len()),
{
    let ghost start = *interners;
    let ghost read = periods@;
    let ghost all = Requests::application_periods(periods@.len());
    let mut handles: Vec<Interned<ApplicationPeriod>> = Vec::new();
    proof {
        start.lemma_follows_none();
        assert(read.take(0) =~= Seq::<source::ApplicationPeriod>::empty());
        assert(ids_of(handles@) =~= Seq::<u32>::empty());
    }
    for x in it: periods
        invariant
            interners.wf(),
            interners.follows(&start, Requests::application_periods(it.index() as nat)),
            (interners.contents(), ids_of(handles@)) == compact_periods(
                start.contents(),
                read.take(it.index()),
            ),
            it.seq() == read,
            start.has_room(all),
            all == Requests::application_periods(read.len()),
            periods_well_formed(read),
            handles@.len() == it.index(),
            one_each(ids_of(handles@), read.take(it.index()), period_named(interners)),
    {
        let ghost before = *interners;
        let ghost found = handles@;
        let ghost asked = Requests::application_periods(it.index() as nat);
        proof {
            assert(read[it.index()].well_formed());
        }
        let compact = ApplicationPeriod::from(interners, x);
        proof {
            interners.lemma_room_left(&start, all, asked, Requests::application_periods(1));
        }
        let handle = interners.intern_application_period(compact);
        handles.push(handle);
        proof {
            interners.lemma_follows(&before, &start, asked, Requests::application_periods(1));
            let taken = read.take(it.index() + 1);
            assert(taken.drop_last() =~= read.take(it.index()));
            assert(ids_of(handles@) =~= ids_of(found).push(handle@));
            assert forall|k: int| 0 <= k < taken.len() implies period_named(interners)(
                #[trigger] ids_of(handles@)[k],
                taken[k],
            ) by {
                if k < found.len() {
                    assert(period_named(&before)(ids_of(found)[k], read.take(it.index())[k]));
                }
            }
        }
    }
    let ghost listed = ids_of(handles@);
    let set = InternedSet::new(handles);
    proof {
        assert(read.take(read.len() as int) =~= read);
        assert(below(listed, interners.application_period@.len())) by {
            assert forall|k: int| 0 <= k < listed.len() implies #[trigger] listed[k]
                < interners.application_period@.len() by {
                assert(period_named(interners)(listed[k], read[k]));
            }
        }
        lemma_same_members(set@, listed, interners.application_period@.len());
        assert(one_each(listed, read, period_named(interners)));
    }
    set
}

/// The tags of a compact disruption stand for the tags that were read: both
/// absent, or one handle for each text.
pub open spec fn tags_compact(
    tags: Option<InternedSet<String>>,
    source: Option<Vec<String>>,
    interners: &Interners,
) -> bool {
    match (tags, source) {
        (Some(tags), Some(source)) => set_compacts(tags@, source@, text_named(interners)),
        (None, None) => true,
        _ => false,
    }
}

/// The handle of an identifier that may be absent stands for the identifier
/// that was read: both absent, or the one naming the other.
pub open spec fn optional_uuid_compacts(
    handle: Option<Interned<Uuid>>,
    source: Option<Uuid>,
    interners: &Interners,
) -> bool {
    match (handle, source) {
        (Some(handle), Some(source)) => names(interners.uuid@, handle@, source@),
        (None, None) => true,
        _ => false,
    }
}

impl Disruption {
    /// The disruption holds the handles of the identifiers and texts of
    /// `source`, one handle for each of its spans of time, and the instant of
    /// its last update.
    pub open spec fn compacts(&self, source: &source::Disruption, interners: &Interners) -> bool {
        &&& self.fits(interners)
        &&& names(interners.uuid@, self.id@, source.id@)
        &&& set_compacts(
            self.application_periods@,
            source.application_periods@,
            period_named(interners),
        )
        &&& local_instant(source.last_update@) == Some(self.last_update@)
        &&& names(interners.string@, self.cause@, source.cause@)
        &&& names(interners.string@, self.severity@, source.severity@)
        &&& tags_compact(self.tags, source.tags, interners)
        &&& names(interners.string@, self.title@, source.title@)
        &&& names(interners.string@, self.message@, source.message@)
        &&& optional_uuid_compacts(self.disruption_id, source.disruption_id, interners)
    }

    /// What compacts a disruption still does after the stores have grown.
    pub proof fn lemma_compacts_later(
        &self,
        source: &source::Disruption,
        earlier: &Interners,
        later: &Interners,
    )
        requires
            self.compacts(source, earlier),
            later.extends(earlier),
        ensures
            self.compacts(source, later),
    {
        lemma_set_compacts_wider(
            self.application_periods@,
            source.application_periods@,
            period_named(earlier),
            period_named(later),
        );
        if let (Some(tags), Some(texts)) = (self.tags, source.tags) {
            lemma_set_compacts_wider(tags@, texts@, text_named(earlier), text_named(later));
        }
    }

    /// Two disruptions with the same content compact the same records.
    pub proof fn lemma_compacts_same(
        &self,
        other: &Disruption,
        source: &source::Disruption,
        interners: &Interners,
    )
        requires
            self.compacts(source, interners),
            self@ == other@,
        ensures
            other.compacts(source, interners),
    {
    }

    /// Compacts a disruption: its identifiers, its texts and its spans of time
    /// each go to their store, and its dates are read. The dates have to
    /// read: `try_from` is for a disruption of which that is not known.
    pub fn from(interners: &mut Interners, source: source::Disruption) -> (compact: Self)
        requires
            old(interners).wf(),
            old(interners).has_room(source.requests_by_store()),
            source.well_formed(),
        ensures
            final(interners).wf(),
            final(interners).follows(old(interners), source.requests_by_store()),
            compact.compacts(&source, final(interners)),
            (final(interners).contents(), compact@) == compact_disruption(
                old(interners).contents(),
                source,
            ),
            source.writes_back() ==> compact.eq_with_spec(&source, final(interners)),
    {
        let ghost start = *interners;
        let ghost read = source;
        let ghost all = source.requests_by_store();
        let ghost periods = source.application_periods@.len();
        proof {
            start.lemma_follows_none();
            interners.lemma_room_left(&start, all, Requests::none(), Requests::uuids(1));
        }
        let id = interners.intern_uuid(source.id);
        let ghost first = *interners;
        proof {
            interners.lemma_room_left(
                &start,
                all,
                Requests::uuids(1),
                Requests::application_periods(periods),
            );
        }
        let application_periods = intern_periods(interners, source.application_periods);
        let ghost second = *interners;
        let ghost asked = Requests::uuids(1).plus(Requests::application_periods(periods));
        proof {
            second.lemma_follows(
                &first,
                &start,
                Requests::uuids(1),
                Requests::application_periods(periods),
            );
        }
        let last_update = TimestampSecondsParis::from_formatted(
            source.last_update.as_str(),
            LOCAL_FORMAT,
        );
        proof {
            interners.lemma_room_left(&start, all, asked, Requests::strings(1));
        }
        let cause = interners.intern_string(source.cause);
        let ghost third = *interners;
        proof {
            third.lemma_follows(&second, &start, asked, Requests::strings(1));
            interners.lemma_room_left(
                &start,
                all,
                asked.plus(Requests::strings(1)),
                Requests::strings(1),
            );
        }
        let severity = interners.intern_string(source.severity);
        let ghost fourth = *interners;
        proof {
            fourth.lemma_follows(
                &third,
                &start,
                asked.plus(Requests::strings(1)),
                Requests::strings(1),
            );
        }
        let ghost asked = asked.plus(Requests::strings(2));
        let ghost texts: nat = match read.tags {
            Some(tags) => tags@.len(),
            None => 0,
        };
        proof {
            interners.lemma_room_left(&start, all, asked, Requests::strings(texts));
        }
        let tags = match source.tags {
            Some(tags) => Some(intern_texts(interners, tags)),
            None => None,
        };
        let ghost fifth = *interners;
        let ghost tagged = tags;
        proof {
            if read.tags is Some {
                fifth.lemma_follows(&fourth, &start, asked, Requests::strings(texts));
            }
        }
        let ghost asked = asked.plus(Requests::strings(texts));
        proof {
            interners.lemma_room_left(&start, all, asked, Requests::strings(1));
        }
        let title = interners.intern_string(source.title);
        let ghost sixth = *interners;
        proof {
            sixth.lemma_follows(&fifth, &start, asked, Requests::strings(1));
            interners.lemma_room_left(
                &start,
                all,
                asked.plus(Requests::strings(1)),
                Requests::strings(1),
            );
        }
        let message = interners.intern_string(source.message);
        let ghost seventh = *interners;
        proof {
            seventh.lemma_follows(
                &sixth,
                &start,
                asked.plus(Requests::strings(1)),
                Requests::strings(1),
            );
        }
        let ghost asked = asked.plus(Requests::strings(2));
        proof {
            if read.disruption_id is Some {
                interners.lemma_room_left(&start, all, asked, Requests::uuids(1));
            }
        }
        let disruption_id = match source.disruption_id {
            Some(disruption_id) => Some(interners.intern_uuid(disruption_id)),
            None => None,
        };
        proof {
            if read.disruption_id is Some {
                interners.lemma_follows(&seventh, &start, asked, Requests::uuids(1));
            }
            lemma_set_compacts_wider(
                application_periods@,
                read.application_periods@,
                period_named(&second),
                period_named(interners),
            );
            if let (Some(tags), Some(texts)) = (tagged, read.tags) {
                lemma_set_compacts_wider(tags@, texts@, text_named(&fifth), text_named(interners));
            }
        }
        let compact = Disruption {
            id,
            application_periods,
            last_update,
            cause,
            severity,
            tags,
            title,
            message,
            disruption_id,
        };
        proof {
            if read.writes_back() {
                compact.lemma_compact_is_equal(&read, interners);
            }
        }
        compact
    }

    /// Compacts a disruption where its dates read, and refuses it, with the
    /// stores left as they are, where one does not.
    pub fn try_from(interners: &mut Interners, source: source::Disruption) -> (compacted: Result<
        Self,
        CompactError,
    >)
        requires
            old(interners).wf(),
            old(interners).has_room(source.requests_by_store()),
        ensures
            final(interners).wf(),
            match compacted {
                Ok(compact) => {
                    &&& source.well_formed()
                    &&& final(interners).follows(old(interners), source.requests_by_store())
                    &&& compact.compacts(&source, final(interners))
                    &&& (final(interners).contents(), compact@) == compact_disruption(
                        old(interners).contents(),
                        source,
                    )
                    &&& source.writes_back() ==> compact.eq_with_spec(&source, final(interners))
                },
                Err(error) => {
                    &&& error == CompactError::InvalidTimestamp
                    &&& !source.well_formed()
                    &&& *final(interners) == *old(interners)
                },
            },
    {
        if source.is_well_formed() {
            Ok(Self::from(interners, source))
        } else {
            Err(CompactError::InvalidTimestamp)
        }
    }
}

/// A handle stands for a disruption that is read where it names its compact
/// form.
pub open spec fn disruption_named(interners: &Interners) -> spec_fn(u32, source::Disruption) -> bool {
    |id: u32, disruption: source::Disruption|
        id < interners.disruption@.len() && interners.disruption@[id as int].compacts(
            &disruption,
            interners,
        )
}

/// A handle stands for a line that is read where it names its compact form.
pub open spec fn line_named(interners: &Interners) -> spec_fn(u32, source::Line) -> bool {
    |id: u32, line: source::Line|
        id < interners.line@.len() && interners.line@[id as int].compacts(&line, interners)
}

/// A handle that stands for a disruption still does after the stores have
/// grown.
pub proof fn lemma_disruption_named_later(earlier: &Interners, later: &Interners)
    requires
        later.extends(earlier),
    ensures
        forall|id: u32, disruption: source::Disruption| #[trigger]
            disruption_named(earlier)(id, disruption) ==> disruption_named(later)(id, disruption),
{
    assert forall|id: u32, disruption: source::Disruption| #[trigger]
        disruption_named(earlier)(id, disruption) implies disruption_named(later)(
        id,
        disruption,
    ) by {
        earlier.disruption@[id as int].lemma_compacts_later(&disruption, earlier, later);
    }
}

/// A handle that stands for a line still does after the stores have grown.
pub proof fn lemma_line_named_later(earlier: &Interners, later: &Interners)
    requires
        later.extends(earlier),
    ensures
        forall|id: u32, line: source::Line| #[trigger]
            line_named(earlier)(id, line) ==> line_named(later)(id, line),
{
    assert forall|id: u32, line: source::Line| #[trigger] line_named(earlier)(id, line) implies line_named(
        later,
    )(id, line) by {
        earlier.line@[id as int].lemma_compacts_later(&line, earlier, later);
    }
}

/// Compacts and stores each disruption and returns the set of the handles.
#[verifier::rlimit(20)]
fn intern_disruptions(interners: &mut Interners, disruptions: Vec<source::Disruption>) -> (set:
    InternedSet<Disruption>)
    requires
        old(interners).wf(),
        old(interners).has_room(disruptions_requests_by_store(disruptions@)),
        disruptions_well_formed(disruptions@),
    ensures
        final(interners).wf(),
        final(interners).follows(old(interners), disruptions_requests_by_store(disruptions@)),
        final(interners).contents() == compact_disruptions(
            old(interners).contents(),
            disruptions@,
        ).0,
        set@ == sorted(compact_disruptions(old(interners).contents(), disruptions@).1),
        set_compacts(set@, disruptions@, disruption_named(final(interners))),
        below(set@, final(interners).disruption@.len()),
{
    let ghost start = *interners;
    let ghost read = disruptions@;
    let ghost all = disruptions_requests_by_store(disruptions@);
    let mut handles: Vec<Interned<Disruption>> = Vec::new();
    proof {
        assert(read.take(0) =~= Seq::<source::Disruption>::empty());
        assert(ids_of(handles@) =~= Seq::<u32>::empty());
        start.lemma_follows_none();
    }
    for x in it: disruptions
        invariant
            interners.wf(),
            interners.follows(&start, disruptions_requests_by_store(read.take(it.index()))),
            (interners.contents(), ids_of(handles@)) == compact_disruptions(
                start.contents(),
                read.take(it.index()),
            ),
            it.seq() == read,
            start.has_room(all),
            all == disruptions_requests_by_store(read),
            disruptions_well_formed(read),
            handles@.len() == it.index(),
            one_each(ids_of(handles@), read.take(it.index()), disruption_named(interners)),
    {
        let ghost before = *interners;
        let ghost found = handles@;
        let ghost disruption = x;
        let ghost asked = disruptions_requests_by_store(read.take(it.index()));
        let ghost next = asked.plus(disruption.requests_by_store());
        proof {
            assert(next.plus(Requests::disruptions(1)).le(all) && next.plus(Requests::disruptions(1))
                == disruptions_requests_by_store(read.take(it.index() + 1))) by {
                lemma_disruptions_requests_by_store(read, it.index());
                lemma_disruptions_requests_by_store(read, it.index() + 1);
            }
            assert(next.le(all));
            assert(read[it.index()].well_formed());
            interners.lemma_room_left(&start, all, asked, disruption.requests_by_store());
        }
        let compact = Disruption::from(interners, x);
        let ghost compacted = *interners;
        let ghost kept = compact;
        proof {
            compacted.lemma_follows(&before, &start, asked, disruption.requests_by_store());
            interners.lemma_room_left(&start, all, next, Requests::disruptions(1));
        }
        let handle = interners.intern_disruption(compact);
        handles.push(handle);
        proof {
            interners.lemma_follows(&compacted, &start, next, Requests::disruptions(1));
            let taken = read.take(it.index() + 1);
            assert(taken.drop_last() =~= read.take(it.index()));
            assert(ids_of(handles@) =~= ids_of(found).push(handle@));
            assert(one_each(ids_of(handles@), taken, disruption_named(interners))) by {
                let stored = interners.disruption@[handle@ as int];
                kept.lemma_compacts_same(&stored, &disruption, &compacted);
                stored.lemma_compacts_later(&disruption, &compacted, interners);
                lemma_disruption_named_later(&before, interners);
                assert forall|k: int| 0 <= k < taken.len() implies disruption_named(interners)(
                    #[trigger] ids_of(handles@)[k],
                    taken[k],
                ) by {
                    if k < found.len() {
                        assert(disruption_named(&before)(
                            ids_of(found)[k],
                            read.take(it.index())[k],
                        ));
                    }
                }
            }
        }
    }
    let ghost listed = ids_of(handles@);
    let set = InternedSet::new(handles);
    proof {
        assert(read.take(read.len() as int) =~= read);
        assert(below(listed, interners.disruption@.len())) by {
            assert forall|k: int| 0 <= k < listed.len() implies #[trigger] listed[k]
                < interners.disruption@.len() by {
                assert(disruption_named(interners)(listed[k], read[k]));
            }
        }
        lemma_same_members(set@, listed, interners.disruption@.len());
        assert(one_each(listed, read, disruption_named(interners)));
    }
    set
}

/// Compacts and stores each line and returns the set of the handles.
#[verifier::rlimit(20)]
fn intern_lines(interners: &mut Interners, lines: Vec<source::Line>) -> (set: InternedSet<Line>)
    requires
        old(interners).wf(),
        old(interners).has_room(lines_requests_by_store(lines@)),
    ensures
        final(interners).wf(),
        final(interners).follows(old(interners), lines_requests_by_store(lines@)),
        final(interners).contents() == compact_lines(old(interners).contents(), lines@).0,
        set@ == sorted(compact_lines(old(interners).contents(), lines@).1),
        set_compacts(set@, lines@, line_named(final(interners))),
        below(set@, final(interners).line@.len()),
{
    let ghost start = *interners;
    let ghost read = lines@;
    let ghost all = lines_requests_by_store(lines@);
    let mut handles: Vec<Interned<Line>> = Vec::new();
    proof {
        assert(read.take(0) =~= Seq::<source::Line>::empty());
        assert(ids_of(handles@) =~= Seq::<u32>::empty());
        start.lemma_follows_none();
    }
    for x in it: lines
        invariant
            interners.wf(),
            interners.follows(&start, lines_requests_by_store(read.take(it.index()))),
            (interners.contents(), ids_of(handles@)) == compact_lines(
                start.contents(),
                read.take(it.index()),
            ),
            it.seq() == read,
            start.has_room(all),
            all == lines_requests_by_store(read),
            handles@.len() == it.index(),
            one_each(ids_of(handles@), read.take(it.index()), line_named(interners)),
    {
        let ghost before = *interners;
        let ghost found = handles@;
        let ghost line = x;
        let ghost asked = lines_requests_by_store(read.take(it.index()));
        let ghost next = asked.plus(line.requests_by_store());
        proof {
            assert(next.plus(Requests::lines(1)).le(all) && next.plus(Requests::lines(1))
                == lines_requests_by_store(read.take(it.index() + 1))) by {
                lemma_lines_requests_by_store(read, it.index());
                lemma_lines_requests_by_store(read, it.index() + 1);
            }
            assert(next.le(all));
            interners.lemma_room_left(&start, all, asked, line.requests_by_store());
        }
        let compact = Line::from(interners, x);
        let ghost compacted = *interners;
        let ghost kept = compact;
        proof {
            compacted.lemma_follows(&before, &start, asked, line.requests_by_store());
            interners.lemma_room_left(&start, all, next, Requests::lines(1));
        }
        let handle = interners.intern_line(compact);
        handles.push(handle);
        proof {
            interners.lemma_follows(&compacted, &start, next, Requests::lines(1));
            let taken = read.take(it.index() + 1);
            assert(taken.drop_last() =~= read.take(it.index()));
            assert(ids_of(handles@) =~= ids_of(found).push(handle@));
            assert(one_each(ids_of(handles@), taken, line_named(interners))) by {
                let stored = interners.line@[handle@ as int];
                assert(stored.compacts(&line, &compacted));
                stored.lemma_compacts_later(&line, &compacted, interners);
                lemma_line_named_later(&before, interners);
                assert forall|k: int| 0 <= k < taken.len() implies line_named(interners)(
                    #[trigger] ids_of(handles@)[k],
                    taken[k],
                ) by {
                    if k < found.len() {
                        assert(line_named(&before)(ids_of(found)[k], read.take(it.index())[k]));
                    }
                }
            }
        }
    }
    let ghost listed = ids_of(handles@);
    let set = InternedSet::new(handles);
    proof {
        assert(read.take(read.len() as int) =~= read);
        assert(below(listed, interners.line@.len())) by {
            assert forall|k: int| 0 <= k < listed.len() implies #[trigger] listed[k]
                < interners.line@.len() by {
                assert(line_named(interners)(listed[k], read[k]));
            }
        }
        lemma_same_members(set@, listed, interners.line@.len());
        assert(one_each(listed, read, line_named(interners)));
    }
    set
}

impl DataSuccess {
    /// The feed holds the handle of a set with one handle for each disruption
    /// of `source`, the handle of a set with one handle for each of its
    /// lines, and the instant of its date.
    pub open spec fn compacts(&self, source: &source::Data, interners: &Interners) -> bool {
        &&& source.is_success()
        &&& self.fits(interners)
        &&& set_compacts(
            interners.disruption_set@[self.disruptions@ as int]@,
            source.disruptions->0@,
            disruption_named(interners),
        )
        &&& set_compacts(
            interners.line_set@[self.lines@ as int]@,
            source.lines->0@,
            line_named(interners),
        )
        &&& rfc3339_millis(source.last_updated_date->0@) == Some(self.last_updated_date@)
    }
}

impl DataError {
    /// The feed holds the status code of `source` and the handles of its two
    /// texts.
    pub open spec fn compacts(&self, source: &source::Data, interners: &Interners) -> bool {
        &&& source.is_error()
        &&& source.status_code == Some(self.status_code)
        &&& names(interners.string@, self.error@, source.error->0@)
        &&& names(interners.string@, self.message@, source.message->0@)
    }
}

impl Data {
    /// The feed is the compact form of `source`, of the same kind.
    pub open spec fn compacts(&self, source: &source::Data, interners: &Interners) -> bool {
        match self {
            Data::Success(data) => data.compacts(source, interners),
            Data::Error(data) => data.compacts(source, interners),
        }
    }

    /// Compacts a feed. The feed has to be of one of the two kinds, and its
    /// dates have to read: `try_from` is for a feed of which that is not
    /// known.
    pub fn from(interners: &mut Interners, source: source::Data) -> (compact: Self)
        requires
            old(interners).wf(),
            old(interners).has_room(source.requests_by_store()),
            source.is_success() || source.is_error(),
            source.timestamps_read(),
        ensures
            final(interners).wf(),
            final(interners).follows(old(interners), source.requests_by_store()),
            compact.compacts(&source, final(interners)),
            compact.fits(final(interners)),
            (final(interners).contents(), compact@) == compact_data(old(interners).contents(), source),
            source.writes_back() ==> compact.eq_with_spec(&source, final(interners)),
    {
        let ghost start = *interners;
        let ghost read = source;
        let ghost all = source.requests_by_store();
        proof {
            start.lemma_follows_none();
        }
        let source::Data { disruptions, lines, last_updated_date, status_code, error, message } =
            source;
        let compact = match (disruptions, lines, last_updated_date) {
            (Some(disruptions), Some(lines), Some(last_updated_date)) => {
                let ghost count = disruptions_requests_by_store(disruptions@);
                let ghost lined = lines_requests_by_store(lines@);
                proof {
                    interners.lemma_room_left(&start, all, Requests::none(), count);
                }
                let disruptions = intern_disruptions(interners, disruptions);
                let ghost first = *interners;
                proof {
                    interners.lemma_room_left(&start, all, count, lined);
                }
                let lines = intern_lines(interners, lines);
                let ghost second = *interners;
                proof {
                    second.lemma_follows(&first, &start, count, lined);
                    lemma_disruption_named_later(&first, &second);
                    lemma_set_compacts_wider(
                        disruptions@,
                        read.disruptions->0@,
                        disruption_named(&first),
                        disruption_named(&second),
                    );
                    interners.lemma_room_left(
                        &start,
                        all,
                        count.plus(lined),
                        Requests::disruption_sets(1),
                    );
                }
                let ghost listed = disruptions@;
                let ghost lining = lines@;
                let disruptions = interners.intern_disruption_set(disruptions);
                let ghost third = *interners;
                proof {
                    third.lemma_follows(
                        &second,
                        &start,
                        count.plus(lined),
                        Requests::disruption_sets(1),
                    );
                    lemma_line_named_later(&second, &third);
                    lemma_set_compacts_wider(
                        lining,
                        read.lines->0@,
                        line_named(&second),
                        line_named(&third),
                    );
                    interners.lemma_room_left(
                        &start,
                        all,
                        count.plus(lined).plus(Requests::disruption_sets(1)),
                        Requests::line_sets(1),
                    );
                }
                let lines = interners.intern_line_set(lines);
                proof {
                    interners.lemma_follows(
                        &third,
                        &start,
                        count.plus(lined).plus(Requests::disruption_sets(1)),
                        Requests::line_sets(1),
                    );
                    lemma_disruption_named_later(&second, interners);
                    lemma_set_compacts_wider(
                        listed,
                        read.disruptions->0@,
                        disruption_named(&second),
                        disruption_named(interners),
                    );
                    lemma_line_named_later(&third, interners);
                    lemma_set_compacts_wider(
                        lining,
                        read.lines->0@,
                        line_named(&third),
                        line_named(interners),
                    );
                }
                let last_updated_date = TimestampMillis::from_rfc3339(last_updated_date.as_str());
                Data::Success(DataSuccess { disruptions, lines, last_updated_date })
            },
            _ => {
                proof {
                    interners.lemma_room_left(&start, all, Requests::none(), Requests::strings(1));
                }
                let status_code = status_code.unwrap();
                let message = message.unwrap();
                let error = interners.intern_string(error.unwrap());
                let ghost first = *interners;
                proof {
                    interners.lemma_room_left(&start, all, Requests::strings(1), Requests::strings(1));
                }
                let message = interners.intern_string(message);
                proof {
                    interners.lemma_follows(
                        &first,
                        &start,
                        Requests::strings(1),
                        Requests::strings(1),
                    );
                }
                Data::Error(DataError { status_code, error, message })
            },
        };
        proof {
            if read.writes_back() {
                compact.lemma_compact_is_equal(&read, interners);
            }
        }
        compact
    }

    /// Compacts a feed where it is of one of the two kinds and its dates
    /// read. Refuses it, with the stores left as they are, where it is of
    /// neither kind or of both, and where a date does not read.
    pub fn try_from(interners: &mut Interners, source: source::Data) -> (compacted: Result<
        Self,
        CompactError,
    >)
        requires
            old(interners).wf(),
            old(interners).has_room(source.requests_by_store()),
        ensures
            final(interners).wf(),
            match compacted {
                Ok(compact) => {
                    &&& source.is_success() || source.is_error()
                    &&& source.timestamps_read()
                    &&& final(interners).follows(old(interners), source.requests_by_store())
                    &&& compact.compacts(&source, final(interners))
                    &&& compact.fits(final(interners))
                    &&& (final(interners).contents(), compact@) == compact_data(
                        old(interners).contents(),
                        source,
                    )
                    &&& source.writes_back() ==> compact.eq_with_spec(&source, final(interners))
                },
                Err(CompactError::InvalidRecord) => {
                    &&& !source.is_success()
                    &&& !source.is_error()
                    &&& *final(interners) == *old(interners)
                },
                Err(CompactError::InvalidTimestamp) => {
                    &&& source.is_success()
                    &&& !source.timestamps_read()
                    &&& *final(interners) == *old(interners)
                },
            },
    {
        if !source.has_success_fields() && !source.has_error_fields() {
            Err(CompactError::InvalidRecord)
        } else if !source.has_timestamps_that_read() {
            Err(CompactError::InvalidTimestamp)
        } else {
            Ok(Self::from(interners, source))
        }
    }
}

} // verus!} // verus!} // verus!
