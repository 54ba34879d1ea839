//! What a record says, whatever its form and whatever the order of its
//! lists: a compact record is equal to a record that was read exactly when
//! both say the same, and a record that was compacted says what its source
//! says, as far as its dates are written the way they were read.
use crate::intern::{names, EqWith, Interned};
use crate::matching::{
    lemma_map_keeps_multiset, lemma_set_eq_by_keys, lemma_set_eq_same_relation, same_key,
};
use crate::schema::compaction::{
    disruption_named, impacted_object_named, line_named, one_each, period_named, set_compacts,
    text_named, uuid_named,
};
use crate::schema::equivalence::{
    disruption_equal, impacted_object_equal, line_equal, period_equal, text_equal, uuid_equal,
};
use crate::schema::optimized::{
    ApplicationPeriod, Data, DataError, DataSuccess, Disruption, ImpactedObject, Interners, Line,
    LineHeader, Object,
};
use crate::schema::source;
use crate::schema::source::{local_instant, LOCAL_FORMAT};
use crate::schema::Uuid;
use crate::set::{ids_of, set_eq_spec};
use crate::time::{chars_of, paris_text, rfc3339_millis, rfc3339_text};
use vstd::multiset::Multiset;
use vstd::prelude::*;

verus! {

/// What the values that the handles name say, each as often as it is named.
pub open spec fn meant<K>(ids: Seq<u32>, at: spec_fn(u32) -> K) -> Multiset<K> {
    ids.map_values(at).to_multiset()
}

/// What the items of a list say, each as often as it is said.
pub open spec fn said<S, K>(items: Seq<S>, of: spec_fn(S) -> K) -> Multiset<K> {
    items.map_values(of).to_multiset()
}

/// A set of handles is equal to a list exactly when the handles name what
/// the items say, each as often: where the relation between a handle and an
/// item is that they say the same.
pub proof fn lemma_set_eq_means<T, S, K>(
    handles: Seq<Interned<T>>,
    items: Seq<S>,
    related: spec_fn(Interned<T>, S) -> bool,
    at: spec_fn(u32) -> K,
    of: spec_fn(S) -> K,
)
    requires
        forall|i: int, j: int|
            0 <= i < handles.len() && 0 <= j < items.len() ==> related(
                #[trigger] handles[i],
                #[trigger] items[j],
            ) == (at(handles[i]@) == of(items[j])),
    ensures
        set_eq_spec(handles, items, related) == (meant(ids_of(handles), at) == said(items, of)),
{
    let left = |handle: Interned<T>| at(handle@);
    lemma_set_eq_same_relation(handles, items, related, same_key(left, of));
    lemma_set_eq_by_keys(handles, items, left, of);
    assert(handles.map_values(left) =~= ids_of(handles).map_values(at));
}

/// Handles that stand one for each item name what the items say, each as
/// often: where a handle that stands for an item says what the item says.
pub proof fn lemma_set_compacts_means<S, K>(
    ids: Seq<u32>,
    items: Seq<S>,
    stands_for: spec_fn(u32, S) -> bool,
    at: spec_fn(u32) -> K,
    of: spec_fn(S) -> K,
)
    requires
        set_compacts(ids, items, stands_for),
        forall|id: u32, k: int|
            0 <= k < items.len() && #[trigger] stands_for(id, items[k]) ==> at(id) == of(items[k]),
    ensures
        meant(ids, at) == said(items, of),
{
    let handles = choose|handles: Seq<u32>| #[trigger]
        one_each(handles, items, stands_for) && handles.to_multiset() == ids.to_multiset();
    assert forall|k: int| 0 <= k < items.len() implies handles.map_values(at)[k] == items.map_values(
        of,
    )[k] by {
        assert(stands_for(handles[k], items[k]));
    }
    assert(handles.map_values(at) =~= items.map_values(of));
    lemma_map_keeps_multiset(handles, ids, at);
}

/// The text that a handle names.
pub open spec fn text_at(interners: &Interners) -> spec_fn(u32) -> Seq<char> {
    |id: u32| interners.string@[id as int]@
}

/// The text itself.
pub open spec fn text_said() -> spec_fn(String) -> Seq<char> {
    |text: String| text@
}

/// The identifier that a handle names.
pub open spec fn uuid_at(interners: &Interners) -> spec_fn(u32) -> u128 {
    |id: u32| interners.uuid@[id as int]@
}

/// The identifier itself.
pub open spec fn uuid_said() -> spec_fn(Uuid) -> u128 {
    |uuid: Uuid| uuid@
}

/// A local time is written the way it was read.
pub open spec fn local_time_writes_back(text: Seq<char>) -> bool {
    local_instant(text) matches Some(instant) ==> paris_text(instant, LOCAL_FORMAT@) == Some(text)
}

impl source::ApplicationPeriod {
    /// What the span of time says: its two local times.
    pub open spec fn said(&self) -> (Option<Seq<char>>, Option<Seq<char>>) {
        (Some(self.begin@), Some(self.end@))
    }

    /// Both local times are written the way they were read.
    pub open spec fn writes_back(&self) -> bool {
        local_time_writes_back(self.begin@) && local_time_writes_back(self.end@)
    }
}

impl ApplicationPeriod {
    /// What the span of time says: its two instants as local times, as far
    /// as they can be written.
    pub open spec fn says(&self) -> (Option<Seq<char>>, Option<Seq<char>>) {
        (paris_text(self.begin@, LOCAL_FORMAT@), paris_text(self.end@, LOCAL_FORMAT@))
    }

    /// A compact span of time is equal to one that was read exactly when both
    /// say the same.
    pub proof fn lemma_equal_means_same(
        &self,
        other: &source::ApplicationPeriod,
        interners: &Interners,
    )
        ensures
            self.eq_with_spec(other, interners) == (self.says() == other.said()),
    {
    }

    /// A span of time that was compacted is equal to its source, where the
    /// local times are written the way they were read.
    pub proof fn lemma_compact_is_equal(
        &self,
        source: &source::ApplicationPeriod,
        interners: &Interners,
    )
        requires
            self.compacts(source),
            source.writes_back(),
        ensures
            self.eq_with_spec(source, interners),
    {
        self.lemma_compact_says_same(source);
        self.lemma_equal_means_same(source, interners);
    }

    /// A span of time that was compacted says what its source says, where
    /// the local times are written the way they were read.
    pub proof fn lemma_compact_says_same(&self, source: &source::ApplicationPeriod)
        requires
            self.compacts(source),
            source.writes_back(),
        ensures
            self.says() == source.said(),
    {
    }
}

/// What an object says: its kind, its identifier and its name.
pub struct ObjectMeaning {
    pub typ: Seq<char>,
    pub id: Seq<char>,
    pub name: Seq<char>,
}

/// What an impacted object says: the object, and its disruptions without
/// order.
pub struct ImpactedObjectMeaning {
    pub object: ObjectMeaning,
    pub disruption_ids: Multiset<u128>,
}

impl source::ImpactedObject {
    /// What the object says, without its disruptions.
    pub open spec fn object_said(&self) -> ObjectMeaning {
        ObjectMeaning { typ: self.typ@, id: self.id@, name: self.name@ }
    }

    /// What the impacted object says.
    pub open spec fn said(&self) -> ImpactedObjectMeaning {
        ImpactedObjectMeaning {
            object: self.object_said(),
            disruption_ids: said(self.disruption_ids@, uuid_said()),
        }
    }
}

impl Object {
    /// What the object says: the texts that its handles name.
    pub open spec fn says(&self, interners: &Interners) -> ObjectMeaning {
        ObjectMeaning {
            typ: text_at(interners)(self.typ@),
            id: text_at(interners)(self.id@),
            name: text_at(interners)(self.name@),
        }
    }

    /// A compact object is equal to one that was read exactly when both say
    /// the same.
    pub proof fn lemma_equal_means_same(&self, other: &source::ImpactedObject, interners: &Interners)
        ensures
            self.eq_with_spec(other, interners) == (self.says(interners) == other.object_said()),
    {
    }
}

impl ImpactedObject {
    /// What the impacted object says: what the object that its handle names
    /// says, and the identifiers that the handles of its set name.
    pub open spec fn says(&self, interners: &Interners) -> ImpactedObjectMeaning {
        ImpactedObjectMeaning {
            object: interners.object@[self.object@ as int].says(interners),
            disruption_ids: meant(
                interners.uuid_set@[self.disruption_ids@ as int]@,
                uuid_at(interners),
            ),
        }
    }

    /// A compact impacted object is equal to one that was read exactly when
    /// both say the same.
    pub proof fn lemma_equal_means_same(&self, other: &source::ImpactedObject, interners: &Interners)
        ensures
            self.eq_with_spec(other, interners) == (self.says(interners) == other.said()),
    {
        let set = interners.uuid_set@[self.disruption_ids@ as int];
        set.lemma_handles();
        interners.object@[self.object@ as int].lemma_equal_means_same(other, interners);
        lemma_set_eq_means(
            set.handles(),
            other.disruption_ids@,
            uuid_equal(interners),
            uuid_at(interners),
            uuid_said(),
        );
    }

    /// An impacted object that was compacted is equal to its source.
    pub proof fn lemma_compact_is_equal(&self, source: &source::ImpactedObject, interners: &Interners)
        requires
            self.compacts(source, interners),
        ensures
            self.eq_with_spec(source, interners),
    {
        self.lemma_compact_says_same(source, interners);
        self.lemma_equal_means_same(source, interners);
    }

    /// An impacted object that was compacted says what its source says.
    pub proof fn lemma_compact_says_same(&self, source: &source::ImpactedObject, interners: &Interners)
        requires
            self.compacts(source, interners),
        ensures
            self.says(interners) == source.said(),
    {
        lemma_set_compacts_means(
            interners.uuid_set@[self.disruption_ids@ as int]@,
            source.disruption_ids@,
            uuid_named(interners),
            uuid_at(interners),
            uuid_said(),
        );
    }
}

/// What names a line: five texts.
pub struct LineHeaderMeaning {
    pub id: Seq<char>,
    pub name: Seq<char>,
    pub short_name: Seq<char>,
    pub mode: Seq<char>,
    pub network_id: Seq<char>,
}

/// What a line says: what names it, and its impacted objects without order.
pub struct LineMeaning {
    pub header: LineHeaderMeaning,
    pub impacted_objects: Multiset<ImpactedObjectMeaning>,
}

/// What the impacted object that a handle names says.
pub open spec fn impacted_object_at(interners: &Interners) -> spec_fn(u32) -> ImpactedObjectMeaning {
    |id: u32| interners.impacted_object@[id as int].says(interners)
}

/// What an impacted object that was read says.
pub open spec fn impacted_object_said() -> spec_fn(source::ImpactedObject) -> ImpactedObjectMeaning {
    |object: source::ImpactedObject| object.said()
}

impl source::Line {
    /// What names the line.
    pub open spec fn header_said(&self) -> LineHeaderMeaning {
        LineHeaderMeaning {
            id: self.id@,
            name: self.name@,
            short_name: self.short_name@,
            mode: self.mode@,
            network_id: self.network_id@,
        }
    }

    /// What the line says.
    pub open spec fn said(&self) -> LineMeaning {
        LineMeaning {
            header: self.header_said(),
            impacted_objects: said(self.impacted_objects@, impacted_object_said()),
        }
    }
}

impl LineHeader {
    /// What the header says: the texts that its handles name.
    pub open spec fn says(&self, interners: &Interners) -> LineHeaderMeaning {
        LineHeaderMeaning {
            id: text_at(interners)(self.id@),
            name: text_at(interners)(self.name@),
            short_name: text_at(interners)(self.short_name@),
            mode: text_at(interners)(self.mode@),
            network_id: text_at(interners)(self.network_id@),
        }
    }

    /// A compact header is equal to the header of a line that was read
    /// exactly when both say the same.
    pub proof fn lemma_equal_means_same(&self, other: &source::Line, interners: &Interners)
        ensures
            self.eq_with_spec(other, interners) == (self.says(interners) == other.header_said()),
    {
    }
}

impl Line {
    /// What the line says: what the header that its handle names says, and
    /// what the impacted objects that its handles name say.
    pub open spec fn says(&self, interners: &Interners) -> LineMeaning {
        LineMeaning {
            header: interners.line_header@[self.header@ as int].says(interners),
            impacted_objects: meant(self.impacted_objects@, impacted_object_at(interners)),
        }
    }

    /// A compact line is equal to one that was read exactly when both say the
    /// same.
    pub proof fn lemma_equal_means_same(&self, other: &source::Line, interners: &Interners)
        ensures
            self.eq_with_spec(other, interners) == (self.says(interners) == other.said()),
    {
        let handles = self.impacted_objects.handles();
        self.impacted_objects.lemma_handles();
        interners.line_header@[self.header@ as int].lemma_equal_means_same(other, interners);
        assert forall|i: int, j: int|
            0 <= i < handles.len() && 0 <= j < other.impacted_objects@.len() implies impacted_object_equal(
            interners,
        )(#[trigger] handles[i], #[trigger] other.impacted_objects@[j]) == (impacted_object_at(
            interners,
        )(handles[i]@) == impacted_object_said()(other.impacted_objects@[j])) by {
            interners.impacted_object@[handles[i]@ as int].lemma_equal_means_same(
                &other.impacted_objects@[j],
                interners,
            );
        }
        lemma_set_eq_means(
            handles,
            other.impacted_objects@,
            impacted_object_equal(interners),
            impacted_object_at(interners),
            impacted_object_said(),
        );
    }

    /// A line that was compacted is equal to its source.
    pub proof fn lemma_compact_is_equal(&self, source: &source::Line, interners: &Interners)
        requires
            self.compacts(source, interners),
        ensures
            self.eq_with_spec(source, interners),
    {
        self.lemma_compact_says_same(source, interners);
        self.lemma_equal_means_same(source, interners);
    }

    /// A line that was compacted says what its source says.
    pub proof fn lemma_compact_says_same(&self, source: &source::Line, interners: &Interners)
        requires
            self.compacts(source, interners),
        ensures
            self.says(interners) == source.said(),
    {
        assert forall|id: u32, k: int|
            0 <= k < source.impacted_objects@.len() && #[trigger] impacted_object_named(interners)(
                id,
                source.impacted_objects@[k],
            ) implies impacted_object_at(interners)(id) == impacted_object_said()(
            source.impacted_objects@[k],
        ) by {
            interners.impacted_object@[id as int].lemma_compact_says_same(
                &source.impacted_objects@[k],
                interners,
            );
        }
        lemma_set_compacts_means(
            self.impacted_objects@,
            source.impacted_objects@,
            impacted_object_named(interners),
            impacted_object_at(interners),
            impacted_object_said(),
        );
    }
}

/// What a disruption says: its identifiers, its texts, its spans of time and
/// its tags without order, and the date of its last update.
pub struct DisruptionMeaning {
    pub id: u128,
    pub application_periods: Multiset<(Option<Seq<char>>, Option<Seq<char>>)>,
    pub last_update: Option<Seq<char>>,
    pub cause: Seq<char>,
    pub severity: Seq<char>,
    pub tags: Option<Multiset<Seq<char>>>,
    pub title: Seq<char>,
    pub message: Seq<char>,
    pub disruption_id: Option<u128>,
}

/// What the span of time that a handle names says.
pub open spec fn period_at(interners: &Interners) -> spec_fn(u32) -> (
    Option<Seq<char>>,
    Option<Seq<char>>,
) {
    |id: u32| interners.application_period@[id as int].says()
}

/// What a span of time that was read says.
pub open spec fn period_said() -> spec_fn(source::ApplicationPeriod) -> (
    Option<Seq<char>>,
    Option<Seq<char>>,
) {
    |period: source::ApplicationPeriod| period.said()
}

/// Each of the spans is written the way it was read.
pub open spec fn periods_write_back(periods: Seq<source::ApplicationPeriod>) -> bool {
    forall|k: int| 0 <= k < periods.len() ==> (#[trigger] periods[k]).writes_back()
}

impl source::Disruption {
    /// What the disruption says.
    pub open spec fn said(&self) -> DisruptionMeaning {
        DisruptionMeaning {
            id: self.id@,
            application_periods: said(self.application_periods@, period_said()),
            last_update: Some(self.last_update@),
            cause: self.cause@,
            severity: self.severity@,
            tags: match self.tags {
                Some(tags) => Some(said(tags@, text_said())),
                None => None,
            },
            title: self.title@,
            message: self.message@,
            disruption_id: match self.disruption_id {
                Some(id) => Some(id@),
                None => None,
            },
        }
    }

    /// Every local time of the disruption is written the way it was read.
    pub open spec fn writes_back(&self) -> bool {
        periods_write_back(self.application_periods@) && local_time_writes_back(self.last_update@)
    }
}

impl Disruption {
    /// What the disruption says: what its handles name, and its instant as
    /// local time.
    pub open spec fn says(&self, interners: &Interners) -> DisruptionMeaning {
        DisruptionMeaning {
            id: uuid_at(interners)(self.id@),
            application_periods: meant(self.application_periods@, period_at(interners)),
            last_update: paris_text(self.last_update@, LOCAL_FORMAT@),
            cause: text_at(interners)(self.cause@),
            severity: text_at(interners)(self.severity@),
            tags: match self.tags {
                Some(tags) => Some(meant(tags@, text_at(interners))),
                None => None,
            },
            title: text_at(interners)(self.title@),
            message: text_at(interners)(self.message@),
            disruption_id: match self.disruption_id {
                Some(id) => Some(uuid_at(interners)(id@)),
                None => None,
            },
        }
    }

    /// A compact disruption is equal to one that was read exactly when both
    /// say the same.
    pub proof fn lemma_equal_means_same(&self, other: &source::Disruption, interners: &Interners)
        ensures
            self.eq_with_spec(other, interners) == (self.says(interners) == other.said()),
    {
        let handles = self.application_periods.handles();
        self.application_periods.lemma_handles();
        assert forall|i: int, j: int|
            0 <= i < handles.len() && 0 <= j < other.application_periods@.len() implies period_equal(
            interners,
        )(#[trigger] handles[i], #[trigger] other.application_periods@[j]) == (period_at(interners)(
            handles[i]@,
        ) == period_said()(other.application_periods@[j])) by {
            interners.application_period@[handles[i]@ as int].lemma_equal_means_same(
                &other.application_periods@[j],
                interners,
            );
        }
        lemma_set_eq_means(
            handles,
            other.application_periods@,
            period_equal(interners),
            period_at(interners),
            period_said(),
        );
        if let (Some(tags), Some(texts)) = (self.tags, other.tags) {
            tags.lemma_handles();
            lemma_set_eq_means(
                tags.handles(),
                texts@,
                text_equal(interners),
                text_at(interners),
                text_said(),
            );
        }
    }

    /// A disruption that was compacted is equal to its source, where the
    /// local times are written the way they were read.
    pub proof fn lemma_compact_is_equal(&self, source: &source::Disruption, interners: &Interners)
        requires
            self.compacts(source, interners),
            source.writes_back(),
        ensures
            self.eq_with_spec(source, interners),
    {
        self.lemma_compact_says_same(source, interners);
        self.lemma_equal_means_same(source, interners);
    }

    /// A disruption that was compacted says what its source says, where the
    /// local times are written the way they were read.
    pub proof fn lemma_compact_says_same(&self, source: &source::Disruption, interners: &Interners)
        requires
            self.compacts(source, interners),
            source.writes_back(),
        ensures
            self.says(interners) == source.said(),
    {
        assert forall|id: u32, k: int|
            0 <= k < source.application_periods@.len() && #[trigger] period_named(interners)(
                id,
                source.application_periods@[k],
            ) implies period_at(interners)(id) == period_said()(source.application_periods@[k]) by {
            interners.application_period@[id as int].lemma_compact_says_same(
                &source.application_periods@[k],
            );
        }
        lemma_set_compacts_means(
            self.application_periods@,
            source.application_periods@,
            period_named(interners),
            period_at(interners),
            period_said(),
        );
        if let (Some(tags), Some(texts)) = (self.tags, source.tags) {
            lemma_set_compacts_means(
                tags@,
                texts@,
                text_named(interners),
                text_at(interners),
                text_said(),
            );
        }
    }
}

/// What a feed says: its disruptions and its lines without order and its
/// date, or its status code, its error and its message; each as far as it is
/// there.
pub struct DataMeaning {
    pub disruptions: Option<Multiset<DisruptionMeaning>>,
    pub lines: Option<Multiset<LineMeaning>>,
    pub last_updated_date: Option<Option<Seq<char>>>,
    pub status_code: Option<i32>,
    pub error: Option<Seq<char>>,
    pub message: Option<Seq<char>>,
}

/// What the disruption that a handle names says.
pub open spec fn disruption_at(interners: &Interners) -> spec_fn(u32) -> DisruptionMeaning {
    |id: u32| interners.disruption@[id as int].says(interners)
}

/// What a disruption that was read says.
pub open spec fn disruption_said() -> spec_fn(source::Disruption) -> DisruptionMeaning {
    |disruption: source::Disruption| disruption.said()
}

/// What the line that a handle names says.
pub open spec fn line_at(interners: &Interners) -> spec_fn(u32) -> LineMeaning {
    |id: u32| interners.line@[id as int].says(interners)
}

/// What a line that was read says.
pub open spec fn line_said() -> spec_fn(source::Line) -> LineMeaning {
    |line: source::Line| line.said()
}

/// Each of the disruptions is written the way it was read.
pub open spec fn disruptions_write_back(disruptions: Seq<source::Disruption>) -> bool {
    forall|k: int| 0 <= k < disruptions.len() ==> (#[trigger] disruptions[k]).writes_back()
}

impl source::Data {
    /// What the feed says.
    pub open spec fn said(&self) -> DataMeaning {
        DataMeaning {
            disruptions: match self.disruptions {
                Some(disruptions) => Some(said(disruptions@, disruption_said())),
                None => None,
            },
            lines: match self.lines {
                Some(lines) => Some(said(lines@, line_said())),
                None => None,
            },
            last_updated_date: match self.last_updated_date {
                Some(date) => Some(Some(date@)),
                None => None,
            },
            status_code: self.status_code,
            error: chars_of(self.error),
            message: chars_of(self.message),
        }
    }

    /// Every date and time of the feed is written the way it was read.
    pub open spec fn writes_back(&self) -> bool {
        self.is_success() ==> {
            &&& disruptions_write_back(self.disruptions->0@)
            &&& rfc3339_millis(self.last_updated_date->0@) matches Some(instant) ==> rfc3339_text(
                instant,
                true,
            ) == Some(self.last_updated_date->0@)
        }
    }
}

impl DataSuccess {
    /// What the feed says: what its handles name, and its instant as a date.
    pub open spec fn says(&self, interners: &Interners) -> DataMeaning {
        DataMeaning {
            disruptions: Some(
                meant(
                    interners.disruption_set@[self.disruptions@ as int]@,
                    disruption_at(interners),
                ),
            ),
            lines: Some(meant(interners.line_set@[self.lines@ as int]@, line_at(interners))),
            last_updated_date: Some(rfc3339_text(self.last_updated_date@, true)),
            status_code: None,
            error: None,
            message: None,
        }
    }

    /// A compact feed is equal to one that was read exactly when both say the
    /// same.
    pub proof fn lemma_equal_means_same(&self, other: &source::Data, interners: &Interners)
        ensures
            self.eq_with_spec(other, interners) == (self.says(interners) == other.said()),
    {
        if let Some(disruptions) = other.disruptions {
            let set = interners.disruption_set@[self.disruptions@ as int];
            let handles = set.handles();
            set.lemma_handles();
            assert forall|i: int, j: int|
                0 <= i < handles.len() && 0 <= j < disruptions@.len() implies disruption_equal(
                interners,
            )(#[trigger] handles[i], #[trigger] disruptions@[j]) == (disruption_at(interners)(
                handles[i]@,
            ) == disruption_said()(disruptions@[j])) by {
                interners.disruption@[handles[i]@ as int].lemma_equal_means_same(
                    &disruptions@[j],
                    interners,
                );
            }
            lemma_set_eq_means(
                handles,
                disruptions@,
                disruption_equal(interners),
                disruption_at(interners),
                disruption_said(),
            );
        }
        if let Some(lines) = other.lines {
            let set = interners.line_set@[self.lines@ as int];
            let handles = set.handles();
            set.lemma_handles();
            assert forall|i: int, j: int|
                0 <= i < handles.len() && 0 <= j < lines@.len() implies line_equal(interners)(
                #[trigger] handles[i],
                #[trigger] lines@[j],
            ) == (line_at(interners)(handles[i]@) == line_said()(lines@[j])) by {
                interners.line@[handles[i]@ as int].lemma_equal_means_same(&lines@[j], interners);
            }
            lemma_set_eq_means(
                handles,
                lines@,
                line_equal(interners),
                line_at(interners),
                line_said(),
            );
        }
    }

    /// A feed that was compacted says what its source says, where the dates
    /// are written the way they were read.
    pub proof fn lemma_compact_says_same(&self, source: &source::Data, interners: &Interners)
        requires
            self.compacts(source, interners),
            source.writes_back(),
        ensures
            self.says(interners) == source.said(),
    {
        let disruptions = source.disruptions->0@;
        let lines = source.lines->0@;
        assert forall|id: u32, k: int|
            0 <= k < disruptions.len() && #[trigger] disruption_named(interners)(
                id,
                disruptions[k],
            ) implies disruption_at(interners)(id) == disruption_said()(disruptions[k]) by {
            interners.disruption@[id as int].lemma_compact_says_same(&disruptions[k], interners);
        }
        lemma_set_compacts_means(
            interners.disruption_set@[self.disruptions@ as int]@,
            disruptions,
            disruption_named(interners),
            disruption_at(interners),
            disruption_said(),
        );
        assert forall|id: u32, k: int|
            0 <= k < lines.len() && #[trigger] line_named(interners)(id, lines[k]) implies line_at(
            interners,
        )(id) == line_said()(lines[k]) by {
            interners.line@[id as int].lemma_compact_says_same(&lines[k], interners);
        }
        lemma_set_compacts_means(
            interners.line_set@[self.lines@ as int]@,
            lines,
            line_named(interners),
            line_at(interners),
            line_said(),
        );
    }
}

impl DataError {
    /// What the feed says: its status code, and the texts that its handles
    /// name.
    pub open spec fn says(&self, interners: &Interners) -> DataMeaning {
        DataMeaning {
            disruptions: None,
            lines: None,
            last_updated_date: None,
            status_code: Some(self.status_code),
            error: Some(text_at(interners)(self.error@)),
            message: Some(text_at(interners)(self.message@)),
        }
    }

    /// A compact feed is equal to one that was read exactly when both say the
    /// same.
    pub proof fn lemma_equal_means_same(&self, other: &source::Data, interners: &Interners)
        ensures
            self.eq_with_spec(other, interners) == (self.says(interners) == other.said()),
    {
    }

    /// A feed that was compacted says what its source says.
    pub proof fn lemma_compact_says_same(&self, source: &source::Data, interners: &Interners)
        requires
            self.compacts(source, interners),
        ensures
            self.says(interners) == source.said(),
    {
    }
}

impl Data {
    /// What the feed says.
    pub open spec fn says(&self, interners: &Interners) -> DataMeaning {
        match self {
            Data::Success(data) => data.says(interners),
            Data::Error(data) => data.says(interners),
        }
    }

    /// A compact feed is equal to one that was read exactly when both say the
    /// same: whatever the order of the lists on either side.
    pub proof fn lemma_equal_means_same(&self, other: &source::Data, interners: &Interners)
        ensures
            self.eq_with_spec(other, interners) == (self.says(interners) == other.said()),
    {
        match self {
            Data::Success(data) => data.lemma_equal_means_same(other, interners),
            Data::Error(data) => data.lemma_equal_means_same(other, interners),
        }
    }

    /// A feed that was compacted says what its source says, where the dates
    /// of the source are written the way they were read.
    pub proof fn lemma_compact_says_same(&self, source: &source::Data, interners: &Interners)
        requires
            self.compacts(source, interners),
            source.writes_back(),
        ensures
            self.says(interners) == source.said(),
    {
        match self {
            Data::Success(data) => data.lemma_compact_says_same(source, interners),
            Data::Error(data) => data.lemma_compact_says_same(source, interners),
        }
    }

    /// A feed that was compacted is equal to its source, where the dates of
    /// the source are written the way they were read.
    pub proof fn lemma_compact_is_equal(&self, source: &source::Data, interners: &Interners)
        requires
            self.compacts(source, interners),
            source.writes_back(),
        ensures
            self.eq_with_spec(source, interners),
    {
        self.lemma_compact_says_same(source, interners);
        self.lemma_equal_means_same(source, interners);
    }

    /// A compact feed that is equal to one record is equal to every record
    /// that says the same, and to no other.
    pub proof fn lemma_equal_to_the_same(
        &self,
        one: &source::Data,
        other: &source::Data,
        interners: &Interners,
    )
        requires
            self.eq_with_spec(one, interners),
        ensures
            self.eq_with_spec(other, interners) == (one.said() == other.said()),
    {
        self.lemma_equal_means_same(one, interners);
        self.lemma_equal_means_same(other, interners);
    }
}

} // verus!
