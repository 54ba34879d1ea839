//! The records as they are kept: handles in place of texts and of repeated
//! parts, and the stores that the handles point into.
use crate::content::{mix, mix_ids, mix_word, Content, HASH_SEED};
use crate::intern::{
    after_intern, contents_of, extends, lemma_after_intern, lemma_put, lemma_same_contents,
    place_of, Interned, Interner,
};
use crate::schema::model::Contents;
use crate::schema::requests::Requests;
use crate::schema::source;
use crate::schema::Uuid;
use crate::set::{below, InternedSet};
use crate::time::{TimestampMillis, TimestampSecondsParis};
use vstd::prelude::*;
use vstd::std_specs::cmp::PartialEqSpecImpl;

verus! {

/// A handle of a text.
pub type IString = Interned<String>;

/// The store of texts.
pub type StringInterner = Interner<String>;

/// The hash continued with a set that may be absent: a mark for absent or
/// present, then the numbers of the set.
pub open spec fn mix_optional_ids(hash: u64, ids: Option<Seq<u32>>) -> u64 {
    match ids {
        Some(ids) => mix_ids(mix(hash, 1), ids),
        None => mix(hash, 0),
    }
}

/// The hash continued with a handle that may be absent: a mark for absent or
/// present, then the number of the handle.
pub open spec fn mix_optional_id(hash: u64, id: Option<u32>) -> u64 {
    match id {
        Some(id) => mix(mix(hash, 1), id as u64),
        None => mix(hash, 0),
    }
}

/// An object that disruptions touch: its kind, its identifier and its name.
#[derive(Debug, Hash)]
pub struct Object {
    pub typ: IString,
    pub id: IString,
    pub name: IString,
}

impl View for Object {
    type V = (u32, u32, u32);

    open spec fn view(&self) -> (u32, u32, u32) {
        (self.typ@, self.id@, self.name@)
    }
}

impl Content for Object {
    open spec fn hash_of(content: (u32, u32, u32)) -> u64 {
        mix(mix(mix(HASH_SEED, content.0 as u64), content.1 as u64), content.2 as u64)
    }

    fn content_hash(&self) -> (hash: u64) {
        let hash: u64 = mix_word(HASH_SEED, self.typ.id() as u64);
        let hash: u64 = mix_word(hash, self.id.id() as u64);
        mix_word(hash, self.name.id() as u64)
    }

    fn content_eq(&self, other: &Self) -> (same: bool) {
        self.typ.id() == other.typ.id() && self.id.id() == other.id.id()
            && self.name.id() == other.name.id()
    }
}

impl PartialEq for Object {
    fn eq(&self, other: &Self) -> (same: bool) {
        self.content_eq(other)
    }
}

impl PartialEqSpecImpl for Object {
    open spec fn obeys_eq_spec() -> bool {
        true
    }

    open spec fn eq_spec(&self, other: &Self) -> bool {
        self@ == other@
    }
}

impl Eq for Object {

}

/// An object together with the set of the disruptions that touch it.
#[derive(Debug, Hash)]
pub struct ImpactedObject {
    pub object: Interned<Object>,
    pub disruption_ids: Interned<InternedSet<Uuid>>,
}

impl View for ImpactedObject {
    type V = (u32, u32);

    open spec fn view(&self) -> (u32, u32) {
        (self.object@, self.disruption_ids@)
    }
}

impl Content for ImpactedObject {
    open spec fn hash_of(content: (u32, u32)) -> u64 {
        mix(mix(HASH_SEED, content.0 as u64), content.1 as u64)
    }

    fn content_hash(&self) -> (hash: u64) {
        let hash: u64 = mix_word(HASH_SEED, self.object.id() as u64);
        mix_word(hash, self.disruption_ids.id() as u64)
    }

    fn content_eq(&self, other: &Self) -> (same: bool) {
        self.object.id() == other.object.id()
            && self.disruption_ids.id() == other.disruption_ids.id()
    }
}

impl PartialEq for ImpactedObject {
    fn eq(&self, other: &Self) -> (same: bool) {
        self.content_eq(other)
    }
}

impl PartialEqSpecImpl for ImpactedObject {
    open spec fn obeys_eq_spec() -> bool {
        true
    }

    open spec fn eq_spec(&self, other: &Self) -> bool {
        self@ == other@
    }
}

impl Eq for ImpactedObject {

}

/// What names a line: identifier, name, short name, mode and network.
#[derive(Debug, Hash)]
pub struct LineHeader {
    pub id: IString,
    pub name: IString,
    pub short_name: IString,
    pub mode: IString,
    pub network_id: IString,
}

impl View for LineHeader {
    type V = (u32, u32, u32, u32, u32);

    open spec fn view(&self) -> (u32, u32, u32, u32, u32) {
        (self.id@, self.name@, self.short_name@, self.mode@, self.network_id@)
    }
}

impl Content for LineHeader {
    open spec fn hash_of(content: (u32, u32, u32, u32, u32)) -> u64 {
        mix(
            mix(
                mix(mix(mix(HASH_SEED, content.0 as u64), content.1 as u64), content.2 as u64),
                content.3 as u64,
            ),
            content.4 as u64,
        )
    }

    fn content_hash(&self) -> (hash: u64) {
        let hash: u64 = mix_word(HASH_SEED, self.id.id() as u64);
        let hash: u64 = mix_word(hash, self.name.id() as u64);
        let hash: u64 = mix_word(hash, self.short_name.id() as u64);
        let hash: u64 = mix_word(hash, self.mode.id() as u64);
        mix_word(hash, self.network_id.id() as u64)
    }

    fn content_eq(&self, other: &Self) -> (same: bool) {
        self.id.id() == other.id.id() && self.name.id() == other.name.id()
            && self.short_name.id() == other.short_name.id()
            && self.mode.id() == other.mode.id() && self.network_id.id() == other.network_id.id()
    }
}

impl PartialEq for LineHeader {
    fn eq(&self, other: &Self) -> (same: bool) {
        self.content_eq(other)
    }
}

impl PartialEqSpecImpl for LineHeader {
    open spec fn obeys_eq_spec() -> bool {
        true
    }

    open spec fn eq_spec(&self, other: &Self) -> bool {
        self@ == other@
    }
}

impl Eq for LineHeader {

}

/// A line: what names it, and the set of the objects on it that disruptions
/// touch.
#[derive(Debug, Hash)]
pub struct Line {
    pub header: Interned<LineHeader>,
    pub impacted_objects: InternedSet<ImpactedObject>,
}

impl View for Line {
    type V = (u32, Seq<u32>);

    open spec fn view(&self) -> (u32, Seq<u32>) {
        (self.header@, self.impacted_objects@)
    }
}

impl Content for Line {
    open spec fn hash_of(content: (u32, Seq<u32>)) -> u64 {
        mix_ids(mix(HASH_SEED, content.0 as u64), content.1)
    }

    fn content_hash(&self) -> (hash: u64) {
        let hash: u64 = mix_word(HASH_SEED, self.header.id() as u64);
        self.impacted_objects.mix_into(hash)
    }

    fn content_eq(&self, other: &Self) -> (same: bool) {
        self.header.id() == other.header.id()
            && self.impacted_objects.content_eq(&other.impacted_objects)
    }
}

impl PartialEq for Line {
    fn eq(&self, other: &Self) -> (same: bool) {
        self.content_eq(other)
    }
}

impl PartialEqSpecImpl for Line {
    open spec fn obeys_eq_spec() -> bool {
        true
    }

    open spec fn eq_spec(&self, other: &Self) -> bool {
        self@ == other@
    }
}

impl Eq for Line {

}

/// A span of time during which a disruption applies.
#[derive(Debug, Hash)]
pub struct ApplicationPeriod {
    pub begin: TimestampSecondsParis,
    pub end: TimestampSecondsParis,
}

impl View for ApplicationPeriod {
    type V = (i64, i64);

    open spec fn view(&self) -> (i64, i64) {
        (self.begin@, self.end@)
    }
}

impl Content for ApplicationPeriod {
    open spec fn hash_of(content: (i64, i64)) -> u64 {
        mix(mix(HASH_SEED, content.0 as u64), content.1 as u64)
    }

    fn content_hash(&self) -> (hash: u64) {
        let hash: u64 = mix_word(HASH_SEED, #[verifier::truncate] (self.begin.seconds() as u64));
        mix_word(hash, #[verifier::truncate] (self.end.seconds() as u64))
    }

    fn content_eq(&self, other: &Self) -> (same: bool) {
        self.begin.seconds() == other.begin.seconds() && self.end.seconds() == other.end.seconds()
    }
}

impl PartialEq for ApplicationPeriod {
    fn eq(&self, other: &Self) -> (same: bool) {
        self.content_eq(other)
    }
}

impl PartialEqSpecImpl for ApplicationPeriod {
    open spec fn obeys_eq_spec() -> bool {
        true
    }

    open spec fn eq_spec(&self, other: &Self) -> bool {
        self@ == other@
    }
}

impl Eq for ApplicationPeriod {

}

/// A disruption of the service.
#[derive(Debug, Hash)]
pub struct Disruption {
    pub id: Interned<Uuid>,
    pub application_periods: InternedSet<ApplicationPeriod>,
    pub last_update: TimestampSecondsParis,
    pub cause: IString,
    pub severity: IString,
    pub tags: Option<InternedSet<String>>,
    pub title: IString,
    pub message: IString,
    pub disruption_id: Option<Interned<Uuid>>,
}

/// The content of a disruption: the numbers of its handles, and its instant.
pub struct DisruptionContent {
    pub id: u32,
    pub application_periods: Seq<u32>,
    pub last_update: i64,
    pub cause: u32,
    pub severity: u32,
    pub tags: Option<Seq<u32>>,
    pub title: u32,
    pub message: u32,
    pub disruption_id: Option<u32>,
}

impl View for Disruption {
    type V = DisruptionContent;

    open spec fn view(&self) -> DisruptionContent {
        DisruptionContent {
            id: self.id@,
            application_periods: self.application_periods@,
            last_update: self.last_update@,
            cause: self.cause@,
            severity: self.severity@,
            tags: match self.tags {
                Some(tags) => Some(tags@),
                None => None,
            },
            title: self.title@,
            message: self.message@,
            disruption_id: match self.disruption_id {
                Some(id) => Some(id@),
                None => None,
            },
        }
    }
}

impl Content for Disruption {
    open spec fn hash_of(content: DisruptionContent) -> u64 {
        let hash = mix_ids(mix(HASH_SEED, content.id as u64), content.application_periods);
        let hash = mix(
            mix(mix(hash, content.last_update as u64), content.cause as u64),
            content.severity as u64,
        );
        let hash = mix(
            mix(mix_optional_ids(hash, content.tags), content.title as u64),
            content.message as u64,
        );
        mix_optional_id(hash, content.disruption_id)
    }

    fn content_hash(&self) -> (hash: u64) {
        let hash: u64 = mix_word(HASH_SEED, self.id.id() as u64);
        let hash: u64 = self.application_periods.mix_into(hash);
        let hash: u64 = mix_word(hash, #[verifier::truncate] (self.last_update.seconds() as u64));
        let hash: u64 = mix_word(hash, self.cause.id() as u64);
        let hash: u64 = mix_word(hash, self.severity.id() as u64);
        let hash: u64 = match &self.tags {
            Some(tags) => tags.mix_into(mix_word(hash, 1)),
            None => mix_word(hash, 0),
        };
        let hash: u64 = mix_word(hash, self.title.id() as u64);
        let hash: u64 = mix_word(hash, self.message.id() as u64);
        match &self.disruption_id {
            Some(id) => mix_word(mix_word(hash, 1), id.id() as u64),
            None => mix_word(hash, 0),
        }
    }

    fn content_eq(&self, other: &Self) -> (same: bool) {
        let tags: bool = match (&self.tags, &other.tags) {
            (None, None) => true,
            (Some(mine), Some(theirs)) => mine.content_eq(theirs),
            _ => false,
        };
        let disruption_id: bool = match (&self.disruption_id, &other.disruption_id) {
            (None, None) => true,
            (Some(mine), Some(theirs)) => mine.id() == theirs.id(),
            _ => false,
        };
        self.id.id() == other.id.id()
            && self.application_periods.content_eq(&other.application_periods)
            && self.last_update.seconds() == other.last_update.seconds()
                && self.cause.id() == other.cause.id() && self.severity.id() == other.severity.id()
                && tags && self.title.id() == other.title.id()
            && self.message.id() == other.message.id() && disruption_id
    }
}

impl PartialEq for Disruption {
    fn eq(&self, other: &Self) -> (same: bool) {
        self.content_eq(other)
    }
}

impl PartialEqSpecImpl for Disruption {
    open spec fn obeys_eq_spec() -> bool {
        true
    }

    open spec fn eq_spec(&self, other: &Self) -> bool {
        self@ == other@
    }
}

impl Eq for Disruption {

}

/// A feed of disruptions and lines, with the date of its last update.
#[derive(Debug, Hash)]
pub struct DataSuccess {
    pub disruptions: Interned<InternedSet<Disruption>>,
    pub lines: Interned<InternedSet<Line>>,
    pub last_updated_date: TimestampMillis,
}

/// A feed that reports an error.
#[derive(Debug, Hash)]
pub struct DataError {
    pub status_code: i32,
    pub error: IString,
    pub message: IString,
}

/// A feed: disruptions and lines, or an error.
#[derive(Debug, Hash)]
pub enum Data {
    Success(DataSuccess),
    Error(DataError),
}

/// The content of a feed: the numbers of its handles, and its instant or its
/// status code.
pub enum DataContent {
    Success(u32, u32, i64),
    Error(i32, u32, u32),
}

impl View for DataSuccess {
    type V = (u32, u32, i64);

    open spec fn view(&self) -> (u32, u32, i64) {
        (self.disruptions@, self.lines@, self.last_updated_date@)
    }
}

impl View for DataError {
    type V = (i32, u32, u32);

    open spec fn view(&self) -> (i32, u32, u32) {
        (self.status_code, self.error@, self.message@)
    }
}

impl View for Data {
    type V = DataContent;

    open spec fn view(&self) -> DataContent {
        match self {
            Data::Success(data) => DataContent::Success(
                data.disruptions@,
                data.lines@,
                data.last_updated_date@,
            ),
            Data::Error(data) => DataContent::Error(data.status_code, data.error@, data.message@),
        }
    }
}

impl PartialEq for DataSuccess {
    fn eq(&self, other: &Self) -> (same: bool) {
        self.disruptions.id() == other.disruptions.id() && self.lines.id() == other.lines.id()
            && self.last_updated_date.millis() == other.last_updated_date.millis()
    }
}

impl PartialEqSpecImpl for DataSuccess {
    open spec fn obeys_eq_spec() -> bool {
        true
    }

    open spec fn eq_spec(&self, other: &Self) -> bool {
        self@ == other@
    }
}

impl Eq for DataSuccess {

}

impl PartialEq for DataError {
    fn eq(&self, other: &Self) -> (same: bool) {
        self.status_code == other.status_code && self.error.id() == other.error.id()
            && self.message.id() == other.message.id()
    }
}

impl PartialEqSpecImpl for DataError {
    open spec fn obeys_eq_spec() -> bool {
        true
    }

    open spec fn eq_spec(&self, other: &Self) -> bool {
        self@ == other@
    }
}

impl Eq for DataError {

}

impl PartialEq for Data {
    fn eq(&self, other: &Self) -> (same: bool) {
        match (self, other) {
            (Data::Success(mine), Data::Success(theirs)) => mine.eq(theirs),
            (Data::Error(mine), Data::Error(theirs)) => mine.eq(theirs),
            _ => false,
        }
    }
}

impl PartialEqSpecImpl for Data {
    open spec fn obeys_eq_spec() -> bool {
        true
    }

    open spec fn eq_spec(&self, other: &Self) -> bool {
        self@ == other@
    }
}

impl Eq for Data {

}

/// The smaller of two numbers.
pub open spec fn least(a: int, b: int) -> int {
    if a <= b {
        a
    } else {
        b
    }
}

/// The smaller of two numbers.
pub fn smaller(a: usize, b: usize) -> (chosen: usize)
    ensures
        chosen == least(a as int, b as int),
{
    if a <= b {
        a
    } else {
        b
    }
}

/// The stores that the handles of the compact records point into, one for
/// each type of value.
#[derive(Debug)]
pub struct Interners {
    pub string: StringInterner,
    pub uuid: Interner<Uuid>,
    pub disruption_set: Interner<InternedSet<Disruption>>,
    pub disruption: Interner<Disruption>,
    pub application_period: Interner<ApplicationPeriod>,
    pub line_set: Interner<InternedSet<Line>>,
    pub line: Interner<Line>,
    pub line_header: Interner<LineHeader>,
    pub impacted_object: Interner<ImpactedObject>,
    pub object: Interner<Object>,
    pub uuid_set: Interner<InternedSet<Uuid>>,
}

impl Object {
    /// Every handle of the object names a value in `interners`.
    pub open spec fn fits(&self, interners: &Interners) -> bool {
        &&& self.typ@ < interners.string@.len()
        &&& self.id@ < interners.string@.len()
        &&& self.name@ < interners.string@.len()
    }

    /// Decides whether every handle names a value in `interners`.
    pub fn fits_in(&self, interners: &Interners) -> (fits: bool)
        ensures
            fits == self.fits(interners),
    {
        (self.typ.id() as usize) < interners.string.len() && (self.id.id() as usize)
            < interners.string.len() && (self.name.id() as usize) < interners.string.len()
    }
}

impl ImpactedObject {
    /// Every handle of the impacted object names a value in `interners`.
    pub open spec fn fits(&self, interners: &Interners) -> bool {
        &&& self.object@ < interners.object@.len()
        &&& self.disruption_ids@ < interners.uuid_set@.len()
    }

    /// Decides whether every handle names a value in `interners`.
    pub fn fits_in(&self, interners: &Interners) -> (fits: bool)
        ensures
            fits == self.fits(interners),
    {
        (self.object.id() as usize) < interners.object.len() && (self.disruption_ids.id() as usize)
            < interners.uuid_set.len()
    }
}

impl LineHeader {
    /// Every handle of the header names a value in `interners`.
    pub open spec fn fits(&self, interners: &Interners) -> bool {
        &&& self.id@ < interners.string@.len()
        &&& self.name@ < interners.string@.len()
        &&& self.short_name@ < interners.string@.len()
        &&& self.mode@ < interners.string@.len()
        &&& self.network_id@ < interners.string@.len()
    }

    /// Decides whether every handle names a value in `interners`.
    pub fn fits_in(&self, interners: &Interners) -> (fits: bool)
        ensures
            fits == self.fits(interners),
    {
        (self.id.id() as usize) < interners.string.len() && (self.name.id() as usize)
            < interners.string.len() && (self.short_name.id() as usize) < interners.string.len()
                && (
        self.mode.id() as usize) < interners.string.len() && (self.network_id.id() as usize)
            < interners.string.len()
    }
}

impl Line {
    /// Every handle of the line names a value in `interners`.
    pub open spec fn fits(&self, interners: &Interners) -> bool {
        &&& self.header@ < interners.line_header@.len()
        &&& below(self.impacted_objects@, interners.impacted_object@.len())
    }

    /// Decides whether every handle names a value in `interners`.
    pub fn fits_in(&self, interners: &Interners) -> (fits: bool)
        ensures
            fits == self.fits(interners),
    {
        (self.header.id() as usize) < interners.line_header.len()
            && self.impacted_objects.all_below(interners.impacted_object.len())
    }
}

impl Disruption {
    /// Every handle of the disruption names a value in `interners`.
    pub open spec fn fits(&self, interners: &Interners) -> bool {
        &&& self.id@ < interners.uuid@.len()
        &&& below(self.application_periods@, interners.application_period@.len())
        &&& self.cause@ < interners.string@.len()
        &&& self.severity@ < interners.string@.len()
        &&& self.tags matches Some(tags) ==> below(tags@, interners.string@.len())
        &&& self.title@ < interners.string@.len()
        &&& self.message@ < interners.string@.len()
        &&& self.disruption_id matches Some(id) ==> id@ < interners.uuid@.len()
    }

    /// Decides whether every handle names a value in `interners`.
    pub fn fits_in(&self, interners: &Interners) -> (fits: bool)
        ensures
            fits == self.fits(interners),
    {
        let tags: bool = match &self.tags {
            Some(tags) => tags.all_below(interners.string.len()),
            None => true,
        };
        let disruption_id: bool = match &self.disruption_id {
            Some(id) => (id.id() as usize) < interners.uuid.len(),
            None => true,
        };
        (self.id.id() as usize) < interners.uuid.len() && self.application_periods.all_below(
            interners.application_period.len(),
        ) && (self.cause.id() as usize) < interners.string.len() && (self.severity.id() as usize)
            < interners.string.len() && tags && (self.title.id() as usize) < interners.string.len()
            && (self.message.id() as usize) < interners.string.len() && disruption_id
    }
}

impl DataSuccess {
    /// Every handle of the feed names a value in `interners`.
    pub open spec fn fits(&self, interners: &Interners) -> bool {
        &&& self.disruptions@ < interners.disruption_set@.len()
        &&& self.lines@ < interners.line_set@.len()
    }

    /// Decides whether every handle names a value in `interners`.
    pub fn fits_in(&self, interners: &Interners) -> (fits: bool)
        ensures
            fits == self.fits(interners),
    {
        (self.disruptions.id() as usize) < interners.disruption_set.len() && (
        self.lines.id() as usize) < interners.line_set.len()
    }
}

impl DataError {
    /// Every handle of the feed names a value in `interners`.
    pub open spec fn fits(&self, interners: &Interners) -> bool {
        &&& self.error@ < interners.string@.len()
        &&& self.message@ < interners.string@.len()
    }

    /// Decides whether every handle names a value in `interners`.
    pub fn fits_in(&self, interners: &Interners) -> (fits: bool)
        ensures
            fits == self.fits(interners),
    {
        (self.error.id() as usize) < interners.string.len() && (self.message.id() as usize)
            < interners.string.len()
    }
}

impl Data {
    /// Every handle of the feed names a value in `interners`.
    pub open spec fn fits(&self, interners: &Interners) -> bool {
        match self {
            Data::Success(data) => data.fits(interners),
            Data::Error(data) => data.fits(interners),
        }
    }

    /// Decides whether every handle names a value in `interners`.
    pub fn fits_in(&self, interners: &Interners) -> (fits: bool)
        ensures
            fits == self.fits(interners),
    {
        match self {
            Data::Success(data) => data.fits_in(interners),
            Data::Error(data) => data.fits_in(interners),
        }
    }
}

impl Interners {
    /// Each store is well-formed by itself.
    pub open spec fn stores_wf(&self) -> bool {
        &&& self.string.wf()
        &&& self.uuid.wf()
        &&& self.disruption_set.wf()
        &&& self.disruption.wf()
        &&& self.application_period.wf()
        &&& self.line_set.wf()
        &&& self.line.wf()
        &&& self.line_header.wf()
        &&& self.impacted_object.wf()
        &&& self.object.wf()
        &&& self.uuid_set.wf()
    }

    /// Every handle inside a stored value names a value of these stores.
    #[verifier::opaque]
    pub open spec fn closed(&self) -> bool {
        &&& forall|i: int|
            0 <= i < self.uuid_set@.len() ==> below(
                (#[trigger] self.uuid_set@[i])@,
                self.uuid@.len(),
            )
        &&& forall|i: int| 0 <= i < self.object@.len() ==> (#[trigger] self.object@[i]).fits(self)
        &&& forall|i: int|
            0
                <= i < self.impacted_object@.len() ==> (#[trigger] self.impacted_object@[i]).fits(self)
        &&& forall|i: int|
            0 <= i < self.line_header@.len() ==> (#[trigger] self.line_header@[i]).fits(self)
        &&& forall|i: int| 0 <= i < self.line@.len() ==> (#[trigger] self.line@[i]).fits(self)
        &&& forall|i: int|
            0
                <= i < self.line_set@.len() ==> below((#[trigger] self.line_set@[i])@, self.line@.len())
        &&& forall|i: int|
            0 <= i < self.disruption@.len() ==> (#[trigger] self.disruption@[i]).fits(self)
        &&& forall|i: int|
            0 <= i < self.disruption_set@.len() ==> below(
                (#[trigger] self.disruption_set@[i])@,
                self.disruption@.len(),
            )
    }

    /// The invariant of the stores: each is well-formed, and no stored value
    /// holds a handle that leads nowhere.
    pub open spec fn wf(&self) -> bool {
        self.stores_wf() && self.closed()
    }

    /// Each store still holds, at the same places, what it held in `earlier`.
    pub open spec fn extends(&self, earlier: &Interners) -> bool {
        &&& extends(self.string@, earlier.string@)
        &&& extends(self.uuid@, earlier.uuid@)
        &&& extends(self.disruption_set@, earlier.disruption_set@)
        &&& extends(self.disruption@, earlier.disruption@)
        &&& extends(self.application_period@, earlier.application_period@)
        &&& extends(self.line_set@, earlier.line_set@)
        &&& extends(self.line@, earlier.line@)
        &&& extends(self.line_header@, earlier.line_header@)
        &&& extends(self.impacted_object@, earlier.impacted_object@)
        &&& extends(self.object@, earlier.object@)
        &&& extends(self.uuid_set@, earlier.uuid_set@)
    }

    /// Number of further requests that are certain to fit, whichever stores
    /// they go to.
    #[verifier::opaque]
    pub open spec fn spare(&self) -> int {
        least(
            self.string.spare(),
            least(
                self.uuid.spare(),
                least(
                    self.disruption_set.spare(),
                    least(
                        self.disruption.spare(),
                        least(
                            self.application_period.spare(),
                            least(
                                self.line_set.spare(),
                                least(
                                    self.line.spare(),
                                    least(
                                        self.line_header.spare(),
                                        least(
                                            self.impacted_object.spare(),
                                            least(self.object.spare(), self.uuid_set.spare()),
                                        ),
                                    ),
                                ),
                            ),
                        ),
                    ),
                ),
            ),
        )
    }

    /// Number of requests made so far, over all stores.
    #[verifier::opaque]
    pub open spec fn request_count(&self) -> nat {
        self.string.request_count() + self.uuid.request_count()
            + self.disruption_set.request_count() + self.disruption.request_count()
            + self.application_period.request_count() + self.line_set.request_count()
            + self.line.request_count() + self.line_header.request_count()
            + self.impacted_object.request_count() + self.object.request_count()
            + self.uuid_set.request_count()
    }

    /// Number of values held, over all stores.
    #[verifier::opaque]
    pub open spec fn value_count(&self) -> nat {
        self.string@.len() + self.uuid@.len() + self.disruption_set@.len() + self.disruption@.len()
            + self.application_period@.len() + self.line_set@.len() + self.line@.len()
            + self.line_header@.len() + self.impacted_object@.len() + self.object@.len()
            + self.uuid_set@.len()
    }

    /// These stores are what `earlier` became through the requests
    /// `requests`: nothing that was held has moved, each store has counted
    /// the requests that went to it, and each request added at most one
    /// value.
    pub open spec fn follows(&self, earlier: &Interners, requests: Requests) -> bool {
        &&& self.extends(earlier)
        &&& self.counted(earlier, requests)
        &&& self.request_count() == earlier.request_count() + requests.total()
        &&& self.value_count() <= earlier.value_count() + requests.total()
    }

    /// Stores that came from well-formed ones by appending values whose
    /// handles were all in range are well-formed.
    pub proof fn lemma_grown(&self, earlier: &Interners)
        requires
            earlier.wf(),
            self.stores_wf(),
            self.extends(earlier),
            forall|i: int|
                earlier.uuid_set@.len() <= i < self.uuid_set@.len() ==> below(
                    (#[trigger] self.uuid_set@[i])@,
                    earlier.uuid@.len(),
                ),
            forall|i: int|
                earlier.object@.len()
                    <= i < self.object@.len() ==> (#[trigger] self.object@[i]).fits(
                    earlier,
                ),
            forall|i: int|
                earlier.impacted_object@.len() <= i < self.impacted_object@.len() ==> (
                #[trigger] self.impacted_object@[i]).fits(earlier),
            forall|i: int|
                earlier.line_header@.len() <= i < self.line_header@.len() ==> (
                #[trigger] self.line_header@[i]).fits(earlier),
            forall|i: int|
                earlier.line@.len() <= i < self.line@.len() ==> (#[trigger] self.line@[i]).fits(
                    earlier,
                ),
            forall|i: int|
                earlier.line_set@.len() <= i < self.line_set@.len() ==> below(
                    (#[trigger] self.line_set@[i])@,
                    earlier.line@.len(),
                ),
            forall|i: int|
                earlier.disruption@.len() <= i < self.disruption@.len() ==> (
                #[trigger] self.disruption@[i]).fits(earlier),
            forall|i: int|
                earlier.disruption_set@.len() <= i < self.disruption_set@.len() ==> below(
                    (#[trigger] self.disruption_set@[i])@,
                    earlier.disruption@.len(),
                ),
        ensures
            self.wf(),
    {
        reveal(Interners::closed);
        assert forall|i: int| 0 <= i < self.uuid_set@.len() implies below(
            (#[trigger] self.uuid_set@[i])@,
            self.uuid@.len(),
        ) by {
            if i < earlier.uuid_set@.len() {
                assert(self.uuid_set@[i] == earlier.uuid_set@[i]);
            }
        }
        assert forall|i: int| 0 <= i < self.object@.len() implies (#[trigger] self.object@[i]).fits(
            self,
        ) by {
            if i < earlier.object@.len() {
                assert(self.object@[i] == earlier.object@[i]);
            }
            assert(self.object@[i].fits(earlier));
        }
        assert forall|i: int| 0 <= i < self.impacted_object@.len() implies (
        #[trigger] self.impacted_object@[i]).fits(self) by {
            if i < earlier.impacted_object@.len() {
                assert(self.impacted_object@[i] == earlier.impacted_object@[i]);
            }
            assert(self.impacted_object@[i].fits(earlier));
        }
        assert forall|i: int| 0 <= i < self.line_header@.len() implies (
        #[trigger] self.line_header@[i]).fits(self) by {
            if i < earlier.line_header@.len() {
                assert(self.line_header@[i] == earlier.line_header@[i]);
            }
            assert(self.line_header@[i].fits(earlier));
        }
        assert forall|i: int| 0 <= i < self.line@.len() implies (#[trigger] self.line@[i]).fits(
            self,
        ) by {
            if i < earlier.line@.len() {
                assert(self.line@[i] == earlier.line@[i]);
            }
            assert(self.line@[i].fits(earlier));
        }
        assert forall|i: int| 0 <= i < self.line_set@.len() implies below(
            (#[trigger] self.line_set@[i])@,
            self.line@.len(),
        ) by {
            if i < earlier.line_set@.len() {
                assert(self.line_set@[i] == earlier.line_set@[i]);
            }
        }
        assert forall|i: int| 0 <= i < self.disruption@.len() implies (
        #[trigger] self.disruption@[i]).fits(self) by {
            if i < earlier.disruption@.len() {
                assert(self.disruption@[i] == earlier.disruption@[i]);
            }
            assert(self.disruption@[i].fits(earlier));
        }
        assert forall|i: int| 0 <= i < self.disruption_set@.len() implies below(
            (#[trigger] self.disruption_set@[i])@,
            self.disruption@.len(),
        ) by {
            if i < earlier.disruption_set@.len() {
                assert(self.disruption_set@[i] == earlier.disruption_set@[i]);
            }
        }
    }

    /// Each store is certain to take the requests that `requests` has for it.
    pub open spec fn has_room(&self, requests: Requests) -> bool {
        &&& requests.string <= self.string.spare()
        &&& requests.uuid <= self.uuid.spare()
        &&& requests.disruption_set <= self.disruption_set.spare()
        &&& requests.disruption <= self.disruption.spare()
        &&& requests.application_period <= self.application_period.spare()
        &&& requests.line_set <= self.line_set.spare()
        &&& requests.line <= self.line.spare()
        &&& requests.line_header <= self.line_header.spare()
        &&& requests.impacted_object <= self.impacted_object.spare()
        &&& requests.object <= self.object.spare()
        &&& requests.uuid_set <= self.uuid_set.spare()
    }

    /// Stores that are certain to take a number of requests, whichever
    /// stores they go to, are certain to take them store by store.
    pub proof fn lemma_room(&self, requests: Requests)
        requires
            requests.total() <= self.spare(),
        ensures
            self.has_room(requests),
    {
        reveal(Interners::spare);
    }

    /// Stores that had room for all requests have room for the next ones
    /// after they took the first.
    pub proof fn lemma_room_left(
        &self,
        earlier: &Interners,
        all: Requests,
        first: Requests,
        next: Requests,
    )
        requires
            earlier.has_room(all),
            self.counted(earlier, first),
            first.plus(next).le(all),
        ensures
            self.has_room(next),
    {
        reveal(Interners::counted);
    }

    /// Since `earlier`, each store has taken as many requests as `requests`
    /// says, and has that much less room at most.
    #[verifier::opaque]
    pub open spec fn counted(&self, earlier: &Interners, requests: Requests) -> bool {
        &&& self.string.request_count() == earlier.string.request_count() + requests.string
        &&& self.uuid.request_count() == earlier.uuid.request_count() + requests.uuid
        &&& self.disruption_set.request_count() == earlier.disruption_set.request_count()
            + requests.disruption_set
        &&& self.disruption.request_count() == earlier.disruption.request_count()
            + requests.disruption
        &&& self.application_period.request_count() == earlier.application_period.request_count()
            + requests.application_period
        &&& self.line_set.request_count() == earlier.line_set.request_count() + requests.line_set
        &&& self.line.request_count() == earlier.line.request_count() + requests.line
        &&& self.line_header.request_count() == earlier.line_header.request_count()
            + requests.line_header
        &&& self.impacted_object.request_count() == earlier.impacted_object.request_count()
            + requests.impacted_object
        &&& self.object.request_count() == earlier.object.request_count() + requests.object
        &&& self.uuid_set.request_count() == earlier.uuid_set.request_count() + requests.uuid_set
        &&& self.string.spare() + requests.string >= earlier.string.spare()
        &&& self.uuid.spare() + requests.uuid >= earlier.uuid.spare()
        &&& self.disruption_set.spare() + requests.disruption_set >= earlier.disruption_set.spare()
        &&& self.disruption.spare() + requests.disruption >= earlier.disruption.spare()
        &&& self.application_period.spare() + requests.application_period
            >= earlier.application_period.spare()
        &&& self.line_set.spare() + requests.line_set >= earlier.line_set.spare()
        &&& self.line.spare() + requests.line >= earlier.line.spare()
        &&& self.line_header.spare() + requests.line_header >= earlier.line_header.spare()
        &&& self.impacted_object.spare() + requests.impacted_object
            >= earlier.impacted_object.spare()
        &&& self.object.spare() + requests.object >= earlier.object.spare()
        &&& self.uuid_set.spare() + requests.uuid_set >= earlier.uuid_set.spare()
    }

    /// Requests that are counted one after the other are counted together.
    pub proof fn lemma_counted(
        &self,
        between: &Interners,
        earlier: &Interners,
        first: Requests,
        then: Requests,
    )
        requires
            between.counted(earlier, first),
            self.counted(between, then),
        ensures
            self.counted(earlier, first.plus(then)),
    {
        reveal(Interners::counted);
    }

    /// Stores have taken no requests since they were what they are.
    pub proof fn lemma_counted_none(&self)
        ensures
            self.counted(self, Requests::none()),
    {
        reveal(Interners::counted);
    }

    /// Stores that took requests, each store its own and each request adding
    /// at most one value, follow the stores that they were and have counted
    /// the requests.
    pub proof fn lemma_requested(&self, earlier: &Interners, requests: Requests)
        requires
            self.extends(earlier),
            self.string.request_count() == earlier.string.request_count() + requests.string,
            self.string@.len() <= earlier.string@.len() + requests.string,
            self.uuid.request_count() == earlier.uuid.request_count() + requests.uuid,
            self.uuid@.len() <= earlier.uuid@.len() + requests.uuid,
            self.disruption_set.request_count() == earlier.disruption_set.request_count()
                + requests.disruption_set,
            self.disruption_set@.len() <= earlier.disruption_set@.len() + requests.disruption_set,
            self.disruption.request_count() == earlier.disruption.request_count()
                + requests.disruption,
            self.disruption@.len() <= earlier.disruption@.len() + requests.disruption,
            self.application_period.request_count() == earlier.application_period.request_count()
                + requests.application_period,
            self.application_period@.len() <= earlier.application_period@.len()
                + requests.application_period,
            self.line_set.request_count() == earlier.line_set.request_count() + requests.line_set,
            self.line_set@.len() <= earlier.line_set@.len() + requests.line_set,
            self.line.request_count() == earlier.line.request_count() + requests.line,
            self.line@.len() <= earlier.line@.len() + requests.line,
            self.line_header.request_count() == earlier.line_header.request_count()
                + requests.line_header,
            self.line_header@.len() <= earlier.line_header@.len() + requests.line_header,
            self.impacted_object.request_count() == earlier.impacted_object.request_count()
                + requests.impacted_object,
            self.impacted_object@.len() <= earlier.impacted_object@.len()
                + requests.impacted_object,
            self.object.request_count() == earlier.object.request_count() + requests.object,
            self.object@.len() <= earlier.object@.len() + requests.object,
            self.uuid_set.request_count() == earlier.uuid_set.request_count() + requests.uuid_set,
            self.uuid_set@.len() <= earlier.uuid_set@.len() + requests.uuid_set,
        ensures
            self.follows(earlier, requests),
    {
        reveal(Interners::request_count);
        reveal(Interners::value_count);
        reveal(Interners::counted);
    }

    /// What follows what follows `earlier` follows `earlier`.
    pub proof fn lemma_follows(
        &self,
        between: &Interners,
        earlier: &Interners,
        first: Requests,
        then: Requests,
    )
        requires
            between.follows(earlier, first),
            self.follows(between, then),
        ensures
            self.follows(earlier, first.plus(then)),
    {
        self.lemma_counted(between, earlier, first, then);
    }

    /// Stores follow themselves, through no requests.
    pub proof fn lemma_follows_none(&self)
        ensures
            self.follows(self, Requests::none()),
    {
        self.lemma_counted_none();
    }

    /// The handle of a text in its store. Counts one request.
    pub fn intern_string(&mut self, value: String) -> (handle: Interned<String>)
        requires
            old(self).wf(),
            old(self).string.spare() >= 1,
        ensures
            final(self).wf(),
            final(self).follows(old(self), Requests::strings(1)),
            final(self).contents() == old(self).contents().put_string(value@).0,
            handle@ == old(self).contents().put_string(value@).1,
            final(self).string@ == after_intern(old(self).string@, value),
            handle@ == place_of(final(self).string@, value@),
            handle@ < final(self).string@.len(),
            final(self).string@[handle@ as int]@ == value@,
    {
        let ghost before = *self;
        let ghost held = value;
        let handle = Interned::from(&mut self.string, value);
        proof {
            before.string.lemma_wf();
            lemma_after_intern(before.string@, held);
            self.lemma_grown(&before);
            self.lemma_requested(&before, Requests::strings(1));
            assert(self.contents() == before.contents().put_string(held@).0 && handle@
                == before.contents().put_string(held@).1) by {
                reveal(Interners::contents);
                lemma_put(before.string@, held);
            }
        }
        handle
    }

    /// The handle of an identifier in its store. Counts one request.
    pub fn intern_uuid(&mut self, value: Uuid) -> (handle: Interned<Uuid>)
        requires
            old(self).wf(),
            old(self).uuid.spare() >= 1,
        ensures
            final(self).wf(),
            final(self).follows(old(self), Requests::uuids(1)),
            final(self).contents() == old(self).contents().put_uuid(value@).0,
            handle@ == old(self).contents().put_uuid(value@).1,
            final(self).uuid@ == after_intern(old(self).uuid@, value),
            handle@ == place_of(final(self).uuid@, value@),
            handle@ < final(self).uuid@.len(),
            final(self).uuid@[handle@ as int]@ == value@,
    {
        let ghost before = *self;
        let ghost held = value;
        let handle = Interned::from(&mut self.uuid, value);
        proof {
            before.uuid.lemma_wf();
            lemma_after_intern(before.uuid@, held);
            self.lemma_grown(&before);
            self.lemma_requested(&before, Requests::uuids(1));
            assert(self.contents() == before.contents().put_uuid(held@).0 && handle@
                == before.contents().put_uuid(held@).1) by {
                reveal(Interners::contents);
                lemma_put(before.uuid@, held);
            }
        }
        handle
    }

    /// The handle of a span of time in its store. Counts one request.
    pub fn intern_application_period(&mut self, value: ApplicationPeriod) -> (handle: Interned<
        ApplicationPeriod,
    >)
        requires
            old(self).wf(),
            old(self).application_period.spare() >= 1,
        ensures
            final(self).wf(),
            final(self).follows(old(self), Requests::application_periods(1)),
            final(self).contents() == old(self).contents().put_application_period(value@).0,
            handle@ == old(self).contents().put_application_period(value@).1,
            final(self).application_period@ == after_intern(old(self).application_period@, value),
            handle@ == place_of(final(self).application_period@, value@),
            handle@ < final(self).application_period@.len(),
            final(self).application_period@[handle@ as int]@ == value@,
    {
        let ghost before = *self;
        let ghost held = value;
        let handle = Interned::from(&mut self.application_period, value);
        proof {
            before.application_period.lemma_wf();
            lemma_after_intern(before.application_period@, held);
            self.lemma_grown(&before);
            self.lemma_requested(&before, Requests::application_periods(1));
            assert(self.contents() == before.contents().put_application_period(held@).0 && handle@
                == before.contents().put_application_period(held@).1) by {
                reveal(Interners::contents);
                lemma_put(before.application_period@, held);
            }
        }
        handle
    }

    /// The handle of an object in its store. Counts one request.
    pub fn intern_object(&mut self, value: Object) -> (handle: Interned<Object>)
        requires
            old(self).wf(),
            old(self).object.spare() >= 1,
            value.fits(old(self)),
        ensures
            final(self).wf(),
            final(self).follows(old(self), Requests::objects(1)),
            final(self).contents() == old(self).contents().put_object(value@).0,
            handle@ == old(self).contents().put_object(value@).1,
            final(self).object@ == after_intern(old(self).object@, value),
            handle@ == place_of(final(self).object@, value@),
            handle@ < final(self).object@.len(),
            final(self).object@[handle@ as int]@ == value@,
    {
        let ghost before = *self;
        let ghost held = value;
        let handle = Interned::from(&mut self.object, value);
        proof {
            before.object.lemma_wf();
            lemma_after_intern(before.object@, held);
            self.lemma_grown(&before);
            self.lemma_requested(&before, Requests::objects(1));
            assert(self.contents() == before.contents().put_object(held@).0 && handle@
                == before.contents().put_object(held@).1) by {
                reveal(Interners::contents);
                lemma_put(before.object@, held);
            }
        }
        handle
    }

    /// The handle of a set of identifiers in its store. Counts one request.
    pub fn intern_uuid_set(&mut self, value: InternedSet<Uuid>) -> (handle: Interned<InternedSet<Uuid>>)
        requires
            old(self).wf(),
            old(self).uuid_set.spare() >= 1,
            below(value@, old(self).uuid@.len()),
        ensures
            final(self).wf(),
            final(self).follows(old(self), Requests::uuid_sets(1)),
            final(self).contents() == old(self).contents().put_uuid_set(value@).0,
            handle@ == old(self).contents().put_uuid_set(value@).1,
            final(self).uuid_set@ == after_intern(old(self).uuid_set@, value),
            handle@ == place_of(final(self).uuid_set@, value@),
            handle@ < final(self).uuid_set@.len(),
            final(self).uuid_set@[handle@ as int]@ == value@,
    {
        let ghost before = *self;
        let ghost held = value;
        let handle = Interned::from(&mut self.uuid_set, value);
        proof {
            before.uuid_set.lemma_wf();
            lemma_after_intern(before.uuid_set@, held);
            self.lemma_grown(&before);
            self.lemma_requested(&before, Requests::uuid_sets(1));
            assert(self.contents() == before.contents().put_uuid_set(held@).0 && handle@
                == before.contents().put_uuid_set(held@).1) by {
                reveal(Interners::contents);
                lemma_put(before.uuid_set@, held);
            }
        }
        handle
    }

    /// The handle of an impacted object in its store. Counts one request.
    pub fn intern_impacted_object(&mut self, value: ImpactedObject) -> (handle: Interned<ImpactedObject>)
        requires
            old(self).wf(),
            old(self).impacted_object.spare() >= 1,
            value.fits(old(self)),
        ensures
            final(self).wf(),
            final(self).follows(old(self), Requests::impacted_objects(1)),
            final(self).contents() == old(self).contents().put_impacted_object(value@).0,
            handle@ == old(self).contents().put_impacted_object(value@).1,
            final(self).impacted_object@ == after_intern(old(self).impacted_object@, value),
            handle@ == place_of(final(self).impacted_object@, value@),
            handle@ < final(self).impacted_object@.len(),
            final(self).impacted_object@[handle@ as int]@ == value@,
    {
        let ghost before = *self;
        let ghost held = value;
        let handle = Interned::from(&mut self.impacted_object, value);
        proof {
            before.impacted_object.lemma_wf();
            lemma_after_intern(before.impacted_object@, held);
            self.lemma_grown(&before);
            self.lemma_requested(&before, Requests::impacted_objects(1));
            assert(self.contents() == before.contents().put_impacted_object(held@).0 && handle@
                == before.contents().put_impacted_object(held@).1) by {
                reveal(Interners::contents);
                lemma_put(before.impacted_object@, held);
            }
        }
        handle
    }

    /// The handle of the header of a line in its store. Counts one request.
    pub fn intern_line_header(&mut self, value: LineHeader) -> (handle: Interned<LineHeader>)
        requires
            old(self).wf(),
            old(self).line_header.spare() >= 1,
            value.fits(old(self)),
        ensures
            final(self).wf(),
            final(self).follows(old(self), Requests::line_headers(1)),
            final(self).contents() == old(self).contents().put_line_header(value@).0,
            handle@ == old(self).contents().put_line_header(value@).1,
            final(self).line_header@ == after_intern(old(self).line_header@, value),
            handle@ == place_of(final(self).line_header@, value@),
            handle@ < final(self).line_header@.len(),
            final(self).line_header@[handle@ as int]@ == value@,
    {
        let ghost before = *self;
        let ghost held = value;
        let handle = Interned::from(&mut self.line_header, value);
        proof {
            before.line_header.lemma_wf();
            lemma_after_intern(before.line_header@, held);
            self.lemma_grown(&before);
            self.lemma_requested(&before, Requests::line_headers(1));
            assert(self.contents() == before.contents().put_line_header(held@).0 && handle@
                == before.contents().put_line_header(held@).1) by {
                reveal(Interners::contents);
                lemma_put(before.line_header@, held);
            }
        }
        handle
    }

    /// The handle of a line in its store. Counts one request.
    pub fn intern_line(&mut self, value: Line) -> (handle: Interned<Line>)
        requires
            old(self).wf(),
            old(self).line.spare() >= 1,
            value.fits(old(self)),
        ensures
            final(self).wf(),
            final(self).follows(old(self), Requests::lines(1)),
            final(self).contents() == old(self).contents().put_line(value@).0,
            handle@ == old(self).contents().put_line(value@).1,
            final(self).line@ == after_intern(old(self).line@, value),
            handle@ == place_of(final(self).line@, value@),
            handle@ < final(self).line@.len(),
            final(self).line@[handle@ as int]@ == value@,
    {
        let ghost before = *self;
        let ghost held = value;
        let handle = Interned::from(&mut self.line, value);
        proof {
            before.line.lemma_wf();
            lemma_after_intern(before.line@, held);
            self.lemma_grown(&before);
            self.lemma_requested(&before, Requests::lines(1));
            assert(self.contents() == before.contents().put_line(held@).0 && handle@
                == before.contents().put_line(held@).1) by {
                reveal(Interners::contents);
                lemma_put(before.line@, held);
            }
        }
        handle
    }

    /// The handle of a set of lines in its store. Counts one request.
    pub fn intern_line_set(&mut self, value: InternedSet<Line>) -> (handle: Interned<InternedSet<Line>>)
        requires
            old(self).wf(),
            old(self).line_set.spare() >= 1,
            below(value@, old(self).line@.len()),
        ensures
            final(self).wf(),
            final(self).follows(old(self), Requests::line_sets(1)),
            final(self).contents() == old(self).contents().put_line_set(value@).0,
            handle@ == old(self).contents().put_line_set(value@).1,
            final(self).line_set@ == after_intern(old(self).line_set@, value),
            handle@ == place_of(final(self).line_set@, value@),
            handle@ < final(self).line_set@.len(),
            final(self).line_set@[handle@ as int]@ == value@,
    {
        let ghost before = *self;
        let ghost held = value;
        let handle = Interned::from(&mut self.line_set, value);
        proof {
            before.line_set.lemma_wf();
            lemma_after_intern(before.line_set@, held);
            self.lemma_grown(&before);
            self.lemma_requested(&before, Requests::line_sets(1));
            assert(self.contents() == before.contents().put_line_set(held@).0 && handle@
                == before.contents().put_line_set(held@).1) by {
                reveal(Interners::contents);
                lemma_put(before.line_set@, held);
            }
        }
        handle
    }

    /// The handle of a disruption in its store. Counts one request.
    pub fn intern_disruption(&mut self, value: Disruption) -> (handle: Interned<Disruption>)
        requires
            old(self).wf(),
            old(self).disruption.spare() >= 1,
            value.fits(old(self)),
        ensures
            final(self).wf(),
            final(self).follows(old(self), Requests::disruptions(1)),
            final(self).contents() == old(self).contents().put_disruption(value@).0,
            handle@ == old(self).contents().put_disruption(value@).1,
            final(self).disruption@ == after_intern(old(self).disruption@, value),
            handle@ == place_of(final(self).disruption@, value@),
            handle@ < final(self).disruption@.len(),
            final(self).disruption@[handle@ as int]@ == value@,
    {
        let ghost before = *self;
        let ghost held = value;
        let handle = Interned::from(&mut self.disruption, value);
        proof {
            before.disruption.lemma_wf();
            lemma_after_intern(before.disruption@, held);
            self.lemma_grown(&before);
            self.lemma_requested(&before, Requests::disruptions(1));
            assert(self.contents() == before.contents().put_disruption(held@).0 && handle@
                == before.contents().put_disruption(held@).1) by {
                reveal(Interners::contents);
                lemma_put(before.disruption@, held);
            }
        }
        handle
    }

    /// The handle of a set of disruptions in its store. Counts one request.
    pub fn intern_disruption_set(&mut self, value: InternedSet<Disruption>) -> (handle: Interned<
        InternedSet<Disruption>,
    >)
        requires
            old(self).wf(),
            old(self).disruption_set.spare() >= 1,
            below(value@, old(self).disruption@.len()),
        ensures
            final(self).wf(),
            final(self).follows(old(self), Requests::disruption_sets(1)),
            final(self).contents() == old(self).contents().put_disruption_set(value@).0,
            handle@ == old(self).contents().put_disruption_set(value@).1,
            final(self).disruption_set@ == after_intern(old(self).disruption_set@, value),
            handle@ == place_of(final(self).disruption_set@, value@),
            handle@ < final(self).disruption_set@.len(),
            final(self).disruption_set@[handle@ as int]@ == value@,
    {
        let ghost before = *self;
        let ghost held = value;
        let handle = Interned::from(&mut self.disruption_set, value);
        proof {
            before.disruption_set.lemma_wf();
            lemma_after_intern(before.disruption_set@, held);
            self.lemma_grown(&before);
            self.lemma_requested(&before, Requests::disruption_sets(1));
            assert(self.contents() == before.contents().put_disruption_set(held@).0 && handle@
                == before.contents().put_disruption_set(held@).1) by {
                reveal(Interners::contents);
                lemma_put(before.disruption_set@, held);
            }
        }
        handle
    }

    /// Number of further requests that are certain to fit, whichever stores
    /// they go to.
    pub fn room(&self) -> (room: usize)
        requires
            self.wf(),
        ensures
            room == self.spare(),
    {
        proof {
            reveal(Interners::spare);
        }
        let mut room: usize = self.uuid_set.room();
        room = smaller(self.object.room(), room);
        room = smaller(self.impacted_object.room(), room);
        room = smaller(self.line_header.room(), room);
        room = smaller(self.line.room(), room);
        room = smaller(self.line_set.room(), room);
        room = smaller(self.application_period.room(), room);
        room = smaller(self.disruption.room(), room);
        room = smaller(self.disruption_set.room(), room);
        room = smaller(self.uuid.room(), room);
        smaller(self.string.room(), room)
    }

    /// Decides whether every handle inside a stored value names a value of
    /// these stores: what has to be looked at when stores come from
    /// elsewhere.
    #[verifier::loop_isolation(false)]
    pub fn is_closed(&self) -> (closed: bool)
        ensures
            closed == self.closed(),
    {
        proof {
            reveal(Interners::closed);
        }
        let values = self.object.values();
        let mut i: usize = 0;
        while i < values.len()
            invariant
                i <= values@.len(),
                values@ == self.object@,
                forall|k: int| 0 <= k < i ==> (#[trigger] self.object@[k]).fits(self),
            decreases values@.len() - i,
        {
            if !values[i].fits_in(self) {
                return false;
            }
            i = i + 1;
        }
        let values = self.impacted_object.values();
        let mut i: usize = 0;
        while i < values.len()
            invariant
                i <= values@.len(),
                values@ == self.impacted_object@,
                forall|k: int| 0 <= k < i ==> (#[trigger] self.impacted_object@[k]).fits(self),
            decreases values@.len() - i,
        {
            if !values[i].fits_in(self) {
                return false;
            }
            i = i + 1;
        }
        let values = self.line_header.values();
        let mut i: usize = 0;
        while i < values.len()
            invariant
                i <= values@.len(),
                values@ == self.line_header@,
                forall|k: int| 0 <= k < i ==> (#[trigger] self.line_header@[k]).fits(self),
            decreases values@.len() - i,
        {
            if !values[i].fits_in(self) {
                return false;
            }
            i = i + 1;
        }
        let values = self.line.values();
        let mut i: usize = 0;
        while i < values.len()
            invariant
                i <= values@.len(),
                values@ == self.line@,
                forall|k: int| 0 <= k < i ==> (#[trigger] self.line@[k]).fits(self),
            decreases values@.len() - i,
        {
            if !values[i].fits_in(self) {
                return false;
            }
            i = i + 1;
        }
        let values = self.disruption.values();
        let mut i: usize = 0;
        while i < values.len()
            invariant
                i <= values@.len(),
                values@ == self.disruption@,
                forall|k: int| 0 <= k < i ==> (#[trigger] self.disruption@[k]).fits(self),
            decreases values@.len() - i,
        {
            if !values[i].fits_in(self) {
                return false;
            }
            i = i + 1;
        }
        let values = self.uuid_set.values();
        let mut i: usize = 0;
        while i < values.len()
            invariant
                i <= values@.len(),
                values@ == self.uuid_set@,
                forall|k: int|
                    0 <= k < i ==> below((#[trigger] self.uuid_set@[k])@, self.uuid@.len()),
            decreases values@.len() - i,
        {
            if !values[i].all_below(self.uuid.len()) {
                return false;
            }
            i = i + 1;
        }
        let values = self.line_set.values();
        let mut i: usize = 0;
        while i < values.len()
            invariant
                i <= values@.len(),
                values@ == self.line_set@,
                forall|k: int|
                    0 <= k < i ==> below((#[trigger] self.line_set@[k])@, self.line@.len()),
            decreases values@.len() - i,
        {
            if !values[i].all_below(self.line.len()) {
                return false;
            }
            i = i + 1;
        }
        let values = self.disruption_set.values();
        let mut i: usize = 0;
        while i < values.len()
            invariant
                i <= values@.len(),
                values@ == self.disruption_set@,
                forall|k: int|
                    0
                        <= k < i ==> below((#[trigger] self.disruption_set@[k])@, self.disruption@.len()),
            decreases values@.len() - i,
        {
            if !values[i].all_below(self.disruption.len()) {
                return false;
            }
            i = i + 1;
        }
        true
    }

    /// Decides whether the stores are certain to take what compacting
    /// `source` asks of them.
    pub fn has_room_for(&self, source: &source::Data) -> (enough: bool)
        requires
            self.wf(),
        ensures
            enough == (source.requests() <= self.spare()),
            enough ==> self.has_room(source.requests_by_store()),
    {
        proof {
            reveal(Interners::spare);
            source.lemma_requests();
            if source.requests() <= self.spare() {
                self.lemma_room(source.requests_by_store());
            }
        }
        source.count_requests() <= self.room() as u64
    }

    /// Empty stores.
    pub fn new() -> (interners: Self)
        ensures
            interners.wf(),
            interners.request_count() == 0,
            interners.value_count() == 0,
            interners.spare() >= 0xffff_ffff,
            interners.contents() == Contents::empty(),
            interners.string@.len() == 0,
            interners.uuid@.len() == 0,
            interners.disruption_set@.len() == 0,
            interners.disruption@.len() == 0,
            interners.application_period@.len() == 0,
            interners.line_set@.len() == 0,
            interners.line@.len() == 0,
            interners.line_header@.len() == 0,
            interners.impacted_object@.len() == 0,
            interners.object@.len() == 0,
            interners.uuid_set@.len() == 0,
    {
        reveal(Interners::closed);
        reveal(Interners::request_count);
        reveal(Interners::value_count);
        reveal(Interners::spare);
        reveal(Interners::contents);
        let interners = Interners {
            string: Interner::new(),
            uuid: Interner::new(),
            disruption_set: Interner::new(),
            disruption: Interner::new(),
            application_period: Interner::new(),
            line_set: Interner::new(),
            line: Interner::new(),
            line_header: Interner::new(),
            impacted_object: Interner::new(),
            object: Interner::new(),
            uuid_set: Interner::new(),
        };
        assert(interners.contents() =~= Contents {
            string: Seq::empty(),
            uuid: Seq::empty(),
            disruption_set: Seq::empty(),
            disruption: Seq::empty(),
            application_period: Seq::empty(),
            line_set: Seq::empty(),
            line: Seq::empty(),
            line_header: Seq::empty(),
            impacted_object: Seq::empty(),
            object: Seq::empty(),
            uuid_set: Seq::empty(),
        }) by {
            assert(contents_of(interners.string@) =~= Seq::empty());
            assert(contents_of(interners.uuid@) =~= Seq::empty());
            assert(contents_of(interners.disruption_set@) =~= Seq::empty());
            assert(contents_of(interners.disruption@) =~= Seq::empty());
            assert(contents_of(interners.application_period@) =~= Seq::empty());
            assert(contents_of(interners.line_set@) =~= Seq::empty());
            assert(contents_of(interners.line@) =~= Seq::empty());
            assert(contents_of(interners.line_header@) =~= Seq::empty());
            assert(contents_of(interners.impacted_object@) =~= Seq::empty());
            assert(contents_of(interners.object@) =~= Seq::empty());
            assert(contents_of(interners.uuid_set@) =~= Seq::empty());
        }
        interners
    }
}

impl PartialEq for Interners {
    fn eq(&self, other: &Self) -> (same: bool) {
        let same: bool = self.string == other.string && self.uuid == other.uuid
            && self.disruption_set == other.disruption_set && self.disruption == other.disruption
            && self.application_period == other.application_period
            && self.line_set == other.line_set && self.line == other.line
            && self.line_header == other.line_header
            && self.impacted_object == other.impacted_object && self.object == other.object
            && self.uuid_set == other.uuid_set;
        proof {
            reveal(Interners::contents);
            lemma_same_contents(self.string@, other.string@);
            lemma_same_contents(self.uuid@, other.uuid@);
            lemma_same_contents(self.disruption_set@, other.disruption_set@);
            lemma_same_contents(self.disruption@, other.disruption@);
            lemma_same_contents(self.application_period@, other.application_period@);
            lemma_same_contents(self.line_set@, other.line_set@);
            lemma_same_contents(self.line@, other.line@);
            lemma_same_contents(self.line_header@, other.line_header@);
            lemma_same_contents(self.impacted_object@, other.impacted_object@);
            lemma_same_contents(self.object@, other.object@);
            lemma_same_contents(self.uuid_set@, other.uuid_set@);
        }
        same
    }
}

impl PartialEqSpecImpl for Interners {
    open spec fn obeys_eq_spec() -> bool {
        true
    }

    open spec fn eq_spec(&self, other: &Self) -> bool {
        self.contents() == other.contents()
    }
}

impl Eq for Interners {

}

impl Default for Interners {
    fn default() -> (interners: Self)
        ensures
            interners.wf(),
            interners.request_count() == 0,
            interners.value_count() == 0,
            interners.spare() >= 0xffff_ffff,
            interners.contents() == Contents::empty(),
    {
        Interners::new()
    }
}

} // verus!
