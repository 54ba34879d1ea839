//! Estimates of the memory that a value takes: the bytes of the value itself
//! and the bytes that it owns elsewhere.
use crate::content::Content;
use crate::intern::{Interned, Interner};
use crate::schema::optimized::{
    ApplicationPeriod, Data, DataError, DataSuccess, Disruption, ImpactedObject, Interners, Line,
    LineHeader, Object,
};
use crate::schema::source;
use crate::schema::Uuid;
use crate::set::InternedSet;
use crate::time::{TimestampMillis, TimestampSecondsParis};
use vstd::layout::size_of;
use vstd::string::StringSliceAdditionalSpecFns;
use vstd::utf8::encode_utf8;
use vstd::prelude::*;

verus! {

/// A number of bytes as it fits in a `usize`: itself, or the largest number
/// that does.
pub open spec fn clipped(bytes: nat) -> usize {
    if bytes > usize::MAX {
        usize::MAX
    } else {
        bytes as usize
    }
}

/// The bytes of a value itself, wherever it lies.
pub trait StackSize {
    /// Number of bytes of the value itself.
    spec fn stack(&self) -> nat;

    /// Number of bytes of the value itself.
    fn stack_bytes(&self) -> (bytes: usize)
        ensures
            bytes == self.stack(),
    ;
}

impl<T: Sized> StackSize for T {
    open spec fn stack(&self) -> nat {
        size_of::<T>()
    }

    fn stack_bytes(&self) -> (bytes: usize) {
        core::mem::size_of::<T>()
    }
}

/// The bytes that a value owns outside itself.
pub trait EstimateSize: StackSize {
    /// Number of bytes that the value owns outside itself.
    spec fn allocated(&self) -> nat;

    /// Number of bytes that the value owns outside itself, as far as they
    /// can be counted.
    fn allocated_bytes(&self) -> (bytes: usize)
        ensures
            bytes == clipped(self.allocated()),
    ;

    /// Number of bytes of the value and of what it owns, as far as they can
    /// be counted.
    fn estimated_bytes(&self) -> (bytes: usize)
        ensures
            bytes == clipped(self.stack() + self.allocated()),
    {
        self.stack_bytes().saturating_add(self.allocated_bytes())
    }
}

impl EstimateSize for i32 {
    open spec fn allocated(&self) -> nat {
        0
    }

    fn allocated_bytes(&self) -> (bytes: usize) {
        0
    }
}

impl StackSize for str {
    open spec fn stack(&self) -> nat {
        0
    }

    fn stack_bytes(&self) -> (bytes: usize) {
        0
    }
}

impl EstimateSize for str {
    open spec fn allocated(&self) -> nat {
        self.spec_bytes().len()
    }

    fn allocated_bytes(&self) -> (bytes: usize) {
        self.as_bytes().len()
    }
}

impl EstimateSize for String {
    open spec fn allocated(&self) -> nat {
        encode_utf8(self@).len()
    }

    fn allocated_bytes(&self) -> (bytes: usize) {
        self.as_str().as_bytes().len()
    }
}

impl EstimateSize for Uuid {
    open spec fn allocated(&self) -> nat {
        0
    }

    fn allocated_bytes(&self) -> (bytes: usize) {
        0
    }
}

impl<T> EstimateSize for Interned<T> {
    open spec fn allocated(&self) -> nat {
        0
    }

    fn allocated_bytes(&self) -> (bytes: usize) {
        0
    }
}

impl EstimateSize for TimestampSecondsParis {
    open spec fn allocated(&self) -> nat {
        0
    }

    fn allocated_bytes(&self) -> (bytes: usize) {
        0
    }
}

impl EstimateSize for TimestampMillis {
    open spec fn allocated(&self) -> nat {
        0
    }

    fn allocated_bytes(&self) -> (bytes: usize) {
        0
    }
}

impl<T: EstimateSize> EstimateSize for Option<T> {
    open spec fn allocated(&self) -> nat {
        match self {
            Some(x) => x.allocated(),
            None => 0,
        }
    }

    fn allocated_bytes(&self) -> (bytes: usize) {
        match self {
            Some(x) => x.allocated_bytes(),
            None => 0,
        }
    }
}

/// The bytes of the items and of what they own.
pub open spec fn estimated_sum<T: EstimateSize>(items: Seq<T>) -> nat
    decreases items.len(),
{
    if items.len() == 0 {
        0
    } else {
        estimated_sum(items.drop_last()) + items.last().stack() + items.last().allocated()
    }
}

/// Adds up the bytes of the items and of what they own, as far as they can
/// be counted.
pub fn estimated_total<T: EstimateSize>(items: &[T]) -> (bytes: usize)
    ensures
        bytes == clipped(estimated_sum(items@)),
{
    let mut bytes: usize = 0;
    let mut i: usize = 0;
    while i < items.len()
        invariant
            i <= items@.len(),
            bytes == clipped(estimated_sum(items@.take(i as int))),
        decreases items@.len() - i,
    {
        bytes = bytes.saturating_add(items[i].estimated_bytes());
        i = i + 1;
        assert(items@.take(i as int).drop_last() =~= items@.take(i - 1));
    }
    assert(items@.take(i as int) =~= items@);
    bytes
}

impl<T: EstimateSize> EstimateSize for Vec<T> {
    open spec fn allocated(&self) -> nat {
        estimated_sum(self@)
    }

    fn allocated_bytes(&self) -> (bytes: usize) {
        estimated_total(self.as_slice())
    }
}

impl<T> EstimateSize for InternedSet<T> {
    open spec fn allocated(&self) -> nat {
        estimated_sum(self.handles())
    }

    fn allocated_bytes(&self) -> (bytes: usize) {
        estimated_total(self.as_vec().as_slice())
    }
}

/// Bytes that the index of a store is counted with for each value: a hash
/// and a handle.
pub const INDEX_ENTRY_BYTES: usize = 12;

impl<T: Content + EstimateSize> EstimateSize for Interner<T> {
    open spec fn allocated(&self) -> nat {
        estimated_sum(self@) + self@.len() * (INDEX_ENTRY_BYTES as nat)
    }

    fn allocated_bytes(&self) -> (bytes: usize) {
        let values: usize = estimated_total(self.values().as_slice());
        let index: usize = match self.len().checked_mul(INDEX_ENTRY_BYTES) {
            Some(index) => index,
            None => usize::MAX,
        };
        values.saturating_add(index)
    }
}

impl EstimateSize for source::Data {
    open spec fn allocated(&self) -> nat {
        self.disruptions.allocated() + self.lines.allocated() + self.last_updated_date.allocated()
            + self.status_code.allocated() + self.error.allocated() + self.message.allocated()
    }

    fn allocated_bytes(&self) -> (bytes: usize) {
        let bytes: usize = self.disruptions.allocated_bytes();
        let bytes: usize = bytes.saturating_add(self.lines.allocated_bytes());
        let bytes: usize = bytes.saturating_add(self.last_updated_date.allocated_bytes());
        let bytes: usize = bytes.saturating_add(self.status_code.allocated_bytes());
        let bytes: usize = bytes.saturating_add(self.error.allocated_bytes());
        let bytes: usize = bytes.saturating_add(self.message.allocated_bytes());
        bytes
    }
}

impl EstimateSize for source::Disruption {
    open spec fn allocated(&self) -> nat {
        self.id.allocated() + self.application_periods.allocated() + self.last_update.allocated()
            + self.cause.allocated() + self.severity.allocated() + self.tags.allocated()
            + self.title.allocated() + self.message.allocated() + self.disruption_id.allocated()
    }

    fn allocated_bytes(&self) -> (bytes: usize) {
        let bytes: usize = self.id.allocated_bytes();
        let bytes: usize = bytes.saturating_add(self.application_periods.allocated_bytes());
        let bytes: usize = bytes.saturating_add(self.last_update.allocated_bytes());
        let bytes: usize = bytes.saturating_add(self.cause.allocated_bytes());
        let bytes: usize = bytes.saturating_add(self.severity.allocated_bytes());
        let bytes: usize = bytes.saturating_add(self.tags.allocated_bytes());
        let bytes: usize = bytes.saturating_add(self.title.allocated_bytes());
        let bytes: usize = bytes.saturating_add(self.message.allocated_bytes());
        let bytes: usize = bytes.saturating_add(self.disruption_id.allocated_bytes());
        bytes
    }
}

impl EstimateSize for source::ApplicationPeriod {
    open spec fn allocated(&self) -> nat {
        self.begin.allocated() + self.end.allocated()
    }

    fn allocated_bytes(&self) -> (bytes: usize) {
        let bytes: usize = self.begin.allocated_bytes();
        let bytes: usize = bytes.saturating_add(self.end.allocated_bytes());
        bytes
    }
}

impl EstimateSize for source::Line {
    open spec fn allocated(&self) -> nat {
        self.id.allocated() + self.name.allocated() + self.short_name.allocated()
            + self.mode.allocated() + self.network_id.allocated()
            + self.impacted_objects.allocated()
    }

    fn allocated_bytes(&self) -> (bytes: usize) {
        let bytes: usize = self.id.allocated_bytes();
        let bytes: usize = bytes.saturating_add(self.name.allocated_bytes());
        let bytes: usize = bytes.saturating_add(self.short_name.allocated_bytes());
        let bytes: usize = bytes.saturating_add(self.mode.allocated_bytes());
        let bytes: usize = bytes.saturating_add(self.network_id.allocated_bytes());
        let bytes: usize = bytes.saturating_add(self.impacted_objects.allocated_bytes());
        bytes
    }
}

impl EstimateSize for source::ImpactedObject {
    open spec fn allocated(&self) -> nat {
        self.typ.allocated() + self.id.allocated() + self.name.allocated()
            + self.disruption_ids.allocated()
    }

    fn allocated_bytes(&self) -> (bytes: usize) {
        let bytes: usize = self.typ.allocated_bytes();
        let bytes: usize = bytes.saturating_add(self.id.allocated_bytes());
        let bytes: usize = bytes.saturating_add(self.name.allocated_bytes());
        let bytes: usize = bytes.saturating_add(self.disruption_ids.allocated_bytes());
        bytes
    }
}

impl EstimateSize for DataSuccess {
    open spec fn allocated(&self) -> nat {
        self.disruptions.allocated() + self.lines.allocated() + self.last_updated_date.allocated()
    }

    fn allocated_bytes(&self) -> (bytes: usize) {
        let bytes: usize = self.disruptions.allocated_bytes();
        let bytes: usize = bytes.saturating_add(self.lines.allocated_bytes());
        let bytes: usize = bytes.saturating_add(self.last_updated_date.allocated_bytes());
        bytes
    }
}

impl EstimateSize for DataError {
    open spec fn allocated(&self) -> nat {
        self.status_code.allocated() + self.error.allocated() + self.message.allocated()
    }

    fn allocated_bytes(&self) -> (bytes: usize) {
        let bytes: usize = self.status_code.allocated_bytes();
        let bytes: usize = bytes.saturating_add(self.error.allocated_bytes());
        let bytes: usize = bytes.saturating_add(self.message.allocated_bytes());
        bytes
    }
}

impl EstimateSize for Disruption {
    open spec fn allocated(&self) -> nat {
        self.id.allocated() + self.application_periods.allocated() + self.last_update.allocated()
            + self.cause.allocated() + self.severity.allocated() + self.tags.allocated()
            + self.title.allocated() + self.message.allocated() + self.disruption_id.allocated()
    }

    fn allocated_bytes(&self) -> (bytes: usize) {
        let bytes: usize = self.id.allocated_bytes();
        let bytes: usize = bytes.saturating_add(self.application_periods.allocated_bytes());
        let bytes: usize = bytes.saturating_add(self.last_update.allocated_bytes());
        let bytes: usize = bytes.saturating_add(self.cause.allocated_bytes());
        let bytes: usize = bytes.saturating_add(self.severity.allocated_bytes());
        let bytes: usize = bytes.saturating_add(self.tags.allocated_bytes());
        let bytes: usize = bytes.saturating_add(self.title.allocated_bytes());
        let bytes: usize = bytes.saturating_add(self.message.allocated_bytes());
        let bytes: usize = bytes.saturating_add(self.disruption_id.allocated_bytes());
        bytes
    }
}

impl EstimateSize for ApplicationPeriod {
    open spec fn allocated(&self) -> nat {
        self.begin.allocated() + self.end.allocated()
    }

    fn allocated_bytes(&self) -> (bytes: usize) {
        let bytes: usize = self.begin.allocated_bytes();
        let bytes: usize = bytes.saturating_add(self.end.allocated_bytes());
        bytes
    }
}

impl EstimateSize for Line {
    open spec fn allocated(&self) -> nat {
        self.header.allocated() + self.impacted_objects.allocated()
    }

    fn allocated_bytes(&self) -> (bytes: usize) {
        let bytes: usize = self.header.allocated_bytes();
        let bytes: usize = bytes.saturating_add(self.impacted_objects.allocated_bytes());
        bytes
    }
}

impl EstimateSize for LineHeader {
    open spec fn allocated(&self) -> nat {
        self.id.allocated() + self.name.allocated() + self.short_name.allocated()
            + self.mode.allocated() + self.network_id.allocated()
    }

    fn allocated_bytes(&self) -> (bytes: usize) {
        let bytes: usize = self.id.allocated_bytes();
        let bytes: usize = bytes.saturating_add(self.name.allocated_bytes());
        let bytes: usize = bytes.saturating_add(self.short_name.allocated_bytes());
        let bytes: usize = bytes.saturating_add(self.mode.allocated_bytes());
        let bytes: usize = bytes.saturating_add(self.network_id.allocated_bytes());
        bytes
    }
}

impl EstimateSize for ImpactedObject {
    open spec fn allocated(&self) -> nat {
        self.object.allocated() + self.disruption_ids.allocated()
    }

    fn allocated_bytes(&self) -> (bytes: usize) {
        let bytes: usize = self.object.allocated_bytes();
        let bytes: usize = bytes.saturating_add(self.disruption_ids.allocated_bytes());
        bytes
    }
}

impl EstimateSize for Object {
    open spec fn allocated(&self) -> nat {
        self.typ.allocated() + self.id.allocated() + self.name.allocated()
    }

    fn allocated_bytes(&self) -> (bytes: usize) {
        let bytes: usize = self.typ.allocated_bytes();
        let bytes: usize = bytes.saturating_add(self.id.allocated_bytes());
        let bytes: usize = bytes.saturating_add(self.name.allocated_bytes());
        bytes
    }
}

impl EstimateSize for Interners {
    open spec fn allocated(&self) -> nat {
        self.string.allocated() + self.uuid.allocated() + self.disruption_set.allocated()
            + self.disruption.allocated() + self.application_period.allocated()
            + self.line_set.allocated() + self.line.allocated() + self.line_header.allocated()
            + self.impacted_object.allocated() + self.object.allocated() + self.uuid_set.allocated()
    }

    fn allocated_bytes(&self) -> (bytes: usize) {
        let bytes: usize = self.string.allocated_bytes();
        let bytes: usize = bytes.saturating_add(self.uuid.allocated_bytes());
        let bytes: usize = bytes.saturating_add(self.disruption_set.allocated_bytes());
        let bytes: usize = bytes.saturating_add(self.disruption.allocated_bytes());
        let bytes: usize = bytes.saturating_add(self.application_period.allocated_bytes());
        let bytes: usize = bytes.saturating_add(self.line_set.allocated_bytes());
        let bytes: usize = bytes.saturating_add(self.line.allocated_bytes());
        let bytes: usize = bytes.saturating_add(self.line_header.allocated_bytes());
        let bytes: usize = bytes.saturating_add(self.impacted_object.allocated_bytes());
        let bytes: usize = bytes.saturating_add(self.object.allocated_bytes());
        let bytes: usize = bytes.saturating_add(self.uuid_set.allocated_bytes());
        bytes
    }
}

impl EstimateSize for Data {
    open spec fn allocated(&self) -> nat {
        match self {
            Data::Success(data) => data.allocated(),
            Data::Error(data) => data.allocated(),
        }
    }

    fn allocated_bytes(&self) -> (bytes: usize) {
        match self {
            Data::Success(data) => data.allocated_bytes(),
            Data::Error(data) => data.allocated_bytes(),
        }
    }
}

} // verus!
