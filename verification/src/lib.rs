//! Content-addressed value stores, the handles they give out, canonical
//! handle sets with a run-length wire form, and the equivalence between
//! compacted transit-disruption records and the records they were built from.
//!
//! - `content`: what a store needs of its values, a content and a hash.
//! - `intern`: the store and the handle, with the laws of interning.
//! - `set`: comparison of collections without regard to order, and the set
//!   of handles.
//! - `matching`: what that comparison answers, for every relation that comes
//!   from keys.
//! - `codec`: the run-length tokens of a set, and that reading inverts
//!   writing.
//! - `time`: instants and their written forms.
//! - `schema`: the records as read and as kept, compacting, the comparison
//!   of the two forms, and why a compacted record is equal to its source,
//!   stays so as the stores grow, and adds nothing when compacted again.
//! - `size`: estimates of memory.
pub mod codec;
pub mod content;
pub mod intern;
pub mod matching;
pub mod schema;
pub mod set;
pub mod size;
pub mod time;
