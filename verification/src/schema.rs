//! The records: as they are read, and as they are kept.
use crate::content::{mix_word, Content, HASH_SEED};
use vstd::prelude::*;

pub mod again;
pub mod compaction;
pub mod equivalence;
pub mod growth;
pub mod meaning;
pub mod model;
pub mod optimized;
pub mod requests;
pub mod source;

verus! {

/// A universally unique identifier, as its 128 bits.
#[derive(Clone, Copy, Debug, Default, PartialEq, Eq, Hash, Structural)]
pub struct Uuid(pub u128);

impl View for Uuid {
    type V = u128;

    open spec fn view(&self) -> u128 {
        self.0
    }
}

impl Uuid {
    /// The identifier with the bits `bits`.
    pub fn from_u128(bits: u128) -> (id: Self)
        ensures
            id@ == bits,
    {
        Uuid(bits)
    }

    /// The bits of the identifier.
    pub fn as_u128(&self) -> (bits: u128)
        ensures
            bits == self@,
    {
        self.0
    }
}

/// The upper and the lower half of 128 bits.
pub open spec fn halves(bits: u128) -> (u64, u64) {
    ((bits >> 64) as u64, (bits & 0xffff_ffff_ffff_ffff) as u64)
}

impl Content for Uuid {
    open spec fn hash_of(content: u128) -> u64 {
        crate::content::mix(crate::content::mix(HASH_SEED, halves(content).0), halves(content).1)
    }

    fn content_hash(&self) -> (hash: u64) {
        let upper: u64 = (self.0 >> 64) as u64;
        let lower: u64 = (self.0 & 0xffff_ffff_ffff_ffff) as u64;
        mix_word(mix_word(HASH_SEED, upper), lower)
    }

    fn content_eq(&self, other: &Self) -> (same: bool) {
        self.0 == other.0
    }
}

} // verus!
