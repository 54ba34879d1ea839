//! What a value store needs of the values it holds: a content to compare
//! them by, and a hash that equal contents share.
use std::collections::hash_map::DefaultHasher;
use std::hash::Hasher;
use vstd::prelude::*;
use vstd::std_specs::hash::DefaultHasherAdditionalSpecFns;
use vstd::utf8::encode_utf8;

verus! {

/// A value that a store can hold once. Its view is its content: two values
/// are the same entry of a store exactly when their views are equal.
pub trait Content: View + Sized {
    /// The hash of every value with this content.
    spec fn hash_of(content: Self::V) -> u64;

    /// Computes the hash of this value's content.
    fn content_hash(&self) -> (hash: u64)
        ensures
            hash == Self::hash_of(self@),
    ;

    /// Compares two values by content.
    fn content_eq(&self, other: &Self) -> (same: bool)
        ensures
            same == (self@ == other@),
    ;
}

/// Multiplier of the word-by-word hash.
pub const HASH_PRIME: u64 = 0x0000_0100_0000_01b3;

/// Start value of the word-by-word hash.
pub const HASH_SEED: u64 = 0xcbf2_9ce4_8422_2325;

/// One step of the word-by-word hash.
pub open spec fn mix(hash: u64, word: u64) -> u64 {
    (hash ^ word).wrapping_mul(HASH_PRIME)
}

/// The word-by-word hash of a sequence of identifiers, continued from `hash`.
pub open spec fn mix_ids(hash: u64, ids: Seq<u32>) -> u64
    decreases ids.len(),
{
    if ids.len() == 0 {
        hash
    } else {
        mix(mix_ids(hash, ids.drop_last()), ids.last() as u64)
    }
}

/// Folds one word into a hash.
pub fn mix_word(hash: u64, word: u64) -> (mixed: u64)
    ensures
        mixed == mix(hash, word),
{
    (hash ^ word).wrapping_mul(HASH_PRIME)
}

impl Content for String {
    open spec fn hash_of(content: Seq<char>) -> u64 {
        DefaultHasher::spec_finish(seq![encode_utf8(content)])
    }

    fn content_hash(&self) -> (hash: u64) {
        let mut hasher = DefaultHasher::new();
        hasher.write(self.as_str().as_bytes());
        hasher.finish()
    }

    fn content_eq(&self, other: &Self) -> (same: bool) {
        *self == *other
    }
}

} // verus!
