//! Comparison of two collections without regard to order, and the canonical
//! set of handles.
use crate::codec::{ascending, decode, decode_spec, encode, encode_spec, lemma_round_trip};
use crate::content::{mix_ids, mix_word, Content, HASH_SEED};
use crate::intern::Interned;
use vstd::prelude::*;
use vstd::std_specs::cmp::PartialEqSpecImpl;

verus! {

/// Whatever `pred` answers for `x` and `y` is what `related` says of them.
pub open spec fn answers_as<T, U, F: Fn(&T, &U) -> bool>(
    pred: F,
    x: T,
    y: U,
    related: spec_fn(T, U) -> bool,
) -> bool {
    forall|answer: bool| call_ensures(pred, (&x, &y), answer) ==> answer == related(x, y)
}

/// `pred` decides `related` between the elements of `lhs` and those of `rhs`.
pub open spec fn decides<T, U, F: Fn(&T, &U) -> bool>(
    pred: F,
    lhs: Seq<T>,
    rhs: Seq<U>,
    related: spec_fn(T, U) -> bool,
) -> bool {
    forall|i: int, j: int|
        0 <= i < lhs.len() && 0 <= j < rhs.len() ==> answers_as(
            pred,
            #[trigger] lhs[i],
            #[trigger] rhs[j],
            related,
        )
}

/// `pred` decides `related` between the two values, where both are present.
pub open spec fn decides_optional<T, U, F: Fn(&T, &U) -> bool>(
    pred: F,
    lhs: Option<T>,
    rhs: Option<U>,
    related: spec_fn(T, U) -> bool,
) -> bool {
    lhs is Some && rhs is Some ==> answers_as(pred, lhs->0, rhs->0, related)
}

/// Where both are absent they are equal; where both are present `related`
/// decides; else they differ.
pub open spec fn option_eq_spec<T, U>(
    lhs: Option<T>,
    rhs: Option<U>,
    related: spec_fn(T, U) -> bool,
) -> bool {
    match (lhs, rhs) {
        (None, None) => true,
        (Some(x), Some(y)) => related(x, y),
        _ => false,
    }
}

/// Compares two optional values of different shapes: two absent ones are
/// equal, an absent and a present one differ, and of two present ones the
/// answer is what `pred` answers for them, which is called in that case only.
pub fn option_eq_by<T, U>(lhs: &Option<T>, rhs: &Option<U>, pred: impl Fn(&T, &U) -> bool) -> (same:
    bool)
    requires
        lhs is Some && rhs is Some ==> call_requires(pred, (&lhs->0, &rhs->0)),
    ensures
        lhs is None && rhs is None ==> same,
        (lhs is None) != (rhs is None) ==> !same,
        lhs is Some && rhs is Some ==> call_ensures(pred, (&lhs->0, &rhs->0), same),
        forall|related: spec_fn(T, U) -> bool| #[trigger]
            decides_optional(pred, *lhs, *rhs, related) ==> same == option_eq_spec(
                *lhs,
                *rhs,
                related,
            ),
{
    match (lhs, rhs) {
        (None, None) => true,
        (None, Some(_)) | (Some(_), None) => false,
        (Some(x), Some(y)) => pred(x, y),
    }
}

/// The first place at or after `from` whose element is not used yet and is
/// related to `x`; the length of `rhs` where there is none.
pub open spec fn first_match<T, U>(
    x: T,
    rhs: Seq<U>,
    used: Seq<bool>,
    related: spec_fn(T, U) -> bool,
    from: int,
) -> int
    decreases rhs.len() - from,
{
    if from >= rhs.len() {
        rhs.len() as int
    } else if !used[from] && related(x, rhs[from]) {
        from
    } else {
        first_match(x, rhs, used, related, from + 1)
    }
}

/// Every element of `lhs` from `i` on, taken in order, finds an element of
/// `rhs` that is related to it and that no earlier one has taken, each taking
/// the first such element.
pub open spec fn matches_from<T, U>(
    lhs: Seq<T>,
    rhs: Seq<U>,
    used: Seq<bool>,
    related: spec_fn(T, U) -> bool,
    i: int,
) -> bool
    decreases lhs.len() - i,
{
    if i >= lhs.len() {
        true
    } else {
        let j = first_match(lhs[i], rhs, used, related, 0);
        j < rhs.len() && matches_from(lhs, rhs, used.update(j, true), related, i + 1)
    }
}

/// No element is used.
pub open spec fn none_used(len: nat) -> Seq<bool> {
    Seq::new(len, |j: int| false)
}

/// The two collections have the same length, and the elements of `lhs` find
/// their partners in `rhs` one by one, first come, first served.
pub open spec fn set_eq_spec<T, U>(lhs: Seq<T>, rhs: Seq<U>, related: spec_fn(T, U) -> bool) -> bool {
    lhs.len() == rhs.len() && matches_from(lhs, rhs, none_used(rhs.len()), related, 0)
}

/// Compares two collections of different shapes as sets, by `pred`: each
/// element of `lhs` takes the first element of `rhs` that `pred` accepts and
/// that is not taken yet. The answer is `set_eq_spec` for every relation that
/// `pred` decides. Collections of different lengths differ, and `pred` is not
/// called for them.
pub fn set_eq_by<T, U>(lhs: &[T], rhs: &[U], pred: impl Fn(&T, &U) -> bool) -> (same: bool)
    requires
        lhs@.len() == rhs@.len() ==> forall|i: int, j: int|
            0 <= i < lhs@.len() && 0 <= j < rhs@.len() ==> call_requires(
                pred,
                (&#[trigger] lhs@[i], &#[trigger] rhs@[j]),
            ),
    ensures
        lhs@.len() != rhs@.len() ==> !same,
        forall|related: spec_fn(T, U) -> bool| #[trigger]
            decides(pred, lhs@, rhs@, related) ==> same == set_eq_spec(lhs@, rhs@, related),
{
    let len: usize = lhs.len();
    if len != rhs.len() {
        return false;
    }
    let mut used: Vec<bool> = vec![false; len];
    assert(used@ =~= none_used(rhs@.len()));
    let mut i: usize = 0;
    while i < len
        invariant
            i <= len,
            len == lhs@.len(),
            len == rhs@.len(),
            used@.len() == len,
            forall|i: int, j: int|
                0 <= i < lhs@.len() && 0 <= j < rhs@.len() ==> call_requires(
                    pred,
                    (&#[trigger] lhs@[i], &#[trigger] rhs@[j]),
                ),
            forall|related: spec_fn(T, U) -> bool| #[trigger]
                decides(pred, lhs@, rhs@, related) ==> set_eq_spec(lhs@, rhs@, related)
                    == matches_from(lhs@, rhs@, used@, related, i as int),
        decreases len - i,
    {
        let ghost taken = used@;
        let mut found: bool = false;
        let mut j: usize = 0;
        while j < len && !found
            invariant
                j <= len,
                i < len,
                len == lhs@.len(),
                len == rhs@.len(),
                used@.len() == len,
                forall|j: int|
                    0 <= j < rhs@.len() ==> call_requires(pred, (&lhs@[i as int], &#[trigger] rhs@[j])),
                !found ==> used@ == taken,
                !found ==> forall|related: spec_fn(T, U) -> bool| #[trigger]
                    decides(pred, lhs@, rhs@, related) ==> first_match(
                        lhs@[i as int],
                        rhs@,
                        taken,
                        related,
                        0,
                    ) == first_match(lhs@[i as int], rhs@, taken, related, j as int),
                found ==> j < len && used@ == taken.update(j as int, true),
                found ==> forall|related: spec_fn(T, U) -> bool| #[trigger]
                    decides(pred, lhs@, rhs@, related) ==> first_match(
                        lhs@[i as int],
                        rhs@,
                        taken,
                        related,
                        0,
                    ) == j,
            decreases len - j + (if found { 0int } else { 1int }),
        {
            let free: bool = !used[j];
            let accepted: bool = free && pred(&lhs[i], &rhs[j]);
            proof {
                assert forall|related: spec_fn(T, U) -> bool| #[trigger]
                    decides(pred, lhs@, rhs@, related) && free implies accepted == related(
                    lhs@[i as int],
                    rhs@[j as int],
                ) by {
                    assert(answers_as(pred, lhs@[i as int], rhs@[j as int], related));
                }
            }
            if accepted {
                used[j] = true;
                found = true;
            } else {
                j = j + 1;
            }
        }
        if !found {
            return false;
        }
        i = i + 1;
    }
    true
}

/// Every one of `ids` is below `len`.
pub open spec fn below(ids: Seq<u32>, len: nat) -> bool {
    forall|i: int| 0 <= i < ids.len() ==> #[trigger] ids[i] < len
}

/// The numbers in ascending order, each as often as it is given.
pub open spec fn sorted(ids: Seq<u32>) -> Seq<u32> {
    choose|ordered: Seq<u32>| ascending(ordered) && ordered.to_multiset() == ids.to_multiset()
}

/// There is one way only to put numbers in ascending order.
pub proof fn lemma_sorted(ordered: Seq<u32>, ids: Seq<u32>)
    requires
        ascending(ordered),
        ordered.to_multiset() == ids.to_multiset(),
    ensures
        ordered == sorted(ids),
{
    let other = sorted(ids);
    let leq = |a: u32, b: u32| a <= b;
    assert(vstd::relations::total_ordering(leq));
    assert(vstd::relations::sorted_by(ordered, leq));
    assert(vstd::relations::sorted_by(other, leq));
    vstd::seq_lib::lemma_sorted_unique(ordered, other, leq);
}

/// The numbers of a sequence of handles.
pub open spec fn ids_of<T>(handles: Seq<Interned<T>>) -> Seq<u32> {
    handles.map_values(|handle: Interned<T>| handle@)
}

/// A collection of handles without regard to order, kept in ascending order
/// of their numbers. A number that was given twice is held twice.
#[derive(Debug, Hash)]
pub struct InternedSet<T> {
    set: Vec<Interned<T>>,
}

impl<T> View for InternedSet<T> {
    type V = Seq<u32>;

    closed spec fn view(&self) -> Seq<u32> {
        ids_of(self.set@)
    }
}

/// Sorts handles by their numbers with `slice::sort_unstable_by_key` of std:
/// afterwards the numbers ascend, and each number is there as often as it
/// was before.
#[verifier::external_body]
fn sort_by_id<T>(set: &mut Vec<Interned<T>>)
    ensures
        ascending(ids_of(final(set)@)),
        ids_of(final(set)@).to_multiset() == ids_of(old(set)@).to_multiset(),
{
    set.sort_unstable_by_key(|handle| handle.id());
}

impl<T> InternedSet<T> {
    #[verifier::type_invariant]
    spec fn sorted(self) -> bool {
        ascending(ids_of(self.set@))
    }

    /// The handles of the set, in ascending order of their numbers.
    pub closed spec fn handles(&self) -> Seq<Interned<T>> {
        self.set@
    }

    /// The set's handles and its numbers are the same sequence.
    pub proof fn lemma_handles(&self)
        ensures
            self@ == ids_of(self.handles()),
            self@.len() == self.handles().len(),
            forall|i: int| 0 <= i < self@.len() ==> self@[i] == (#[trigger] self.handles()[i])@,
    {
    }

    /// The set of the given handles.
    pub fn new(set: Vec<Interned<T>>) -> (ordered: Self)
        ensures
            ascending(ordered@),
            ordered@.to_multiset() == ids_of(set@).to_multiset(),
            ordered@ == sorted(ids_of(set@)),
    {
        let ghost given = ids_of(set@);
        let mut set = set;
        sort_by_id(&mut set);
        proof {
            lemma_sorted(ids_of(set@), given);
        }
        InternedSet { set }
    }

    /// Number of handles held.
    pub fn len(&self) -> (len: usize)
        ensures
            len == self@.len(),
    {
        self.set.len()
    }

    /// Compares this set with a collection of another shape, by `pred`, as
    /// `set_eq_by` does.
    pub fn set_eq_by<U>(&self, rhs: &[U], pred: impl Fn(&Interned<T>, &U) -> bool) -> (same: bool)
        requires
            self.handles().len() == rhs@.len() ==> forall|i: int, j: int|
                0 <= i < self.handles().len() && 0 <= j < rhs@.len() ==> call_requires(
                    pred,
                    (&#[trigger] self.handles()[i], &#[trigger] rhs@[j]),
                ),
        ensures
            self.handles().len() != rhs@.len() ==> !same,
            self@.len() != rhs@.len() ==> !same,
            forall|related: spec_fn(Interned<T>, U) -> bool| #[trigger]
                decides(pred, self.handles(), rhs@, related) ==> same == set_eq_spec(
                    self.handles(),
                    rhs@,
                    related,
                ),
    {
        set_eq_by(self.set.as_slice(), rhs, pred)
    }

    /// The handles of the set, in ascending order of their numbers.
    pub fn as_vec(&self) -> (handles: &Vec<Interned<T>>)
        ensures
            handles@ == self.handles(),
    {
        &self.set
    }

    /// Decides whether every handle of the set is below `len`.
    pub fn all_below(&self, len: usize) -> (all: bool)
        ensures
            all == below(self@, len as nat),
    {
        let mut i: usize = 0;
        while i < self.set.len()
            invariant
                i <= self.set@.len(),
                forall|k: int| 0 <= k < i ==> #[trigger] self@[k] < len,
            decreases self.set@.len() - i,
        {
            if self.set[i].id() as usize >= len {
                assert(self@[i as int] >= len);
                return false;
            }
            i = i + 1;
        }
        true
    }

    /// The numbers of the set's handles, in order.
    pub fn ids(&self) -> (ids: Vec<u32>)
        ensures
            ids@ == self@,
            ascending(ids@),
    {
        proof {
            use_type_invariant(self);
        }
        let mut ids: Vec<u32> = Vec::new();
        let mut i: usize = 0;
        while i < self.set.len()
            invariant
                i <= self.set@.len(),
                ids@ == ids_of(self.set@).take(i as int),
            decreases self.set@.len() - i,
        {
            ids.push(self.set[i].id());
            i = i + 1;
            assert(ids@ =~= ids_of(self.set@).take(i as int));
        }
        assert(ids@ =~= ids_of(self.set@));
        ids
    }

    /// Folds the numbers of the set, in order, into a hash.
    pub fn mix_into(&self, hash: u64) -> (mixed: u64)
        ensures
            mixed == mix_ids(hash, self@),
    {
        let mut mixed: u64 = hash;
        let mut i: usize = 0;
        while i < self.set.len()
            invariant
                i <= self.set@.len(),
                mixed == mix_ids(hash, ids_of(self.set@).take(i as int)),
            decreases self.set@.len() - i,
        {
            mixed = mix_word(mixed, self.set[i].id() as u64);
            i = i + 1;
            assert(ids_of(self.set@).take(i as int).drop_last() =~= ids_of(self.set@).take(i - 1));
        }
        assert(ids_of(self.set@).take(i as int) =~= ids_of(self.set@));
        mixed
    }

    /// The run-length tokens that stand for this set. Reading them back gives
    /// the same set.
    pub fn to_tokens(&self) -> (tokens: Vec<i64>)
        ensures
            tokens@ == encode_spec(self@),
            decode_spec(tokens@) == Some(self@),
    {
        let ids = self.ids();
        proof {
            lemma_round_trip(ids@);
        }
        encode(ids.as_slice())
    }

    /// The set that run-length tokens stand for. `None` where a number would
    /// not fit in 32 bits.
    pub fn from_tokens(tokens: &[i64]) -> (read: Option<Self>)
        ensures
            decode_spec(tokens@) == match read {
                Some(set) => Some(set@),
                None => None,
            },
    {
        match decode(tokens) {
            None => None,
            Some(ids) => {
                let mut set: Vec<Interned<T>> = Vec::new();
                let mut i: usize = 0;
                while i < ids.len()
                    invariant
                        i <= ids@.len(),
                        ids_of(set@) == ids@.take(i as int),
                    decreases ids@.len() - i,
                {
                    let ghost before = set@;
                    let handle = Interned::from_id(ids[i]);
                    set.push(handle);
                    i = i + 1;
                    assert(ids_of(set@) =~= ids_of(before).push(handle@));
                    assert(ids_of(set@) =~= ids@.take(i as int));
                }
                assert(ids_of(set@) =~= ids@);
                Some(InternedSet { set })
            },
        }
    }
}

impl<T> Content for InternedSet<T> {
    open spec fn hash_of(content: Seq<u32>) -> u64 {
        mix_ids(HASH_SEED, content)
    }

    fn content_hash(&self) -> (hash: u64) {
        self.mix_into(HASH_SEED)
    }

    fn content_eq(&self, other: &Self) -> (same: bool) {
        if self.set.len() != other.set.len() {
            assert(self@.len() != other@.len());
            return false;
        }
        let mut i: usize = 0;
        while i < self.set.len()
            invariant
                i <= self.set@.len(),
                self.set@.len() == other.set@.len(),
                forall|k: int| 0 <= k < i ==> self@[k] == other@[k],
            decreases self.set@.len() - i,
        {
            if self.set[i].id() != other.set[i].id() {
                assert(self@[i as int] != other@[i as int]);
                return false;
            }
            i = i + 1;
        }
        assert(self@ =~= other@);
        true
    }
}

impl<T> PartialEq for InternedSet<T> {
    fn eq(&self, other: &Self) -> (same: bool) {
        self.content_eq(other)
    }
}

impl<T> PartialEqSpecImpl for InternedSet<T> {
    open spec fn obeys_eq_spec() -> bool {
        true
    }

    open spec fn eq_spec(&self, other: &Self) -> bool {
        self@ == other@
    }
}

impl<T> Eq for InternedSet<T> {

}

} // verus!
