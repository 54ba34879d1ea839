//! The value store, and the handles that it gives out.
use crate::content::{mix, mix_word, Content, HASH_SEED};
use core::marker::PhantomData;
use std::collections::HashMap;
use vstd::prelude::*;
use core::cmp::Ordering;
use vstd::std_specs::cmp::PartialEqSpecImpl;
use vstd::std_specs::cmp::PartialOrdSpecImpl;

verus! {

/// Number of identifiers that a 32-bit handle can name.
pub open spec fn id_space() -> int {
    0x1_0000_0000
}

/// Some value of `values` has the content `content`.
pub open spec fn holds<T: View>(values: Seq<T>, content: T::V) -> bool {
    exists|i: int| 0 <= i < values.len() && (#[trigger] values[i])@ == content
}

/// No two values of `values` have the same content.
pub open spec fn distinct<T: View>(values: Seq<T>) -> bool {
    forall|i: int, j: int|
        0 <= i < values.len() && 0 <= j < values.len() && (#[trigger] values[i])@ == (
        #[trigger] values[j])@ ==> i == j
}

/// The place of the value with the content `content`, where there is one.
pub open spec fn place_of<T: View>(values: Seq<T>, content: T::V) -> int {
    choose|i: int| 0 <= i < values.len() && (#[trigger] values[i])@ == content
}

/// The values of a store after a request for `value`: unchanged where the
/// content is held already, else with `value` at the end.
pub open spec fn after_intern<T: View>(values: Seq<T>, value: T) -> Seq<T> {
    if holds(values, value@) {
        values
    } else {
        values.push(value)
    }
}

/// The two lists hold values with the same contents, place by place.
pub open spec fn same_contents<T: View>(left: Seq<T>, right: Seq<T>) -> bool {
    left.len() == right.len() && forall|i: int|
        0 <= i < left.len() ==> (#[trigger] left[i])@ == right[i]@
}

/// Two lists hold the same contents place by place exactly when their
/// contents are the same list.
pub proof fn lemma_same_contents<T: View>(left: Seq<T>, right: Seq<T>)
    ensures
        same_contents(left, right) == (contents_of(left) == contents_of(right)),
{
    if same_contents(left, right) {
        assert(contents_of(left) =~= contents_of(right));
    }
    if contents_of(left) == contents_of(right) {
        assert(left.len() == contents_of(left).len());
        assert(right.len() == contents_of(right).len());
        assert forall|i: int| 0 <= i < left.len() implies (#[trigger] left[i])@ == right[i]@ by {
            assert(contents_of(left)[i] == left[i]@);
            assert(contents_of(right)[i] == right[i]@);
        }
    }
}

/// The handle with the number `id` names a value with the content `content`.
pub open spec fn names<T: View>(values: Seq<T>, id: u32, content: T::V) -> bool {
    id < values.len() && values[id as int]@ == content
}

/// `longer` starts with all of `shorter`.
pub open spec fn extends<T>(longer: Seq<T>, shorter: Seq<T>) -> bool {
    shorter.len() <= longer.len() && forall|i: int|
        0 <= i < shorter.len() ==> #[trigger] longer[i] == shorter[i]
}

/// The contents of the values, place by place.
pub open spec fn contents_of<T: View>(values: Seq<T>) -> Seq<T::V> {
    values.map_values(|value: T| value@)
}

/// The contents that a store holds after a request for `content`: as before
/// where it is held already, else with it at the end.
pub open spec fn put<V>(held: Seq<V>, content: V) -> Seq<V> {
    if held.contains(content) {
        held
    } else {
        held.push(content)
    }
}

/// The handle that a request for `content` returns from a store that holds
/// `held`.
pub open spec fn place<V>(held: Seq<V>, content: V) -> u32 {
    put(held, content).index_of(content) as u32
}

/// A request seen through the contents alone: the store holds `put` of what
/// it held, and the handle is `place`.
pub proof fn lemma_put<T: View>(values: Seq<T>, value: T)
    requires
        distinct(values),
        holds(values, value@) || values.len() < id_space(),
        values.len() <= id_space(),
    ensures
        contents_of(after_intern(values, value)) == put(contents_of(values), value@),
        place_of(after_intern(values, value), value@) == place(contents_of(values), value@),
{
    let held = contents_of(values);
    let after = after_intern(values, value);
    if holds(values, value@) {
        let i = place_of(values, value@);
        assert(held[i] == value@);
    } else {
        if held.contains(value@) {
            let i = choose|i: int| 0 <= i < held.len() && held[i] == value@;
            assert(values[i]@ == value@);
        }
        assert(contents_of(after) =~= held.push(value@));
    }
    lemma_after_intern(values, value);
    let at = place_of(after, value@);
    let found = put(held, value@).index_of(value@);
    assert(put(held, value@)[at] == value@);
    assert(after[found]@ == value@);
}

/// The values of a store after the requests `requests`, made in order.
pub open spec fn intern_all<T: View>(values: Seq<T>, requests: Seq<T>) -> Seq<T>
    decreases requests.len(),
{
    if requests.len() == 0 {
        values
    } else {
        after_intern(intern_all(values, requests.drop_last()), requests.last())
    }
}

/// The handle that request `k` of `requests` returns, on a store that held
/// `values` before the first of them.
pub open spec fn handle_at<T: View>(values: Seq<T>, requests: Seq<T>, k: int) -> int {
    place_of(intern_all(values, requests.take(k + 1)), requests[k]@)
}

/// In a store without repeated contents, the place of a content is the one
/// place that holds it.
pub proof fn lemma_place_of<T: View>(values: Seq<T>, i: int)
    requires
        distinct(values),
        0 <= i < values.len(),
    ensures
        place_of(values, values[i]@) == i,
{
}

/// One request keeps every value in its place and repeats no content; the
/// handle it returns names a value with the requested content, so that
/// looking up what was just interned gives the same content back.
pub proof fn lemma_after_intern<T: View>(values: Seq<T>, value: T)
    requires
        distinct(values),
    ensures
        distinct(after_intern(values, value)),
        extends(after_intern(values, value), values),
        holds(after_intern(values, value), value@),
        0 <= place_of(after_intern(values, value), value@) < after_intern(values, value).len(),
        after_intern(values, value)[place_of(after_intern(values, value), value@)]@ == value@,
        !holds(values, value@) ==> place_of(after_intern(values, value), value@) == values.len(),
        forall|content: T::V| #[trigger]
            holds(values, content) ==> holds(after_intern(values, value), content) && place_of(
                after_intern(values, value),
                content,
            ) == place_of(values, content),
{
    let after = after_intern(values, value);
    if !holds(values, value@) {
        assert(after[values.len() as int]@ == value@);
        assert forall|i: int, j: int|
            0 <= i < after.len() && 0 <= j < after.len() && (#[trigger] after[i])@ == (
            #[trigger] after[j])@ implies i == j by {
            if i < values.len() && j < values.len() {
                assert(values[i]@ == values[j]@);
            } else if i < values.len() {
                assert(values[i]@ == value@);
            } else if j < values.len() {
                assert(values[j]@ == value@);
            }
        }
    }
    assert forall|content: T::V| #[trigger] holds(values, content) implies holds(after, content)
        && place_of(after, content) == place_of(values, content) by {
        let i = place_of(values, content);
        assert(after[i]@ == content);
    }
}

/// A content that a store holds is still held, at the same place, after any
/// further requests, and the store still repeats no content.
pub proof fn lemma_intern_all<T: View>(values: Seq<T>, requests: Seq<T>)
    requires
        distinct(values),
    ensures
        distinct(intern_all(values, requests)),
        extends(intern_all(values, requests), values),
        forall|content: T::V| #[trigger]
            holds(values, content) ==> holds(intern_all(values, requests), content) && place_of(
                intern_all(values, requests),
                content,
            ) == place_of(values, content),
        forall|k: int|
            0 <= k < requests.len() ==> holds(intern_all(values, requests), (#[trigger] requests[k])@),
    decreases requests.len(),
{
    let last = intern_all(values, requests);
    if requests.len() > 0 {
        let front = requests.drop_last();
        let before = intern_all(values, front);
        lemma_intern_all(values, front);
        lemma_after_intern(before, requests.last());
        assert forall|content: T::V| #[trigger] holds(values, content) implies holds(last, content)
            && place_of(last, content) == place_of(values, content) by {
            assert(holds(before, content));
        }
        assert forall|k: int| 0 <= k < requests.len() implies holds(
            last,
            (#[trigger] requests[k])@,
        ) by {
            if k < front.len() {
                assert(front[k] == requests[k]);
                assert(holds(before, front[k]@));
            }
        }
    }
}

/// The handle that a request returns is the place that its content has once
/// all requests are made.
pub proof fn lemma_handle_at<T: View>(values: Seq<T>, requests: Seq<T>, k: int)
    requires
        distinct(values),
        0 <= k < requests.len(),
    ensures
        handle_at(values, requests, k) == place_of(intern_all(values, requests), requests[k]@),
        0 <= handle_at(values, requests, k) < intern_all(values, requests).len(),
        intern_all(values, requests)[handle_at(values, requests, k)]@ == requests[k]@,
{
    let upto = requests.take(k + 1);
    lemma_intern_all(values, upto);
    assert(upto[k] == requests[k]);
    assert(holds(intern_all(values, upto), upto[k]@));
    if k + 1 == requests.len() {
        assert(upto =~= requests);
    } else {
        let rest = requests.skip(k + 1);
        lemma_intern_all_split(values, upto, rest);
        assert(upto + rest =~= requests);
        lemma_intern_all(intern_all(values, upto), rest);
    }
    lemma_intern_all(values, requests);
}

/// Requests made one after the other are requests made in two rounds.
pub proof fn lemma_intern_all_split<T: View>(values: Seq<T>, first: Seq<T>, second: Seq<T>)
    ensures
        intern_all(values, first + second) == intern_all(intern_all(values, first), second),
    decreases second.len(),
{
    if second.len() == 0 {
        assert(first + second =~= first);
    } else {
        lemma_intern_all_split(values, first, second.drop_last());
        assert((first + second).drop_last() =~= first + second.drop_last());
        assert((first + second).last() == second.last());
    }
}

/// Requests for equal contents return the same handle, and requests for
/// different contents return different handles.
pub proof fn lemma_same_handle_same_content<T: View>(
    values: Seq<T>,
    requests: Seq<T>,
    i: int,
    j: int,
)
    requires
        distinct(values),
        0 <= i < requests.len(),
        0 <= j < requests.len(),
    ensures
        (handle_at(values, requests, i) == handle_at(values, requests, j)) == (requests[i]@
            == requests[j]@),
{
    lemma_handle_at(values, requests, i);
    lemma_handle_at(values, requests, j);
    lemma_intern_all(values, requests);
}

/// In a store that repeats no content, two handles name the same content
/// exactly when they are the same handle.
pub proof fn lemma_one_handle_per_content<T: View>(values: Seq<T>, a: u32, b: u32)
    requires
        distinct(values),
        a < values.len(),
        b < values.len(),
    ensures
        (values[a as int]@ == values[b as int]@) == (a == b),
{
}

/// A handle names in a store that has grown what it named before.
pub proof fn lemma_handle_stays<T: View>(earlier: Seq<T>, later: Seq<T>, id: u32, content: T::V)
    requires
        extends(later, earlier),
        names(earlier, id, content),
    ensures
        names(later, id, content),
{
    assert(later[id as int] == earlier[id as int]);
}

/// A request for a content returns the handle that an earlier request for
/// the same content returned, whatever was requested in between: `first` is
/// a handle of the content in the store as it was, `second` one in the store
/// as it has grown.
pub proof fn lemma_same_handle_later<T: View>(
    earlier: Seq<T>,
    later: Seq<T>,
    first: u32,
    second: u32,
    content: T::V,
)
    requires
        distinct(later),
        extends(later, earlier),
        names(earlier, first, content),
        names(later, second, content),
    ensures
        first == second,
{
    lemma_handle_stays(earlier, later, first, content);
}

/// From an empty store the handles are dense from zero: every number below
/// the number of values held is the handle of some request, and a request
/// whose content is new gets the next unused number.
pub proof fn lemma_handles_dense<T: View>(requests: Seq<T>, place: int)
    requires
        0 <= place < intern_all(Seq::<T>::empty(), requests).len(),
    ensures
        exists|k: int|
            0 <= k < requests.len() && #[trigger] handle_at(Seq::<T>::empty(), requests, k)
                == place,
    decreases requests.len(),
{
    let empty = Seq::<T>::empty();
    if requests.len() > 0 {
        let front = requests.drop_last();
        let before = intern_all(empty, front);
        let k = requests.len() - 1;
        lemma_intern_all(empty, front);
        lemma_after_intern(before, requests.last());
        if place < before.len() {
            lemma_handles_dense(front, place);
            let m = choose|m: int|
                0 <= m < front.len() && #[trigger] handle_at(empty, front, m) == place;
            assert(front.take(m + 1) =~= requests.take(m + 1));
            assert(handle_at(empty, requests, m) == place);
        } else {
            assert(requests.take(k + 1) =~= requests);
            assert(handle_at(empty, requests, k) == place);
        }
    }
}

/// A handle: the number of a slot in one store of values of type `T`. It is
/// compared by that number alone and knows nothing of the store.
#[derive(Debug, Hash)]
pub struct Interned<T> {
    id: u32,
    _phantom: PhantomData<T>,
}

impl<T> View for Interned<T> {
    type V = u32;

    closed spec fn view(&self) -> u32 {
        self.id
    }
}

impl<T> Interned<T> {
    /// The handle with the number `id`, whatever store it is meant for.
    pub fn from_id(id: u32) -> (handle: Self)
        ensures
            handle@ == id,
    {
        Interned { id, _phantom: PhantomData }
    }

    /// The number of this handle.
    pub fn id(&self) -> (id: u32)
        ensures
            id == self@,
    {
        self.id
    }

    /// The handle of `value` in `interner`: that of the value with the same
    /// content, appended first where there was none. Counts one request.
    pub fn from(interner: &mut Interner<T>, value: T) -> (handle: Self) where T: Content
        requires
            old(interner).wf(),
            old(interner).request_count() < usize::MAX,
            holds(old(interner)@, value@) || old(interner)@.len() < id_space(),
        ensures
            final(interner).wf(),
            final(interner)@ == after_intern(old(interner)@, value),
            final(interner).request_count() == old(interner).request_count() + 1,
            handle@ == place_of(final(interner)@, value@),
            names(final(interner)@, handle@, value@),
            forall|other: u32| #[trigger]
                names(final(interner)@, other, value@) ==> other == handle@,
            forall|other: u32, content: T::V| #[trigger]
                names(old(interner)@, other, content) ==> names(final(interner)@, other, content),
            distinct(final(interner)@),
            extends(final(interner)@, old(interner)@),
            holds(old(interner)@, value@) ==> final(interner)@ == old(interner)@,
            !holds(old(interner)@, value@) ==> handle@ == old(interner)@.len() && final(interner)@
                == old(interner)@.push(value),
    {
        let id: u32 = interner.intern(value);
        Interned { id, _phantom: PhantomData }
    }

    /// The value that this handle names in `interner`.
    pub fn lookup<'a>(&self, interner: &'a Interner<T>) -> (value: &'a T) where T: Content
        requires
            self@ < interner@.len(),
        ensures
            *value == interner@[self@ as int],
    {
        interner.lookup(self.id)
    }

    /// Compares the value that this handle names in `interner` with a value
    /// of another shape, by that value's own comparison.
    pub fn eq_with_more<U, Helper>(&self, other: &U, interner: &Interner<T>, helper: &Helper) -> (same:
        bool) where T: Content + EqWith<U, Helper>
        requires
            self@ < interner@.len(),
            interner@[self@ as int].resolvable(helper),
        ensures
            same == interner@[self@ as int].eq_with_spec(other, helper),
    {
        self.lookup(interner).eq_with(other, helper)
    }

    /// Two handles with the same number are the same handle.
    pub proof fn lemma_same_id(a: Self, b: Self)
        requires
            a@ == b@,
        ensures
            a == b,
    {
    }
}

impl<T> PartialEq for Interned<T> {
    fn eq(&self, other: &Self) -> (same: bool) {
        self.id == other.id
    }
}

impl<T> PartialEqSpecImpl for Interned<T> {
    open spec fn obeys_eq_spec() -> bool {
        true
    }

    open spec fn eq_spec(&self, other: &Self) -> bool {
        self@ == other@
    }
}

impl<T> Eq for Interned<T> {

}

impl<T> PartialOrd for Interned<T> {
    fn partial_cmp(&self, other: &Self) -> (order: Option<Ordering>) {
        if self.id < other.id {
            Some(Ordering::Less)
        } else if self.id == other.id {
            Some(Ordering::Equal)
        } else {
            Some(Ordering::Greater)
        }
    }
}

impl<T> PartialOrdSpecImpl for Interned<T> {
    open spec fn obeys_partial_cmp_spec() -> bool {
        true
    }

    open spec fn partial_cmp_spec(&self, other: &Self) -> Option<Ordering> {
        if self@ < other@ {
            Some(Ordering::Less)
        } else if self@ == other@ {
            Some(Ordering::Equal)
        } else {
            Some(Ordering::Greater)
        }
    }
}

impl<T> Content for Interned<T> {
    open spec fn hash_of(content: u32) -> u64 {
        mix(HASH_SEED, content as u64)
    }

    fn content_hash(&self) -> (hash: u64) {
        mix_word(HASH_SEED, self.id as u64)
    }

    fn content_eq(&self, other: &Self) -> (same: bool) {
        self.id == other.id
    }
}

impl<T: Content> PartialEq for Interner<T> {
    fn eq(&self, other: &Self) -> (same: bool) {
        if self.vec.len() != other.vec.len() {
            return false;
        }
        let mut i: usize = 0;
        while i < self.vec.len()
            invariant
                i <= self.vec@.len(),
                self.vec@.len() == other.vec@.len(),
                forall|k: int| 0 <= k < i ==> self.vec@[k]@ == other.vec@[k]@,
            decreases self.vec@.len() - i,
        {
            if !self.vec[i].content_eq(&other.vec[i]) {
                return false;
            }
            i = i + 1;
        }
        true
    }
}

impl<T: Content> PartialEqSpecImpl for Interner<T> {
    open spec fn obeys_eq_spec() -> bool {
        true
    }

    open spec fn eq_spec(&self, other: &Self) -> bool {
        same_contents(self@, other@)
    }
}

impl<T: Content> Eq for Interner<T> {

}

impl<T: Content> Default for Interner<T> {
    fn default() -> (store: Self)
        ensures
            store.wf(),
            store@.len() == 0,
            store.request_count() == 0,
    {
        Self::new()
    }
}

/// Equality with a value of another shape, decided with the help of a
/// context: the stores that the handles inside `self` point into.
pub trait EqWith<Rhs, Helper> {
    /// Every handle that the comparison follows names a value in `helper`.
    spec fn resolvable(&self, helper: &Helper) -> bool;

    /// `self`, read through `helper`, says what `other` says.
    spec fn eq_with_spec(&self, other: &Rhs, helper: &Helper) -> bool;

    /// Decides `eq_with_spec`.
    fn eq_with(&self, other: &Rhs, helper: &Helper) -> (same: bool)
        requires
            self.resolvable(helper),
        ensures
            same == self.eq_with_spec(other, helper),
    ;
}

impl<T: Content> EqWith<T, Interner<T>> for Interned<T> {
    open spec fn resolvable(&self, helper: &Interner<T>) -> bool {
        self@ < helper@.len()
    }

    open spec fn eq_with_spec(&self, other: &T, helper: &Interner<T>) -> bool {
        helper@[self@ as int]@ == other@
    }

    fn eq_with(&self, other: &T, interner: &Interner<T>) -> (same: bool) {
        self.lookup(interner).content_eq(other)
    }
}

/// The value at `i` is listed in the index under the hash of its content.
spec fn indexed<T: Content>(values: Seq<T>, index: Map<u64, Vec<u32>>, i: int) -> bool {
    let hash = T::hash_of(values[i]@);
    index.contains_key(hash) && index[hash]@.contains(i as u32)
}

/// The entry `k` under `hash` names a value whose content has that hash.
spec fn listed<T: Content>(
    values: Seq<T>,
    index: Map<u64, Vec<u32>>,
    hash: u64,
    k: int,
) -> bool {
    let id = index[hash]@[k];
    id < values.len() && T::hash_of(values[id as int]@) == hash
}

/// A store of values of one type: each content once, in the order of first
/// request, found again by its place.
#[derive(Debug)]
pub struct Interner<T> {
    vec: Vec<T>,
    map: HashMap<u64, Vec<u32>>,
    references: usize,
}

impl<T> View for Interner<T> {
    type V = Seq<T>;

    closed spec fn view(&self) -> Seq<T> {
        self.vec@
    }
}

impl<T: Content> Interner<T> {
    /// The store's invariant: at most `id_space()` values, no content twice,
    /// and an index that lists each value under the hash of its content.
    pub closed spec fn wf(&self) -> bool {
        &&& self.vec@.len() <= id_space()
        &&& distinct(self.vec@)
        &&& forall|i: int| 0 <= i < self.vec@.len() ==> #[trigger] indexed(self.vec@, self.map@, i)
        &&& forall|hash: u64, k: int|
            self.map@.contains_key(hash) && 0 <= k < self.map@[hash]@.len() ==> #[trigger] listed(
                self.vec@,
                self.map@,
                hash,
                k,
            )
    }

    /// Number of requests made so far, found or not.
    pub closed spec fn request_count(&self) -> nat {
        self.references as nat
    }

    /// Number of further requests that are certain to fit.
    pub open spec fn spare(&self) -> int {
        if id_space() - self@.len() <= usize::MAX - self.request_count() {
            id_space() - self@.len()
        } else {
            usize::MAX - self.request_count()
        }
    }

    /// A well-formed store holds no content twice, and no more values than
    /// there are identifiers.
    pub proof fn lemma_wf(&self)
        requires
            self.wf(),
        ensures
            distinct(self@),
            self@.len() <= id_space(),
    {
    }

    /// An empty store.
    pub fn new() -> (store: Self)
        ensures
            store.wf(),
            store@.len() == 0,
            store.request_count() == 0,
    {
        let store = Interner { vec: Vec::new(), map: HashMap::new(), references: 0 };
        assert(store.map@ =~= Map::<u64, Vec<u32>>::empty());
        store
    }

    /// Number of values held.
    pub fn len(&self) -> (len: usize)
        ensures
            len == self@.len(),
    {
        self.vec.len()
    }

    /// Number of requests made so far.
    pub fn references(&self) -> (count: usize)
        ensures
            count == self.request_count(),
    {
        self.references
    }

    /// Number of further requests that are certain to fit.
    pub fn room(&self) -> (room: usize)
        requires
            self.wf(),
        ensures
            room == self.spare(),
    {
        let counted: usize = usize::MAX - self.references;
        let len: usize = self.vec.len();
        if len as u64 <= 0xffff_ffff {
            let free: u64 = 0x1_0000_0000 - len as u64;
            if free <= counted as u64 {
                free as usize
            } else {
                counted
            }
        } else {
            0
        }
    }

    /// Looks for a value with the content of `value`, whose hash is `hash`.
    fn find(&self, value: &T, hash: u64) -> (found: Option<u32>)
        requires
            self.wf(),
            hash == T::hash_of(value@),
        ensures
            match found {
                Some(id) => id < self@.len() && self@[id as int]@ == value@,
                None => !holds(self@, value@),
            },
    {
        match self.map.get(&hash) {
            None => {
                assert forall|i: int| 0 <= i < self.vec@.len() implies (#[trigger] self.vec@[i])@
                    != value@ by {
                    assert(indexed(self.vec@, self.map@, i));
                }
                None
            },
            Some(bucket) => {
                let mut k: usize = 0;
                while k < bucket.len()
                    invariant
                        k <= bucket.len(),
                        self.wf(),
                        self.map@.contains_key(hash),
                        bucket@ == self.map@[hash]@,
                        forall|m: int| 0 <= m < k ==> self.vec@[bucket@[m] as int]@ != value@,
                    decreases bucket.len() - k,
                {
                    let id: u32 = bucket[k];
                    assert(listed(self.vec@, self.map@, hash, k as int));
                    if self.vec[id as usize].content_eq(value) {
                        return Some(id);
                    }
                    k = k + 1;
                }
                assert forall|i: int| 0 <= i < self.vec@.len() implies (#[trigger] self.vec@[i])@
                    != value@ by {
                    assert(indexed(self.vec@, self.map@, i));
                    if self.vec@[i]@ == value@ {
                        let m = choose|m: int| 0 <= m < bucket@.len() && bucket@[m] == i as u32;
                        assert(self.vec@[bucket@[m] as int]@ != value@);
                    }
                }
                None
            },
        }
    }

    /// Appends `value` without looking for its content first. For rebuilding
    /// a store from values that are known to differ.
    pub fn push(&mut self, value: T) -> (id: u32)
        requires
            old(self).wf(),
            !holds(old(self)@, value@),
            old(self)@.len() < id_space(),
        ensures
            final(self).wf(),
            final(self)@ == old(self)@.push(value),
            final(self).request_count() == old(self).request_count(),
            id == old(self)@.len(),
    {
        let id: u32 = self.vec.len() as u32;
        let hash: u64 = value.content_hash();
        let ghost before = *self;
        self.vec.push(value);
        let mut bucket: Vec<u32> = match self.map.remove(&hash) {
            Some(bucket) => bucket,
            None => Vec::new(),
        };
        let ghost listed_before = bucket@;
        bucket.push(id);
        self.map.insert(hash, bucket);
        proof {
            assert(before.map@.contains_key(hash) ==> listed_before == before.map@[hash]@);
            assert(!before.map@.contains_key(hash) ==> listed_before.len() == 0);
            assert(self.map@[hash]@ == listed_before.push(id));
            assert forall|i: int| 0 <= i < self.vec@.len() implies #[trigger] indexed(
                self.vec@,
                self.map@,
                i,
            ) by {
                if i < before.vec@.len() {
                    assert(indexed(before.vec@, before.map@, i));
                    let h = T::hash_of(before.vec@[i]@);
                    if h == hash {
                        let m = choose|m: int|
                            0 <= m < listed_before.len() && listed_before[m] == i as u32;
                        assert(self.map@[hash]@[m] == i as u32);
                    }
                } else {
                    assert(self.map@[hash]@[listed_before.len() as int] == id);
                }
            }
            assert forall|h: u64, k: int|
                self.map@.contains_key(h) && 0 <= k < self.map@[h]@.len() implies #[trigger] listed(
                self.vec@,
                self.map@,
                h,
                k,
            ) by {
                if h == hash {
                    if k < listed_before.len() {
                        assert(listed(before.vec@, before.map@, h, k));
                    }
                } else {
                    assert(listed(before.vec@, before.map@, h, k));
                }
            }
            assert(distinct(self.vec@)) by {
                assert forall|i: int, j: int|
                    0 <= i < self.vec@.len() && 0 <= j < self.vec@.len() && (
                    #[trigger] self.vec@[i])@ == (#[trigger] self.vec@[j])@ implies i == j by {
                    if i < before.vec@.len() && j < before.vec@.len() {
                        assert(before.vec@[i]@ == before.vec@[j]@);
                    } else if i < before.vec@.len() {
                        assert(before.vec@[i]@ == value@);
                    } else if j < before.vec@.len() {
                        assert(before.vec@[j]@ == value@);
                    }
                }
            }
        }
        id
    }

    /// Returns the place of the value with the content of `value`, after
    /// appending `value` where no value had that content. Counts one request.
    /// A content that is held keeps its place and the store stays as it is;
    /// a new content gets the next number, which is the number of values
    /// held before. No other handle names that content, and every handle
    /// names what it named.
    pub fn intern(&mut self, value: T) -> (id: u32)
        requires
            old(self).wf(),
            old(self).request_count() < usize::MAX,
            holds(old(self)@, value@) || old(self)@.len() < id_space(),
        ensures
            final(self).wf(),
            final(self)@ == after_intern(old(self)@, value),
            final(self).request_count() == old(self).request_count() + 1,
            id == place_of(final(self)@, value@),
            names(final(self)@, id, value@),
            forall|other: u32| #[trigger] names(final(self)@, other, value@) ==> other == id,
            forall|other: u32, content: T::V| #[trigger]
                names(old(self)@, other, content) ==> names(final(self)@, other, content),
            distinct(final(self)@),
            extends(final(self)@, old(self)@),
            holds(old(self)@, value@) ==> final(self)@ == old(self)@,
            !holds(old(self)@, value@) ==> id == old(self)@.len() && final(self)@ == old(self)@.push(
                value,
            ),
    {
        self.references = self.references + 1;
        let hash: u64 = value.content_hash();
        let found = self.find(&value, hash);
        let id: u32 = match found {
            Some(id) => id,
            None => self.push(value),
        };
        proof {
            let at = place_of(self@, value@);
            assert(self@[id as int]@ == value@);
            assert(self@[at]@ == value@);
        }
        id
    }

    /// The values held, in the order of their handles: what is written down
    /// of a store.
    pub fn values(&self) -> (values: &Vec<T>)
        ensures
            values@ == self@,
    {
        &self.vec
    }

    /// The store of the given values, each at the place it has in the list:
    /// how a store that was written down is rebuilt. `None` where two of the
    /// values have the same content, or there are more values than handles.
    /// The values of a well-formed store always give that store back.
    pub fn from_values(values: Vec<T>) -> (rebuilt: Option<Self>)
        ensures
            match rebuilt {
                Some(store) => {
                    &&& store.wf()
                    &&& store@ == values@
                    &&& store.request_count() == 0
                    &&& distinct(values@)
                    &&& values@.len() <= id_space()
                },
                None => !distinct(values@) || values@.len() > id_space(),
            },
    {
        let mut store: Self = Self::new();
        let ghost all = values@;
        for value in it: values
            invariant
                it.seq() == all,
                all == values@,
                store.wf(),
                store@ == all.take(it.index()),
                store.request_count() == 0,
        {
            if store.len() > 0xffff_ffff {
                return None;
            }
            let hash: u64 = value.content_hash();
            let ghost held = store@;
            match store.find(&value, hash) {
                Some(id) => {
                    assert(all[id as int]@ == all[it.index()]@);
                    return None;
                },
                None => {
                    store.push(value);
                },
            }
            assert(store@ =~= all.take(it.index() + 1));
        }
        assert(store@ =~= all);
        Some(store)
    }

    /// The value at `id`.
    pub fn lookup(&self, id: u32) -> (value: &T)
        requires
            id < self@.len(),
        ensures
            *value == self@[id as int],
    {
        &self.vec[id as usize]
    }
}

} // verus!
