//! What the first-come, first-served comparison of two collections answers:
//! for collections of at most one element, and for every relation that comes
//! from a key on each side.
use crate::set::{first_match, matches_from, none_used, set_eq_spec};
use vstd::multiset::Multiset;
use vstd::prelude::*;

verus! {

/// Two elements are related where they have the same key.
pub open spec fn same_key<T, U, K>(left: spec_fn(T) -> K, right: spec_fn(U) -> K) -> spec_fn(
    T,
    U,
) -> bool {
    |x: T, y: U| left(x) == right(y)
}

/// The keys of the elements of `rhs` that are not used, each as often as it
/// comes.
pub open spec fn free_keys<U, K>(rhs: Seq<U>, used: Seq<bool>, right: spec_fn(U) -> K) -> Multiset<K>
    decreases rhs.len(),
{
    if rhs.len() == 0 {
        Multiset::empty()
    } else if used.last() {
        free_keys(rhs.drop_last(), used.drop_last(), right)
    } else {
        free_keys(rhs.drop_last(), used.drop_last(), right).insert(right(rhs.last()))
    }
}

/// The keys of the elements of `lhs` from `i` on, each as often as it comes.
pub open spec fn keys_from<T, K>(lhs: Seq<T>, left: spec_fn(T) -> K, i: int) -> Multiset<K> {
    lhs.skip(i).map_values(left).to_multiset()
}

/// Two collections of at most one element are equal as sets exactly when
/// both are empty, or both hold one element and the two are related.
pub proof fn lemma_set_eq_of_at_most_one<T, U>(
    lhs: Seq<T>,
    rhs: Seq<U>,
    related: spec_fn(T, U) -> bool,
)
    requires
        lhs.len() <= 1,
        rhs.len() <= 1,
    ensures
        set_eq_spec(lhs, rhs, related) == (lhs.len() == rhs.len() && (lhs.len() == 1 ==> related(
            lhs[0],
            rhs[0],
        ))),
{
    reveal_with_fuel(matches_from, 3);
    reveal_with_fuel(first_match, 3);
}

/// Collections of different lengths are never equal as sets.
pub proof fn lemma_set_eq_needs_equal_lengths<T, U>(
    lhs: Seq<T>,
    rhs: Seq<U>,
    related: spec_fn(T, U) -> bool,
)
    requires
        lhs.len() != rhs.len(),
    ensures
        !set_eq_spec(lhs, rhs, related),
{
}

/// An empty list has no keys.
proof fn lemma_no_keys<K>(keys: Seq<K>)
    requires
        keys.len() == 0,
    ensures
        keys.to_multiset() =~= Multiset::empty(),
{
    keys.to_multiset_ensures();
    vstd::multiset::lemma_multiset_empty_len(keys.to_multiset());
}

/// Where no unused element from `from` on has the key, the search finds
/// none; else it finds the first such element.
proof fn lemma_first_match<T, U, K>(
    x: T,
    rhs: Seq<U>,
    used: Seq<bool>,
    left: spec_fn(T) -> K,
    right: spec_fn(U) -> K,
    from: int,
)
    requires
        0 <= from <= rhs.len(),
        used.len() == rhs.len(),
    ensures
        from <= first_match(x, rhs, used, same_key(left, right), from) <= rhs.len(),
        first_match(x, rhs, used, same_key(left, right), from) < rhs.len() ==> {
            let j = first_match(x, rhs, used, same_key(left, right), from);
            !used[j] && right(rhs[j]) == left(x)
        },
        forall|m: int|
            from <= m < first_match(x, rhs, used, same_key(left, right), from) ==> used[m] || right(
                #[trigger] rhs[m],
            ) != left(x),
    decreases rhs.len() - from,
{
    if from < rhs.len() && !(!used[from] && same_key(left, right)(x, rhs[from])) {
        lemma_first_match(x, rhs, used, left, right, from + 1);
    }
}

/// A key that no unused element has does not come among the free keys.
proof fn lemma_free_keys_without<U, K>(rhs: Seq<U>, used: Seq<bool>, right: spec_fn(U) -> K, key: K)
    requires
        used.len() == rhs.len(),
        forall|m: int| 0 <= m < rhs.len() ==> used[m] || right(#[trigger] rhs[m]) != key,
    ensures
        free_keys(rhs, used, right).count(key) == 0,
    decreases rhs.len(),
{
    if rhs.len() > 0 {
        let last = rhs.len() - 1;
        assert(used[last] || right(rhs[last]) != key);
        assert forall|m: int| 0 <= m < rhs.drop_last().len() implies used.drop_last()[m] || right(
            #[trigger] rhs.drop_last()[m],
        ) != key by {
            assert(used[m] || right(rhs[m]) != key);
        }
        lemma_free_keys_without(rhs.drop_last(), used.drop_last(), right, key);
    }
}

/// Using an element takes its key out of the free keys, once.
proof fn lemma_free_keys_taken<U, K>(rhs: Seq<U>, used: Seq<bool>, right: spec_fn(U) -> K, j: int)
    requires
        used.len() == rhs.len(),
        0 <= j < rhs.len(),
        !used[j],
    ensures
        free_keys(rhs, used, right).count(right(rhs[j])) >= 1,
        free_keys(rhs, used.update(j, true), right) =~= free_keys(rhs, used, right).remove(
            right(rhs[j]),
        ),
    decreases rhs.len(),
{
    let last = rhs.len() - 1;
    let taken = used.update(j, true);
    if j == last {
        assert(taken.drop_last() =~= used.drop_last());
    } else {
        assert(taken.drop_last() =~= used.drop_last().update(j, true));
        assert(rhs.drop_last()[j] == rhs[j]);
        lemma_free_keys_taken(rhs.drop_last(), used.drop_last(), right, j);
    }
}

/// With nothing used, the free keys are all the keys.
proof fn lemma_free_keys_all<U, K>(rhs: Seq<U>, right: spec_fn(U) -> K)
    ensures
        free_keys(rhs, none_used(rhs.len()), right) =~= rhs.map_values(right).to_multiset(),
    decreases rhs.len(),
{
    if rhs.len() == 0 {
        lemma_no_keys(rhs.map_values(right));
    } else {
        let front = rhs.drop_last();
        lemma_free_keys_all(front, right);
        assert(none_used(rhs.len()).drop_last() =~= none_used(front.len()));
        assert(rhs.map_values(right) =~= front.map_values(right).push(right(rhs.last())));
        front.map_values(right).to_multiset_ensures();
    }
}

/// The keys from `i` on are the key of the element at `i` and the keys after
/// it.
proof fn lemma_keys_from<T, K>(lhs: Seq<T>, left: spec_fn(T) -> K, i: int)
    requires
        0 <= i < lhs.len(),
    ensures
        keys_from(lhs, left, i) =~= keys_from(lhs, left, i + 1).insert(left(lhs[i])),
{
    let keys = lhs.skip(i).map_values(left);
    let key = left(lhs[i]);
    keys.to_multiset_ensures();
    assert(keys[0] == key);
    assert(keys.contains(key));
    assert(keys.remove(0) =~= lhs.skip(i + 1).map_values(left));
    assert(keys_from(lhs, left, i + 1) =~= keys.to_multiset().remove(key));
}

/// The elements from `i` on all find partners exactly when each of their
/// keys comes as often among the free keys, at least.
proof fn lemma_matches_from<T, U, K>(
    lhs: Seq<T>,
    rhs: Seq<U>,
    used: Seq<bool>,
    left: spec_fn(T) -> K,
    right: spec_fn(U) -> K,
    i: int,
)
    requires
        0 <= i <= lhs.len(),
        used.len() == rhs.len(),
    ensures
        matches_from(lhs, rhs, used, same_key(left, right), i) == keys_from(lhs, left, i).subset_of(
            free_keys(rhs, used, right),
        ),
    decreases lhs.len() - i,
{
    let free = free_keys(rhs, used, right);
    if i >= lhs.len() {
        lemma_no_keys(lhs.skip(i).map_values(left));
    } else {
        let key = left(lhs[i]);
        let rest = keys_from(lhs, left, i + 1);
        let j = first_match(lhs[i], rhs, used, same_key(left, right), 0);
        lemma_keys_from(lhs, left, i);
        lemma_first_match(lhs[i], rhs, used, left, right, 0);
        if j >= rhs.len() {
            lemma_free_keys_without(rhs, used, right, key);
            assert(rest.insert(key).count(key) > free.count(key));
        } else {
            let taken = used.update(j, true);
            lemma_free_keys_taken(rhs, used, right, j);
            lemma_matches_from(lhs, rhs, taken, left, right, i + 1);
            let fewer = free.remove(key);
            if rest.subset_of(fewer) {
                assert forall|k: K| rest.insert(key).count(k) <= free.count(k) by {
                    assert(rest.count(k) <= fewer.count(k));
                }
            }
            if rest.insert(key).subset_of(free) {
                assert forall|k: K| rest.count(k) <= fewer.count(k) by {
                    assert(rest.insert(key).count(k) <= free.count(k));
                }
            }
        }
    }
}

/// Of two collections of equal size, one that holds no value more often
/// than the other holds each value as often.
proof fn lemma_subset_of_equal_size<K>(small: Multiset<K>, large: Multiset<K>)
    requires
        small.subset_of(large),
        small.len() == large.len(),
    ensures
        small =~= large,
{
    let spare = large.sub(small);
    vstd::multiset::axiom_len_sub(large, small);
    vstd::multiset::lemma_multiset_empty_len(spare);
    assert forall|k: K| small.count(k) == large.count(k) by {
        vstd::multiset::axiom_multiset_sub(large, small, k);
        assert(spare.count(k) == 0);
        assert(small.count(k) <= large.count(k));
    }
}

/// Under a relation that comes from a key on each side, two collections are
/// equal as sets exactly when they hold the same keys, each as often: in
/// whatever order the collections come, and not where an element of one has
/// no partner in the other or the sizes differ.
pub proof fn lemma_set_eq_by_keys<T, U, K>(
    lhs: Seq<T>,
    rhs: Seq<U>,
    left: spec_fn(T) -> K,
    right: spec_fn(U) -> K,
)
    ensures
        set_eq_spec(lhs, rhs, same_key(left, right)) == (lhs.map_values(left).to_multiset()
            == rhs.map_values(right).to_multiset()),
{
    let mine = lhs.map_values(left).to_multiset();
    let theirs = rhs.map_values(right).to_multiset();
    lhs.map_values(left).to_multiset_ensures();
    rhs.map_values(right).to_multiset_ensures();
    lemma_free_keys_all(rhs, right);
    lemma_matches_from(lhs, rhs, none_used(rhs.len()), left, right, 0);
    assert(lhs.skip(0) =~= lhs);
    if mine == theirs {
        assert(lhs.len() == rhs.len());
    }
    if lhs.len() == rhs.len() && mine.subset_of(theirs) {
        lemma_subset_of_equal_size(mine, theirs);
    }
}

/// The search for a partner depends on the relation only through what it
/// says of the elements at hand.
proof fn lemma_first_match_same<T, U>(
    x: T,
    rhs: Seq<U>,
    used: Seq<bool>,
    first: spec_fn(T, U) -> bool,
    second: spec_fn(T, U) -> bool,
    from: int,
)
    requires
        0 <= from,
        forall|j: int| 0 <= j < rhs.len() ==> first(x, #[trigger] rhs[j]) == second(x, rhs[j]),
    ensures
        first_match(x, rhs, used, first, from) == first_match(x, rhs, used, second, from),
    decreases rhs.len() - from,
{
    if from < rhs.len() {
        assert(first(x, rhs[from]) == second(x, rhs[from]));
        lemma_first_match_same(x, rhs, used, first, second, from + 1);
    }
}

/// The pairing depends on the relation only through what it says of the
/// elements at hand.
proof fn lemma_matches_from_same<T, U>(
    lhs: Seq<T>,
    rhs: Seq<U>,
    used: Seq<bool>,
    first: spec_fn(T, U) -> bool,
    second: spec_fn(T, U) -> bool,
    i: int,
)
    requires
        0 <= i,
        forall|i: int, j: int|
            0 <= i < lhs.len() && 0 <= j < rhs.len() ==> first(#[trigger] lhs[i], #[trigger] rhs[j])
                == second(lhs[i], rhs[j]),
    ensures
        matches_from(lhs, rhs, used, first, i) == matches_from(lhs, rhs, used, second, i),
    decreases lhs.len() - i,
{
    if i < lhs.len() {
        assert forall|j: int| 0 <= j < rhs.len() implies first(lhs[i], #[trigger] rhs[j]) == second(
            lhs[i],
            rhs[j],
        ) by {
            assert(first(lhs[i], rhs[j]) == second(lhs[i], rhs[j]));
        }
        lemma_first_match_same(lhs[i], rhs, used, first, second, 0);
        let j = first_match(lhs[i], rhs, used, first, 0);
        lemma_matches_from_same(lhs, rhs, used.update(j, true), first, second, i + 1);
    }
}

/// Two relations that say the same of the elements at hand give the same
/// answer.
pub proof fn lemma_set_eq_same_relation<T, U>(
    lhs: Seq<T>,
    rhs: Seq<U>,
    first: spec_fn(T, U) -> bool,
    second: spec_fn(T, U) -> bool,
)
    requires
        forall|i: int, j: int|
            0 <= i < lhs.len() && 0 <= j < rhs.len() ==> first(#[trigger] lhs[i], #[trigger] rhs[j])
                == second(lhs[i], rhs[j]),
    ensures
        set_eq_spec(lhs, rhs, first) == set_eq_spec(lhs, rhs, second),
{
    lemma_matches_from_same(lhs, rhs, none_used(rhs.len()), first, second, 0);
}

/// Two lists that hold the same values, each as often, still do after the
/// same function is applied to every value.
pub proof fn lemma_map_keeps_multiset<A, B>(a: Seq<A>, b: Seq<A>, f: spec_fn(A) -> B)
    requires
        a.to_multiset() == b.to_multiset(),
    ensures
        a.map_values(f).to_multiset() == b.map_values(f).to_multiset(),
    decreases a.len(),
{
    a.to_multiset_ensures();
    b.to_multiset_ensures();
    if a.len() == 0 {
        lemma_no_keys(a.map_values(f));
        lemma_no_keys(b.map_values(f));
    } else {
        let last = a.len() - 1;
        let x = a[last];
        assert(a.contains(x));
        assert(a.to_multiset().count(x) > 0);
        assert(b.contains(x));
        let j = choose|j: int| 0 <= j < b.len() && b[j] == x;
        let shorter = a.remove(last);
        let other = b.remove(j);
        lemma_map_keeps_multiset(shorter, other, f);
        let mapped = a.map_values(f);
        let others = b.map_values(f);
        mapped.to_multiset_ensures();
        others.to_multiset_ensures();
        assert(mapped.remove(last) =~= shorter.map_values(f));
        assert(others.remove(j) =~= other.map_values(f));
        assert(mapped[last] == f(x));
        assert(others[j] == f(x));
        assert(mapped.contains(f(x)));
        assert(others.contains(f(x)));
        assert(mapped.to_multiset() =~= shorter.map_values(f).to_multiset().insert(f(x)));
        assert(others.to_multiset() =~= other.map_values(f).to_multiset().insert(f(x)));
    }
}

/// The partners that the elements of `lhs` from `i` on take, in order.
pub open spec fn partners_from<T, U>(
    lhs: Seq<T>,
    rhs: Seq<U>,
    used: Seq<bool>,
    related: spec_fn(T, U) -> bool,
    i: int,
) -> Seq<int>
    decreases lhs.len() - i,
{
    if i >= lhs.len() {
        Seq::empty()
    } else {
        let j = first_match(lhs[i], rhs, used, related, 0);
        seq![j] + partners_from(lhs, rhs, used.update(j, true), related, i + 1)
    }
}

/// `pairing` gives each element of `lhs` a partner of its own in `rhs` that
/// it is related to.
pub open spec fn pairs_off<T, U>(
    pairing: Seq<int>,
    lhs: Seq<T>,
    rhs: Seq<U>,
    related: spec_fn(T, U) -> bool,
) -> bool {
    &&& pairing.len() == lhs.len()
    &&& forall|i: int|
        0 <= i < lhs.len() ==> 0 <= #[trigger] pairing[i] < rhs.len() && related(
            lhs[i],
            rhs[pairing[i]],
        )
    &&& forall|i: int, k: int|
        0 <= i < k < lhs.len() ==> #[trigger] pairing[i] != #[trigger] pairing[k]
}

/// The search finds an element that is not used and is related, or none.
proof fn lemma_first_match_found<T, U>(
    x: T,
    rhs: Seq<U>,
    used: Seq<bool>,
    related: spec_fn(T, U) -> bool,
    from: int,
)
    requires
        0 <= from <= rhs.len(),
        used.len() == rhs.len(),
    ensures
        from <= first_match(x, rhs, used, related, from) <= rhs.len(),
        first_match(x, rhs, used, related, from) < rhs.len() ==> {
            let j = first_match(x, rhs, used, related, from);
            !used[j] && related(x, rhs[j])
        },
    decreases rhs.len() - from,
{
    if from < rhs.len() && !(!used[from] && related(x, rhs[from])) {
        lemma_first_match_found(x, rhs, used, related, from + 1);
    }
}

/// Where the elements from `i` on all find partners, the partners are
/// related to them, were not used before, and are all different.
proof fn lemma_partners_from<T, U>(
    lhs: Seq<T>,
    rhs: Seq<U>,
    used: Seq<bool>,
    related: spec_fn(T, U) -> bool,
    i: int,
)
    requires
        0 <= i <= lhs.len(),
        used.len() == rhs.len(),
        matches_from(lhs, rhs, used, related, i),
    ensures
        partners_from(lhs, rhs, used, related, i).len() == lhs.len() - i,
        forall|k: int|
            0 <= k < lhs.len() - i ==> {
                let j = #[trigger] partners_from(lhs, rhs, used, related, i)[k];
                0 <= j < rhs.len() && !used[j] && related(lhs[i + k], rhs[j])
            },
        forall|k: int, m: int|
            0 <= k < m < lhs.len() - i ==> #[trigger] partners_from(lhs, rhs, used, related, i)[k]
                != #[trigger] partners_from(lhs, rhs, used, related, i)[m],
    decreases lhs.len() - i,
{
    if i < lhs.len() {
        let j = first_match(lhs[i], rhs, used, related, 0);
        let taken = used.update(j, true);
        let rest = partners_from(lhs, rhs, taken, related, i + 1);
        let all = partners_from(lhs, rhs, used, related, i);
        lemma_first_match_found(lhs[i], rhs, used, related, 0);
        lemma_partners_from(lhs, rhs, taken, related, i + 1);
        assert(all =~= seq![j] + rest);
        assert forall|k: int| 0 <= k < lhs.len() - i implies {
            let p = #[trigger] all[k];
            0 <= p < rhs.len() && !used[p] && related(lhs[i + k], rhs[p])
        } by {
            if k > 0 {
                let p = rest[k - 1];
                assert(all[k] == p);
                assert(!taken[p]);
            }
        }
        assert forall|k: int, m: int| 0 <= k < m < lhs.len() - i implies #[trigger] all[k]
            != #[trigger] all[m] by {
            assert(all[m] == rest[m - 1]);
            assert(!taken[rest[m - 1]]);
            if k > 0 {
                assert(all[k] == rest[k - 1]);
            }
        }
    }
}

/// A yes is never wrong: where two collections are equal as sets under a
/// relation, whatever the relation, each element of the one has a partner of
/// its own in the other that it is related to.
pub proof fn lemma_set_eq_pairs_off<T, U>(lhs: Seq<T>, rhs: Seq<U>, related: spec_fn(T, U) -> bool)
    requires
        set_eq_spec(lhs, rhs, related),
    ensures
        lhs.len() == rhs.len(),
        exists|pairing: Seq<int>| #[trigger] pairs_off(pairing, lhs, rhs, related),
{
    let free = none_used(rhs.len());
    lemma_partners_from(lhs, rhs, free, related, 0);
    let pairing = partners_from(lhs, rhs, free, related, 0);
    assert(pairs_off(pairing, lhs, rhs, related));
}

} // verus!
