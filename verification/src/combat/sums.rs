//! Sums over finite sets of keys.

use vstd::prelude::*;

verus! {

/// The sum of `f` over `keys`.
pub open spec fn sum_over<K>(keys: Set<K>, f: spec_fn(K) -> int) -> int
    decreases keys.len(),
{
    if keys.finite() && keys.len() > 0 {
        let k = keys.choose();
        f(k) + sum_over(keys.remove(k), f)
    } else {
        0
    }
}

/// Any element can be taken out of a sum first.
pub proof fn lemma_sum_remove<K>(keys: Set<K>, f: spec_fn(K) -> int, k: K)
    requires
        keys.finite(),
        keys.contains(k),
    ensures
        sum_over(keys, f) == f(k) + sum_over(keys.remove(k), f),
    decreases keys.len(),
{
    let c = keys.choose();
    if c != k {
        lemma_sum_remove(keys.remove(c), f, k);
        lemma_sum_remove(keys.remove(k), f, c);
        assert(keys.remove(c).remove(k) =~= keys.remove(k).remove(c));
    }
}

/// Adding a fresh element adds its term.
pub proof fn lemma_sum_insert<K>(keys: Set<K>, f: spec_fn(K) -> int, k: K)
    requires
        keys.finite(),
        !keys.contains(k),
    ensures
        sum_over(keys.insert(k), f) == f(k) + sum_over(keys, f),
{
    lemma_sum_remove(keys.insert(k), f, k);
    assert(keys.insert(k).remove(k) =~= keys);
}

/// A sum depends only on the terms it adds.
pub proof fn lemma_sum_same_terms<K>(keys: Set<K>, f: spec_fn(K) -> int, g: spec_fn(K) -> int)
    requires
        keys.finite(),
        forall|k: K| #[trigger] keys.contains(k) ==> f(k) == g(k),
    ensures
        sum_over(keys, f) == sum_over(keys, g),
    decreases keys.len(),
{
    if keys.len() > 0 {
        let c = keys.choose();
        lemma_sum_same_terms(keys.remove(c), f, g);
    }
}

/// A sum lies between the sums of what its terms lie between: termwise
/// `-low <= f <= high` gives `-sum low <= sum f <= sum high`.
pub proof fn lemma_sum_between<K>(
    keys: Set<K>,
    f: spec_fn(K) -> int,
    low: spec_fn(K) -> int,
    high: spec_fn(K) -> int,
)
    requires
        keys.finite(),
        forall|k: K| #[trigger] keys.contains(k) ==> -low(k) <= f(k) <= high(k),
    ensures
        -sum_over(keys, low) <= sum_over(keys, f) <= sum_over(keys, high),
    decreases keys.len(),
{
    if keys.len() > 0 {
        let c = keys.choose();
        lemma_sum_between(keys.remove(c), f, low, high);
    }
}

/// Fewer terms, none of them negative, make no larger sum.
pub proof fn lemma_sum_subset<K>(part: Set<K>, keys: Set<K>, f: spec_fn(K) -> int)
    requires
        keys.finite(),
        part.subset_of(keys),
        forall|k: K| #[trigger] keys.contains(k) ==> f(k) >= 0,
    ensures
        0 <= sum_over(part, f) <= sum_over(keys, f),
    decreases keys.len(),
{
    if keys.len() > 0 {
        let c = keys.choose();
        lemma_sum_subset(part.remove(c), keys.remove(c), f);
        if part.contains(c) {
            vstd::set_lib::lemma_set_subset_finite(keys, part);
            lemma_sum_remove(part, f, c);
        } else {
            assert(part.remove(c) =~= part);
        }
    } else {
        assert(part =~= keys);
    }
}

/// Terms that are zero can be left out of a sum.
pub proof fn lemma_sum_without_zeros<K>(part: Set<K>, keys: Set<K>, f: spec_fn(K) -> int)
    requires
        keys.finite(),
        part.subset_of(keys),
        forall|k: K| #[trigger] keys.contains(k) && !part.contains(k) ==> f(k) == 0,
    ensures
        sum_over(part, f) == sum_over(keys, f),
    decreases keys.len(),
{
    if keys.len() > 0 {
        let c = keys.choose();
        lemma_sum_without_zeros(part.remove(c), keys.remove(c), f);
        if part.contains(c) {
            vstd::set_lib::lemma_set_subset_finite(keys, part);
            lemma_sum_remove(part, f, c);
        } else {
            assert(part.remove(c) =~= part);
        }
    } else {
        assert(part =~= keys);
    }
}

} // verus!
