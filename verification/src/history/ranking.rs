//! Arranging things by a number, largest first.

use vstd::prelude::*;

verus! {

/// Whether the thing at `a` comes before the thing at `b`: the larger key first,
/// and among equal keys the one that stood first.
pub open spec fn ranks_before(keys: Seq<i64>, a: int, b: int) -> bool {
    keys[a] > keys[b] || (keys[a] == keys[b] && a < b)
}

/// Whether `order` lists the indices of `keys` as they rank.
pub open spec fn is_ranking(order: Seq<int>, keys: Seq<i64>) -> bool {
    &&& order.len() == keys.len()
    &&& forall|i: int| 0 <= i < order.len() ==> 0 <= #[trigger] order[i] < keys.len()
    &&& forall|i: int, j: int|
        #![trigger order[i], order[j]]
        0 <= i < j < order.len() ==> ranks_before(keys, order[i], order[j])
}

/// The things of `items` in the order of the indices in `order`.
pub open spec fn arranged<T>(items: Seq<T>, order: Seq<int>) -> Seq<T> {
    order.map_values(|i: int| items[i])
}

/// Whether `ranked` is `items` arranged by `keys`, largest first, and equal ones
/// as they stood.
pub open spec fn ranked_by<T>(ranked: Seq<T>, items: Seq<T>, keys: Seq<i64>) -> bool {
    exists|order: Seq<int>| #[trigger] is_ranking(order, keys) && ranked == arranged(items, order)
}

/// There is one ranking only, so that what is ranked by the same keys is the same.
pub proof fn law_ranking_is_unique(a: Seq<int>, b: Seq<int>, keys: Seq<i64>)
    requires
        is_ranking(a, keys),
        is_ranking(b, keys),
    ensures
        a == b,
{
    law_ranking_is_complete_and_sorted(a, keys);
    law_ranking_is_complete_and_sorted(b, keys);
    assert forall|i: int| 0 <= i < a.len() implies a[i] == b[i] by {
        lemma_same_place(a, b, keys, i);
    }
    assert(a =~= b);
}

/// Two rankings agree at every place.
proof fn lemma_same_place(a: Seq<int>, b: Seq<int>, keys: Seq<i64>, i: int)
    requires
        is_ranking(a, keys),
        is_ranking(b, keys),
        forall|k: int| 0 <= k < keys.len() ==> a.contains(k) && b.contains(k),
        0 <= i < a.len(),
    ensures
        a[i] == b[i],
    decreases i,
{
    assert forall|k: int| 0 <= k < i implies a[k] == b[k] by {
        lemma_same_place(a, b, keys, k);
    }
    assert(b.contains(a[i]));
    assert(a.contains(b[i]));
    let j = choose|j: int| 0 <= j < b.len() && b[j] == a[i];
    let k = choose|k: int| 0 <= k < a.len() && a[k] == b[i];
    if j < i {
        assert(a[j] == b[j]);
        assert(ranks_before(keys, a[j], a[i]));
    } else if k < i {
        assert(a[k] == b[k]);
        assert(ranks_before(keys, b[k], b[i]));
    } else if j > i && k > i {
        assert(ranks_before(keys, b[i], b[j]));
        assert(ranks_before(keys, a[i], a[k]));
    }
}

/// A ranking leaves nothing out, and what comes first has the largest keys.
pub proof fn law_ranking_is_complete_and_sorted(order: Seq<int>, keys: Seq<i64>)
    requires
        is_ranking(order, keys),
    ensures
        forall|k: int| 0 <= k < keys.len() ==> order.contains(k),
        order.no_duplicates(),
        forall|i: int, j: int|
            #![trigger order[i], order[j]]
            0 <= i < j < order.len() ==> keys[order[i]] >= keys[order[j]],
{
    let n = keys.len() as int;
    let all = vstd::set_lib::set_int_range(0, n);
    vstd::set_lib::lemma_int_range(0, n);
    assert(order.no_duplicates()) by {
        assert forall|i: int, j: int| 0 <= i < j < order.len() implies order[i] != order[j] by {
            assert(ranks_before(keys, order[i], order[j]));
        }
    }
    order.unique_seq_to_set();
    assert(order.to_set().subset_of(all)) by {
        assert forall|k: int| order.to_set().contains(k) implies all.contains(k) by {
            let i = choose|i: int| 0 <= i < order.len() && order[i] == k;
        }
    }
    vstd::set_lib::lemma_subset_equality(order.to_set(), all);
    assert forall|k: int| 0 <= k < keys.len() implies order.contains(k) by {
        assert(all.contains(k));
    }
}

/// Arranges `items` by `keys`, largest first, and equal ones as they stood.
pub fn rank<T>(items: Vec<T>, keys: &Vec<i64>) -> (ranked: Vec<T>)
    requires
        items@.len() == keys@.len(),
    ensures
        ranked_by(ranked@, items@, keys@),
{
    let ghost all = items@;
    let mut rest: Vec<T> = items;
    let mut ranked: Vec<T> = Vec::new();
    let mut sorted: Vec<i64> = Vec::new();
    let ghost mut order: Seq<int> = Seq::empty();
    let mut i: usize = 0;
    assert(ranked@ =~= arranged(all, order));
    assert(sorted@ =~= arranged(keys@, order));
    assert(all.skip(0) =~= all);
    while i < keys.len()
        invariant
            i <= keys@.len(),
            all.len() == keys@.len(),
            rest@ == all.skip(i as int),
            is_ranking(order, keys@.take(i as int)),
            ranked@ == arranged(all, order),
            sorted@ == arranged(keys@, order),
        decreases keys.len() - i,
    {
        let key: i64 = keys[i];
        let mut p: usize = 0;
        while p < sorted.len() && sorted[p] >= key
            invariant
                p <= sorted@.len(),
                sorted@.len() == order.len(),
                forall|k: int| 0 <= k < p ==> #[trigger] sorted@[k] >= key,
            decreases sorted.len() - p,
        {
            p += 1;
        }
        let ghost before = order;
        let item: T = rest.remove(0);
        assert(rest@ =~= all.skip(i + 1));
        ranked.insert(p, item);
        sorted.insert(p, key);
        proof {
            order = order.insert(p as int, i as int);
            assert(ranked@ =~= arranged(all, order));
            assert(sorted@ =~= arranged(keys@, order));
            let seen = keys@.take(i + 1);
            assert forall|k: int| 0 <= k < order.len() implies 0 <= #[trigger] order[k]
                < seen.len() by {
                if k < p {
                    assert(order[k] == before[k]);
                } else if k > p {
                    assert(order[k] == before[k - 1]);
                }
            }
            let old_keys = keys@.take(i as int);
            assert forall|a: int, b: int|
                #![trigger order[a], order[b]]
                0 <= a < b < order.len() implies ranks_before(seen, order[a], order[b]) by {
                let oa = if a < p { a } else { a - 1 };
                let ob = if b < p { b } else { b - 1 };
                if a != p && b != p {
                    assert(order[a] == before[oa] && order[b] == before[ob]);
                    assert(ranks_before(old_keys, before[oa], before[ob]));
                } else if b == p {
                    assert(order[a] == before[a]);
                    assert(arranged(keys@, before)[a] >= key);
                } else {
                    assert(order[b] == before[ob]);
                    if ob > p {
                        assert(ranks_before(old_keys, before[p as int], before[ob]));
                    }
                    assert(arranged(keys@, before)[p as int] < key);
                }
            }
        }
        i += 1;
    }
    assert(keys@.take(keys@.len() as int) =~= keys@);
    ranked
}

/// What is ranked is all there: each thing once, larger keys first, and things with equal
/// keys in the order in which they stood.
pub proof fn law_ranked_things_are_all_there<T>(
    items: Seq<T>,
    keys: Seq<i64>,
    order: Seq<int>,
    i: int,
    j: int,
)
    requires
        items.len() == keys.len(),
        is_ranking(order, keys),
        0 <= i < j < items.len(),
    ensures
        ({
            let ranked = arranged(items, order);
            &&& ranked.len() == items.len()
            &&& ranked[i] == items[order[i]]
            &&& ranked[j] == items[order[j]]
            &&& order[i] != order[j]
            &&& keys[order[i]] >= keys[order[j]]
            &&& keys[order[i]] == keys[order[j]] ==> order[i] < order[j]
            &&& exists|at: int| 0 <= at < order.len() && #[trigger] order[at] == i
        }),
{
    law_ranking_is_complete_and_sorted(order, keys);
    assert(ranks_before(keys, order[i], order[j]));
    assert(order.contains(i));
}

} // verus!
