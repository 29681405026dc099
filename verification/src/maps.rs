//! Walking hash maps and sets by a list of their keys.

use std::collections::{HashMap, HashSet};
use std::hash::Hash;
use vstd::prelude::*;

verus! {

broadcast use vstd::std_specs::hash::group_hash_axioms;

/// One more element of a list joins the set of those already seen.
pub proof fn lemma_take_step<K>(keys: Seq<K>, i: int)
    requires
        0 <= i < keys.len(),
    ensures
        keys.take(i + 1).to_set() == keys.take(i).to_set().insert(keys[i]),
        keys.no_duplicates() ==> !keys.take(i).to_set().contains(keys[i]),
{
    let before = keys.take(i);
    let after = keys.take(i + 1);
    assert forall|k: K| after.to_set().contains(k) <==> before.to_set().insert(keys[i]).contains(
        k,
    ) by {
        if after.contains(k) {
            let j = choose|j: int| 0 <= j < after.len() && after[j] == k;
            if j < i {
                assert(before[j] == k);
            }
        }
        if before.contains(k) {
            let j = choose|j: int| 0 <= j < before.len() && before[j] == k;
            assert(after[j] == k);
        }
        assert(after[i] == keys[i]);
    }
    assert(after.to_set() =~= before.to_set().insert(keys[i]));
}

/// The keys of a map, each once, in no particular order.
pub fn keys_of<K: Eq + Hash + Copy, V>(m: &HashMap<K, V>) -> (keys: Vec<K>)
    requires
        vstd::std_specs::hash::obeys_key_model::<K>(),
    ensures
        keys@.no_duplicates(),
        keys@.to_set() == m@.dom(),
{
    let mut keys: Vec<K> = Vec::new();
    for k in it: m.keys()
        invariant
            keys@ == it.seq().unref().take(it.index() as int),
            it.index() == it.seq().len() ==> keys@ == it.seq().unref(),
            it.seq().unref().to_set() == m@.dom(),
    {
        proof {
            assert(it.seq().unref().take(it.index() + 1) =~= it.seq().unref().take(
                it.index() as int,
            ).push(*k));
        }
        keys.push(*k);
    }
    keys
}

/// The elements of a set of ids, each once, in no particular order.
pub fn ids_of(ids: &HashSet<i32>) -> (list: Vec<i32>)
    ensures
        list@.no_duplicates(),
        list@.to_set() == ids@,
{
    let mut list: Vec<i32> = Vec::new();
    for id in it: ids.iter()
        invariant
            list@ == it.seq().unref().take(it.index() as int),
            it.index() == it.seq().len() ==> list@ == it.seq().unref(),
            it.seq().unref().to_set() == ids@,
    {
        proof {
            assert(it.seq().unref().take(it.index() + 1) =~= it.seq().unref().take(
                it.index() as int,
            ).push(*id));
        }
        list.push(*id);
    }
    list
}

/// A copy of a set of ids.
pub fn copy_ids(ids: &HashSet<i32>) -> (copy: HashSet<i32>)
    ensures
        copy@ == ids@,
{
    let list: Vec<i32> = ids_of(ids);
    let mut copy: HashSet<i32> = HashSet::new();
    let mut i: usize = 0;
    assert(copy@ =~= list@.take(0).to_set());
    while i < list.len()
        invariant
            i <= list.len(),
            copy@ == list@.take(i as int).to_set(),
        decreases list.len() - i,
    {
        proof {
            lemma_take_step(list@, i as int);
        }
        copy.insert(list[i]);
        i += 1;
    }
    assert(list@.take(list.len() as int) =~= list@);
    copy
}

/// Takes every key of `gone` out of a map.
pub fn remove_all<V>(m: &mut HashMap<i32, V>, gone: &Vec<i32>)
    ensures
        final(m)@ == old(m)@.remove_keys(gone@.to_set()),
{
    let mut i: usize = 0;
    assert(m@ =~= m@.remove_keys(gone@.take(0).to_set()));
    while i < gone.len()
        invariant
            i <= gone.len(),
            m@ == old(m)@.remove_keys(gone@.take(i as int).to_set()),
        decreases gone.len() - i,
    {
        proof {
            lemma_take_step(gone@, i as int);
        }
        m.remove(&gone[i]);
        assert(m@ =~= old(m)@.remove_keys(gone@.take(i + 1).to_set()));
        i += 1;
    }
    assert(gone@.take(gone.len() as int) =~= gone@);
}

/// Takes every element of `gone` out of a set.
pub fn remove_all_ids(ids: &mut HashSet<i32>, gone: &Vec<i32>)
    ensures
        final(ids)@ == old(ids)@.difference(gone@.to_set()),
{
    let mut i: usize = 0;
    assert(ids@ =~= ids@.difference(gone@.take(0).to_set()));
    while i < gone.len()
        invariant
            i <= gone.len(),
            ids@ == old(ids)@.difference(gone@.take(i as int).to_set()),
        decreases gone.len() - i,
    {
        proof {
            lemma_take_step(gone@, i as int);
        }
        ids.remove(&gone[i]);
        assert(ids@ =~= old(ids)@.difference(gone@.take(i + 1).to_set()));
        i += 1;
    }
    assert(gone@.take(gone.len() as int) =~= gone@);
}

/// The keys of `m` whose value is in `values`.
pub open spec fn keys_with_value(m: Map<i32, i32>, values: Set<i32>) -> Set<i32> {
    m.dom().filter(|k: i32| values.contains(m[k]))
}

/// Whether `list` holds `x`.
pub fn holds(list: &Vec<i32>, x: i32) -> (found: bool)
    ensures
        found == list@.contains(x),
{
    let mut i: usize = 0;
    while i < list.len()
        invariant
            i <= list.len(),
            forall|j: int| 0 <= j < i ==> list@[j] != x,
        decreases list.len() - i,
    {
        if list[i] == x {
            assert(list@[i as int] == x);
            return true;
        }
        i += 1;
    }
    false
}

/// Takes every key out of a map whose value is in `values`.
pub fn remove_with_value(m: &mut HashMap<i32, i32>, values: &Vec<i32>)
    ensures
        final(m)@ == old(m)@.remove_keys(keys_with_value(old(m)@, values@.to_set())),
{
    let ghost before = m@;
    let keys: Vec<i32> = keys_of(m);
    let mut i: usize = 0;
    assert(m@ =~= before.remove_keys(
        keys_with_value(before, values@.to_set()).intersect(keys@.take(0).to_set()),
    ));
    while i < keys.len()
        invariant
            i <= keys.len(),
            keys@.no_duplicates(),
            keys@.to_set() == before.dom(),
            m@ == before.remove_keys(
                keys_with_value(before, values@.to_set()).intersect(
                    keys@.take(i as int).to_set(),
                ),
            ),
        decreases keys.len() - i,
    {
        let key: i32 = keys[i];
        proof {
            assert(keys@.to_set().contains(key));
            lemma_take_step(keys@, i as int);
            assert(m@.contains_key(key) && m@[key] == before[key]);
        }
        let drop: bool = match m.get(&key) {
            Some(value) => holds(values, *value),
            None => false,
        };
        if drop {
            m.remove(&key);
        }
        assert(m@ =~= before.remove_keys(
            keys_with_value(before, values@.to_set()).intersect(keys@.take(i + 1).to_set()),
        ));
        i += 1;
    }
    proof {
        assert(keys@.take(keys.len() as int) =~= keys@);
        let gone = keys_with_value(before, values@.to_set());
        assert(gone.intersect(keys@.to_set()) =~= gone);
    }
}

} // verus!
