//! Which skills deal damage over time.

use std::collections::HashSet;
use vstd::prelude::*;

use crate::maps::lemma_take_step;

verus! {

broadcast use vstd::std_specs::hash::group_hash_axioms;

/// What `serde_json::from_str` reads a text as, asked for a list of numbers.
pub uninterp spec fn json_ids(text: Seq<char>) -> Option<Seq<i32>>;

/// Reads a JSON array of numbers by `serde_json::from_str`, and drops the error
/// where the text is none. The contract names the outcome and says no more of it
/// than that it depends on the text alone.
#[verifier::external_body]
fn read_ids(text: &str) -> (ids: Option<Vec<i32>>)
    ensures
        json_ids(text@) == (match ids {
            Some(ids) => Some(ids@),
            None => None,
        }),
{
    serde_json::from_str::<Vec<i32>>(text).ok()
}

/// The ids that a list holds; none where there is no list.
pub fn id_set(list: Option<Vec<i32>>) -> (ids: HashSet<i32>)
    ensures
        ids@ == (match list {
            Some(list) => list@.to_set(),
            None => Set::<i32>::empty(),
        }),
{
    let mut ids: HashSet<i32> = HashSet::new();
    if let Some(list) = list {
        let mut i: usize = 0;
        assert(ids@ =~= list@.take(0).to_set());
        while i < list.len()
            invariant
                i <= list@.len(),
                ids@ == list@.take(i as int).to_set(),
            decreases list.len() - i,
        {
            proof {
                lemma_take_step(list@, i as int);
            }
            ids.insert(list[i]);
            i += 1;
        }
        assert(list@.take(i as int) =~= list@);
    }
    ids
}

/// The skills that a JSON list names; none where the text is no such list.
pub fn dot_skill_ids(text: &str) -> (ids: HashSet<i32>)
    ensures
        ids@ == (match json_ids(text@) {
            Some(list) => list.to_set(),
            None => Set::<i32>::empty(),
        }),
{
    id_set(read_ids(text))
}

} // verus!
