//! Following a summon to the entity it belongs to.

use std::collections::HashMap;
use vstd::prelude::*;

verus! {

broadcast use vstd::std_specs::hash::group_hash_axioms;

/// The entity reached from `id` by going from summon to owner at most `steps`
/// times.
pub open spec fn owner_after(summons: Map<i32, i32>, id: i32, steps: nat) -> i32
    decreases steps,
{
    if steps == 0 || !summons.contains_key(id) {
        id
    } else {
        owner_after(summons, summons[id], (steps - 1) as nat)
    }
}

/// The entity that `id` belongs to: the end of its chain of owners, and `id`
/// itself where it has no owner. Links that run in a circle are left after as
/// many steps as there are links.
pub open spec fn resolved(summons: Map<i32, i32>, id: i32) -> i32 {
    owner_after(summons, id, summons.len())
}

/// The entity that `id` belongs to.
pub fn resolve(id: i32, summons: &HashMap<i32, i32>) -> (owner: i32)
    ensures
        owner == resolved(summons@, id),
{
    let links: usize = summons.len();
    let mut current: i32 = id;
    let mut i: usize = 0;
    while i < links
        invariant
            i <= links,
            links == summons@.len(),
            resolved(summons@, id) == owner_after(summons@, current, (links - i) as nat),
        decreases links - i,
    {
        match summons.get(&current) {
            Some(owner) => {
                current = *owner;
            },
            None => {
                return current;
            },
        }
        i += 1;
    }
    current
}

/// Following `a` links and then `b` more is following `a + b` links.
proof fn lemma_steps_add(summons: Map<i32, i32>, id: i32, a: nat, b: nat)
    ensures
        owner_after(summons, id, a + b) == owner_after(summons, owner_after(summons, id, a), b),
    decreases a,
{
    if a == 0 {
    } else if summons.contains_key(id) {
        lemma_steps_add(summons, summons[id], (a - 1) as nat, b);
    }
}

/// From an entity without an owner there is nowhere to go.
proof fn lemma_stays(summons: Map<i32, i32>, id: i32, steps: nat)
    requires
        !summons.contains_key(id),
    ensures
        owner_after(summons, id, steps) == id,
{
}

/// A chain of owners that ends does so within as many links as there are.
proof fn lemma_ends_within(summons: Map<i32, i32>, id: i32, steps: nat)
    requires
        summons.dom().finite(),
        !summons.contains_key(owner_after(summons, id, steps)),
    ensures
        owner_after(summons, id, summons.len()) == owner_after(summons, id, steps),
    decreases steps,
{
    if exists|m: nat|
        m < steps && !summons.contains_key(#[trigger] owner_after(summons, id, m)) {
        let m = choose|m: nat|
            m < steps && !summons.contains_key(#[trigger] owner_after(summons, id, m));
        lemma_ends_within(summons, id, m);
        lemma_steps_add(summons, id, m, (steps - m) as nat);
        lemma_stays(summons, owner_after(summons, id, m), (steps - m) as nat);
    } else {
        let chain = Seq::new(steps, |k: int| owner_after(summons, id, k as nat));
        assert forall|i: int, j: int| 0 <= i < j < steps implies chain[i] != chain[j] by {
            if chain[i] == chain[j] {
                let rest = (steps - j) as nat;
                lemma_steps_add(summons, id, i as nat, rest);
                lemma_steps_add(summons, id, j as nat, rest);
                assert(!summons.contains_key(owner_after(summons, id, (i + rest) as nat)));
            }
        }
        chain.unique_seq_to_set();
        assert(chain.to_set().subset_of(summons.dom())) by {
            assert forall|k: i32| chain.to_set().contains(k) implies summons.contains_key(k) by {
                let i = choose|i: int| 0 <= i < chain.len() && chain[i] == k;
                assert(summons.contains_key(owner_after(summons, id, i as nat)));
            }
        }
        vstd::set_lib::lemma_len_subset(chain.to_set(), summons.dom());
        let more = (summons.len() - steps) as nat;
        lemma_steps_add(summons, id, steps, more);
        lemma_stays(summons, owner_after(summons, id, steps), more);
    }
}

/// A summon whose chain of owners ends, however long it is, belongs to the
/// entity at its end, which belongs to nobody else.
pub proof fn law_summon_belongs_to_the_end_of_its_chain(
    summons: Map<i32, i32>,
    id: i32,
    steps: nat,
)
    requires
        summons.dom().finite(),
        !summons.contains_key(owner_after(summons, id, steps)),
    ensures
        resolved(summons, id) == owner_after(summons, id, steps),
        resolved(summons, resolved(summons, id)) == resolved(summons, id),
{
    lemma_ends_within(summons, id, steps);
    lemma_stays(summons, resolved(summons, id), summons.len());
}

/// An entity that nobody owns belongs to itself.
pub proof fn law_unowned_entity_belongs_to_itself(summons: Map<i32, i32>, id: i32)
    requires
        !summons.contains_key(id),
    ensures
        resolved(summons, id) == id,
{
}

} // verus!
