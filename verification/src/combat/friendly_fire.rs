//! Telling friend from foe, and taking back what was counted wrongly.

use std::collections::{HashMap, HashSet};
use vstd::prelude::*;

use crate::combat::summon_resolver::{resolve, resolved};
use crate::combat::target::{
    lemma_scrub, lemma_scrub_nobody, TargetCombatData, TargetState,
};
use crate::maps::{keys_of, lemma_take_step};

verus! {

broadcast use vstd::std_specs::hash::group_hash_axioms;

/// The targets of a map, each by its reading.
pub open spec fn target_states(targets: Map<i32, TargetCombatData>) -> Map<i32, TargetState> {
    targets.map_values(|target: TargetCombatData| target@)
}

/// Every target's record is sound and stands under its own id.
pub open spec fn targets_wf(targets: Map<i32, TargetState>) -> bool {
    forall|t: i32| #[trigger]
        targets.contains_key(t) ==> targets[t].wf() && targets[t].target_id == t
}

/// Whether `a` and `b` both belong to players.
pub open spec fn same_side(
    summons: Map<i32, i32>,
    players: Set<i32>,
    a: i32,
    b: i32,
) -> bool {
    players.contains(resolved(summons, a)) && players.contains(resolved(summons, b))
}

/// The actors recorded against the target `id` that are on its own side.
pub open spec fn own_side(
    target: TargetState,
    id: i32,
    summons: Map<i32, i32>,
    players: Set<i32>,
) -> Set<i32> {
    target.actors.dom().filter(|a: i32| same_side(summons, players, a, id))
}

/// Whether the target `id` was hit, and by its own side alone.
pub open spec fn hit_by_own_side_only(
    target: TargetState,
    id: i32,
    summons: Map<i32, i32>,
    players: Set<i32>,
) -> bool {
    &&& own_side(target, id, summons, players) != Set::<i32>::empty()
    &&& own_side(target, id, summons, players) == target.actors.dom()
}

/// `targets` without any damage that players did to their own side. A target
/// that was hit by its own side alone goes with it.
pub open spec fn without_friendly_fire(
    targets: Map<i32, TargetState>,
    summons: Map<i32, i32>,
    players: Set<i32>,
) -> Map<i32, TargetState> {
    Map::new(
        |t: i32| targets.contains_key(t) && !hit_by_own_side_only(targets[t], t, summons, players),
        |t: i32| targets[t].scrub(own_side(targets[t], t, summons, players)),
    )
}

/// `targets` without the damage of the actors in `gone`.
pub open spec fn without_actors(
    targets: Map<i32, TargetState>,
    gone: Set<i32>,
) -> Map<i32, TargetState> {
    targets.map_values(|target: TargetState| target.scrub(gone))
}

/// Whether `a` and `b` both belong to players.
pub fn is_friendly_action(
    summons: &HashMap<i32, i32>,
    players: &HashSet<i32>,
    a: i32,
    b: i32,
) -> (friendly: bool)
    ensures
        friendly == same_side(summons@, players@, a, b),
{
    players.contains(&resolve(a, summons)) && players.contains(&resolve(b, summons))
}

/// The actors recorded against the target `id` that are on its own side.
pub fn friendly_actors(
    target: &TargetCombatData,
    id: i32,
    summons: &HashMap<i32, i32>,
    players: &HashSet<i32>,
) -> (friends: Vec<i32>)
    ensures
        friends@.to_set() == own_side(target@, id, summons@, players@),
{
    let keys: Vec<i32> = keys_of(&target.actors);
    let mut friends: Vec<i32> = Vec::new();
    assert(target@.actors.dom() =~= target.actors@.dom());
    assert(friends@.to_set() =~= keys@.take(0).to_set().filter(
        |a: i32| same_side(summons@, players@, a, id),
    ));
    let mut i: usize = 0;
    while i < keys.len()
        invariant
            i <= keys.len(),
            friends@.to_set() == keys@.take(i as int).to_set().filter(
                |a: i32| same_side(summons@, players@, a, id),
            ),
        decreases keys.len() - i,
    {
        let ghost before = friends@;
        proof {
            lemma_take_step(keys@, i as int);
        }
        if is_friendly_action(summons, players, keys[i], id) {
            friends.push(keys[i]);
            proof {
                lemma_take_step(friends@, before.len() as int);
                assert(friends@.take(before.len() as int) =~= before);
                assert(friends@.take(before.len() as int + 1) =~= friends@);
            }
        }
        assert(friends@.to_set() =~= keys@.take(i + 1).to_set().filter(
            |a: i32| same_side(summons@, players@, a, id),
        ));
        i += 1;
    }
    assert(keys@.take(keys.len() as int) =~= keys@);
    friends
}

/// Takes the damage that players did to their own side out of `targets`.
pub fn purge_friendly_damage(
    targets: &mut HashMap<i32, TargetCombatData>,
    summons: &HashMap<i32, i32>,
    players: &HashSet<i32>,
)
    requires
        targets_wf(target_states(old(targets)@)),
    ensures
        target_states(final(targets)@) == without_friendly_fire(
            target_states(old(targets)@),
            summons@,
            players@,
        ),
        targets_wf(target_states(final(targets)@)),
{
    let ghost before = targets@;
    let ghost states = target_states(before);
    let keys: Vec<i32> = keys_of(targets);
    let mut i: usize = 0;
    while i < keys.len()
        invariant
            i <= keys.len(),
            keys@.no_duplicates(),
            keys@.to_set() == before.dom(),
            states == target_states(before),
            targets_wf(states),
            forall|t: i32| #[trigger]
                targets@.contains_key(t) ==> before.contains_key(t),
            forall|t: i32| #[trigger]
                before.contains_key(t) && !keys@.take(i as int).to_set().contains(t)
                    ==> targets@.contains_key(t) && targets@[t] == before[t],
            forall|t: i32| #[trigger]
                before.contains_key(t) && keys@.take(i as int).to_set().contains(t) ==> {
                    &&& targets@.contains_key(t) == !hit_by_own_side_only(
                        states[t],
                        t,
                        summons@,
                        players@,
                    )
                    &&& targets@.contains_key(t) ==> targets@[t]@ == states[t].scrub(
                        own_side(states[t], t, summons@, players@),
                    )
                },
        decreases keys.len() - i,
    {
        let id: i32 = keys[i];
        proof {
            assert(keys@.to_set().contains(id));
            lemma_take_step(keys@, i as int);
            assert(states.contains_key(id));
        }
        match targets.remove(&id) {
            Some(target) => {
                let mut target: TargetCombatData = target;
                assert(target@ == states[id]);
                let friends: Vec<i32> = friendly_actors(&target, id, summons, players);
                let ghost side = own_side(states[id], id, summons@, players@);
                if friends.len() > 0 {
                    assert(friends@.to_set().contains(friends@[0]));
                    target.remove_actors(&friends);
                    let none_left: bool = target.actors.is_empty();
                    proof {
                        assert(target@.actors.dom() =~= target.actors@.dom());
                        assert(target@.actors.dom() =~= states[id].actors.dom().difference(side));
                        if none_left {
                            assert(target@.actors.dom() =~= Set::<i32>::empty());
                            assert forall|a: i32| states[id].actors.dom().contains(
                                a,
                            ) implies side.contains(a) by {
                                if !side.contains(a) {
                                    assert(target@.actors.dom().contains(a));
                                }
                            }
                            assert(side =~= states[id].actors.dom());
                        } else {
                            assert(side != states[id].actors.dom()) by {
                                if side == states[id].actors.dom() {
                                    assert(target.actors@.dom() =~= Set::<i32>::empty());
                                    assert(target.actors@ =~= Map::empty());
                                }
                            }
                        }
                    }
                    if !none_left {
                        targets.insert(id, target);
                    }
                } else {
                    proof {
                        assert(side =~= Set::<i32>::empty());
                        lemma_scrub_nobody(states[id], side);
                    }
                    targets.insert(id, target);
                }
            },
            None => {},
        }
        i += 1;
    }
    proof {
        assert(keys@.take(keys.len() as int) =~= keys@);
        assert(target_states(targets@) =~= without_friendly_fire(states, summons@, players@));
        assert forall|t: i32| #[trigger]
            target_states(targets@).contains_key(t) implies target_states(targets@)[t].wf()
            && target_states(targets@)[t].target_id == t by {
            assert(states.contains_key(t));
            lemma_scrub(states[t], own_side(states[t], t, summons@, players@));
        }
    }
}

/// Takes the damage of the actors in `gone` out of `targets`.
pub fn scrub_actors(targets: &mut HashMap<i32, TargetCombatData>, gone: &Vec<i32>)
    requires
        targets_wf(target_states(old(targets)@)),
    ensures
        target_states(final(targets)@) == without_actors(
            target_states(old(targets)@),
            gone@.to_set(),
        ),
        targets_wf(target_states(final(targets)@)),
{
    let ghost before = targets@;
    let ghost states = target_states(before);
    let keys: Vec<i32> = keys_of(targets);
    let mut i: usize = 0;
    while i < keys.len()
        invariant
            i <= keys.len(),
            keys@.no_duplicates(),
            keys@.to_set() == before.dom(),
            states == target_states(before),
            targets_wf(states),
            targets@.dom() == before.dom(),
            forall|t: i32| #[trigger]
                before.contains_key(t) && !keys@.take(i as int).to_set().contains(t) ==> targets@[t]
                    == before[t],
            forall|t: i32| #[trigger]
                before.contains_key(t) && keys@.take(i as int).to_set().contains(t)
                    ==> targets@[t]@ == states[t].scrub(gone@.to_set()),
        decreases keys.len() - i,
    {
        let id: i32 = keys[i];
        proof {
            assert(keys@.to_set().contains(id));
            lemma_take_step(keys@, i as int);
            assert(states.contains_key(id));
        }
        match targets.remove(&id) {
            Some(target) => {
                let mut target: TargetCombatData = target;
                target.remove_actors(gone);
                targets.insert(id, target);
            },
            None => {},
        }
        assert(targets@.dom() =~= before.dom());
        i += 1;
    }
    proof {
        assert(keys@.take(keys.len() as int) =~= keys@);
        assert(target_states(targets@) =~= without_actors(states, gone@.to_set()));
        assert forall|t: i32| #[trigger]
            target_states(targets@).contains_key(t) implies target_states(targets@)[t].wf()
            && target_states(targets@)[t].target_id == t by {
            assert(states.contains_key(t));
            lemma_scrub(states[t], gone@.to_set());
        }
    }
}

} // verus!
