//! What the meter keeps about one target.

use std::collections::HashMap;
use vstd::prelude::*;

use crate::combat::actor::{ActorCombatData, ActorState};
use crate::combat::skill::{max_of, min_of};
use crate::combat::sums::{
    lemma_sum_between, lemma_sum_insert, lemma_sum_remove, lemma_sum_same_terms, lemma_sum_subset,
    lemma_sum_without_zeros, sum_over,
};
use crate::entity::ParsedDamagePacket;
use crate::maps::{keys_of, lemma_take_step};

verus! {

broadcast use vstd::std_specs::hash::group_hash_axioms;

/// Maximum idle gap before a fight is considered ended and a new one begins.
pub const IDLE_RESET_MS: i64 = 30_000;

/// What was done to one target.
#[derive(Clone, Debug)]
pub struct TargetCombatData {
    pub target_id: i32,
    pub total_damage: i64,
    pub first_damage_time: i64,
    pub last_damage_time: i64,
    pub last_packet_id: i64,
    /// The actors that hit the target, each under its own entity id.
    pub actors: HashMap<i32, ActorCombatData>,
}

/// The mathematical reading of a [`TargetCombatData`].
#[verifier::ext_equal]
pub struct TargetState {
    pub target_id: i32,
    pub total_damage: int,
    pub first_damage_time: int,
    pub last_damage_time: int,
    pub last_packet_id: int,
    pub actors: Map<i32, ActorState>,
}

/// The damage that all of `actors` did together.
pub open spec fn damage_sum(actors: Map<i32, ActorState>) -> int {
    sum_over(actors.dom(), |a: i32| actors[a].total_damage)
}

/// The damage of those of `actors` that did any.
pub open spec fn damage_gain(actors: Map<i32, ActorState>) -> int {
    sum_over(actors.dom(), |a: i32| max_of(actors[a].total_damage, 0))
}

/// How far below zero those of `actors` are together whose damage is negative.
pub open spec fn damage_loss(actors: Map<i32, ActorState>) -> int {
    sum_over(actors.dom(), |a: i32| max_of(-actors[a].total_damage, 0))
}

/// Whether the damage of all of `actors` together is in the range of an `i64`, and
/// stays in it whichever of them are taken out. Where no damage is negative, that
/// is so if it is for the sum.
pub open spec fn sums_fit(actors: Map<i32, ActorState>) -> bool {
    damage_gain(actors) <= i64::MAX && -damage_loss(actors) >= i64::MIN
}

/// The actors of a map, each by its reading.
pub open spec fn actor_states(actors: Map<i32, ActorCombatData>) -> Map<i32, ActorState> {
    actors.map_values(|actor: ActorCombatData| actor@)
}

impl TargetState {
    /// A target first seen at `timestamp`, with nothing done to it yet.
    pub open spec fn fresh(target_id: i32, timestamp: i64) -> TargetState {
        TargetState {
            target_id,
            total_damage: 0,
            first_damage_time: timestamp as int,
            last_damage_time: timestamp as int,
            last_packet_id: -1,
            actors: Map::empty(),
        }
    }

    /// Whether the fight against this target has been idle too long to take a
    /// hit at `timestamp` as its next one.
    pub open spec fn idle_at(self, timestamp: i64) -> bool {
        self.last_damage_time > 0 && timestamp - self.last_damage_time > IDLE_RESET_MS
    }

    /// The record of the actor that `p` names, as it is before the hit.
    pub open spec fn actor_before(self, p: ParsedDamagePacket) -> ActorState {
        if self.actors.contains_key(p.actor_id) {
            self.actors[p.actor_id]
        } else {
            ActorState::fresh()
        }
    }

    /// The target after one more hit.
    pub open spec fn hit(self, p: ParsedDamagePacket) -> TargetState {
        TargetState {
            target_id: self.target_id,
            total_damage: self.total_damage + p.total_damage,
            first_damage_time: min_of(self.first_damage_time, p.timestamp as int),
            last_damage_time: max_of(self.last_damage_time, p.timestamp as int),
            last_packet_id: p.id as int,
            actors: self.actors.insert(p.actor_id, self.actor_before(p).hit(p)),
        }
    }

    /// The target as if the actors in `gone` had never hit it.
    pub open spec fn scrub(self, gone: Set<i32>) -> TargetState {
        let kept = self.actors.remove_keys(gone);
        TargetState { total_damage: damage_sum(kept), actors: kept, ..self }
    }

    /// The same target without the hit times of its actors' skills.
    pub open spec fn without_times(self) -> TargetState {
        TargetState {
            actors: self.actors.map_values(|actor: ActorState| actor.without_times()),
            ..self
        }
    }

    /// Whether one more hit fits in the counters.
    pub open spec fn has_room(self, p: ParsedDamagePacket) -> bool {
        &&& sums_fit(self.hit(p).actors)
        &&& self.actor_before(p).has_room(p)
    }

    /// The target's total is the sum of its actors' totals, its first hit is no
    /// later than its last, and every actor's record is sound.
    pub open spec fn wf(self) -> bool {
        &&& self.actors.dom().finite()
        &&& self.total_damage == damage_sum(self.actors)
        &&& sums_fit(self.actors)
        &&& self.first_damage_time <= self.last_damage_time
        &&& forall|a: i32| #[trigger] self.actors.contains_key(a) ==> self.actors[a].wf()
    }
}

/// How the sums change when one actor's record is replaced or taken out.
pub proof fn lemma_actor_change(actors: Map<i32, ActorState>, id: i32, actor: ActorState)
    requires
        actors.dom().finite(),
    ensures
        damage_sum(actors.insert(id, actor)) == damage_sum(actors.remove(id)) + actor.total_damage,
        damage_gain(actors.insert(id, actor)) == damage_gain(actors.remove(id)) + max_of(
            actor.total_damage,
            0,
        ),
        damage_loss(actors.insert(id, actor)) == damage_loss(actors.remove(id)) + max_of(
            -actor.total_damage,
            0,
        ),
        actors.contains_key(id) ==> {
            let before = actors[id].total_damage;
            &&& damage_sum(actors) == damage_sum(actors.remove(id)) + before
            &&& damage_gain(actors) == damage_gain(actors.remove(id)) + max_of(before, 0)
            &&& damage_loss(actors) == damage_loss(actors.remove(id)) + max_of(-before, 0)
        },
        !actors.contains_key(id) ==> actors.remove(id) == actors,
{
    let rest = actors.remove(id);
    let grown = actors.insert(id, actor);
    let d = |m: Map<i32, ActorState>| |a: i32| m[a].total_damage;
    let g = |m: Map<i32, ActorState>| |a: i32| max_of(m[a].total_damage, 0);
    let l = |m: Map<i32, ActorState>| |a: i32| max_of(-m[a].total_damage, 0);
    assert(grown.dom() =~= rest.dom().insert(id));
    lemma_sum_insert(rest.dom(), d(grown), id);
    lemma_sum_insert(rest.dom(), g(grown), id);
    lemma_sum_insert(rest.dom(), l(grown), id);
    lemma_sum_same_terms(rest.dom(), d(grown), d(rest));
    lemma_sum_same_terms(rest.dom(), g(grown), g(rest));
    lemma_sum_same_terms(rest.dom(), l(grown), l(rest));
    if actors.contains_key(id) {
        assert(rest.dom() =~= actors.dom().remove(id));
        lemma_sum_remove(actors.dom(), d(actors), id);
        lemma_sum_remove(actors.dom(), g(actors), id);
        lemma_sum_remove(actors.dom(), l(actors), id);
        lemma_sum_same_terms(rest.dom(), d(actors), d(rest));
        lemma_sum_same_terms(rest.dom(), g(actors), g(rest));
        lemma_sum_same_terms(rest.dom(), l(actors), l(rest));
    } else {
        assert(rest =~= actors);
    }
}

/// A sum of damage is no further from zero than what adds to it on that side.
pub proof fn lemma_sum_within(actors: Map<i32, ActorState>)
    requires
        actors.dom().finite(),
    ensures
        -damage_loss(actors) <= damage_sum(actors) <= damage_gain(actors),
        damage_loss(actors) >= 0,
        damage_gain(actors) >= 0,
{
    let g = |a: i32| max_of(actors[a].total_damage, 0);
    let l = |a: i32| max_of(-actors[a].total_damage, 0);
    lemma_sum_between(actors.dom(), |a: i32| actors[a].total_damage, l, g);
    lemma_sum_subset(actors.dom(), actors.dom(), g);
    lemma_sum_subset(actors.dom(), actors.dom(), l);
}

/// Sums that fit still do without some of the actors.
pub proof fn lemma_sums_fit_without(actors: Map<i32, ActorState>, gone: Set<i32>)
    requires
        actors.dom().finite(),
        sums_fit(actors),
    ensures
        sums_fit(actors.remove_keys(gone)),
        i64::MIN <= damage_sum(actors.remove_keys(gone)) <= i64::MAX,
{
    let kept = actors.remove_keys(gone);
    let g = |a: i32| max_of(actors[a].total_damage, 0);
    let l = |a: i32| max_of(-actors[a].total_damage, 0);
    assert(kept.dom() =~= actors.dom().difference(gone));
    lemma_sum_subset(kept.dom(), actors.dom(), g);
    lemma_sum_subset(kept.dom(), actors.dom(), l);
    lemma_sum_same_terms(kept.dom(), g, |a: i32| max_of(kept[a].total_damage, 0));
    lemma_sum_same_terms(kept.dom(), l, |a: i32| max_of(-kept[a].total_damage, 0));
    lemma_sum_within(kept);
}

/// Sums fit exactly when the damage of the actors together is in the range of an
/// `i64` whichever of them are taken out, so that any of them can be.
pub proof fn law_sums_fit_whichever_actors_go(actors: Map<i32, ActorState>)
    requires
        actors.dom().finite(),
    ensures
        sums_fit(actors) <==> forall|gone: Set<i32>|
            i64::MIN <= #[trigger] damage_sum(actors.remove_keys(gone)) <= i64::MAX,
{
    if sums_fit(actors) {
        assert forall|gone: Set<i32>|
            i64::MIN <= #[trigger] damage_sum(actors.remove_keys(gone)) <= i64::MAX by {
            lemma_sums_fit_without(actors, gone);
        }
    }
    let g = |a: i32| max_of(actors[a].total_damage, 0);
    let l = |a: i32| max_of(-actors[a].total_damage, 0);
    let below = actors.dom().filter(|a: i32| actors[a].total_damage < 0);
    let above = actors.dom().filter(|a: i32| actors[a].total_damage >= 0);
    let gaining = actors.remove_keys(below);
    let losing = actors.remove_keys(above);
    assert(gaining.dom() =~= above);
    assert(losing.dom() =~= below);
    lemma_sum_without_zeros(above, actors.dom(), g);
    lemma_sum_without_zeros(below, actors.dom(), l);
    lemma_sum_same_terms(above, g, |a: i32| gaining[a].total_damage);
    assert(damage_sum(gaining) == damage_gain(actors));
    lemma_negated(below, l, |a: i32| losing[a].total_damage);
    assert(damage_sum(losing) == -damage_loss(actors));
}

/// Negating every term negates the sum.
proof fn lemma_negated(keys: Set<i32>, f: spec_fn(i32) -> int, g: spec_fn(i32) -> int)
    requires
        keys.finite(),
        forall|k: i32| #[trigger] keys.contains(k) ==> f(k) == -g(k),
    ensures
        sum_over(keys, f) == -sum_over(keys, g),
    decreases keys.len(),
{
    if keys.len() > 0 {
        lemma_negated(keys.remove(keys.choose()), f, g);
    }
}

/// A target stays sound without some of its actors.
pub proof fn lemma_scrub(target: TargetState, gone: Set<i32>)
    requires
        target.wf(),
    ensures
        target.scrub(gone).wf(),
{
    let kept = target.actors.remove_keys(gone);
    assert(kept.dom() =~= target.actors.dom().difference(gone));
    lemma_sums_fit_without(target.actors, gone);
}

/// Taking out nobody changes nothing.
pub proof fn lemma_scrub_nobody(target: TargetState, gone: Set<i32>)
    requires
        target.wf(),
        target.actors.dom().disjoint(gone),
    ensures
        target.scrub(gone) == target,
{
    assert(target.actors.remove_keys(gone) =~= target.actors);
}

/// Taking actors out in two steps is taking them out at once.
pub proof fn lemma_scrub_twice(target: TargetState, first: Set<i32>, second: Set<i32>)
    ensures
        target.scrub(first).scrub(second) == target.scrub(first.union(second)),
{
    assert(target.actors.remove_keys(first).remove_keys(second) =~= target.actors.remove_keys(
        first.union(second),
    ));
}

impl View for TargetCombatData {
    type V = TargetState;

    open spec fn view(&self) -> TargetState {
        TargetState {
            target_id: self.target_id,
            total_damage: self.total_damage as int,
            first_damage_time: self.first_damage_time as int,
            last_damage_time: self.last_damage_time as int,
            last_packet_id: self.last_packet_id as int,
            actors: actor_states(self.actors@),
        }
    }
}

impl TargetCombatData {
    /// A target first seen at `timestamp`, with nothing done to it yet.
    pub fn new(target_id: i32, timestamp: i64) -> (target: TargetCombatData)
        ensures
            target@ == TargetState::fresh(target_id, timestamp),
            target@.wf(),
    {
        let target = TargetCombatData {
            target_id,
            total_damage: 0,
            first_damage_time: timestamp,
            last_damage_time: timestamp,
            last_packet_id: -1,
            actors: HashMap::new(),
        };
        assert(target@.actors =~= Map::empty());
        target
    }

    /// Whether the fight against this target has been idle too long to take a
    /// hit at `timestamp` as its next one.
    pub fn is_idle_at(&self, timestamp: i64) -> (idle: bool)
        ensures
            idle == self@.idle_at(timestamp),
    {
        self.last_damage_time > 0 && timestamp as i128 - self.last_damage_time as i128
            > IDLE_RESET_MS as i128
    }

    /// The damage of the actors that did any, and how far below zero the others
    /// are together.
    fn spread(&self) -> (sums: (u64, u64))
        requires
            self@.wf(),
        ensures
            sums.0 == damage_gain(self@.actors),
            sums.1 == damage_loss(self@.actors),
    {
        let ghost states = self@.actors;
        let ghost g = |a: i32| max_of(states[a].total_damage, 0);
        let ghost l = |a: i32| max_of(-states[a].total_damage, 0);
        let keys: Vec<i32> = keys_of(&self.actors);
        assert(keys@.to_set() =~= states.dom());
        let mut gain: u64 = 0;
        let mut loss: u64 = 0;
        let mut i: usize = 0;
        assert(keys@.take(0).to_set() =~= Set::<i32>::empty());
        while i < keys.len()
            invariant
                i <= keys.len(),
                keys@.no_duplicates(),
                keys@.to_set() == states.dom(),
                states == self@.actors,
                states.dom().finite(),
                g == (|a: i32| max_of(states[a].total_damage, 0)),
                l == (|a: i32| max_of(-states[a].total_damage, 0)),
                sums_fit(states),
                gain == sum_over(keys@.take(i as int).to_set(), g),
                loss == sum_over(keys@.take(i as int).to_set(), l),
            decreases keys.len() - i,
        {
            let key: i32 = keys[i];
            proof {
                let seen = keys@.take(i as int).to_set();
                assert(keys@.to_set().contains(key));
                lemma_take_step(keys@, i as int);
                lemma_sum_insert(seen, g, key);
                lemma_sum_insert(seen, l, key);
                let more = keys@.take(i + 1);
                assert forall|k: i32| more.to_set().contains(k) implies states.dom().contains(
                    k,
                ) by {
                    let j = choose|j: int| 0 <= j < more.len() && more[j] == k;
                    assert(keys@.to_set().contains(keys@[j]));
                }
                lemma_sum_subset(more.to_set(), states.dom(), g);
                lemma_sum_subset(more.to_set(), states.dom(), l);
            }
            let total: i64 = match self.actors.get(&key) {
                Some(actor) => actor.total_damage,
                None => 0,
            };
            assert(total == states[key].total_damage);
            if total >= 0 {
                gain += total as u64;
            } else {
                loss += (-(total as i128)) as u64;
            }
            i += 1;
        }
        assert(keys@.take(i as int) =~= keys@);
        (gain, loss)
    }

    /// Whether one more hit fits in the counters.
    pub fn has_room_for(&self, p: &ParsedDamagePacket) -> (fits: bool)
        requires
            self@.wf(),
        ensures
            fits == self@.has_room(*p),
    {
        let (total, actor_fits): (i64, bool) = match self.actors.get(&p.actor_id) {
            Some(actor) => {
                assert(self@.actors.contains_key(p.actor_id));
                (actor.total_damage, actor.has_room_for(p))
            },
            None => (0, true),
        };
        let (gain, loss): (u64, u64) = self.spread();
        proof {
            lemma_actor_change(self@.actors, p.actor_id, self@.actor_before(*p).hit(*p));
        }
        let before: i128 = total as i128;
        let after: i128 = before + p.total_damage as i128;
        let new_gain: i128 = gain as i128 - (if before > 0 { before } else { 0 }) + (if after > 0 {
            after
        } else {
            0
        });
        let new_loss: i128 = loss as i128 - (if before < 0 { -before } else { 0 }) + (if after < 0 {
            -after
        } else {
            0
        });
        actor_fits && new_gain <= i64::MAX as i128 && -new_loss >= i64::MIN as i128
    }

    /// Counts one more hit.
    pub fn record_hit(&mut self, p: &ParsedDamagePacket)
        requires
            old(self)@.wf(),
            old(self)@.has_room(*p),
        ensures
            final(self)@ == old(self)@.hit(*p),
            final(self)@.wf(),
    {
        let ghost before = self@.actors;
        proof {
            lemma_actor_change(before, p.actor_id, self@.actor_before(*p).hit(*p));
            lemma_sum_within(self@.hit(*p).actors);
            lemma_sum_within(before.remove(p.actor_id));
        }
        if p.timestamp < self.first_damage_time {
            self.first_damage_time = p.timestamp;
        }
        if p.timestamp > self.last_damage_time {
            self.last_damage_time = p.timestamp;
        }
        self.total_damage += p.total_damage as i64;
        self.last_packet_id = p.id;
        let mut actor: ActorCombatData = match self.actors.remove(&p.actor_id) {
            Some(actor) => {
                assert(before.contains_key(p.actor_id));
                actor
            },
            None => ActorCombatData::new(),
        };
        assert(actor@ == old(self)@.actor_before(*p));
        actor.record_hit(p);
        self.actors.insert(p.actor_id, actor);
        assert(self@.actors =~= before.insert(p.actor_id, actor@));
    }

    /// Takes one actor out, as if it had never hit the target.
    pub fn remove_actor(&mut self, id: i32)
        requires
            old(self)@.wf(),
        ensures
            final(self)@ == old(self)@.scrub(set![id]),
            final(self)@.wf(),
    {
        let ghost before = self@.actors;
        let ghost rest = before.remove(id);
        proof {
            lemma_actor_change(before, id, ActorState::fresh());
            assert(before.remove_keys(set![id]) =~= rest);
            lemma_sums_fit_without(before, set![id]);
        }
        match self.actors.remove(&id) {
            Some(actor) => {
                assert(before.contains_key(id));
                self.total_damage -= actor.total_damage;
            },
            None => {},
        }
        assert(self@.actors =~= rest);
    }

    /// Takes several actors out, as if they had never hit the target.
    pub fn remove_actors(&mut self, ids: &Vec<i32>)
        requires
            old(self)@.wf(),
        ensures
            final(self)@ == old(self)@.scrub(ids@.to_set()),
            final(self)@.wf(),
    {
        let ghost before = self@;
        proof {
            assert(ids@.take(0).to_set() =~= Set::<i32>::empty());
            lemma_scrub_nobody(before, ids@.take(0).to_set());
        }
        let mut i: usize = 0;
        while i < ids.len()
            invariant
                i <= ids.len(),
                self@.wf(),
                self@ == before.scrub(ids@.take(i as int).to_set()),
            decreases ids.len() - i,
        {
            self.remove_actor(ids[i]);
            proof {
                lemma_scrub_twice(before, ids@.take(i as int).to_set(), set![ids@[i as int]]);
                lemma_take_step(ids@, i as int);
                assert(ids@.take(i as int).to_set().union(set![ids@[i as int]]) =~= ids@.take(
                    i + 1,
                ).to_set());
            }
            i += 1;
        }
        assert(ids@.take(ids.len() as int) =~= ids@);
    }

    /// A copy, with the hit times of the actors' skills or without.
    pub fn copied(&self, times: bool) -> (copy: TargetCombatData)
        ensures
            copy@ == if times {
                self@
            } else {
                self@.without_times()
            },
    {
        let keys: Vec<i32> = keys_of(&self.actors);
        let mut actors: HashMap<i32, ActorCombatData> = HashMap::new();
        let mut i: usize = 0;
        while i < keys.len()
            invariant
                i <= keys.len(),
                keys@.no_duplicates(),
                keys@.to_set() == self.actors@.dom(),
                actors@.dom() == keys@.take(i as int).to_set(),
                forall|k: i32| #[trigger]
                    actors@.contains_key(k) ==> actors@[k]@ == if times {
                        self.actors@[k]@
                    } else {
                        self.actors@[k]@.without_times()
                    },
            decreases keys.len() - i,
        {
            let key: i32 = keys[i];
            assert(keys@.to_set().contains(key));
            match self.actors.get(&key) {
                Some(actor) => {
                    actors.insert(key, actor.copied(times));
                },
                None => {},
            }
            proof {
                lemma_take_step(keys@, i as int);
            }
            i += 1;
        }
        assert(keys@.take(keys.len() as int) =~= keys@);
        let copy = TargetCombatData {
            target_id: self.target_id,
            total_damage: self.total_damage,
            first_damage_time: self.first_damage_time,
            last_damage_time: self.last_damage_time,
            last_packet_id: self.last_packet_id,
            actors,
        };
        assert(copy@.actors =~= if times {
            self@.actors
        } else {
            self@.without_times().actors
        });
        copy
    }
}

} // verus!
