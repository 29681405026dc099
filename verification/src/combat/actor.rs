//! What the meter keeps about one actor's work on one target.

use std::collections::HashMap;
use vstd::prelude::*;

use crate::combat::skill::{
    is_skill_key, max_of, skill_key, spec_skill_key, SkillCombatData, SkillState,
};
use crate::entity::{JobClass, ParsedDamagePacket};
use crate::maps::{keys_of, lemma_take_step};

verus! {

broadcast use vstd::std_specs::hash::group_hash_axioms;

/// What one actor did to one target.
#[derive(Clone, Debug)]
pub struct ActorCombatData {
    pub total_damage: i64,
    pub party_heal: i64,
    pub regen: i64,
    pub damage_received: i64,
    pub hits_received: i32,
    pub last_damage_time: i64,
    pub job: Option<JobClass>,
    /// Skills by [`skill_key`].
    pub skills: HashMap<i64, SkillCombatData>,
}

/// The mathematical reading of an [`ActorCombatData`].
#[verifier::ext_equal]
pub struct ActorState {
    pub total_damage: int,
    pub party_heal: int,
    pub regen: int,
    pub damage_received: int,
    pub hits_received: int,
    pub last_damage_time: int,
    pub job: Option<JobClass>,
    /// Skills by [`skill_key`].
    pub skills: Map<i64, SkillState>,
}

/// The skills of a map, each by its reading.
pub open spec fn skill_states(skills: Map<i64, SkillCombatData>) -> Map<i64, SkillState> {
    skills.map_values(|skill: SkillCombatData| skill@)
}

impl ActorState {
    /// An actor that has not done anything yet.
    pub open spec fn fresh() -> ActorState {
        ActorState {
            total_damage: 0,
            party_heal: 0,
            regen: 0,
            damage_received: 0,
            hits_received: 0,
            last_damage_time: 0,
            job: None,
            skills: Map::empty(),
        }
    }

    /// The record of the skill that `p` hits with, as it is before the hit.
    pub open spec fn skill_before(self, p: ParsedDamagePacket) -> SkillState {
        let key = spec_skill_key(p.skill_code, p.is_dot);
        if self.skills.contains_key(key) {
            self.skills[key]
        } else {
            SkillState::fresh(p.skill_code, p.is_dot)
        }
    }

    /// The actor after one more hit.
    pub open spec fn hit(self, p: ParsedDamagePacket) -> ActorState {
        ActorState {
            total_damage: self.total_damage + p.total_damage,
            regen: self.regen + if p.heal_amount > 0 {
                p.heal_amount as int
            } else {
                0
            },
            last_damage_time: max_of(self.last_damage_time, p.timestamp as int),
            job: if self.job is Some {
                self.job
            } else {
                p.job
            },
            skills: self.skills.insert(
                spec_skill_key(p.skill_code, p.is_dot),
                self.skill_before(p).hit(p),
            ),
            ..self
        }
    }

    /// The actor after a party heal of `amount`.
    pub open spec fn healed_party(self, amount: int) -> ActorState {
        ActorState { party_heal: self.party_heal + amount, ..self }
    }

    /// The actor after being hit for `amount`.
    pub open spec fn took(self, amount: int) -> ActorState {
        ActorState {
            damage_received: self.damage_received + amount,
            hits_received: self.hits_received + 1,
            ..self
        }
    }

    /// The same actor without the hit times of its skills.
    pub open spec fn without_times(self) -> ActorState {
        ActorState {
            skills: self.skills.map_values(|skill: SkillState| skill.without_times()),
            ..self
        }
    }

    /// Whether one more hit fits in the counters that the target's total does not
    /// already bound.
    pub open spec fn has_room(self, p: ParsedDamagePacket) -> bool {
        &&& p.heal_amount > 0 ==> self.regen + p.heal_amount <= i64::MAX
        &&& self.skill_before(p).has_room(p)
    }

    /// Every skill record is sound, stands under its own key and has hit.
    pub open spec fn wf(self) -> bool {
        forall|k: i64| #[trigger]
            self.skills.contains_key(k) ==> {
                &&& self.skills[k].wf()
                &&& self.skills[k].hit_count >= 1
                &&& is_skill_key(k)
                &&& k == spec_skill_key(self.skills[k].skill_code, self.skills[k].is_dot)
            }
    }
}

impl View for ActorCombatData {
    type V = ActorState;

    open spec fn view(&self) -> ActorState {
        ActorState {
            total_damage: self.total_damage as int,
            party_heal: self.party_heal as int,
            regen: self.regen as int,
            damage_received: self.damage_received as int,
            hits_received: self.hits_received as int,
            last_damage_time: self.last_damage_time as int,
            job: self.job,
            skills: skill_states(self.skills@),
        }
    }
}

impl ActorCombatData {
    /// An actor that has not done anything yet.
    pub fn new() -> (actor: ActorCombatData)
        ensures
            actor@ == ActorState::fresh(),
            actor@.wf(),
    {
        let actor = ActorCombatData {
            total_damage: 0,
            party_heal: 0,
            regen: 0,
            damage_received: 0,
            hits_received: 0,
            last_damage_time: 0,
            job: None,
            skills: HashMap::new(),
        };
        assert(actor@.skills =~= Map::empty());
        actor
    }

    /// Whether one more hit fits in the counters that the target's total does not
    /// already bound.
    pub fn has_room_for(&self, p: &ParsedDamagePacket) -> (fits: bool)
        ensures
            fits == self@.has_room(*p),
    {
        let key: i64 = skill_key(p.skill_code, p.is_dot);
        let skill_fits: bool = match self.skills.get(&key) {
            Some(skill) => {
                assert(self@.skills.contains_key(key));
                skill.has_room_for(p)
            },
            None => true,
        };
        skill_fits && (p.heal_amount <= 0 || self.regen as i128 + p.heal_amount as i128
            <= i64::MAX as i128)
    }

    /// Counts one more hit.
    pub fn record_hit(&mut self, p: &ParsedDamagePacket)
        requires
            old(self)@.wf(),
            old(self)@.has_room(*p),
            i64::MIN <= old(self).total_damage + p.total_damage <= i64::MAX,
        ensures
            final(self)@ == old(self)@.hit(*p),
            final(self)@.wf(),
    {
        let key: i64 = skill_key(p.skill_code, p.is_dot);
        self.total_damage += p.total_damage as i64;
        if p.heal_amount > 0 {
            self.regen += p.heal_amount as i64;
        }
        if p.timestamp > self.last_damage_time {
            self.last_damage_time = p.timestamp;
        }
        if self.job.is_none() {
            self.job = p.job;
        }
        let mut skill: SkillCombatData = match self.skills.remove(&key) {
            Some(skill) => {
                assert(old(self)@.skills.contains_key(key));
                skill
            },
            None => SkillCombatData::new(p.skill_code, p.is_dot),
        };
        assert(skill@ == old(self)@.skill_before(*p));
        skill.record_hit(p);
        self.skills.insert(key, skill);
        assert(self@.skills =~= old(self)@.skills.insert(key, skill@));
    }

    /// A copy, with the hit times of the skills or without.
    pub fn copied(&self, times: bool) -> (copy: ActorCombatData)
        ensures
            copy@ == if times {
                self@
            } else {
                self@.without_times()
            },
            copy.skills@.dom() == self.skills@.dom(),
            self@.wf() ==> forall|k: i64| #[trigger]
                copy.skills@.contains_key(k) ==> is_skill_key(k),
    {
        let copy = ActorCombatData {
            total_damage: self.total_damage,
            party_heal: self.party_heal,
            regen: self.regen,
            damage_received: self.damage_received,
            hits_received: self.hits_received,
            last_damage_time: self.last_damage_time,
            job: self.job,
            skills: copied_skills(&self.skills, times),
        };
        assert(copy@.skills =~= if times {
            self@.skills
        } else {
            self@.without_times().skills
        });
        assert forall|k: i64| self@.wf() && #[trigger] copy.skills@.contains_key(k) implies is_skill_key(
            k,
        ) by {
            assert(self@.skills.contains_key(k));
        }
        copy
    }
}

/// A copy of every skill of `skills`, with its hit times or without.
fn copied_skills(skills: &HashMap<i64, SkillCombatData>, times: bool) -> (copies: HashMap<
    i64,
    SkillCombatData,
>)
    ensures
        copies@.dom() == skills@.dom(),
        forall|k: i64| #[trigger]
            skills@.contains_key(k) ==> copies@[k]@ == if times {
                skills@[k]@
            } else {
                skills@[k]@.without_times()
            },
{
    let keys: Vec<i64> = keys_of(skills);
    let mut copies: HashMap<i64, SkillCombatData> = HashMap::new();
    let mut i: usize = 0;
    while i < keys.len()
        invariant
            i <= keys.len(),
            keys@.no_duplicates(),
            keys@.to_set() == skills@.dom(),
            copies@.dom() == keys@.take(i as int).to_set(),
            forall|k: i64| #[trigger]
                copies@.contains_key(k) ==> copies@[k]@ == if times {
                    skills@[k]@
                } else {
                    skills@[k]@.without_times()
                },
        decreases keys.len() - i,
    {
        let key: i64 = keys[i];
        assert(keys@.to_set().contains(key));
        match skills.get(&key) {
            Some(skill) => {
                copies.insert(key, skill.copied(times));
            },
            None => {},
        }
        proof {
            lemma_take_step(keys@, i as int);
        }
        i += 1;
    }
    assert(keys@.take(keys.len() as int) =~= keys@);
    copies
}

} // verus!
