//! The storage behind the meter: who is who, and who did what to whom.

use std::collections::{HashMap, HashSet};
use vstd::prelude::*;

use crate::clock::now_ms;
use crate::combat::actor::{ActorCombatData, ActorState};
use crate::combat::friendly_fire::{
    is_friendly_action, own_side, purge_friendly_damage, same_side, scrub_actors, target_states,
};
use crate::combat::model::{
    player_skill, StorageState, MAX_POWER_SCALARS, ZONE_RESET_DEBOUNCE_MS, ZONE_RESET_LULL_MS,
};
use crate::combat::roster::{entered, members, PartyRoster};
use crate::combat::skill::{
    is_skill_key, skill_key, spec_skill_key, HealSkillData, PartyMember,
};
use crate::combat::summon_resolver::resolve;
use crate::combat::target::{
    lemma_actor_change, lemma_scrub_nobody, TargetCombatData, TargetState,
};
use crate::entity::{JobClass, ParsedDamagePacket};
use crate::maps::{
    copy_ids, keys_of, lemma_take_step, remove_all, remove_all_ids, remove_with_value,
};
use crate::text::{has_cjk, optional_text, same_text};

verus! {

broadcast use vstd::std_specs::hash::group_hash_axioms;

/// The texts of a map, each by its characters.
pub open spec fn texts(names: Map<i32, String>) -> Map<i32, Seq<char>> {
    names.map_values(|name: String| name@)
}

/// The heals per healer, then by [`skill_key`].
pub open spec fn heal_states(
    heals: Map<i32, HashMap<i64, HealSkillData>>,
) -> Map<i32, Map<i64, HealSkillData>> {
    heals.map_values(|skills: HashMap<i64, HealSkillData>| skills@)
}

/// Whether every heal of a snapshot stands under the key of a skill.
pub open spec fn heals_by_skill(heals: Map<i32, HashMap<i64, HealSkillData>>) -> bool {
    forall|a: i32, k: i64|
        heals.contains_key(a) && #[trigger] heals[a]@.contains_key(k) ==> is_skill_key(k)
}

/// Whether every skill record of a snapshot stands under its own key.
pub open spec fn records_by_skill(snapshot: Map<i32, TargetCombatData>) -> bool {
    forall|t: i32, a: i32, k: i64|
        snapshot.contains_key(t) && snapshot[t].actors@.contains_key(a)
            && #[trigger] snapshot[t].actors@[a].skills@.contains_key(k) ==> {
            let skill = snapshot[t].actors@[a].skills@[k];
            is_skill_key(k) && k == spec_skill_key(skill.skill_code, skill.is_dot)
        }
}

/// The sets of a map, each by its elements.
pub open spec fn id_sets(sets: Map<i32, HashSet<i32>>) -> Map<i32, Set<i32>> {
    sets.map_values(|set: HashSet<i32>| set@)
}

/// What the meter knows about the fight and about the entities in it.
pub struct DataStorage {
    target_combat: HashMap<i32, TargetCombatData>,
    actor_jobs: HashMap<i32, JobClass>,
    nickname_storage: HashMap<i32, String>,
    pending_nicknames: HashMap<i32, String>,
    permanent_nicknames: HashMap<i32, String>,
    summon_storage: HashMap<i32, i32>,
    mob_storage: HashMap<i32, i32>,
    heal_storage: HashMap<i32, HashMap<i64, HealSkillData>>,
    mob_hp_data: HashMap<i32, i32>,
    mob_current_hp: HashMap<i32, i32>,
    known_player_ids: HashSet<i32>,
    authoritative_name_ids: HashSet<i32>,
    confirmed_summon_ids: HashSet<i32>,
    summon_spawn_ids: HashSet<i32>,
    low_id_entities: HashSet<i32>,
    party_members: PartyRoster,
    actor_power_scalars: HashMap<i32, HashSet<i32>>,
    hostile_target_ids: HashSet<i32>,
    dead_entity_ids: HashSet<i32>,
    boss_entity_ids: HashSet<i32>,
    has_boss_in_segment: bool,
    current_target: i32,
    local_player_id: Option<i64>,
    local_character_name: Option<String>,
    damage_generation: i64,
    last_damage_ms: i64,
    last_zone_reset_ms: i64,
    combat_reset_requested: bool,
}

impl View for DataStorage {
    type V = StorageState;

    closed spec fn view(&self) -> StorageState {
        StorageState {
            targets: target_states(self.target_combat@),
            actor_jobs: self.actor_jobs@,
            nicknames: texts(self.nickname_storage@),
            pending_nicknames: texts(self.pending_nicknames@),
            permanent_nicknames: texts(self.permanent_nicknames@),
            summons: self.summon_storage@,
            mobs: self.mob_storage@,
            heals: heal_states(self.heal_storage@),
            mob_hp: self.mob_hp_data@,
            mob_current_hp: self.mob_current_hp@,
            known_players: self.known_player_ids@,
            authoritative_names: self.authoritative_name_ids@,
            confirmed_summons: self.confirmed_summon_ids@,
            summon_spawns: self.summon_spawn_ids@,
            low_ids: self.low_id_entities@,
            party: self.party_members@,
            power_scalars: id_sets(self.actor_power_scalars@),
            hostile_targets: self.hostile_target_ids@,
            dead: self.dead_entity_ids@,
            bosses: self.boss_entity_ids@,
            boss_in_segment: self.has_boss_in_segment,
            current_target: self.current_target,
            local_player_id: self.local_player_id,
            local_name: optional_text(self.local_character_name),
            damage_generation: self.damage_generation,
            last_damage_ms: self.last_damage_ms,
            last_zone_reset_ms: self.last_zone_reset_ms,
            reset_requested: self.combat_reset_requested,
        }
    }
}

impl DataStorage {
    /// Every record in the storage is sound.
    pub open spec fn wf(&self) -> bool {
        self@.wf() && self.roster_wf()
    }

    /// The roster lists nobody twice.
    pub closed spec fn roster_wf(&self) -> bool {
        self.party_members.wf()
    }

    /// A storage that has seen nothing.
    pub fn new() -> (storage: DataStorage)
        ensures
            storage.wf(),
            storage@ == StorageState::empty(),
    {
        let storage = DataStorage {
            target_combat: HashMap::new(),
            actor_jobs: HashMap::new(),
            nickname_storage: HashMap::new(),
            pending_nicknames: HashMap::new(),
            permanent_nicknames: HashMap::new(),
            summon_storage: HashMap::new(),
            mob_storage: HashMap::new(),
            heal_storage: HashMap::new(),
            mob_hp_data: HashMap::new(),
            mob_current_hp: HashMap::new(),
            known_player_ids: HashSet::new(),
            authoritative_name_ids: HashSet::new(),
            confirmed_summon_ids: HashSet::new(),
            summon_spawn_ids: HashSet::new(),
            low_id_entities: HashSet::new(),
            party_members: PartyRoster::new(),
            actor_power_scalars: HashMap::new(),
            hostile_target_ids: HashSet::new(),
            dead_entity_ids: HashSet::new(),
            boss_entity_ids: HashSet::new(),
            has_boss_in_segment: false,
            current_target: 0,
            local_player_id: None,
            local_character_name: None,
            damage_generation: 0,
            last_damage_ms: 0,
            last_zone_reset_ms: 0,
            combat_reset_requested: false,
        };
        assert(storage@ =~= StorageState::empty());
        storage
    }

    // ----- names -----

    /// The other ids that go by `name`.
    fn stale_holders(&self, id: i32, name: &str) -> (stale: Vec<i32>)
        ensures
            stale@.to_set() == self@.stale_holders(id, name@),
    {
        let keys: Vec<i32> = keys_of(&self.nickname_storage);
        let wanted: String = name.to_owned();
        let mut stale: Vec<i32> = Vec::new();
        let ghost is_stale = |other: i32| other != id && self@.nicknames[other] == name@;
        assert(self@.nicknames.dom() =~= self.nickname_storage@.dom());
        assert(stale@.to_set() =~= keys@.take(0).to_set().filter(is_stale));
        let mut i: usize = 0;
        while i < keys.len()
            invariant
                i <= keys.len(),
                wanted@ == name@,
                keys@.to_set() == self.nickname_storage@.dom(),
                is_stale == (|other: i32| other != id && self@.nicknames[other] == name@),
                stale@.to_set() == keys@.take(i as int).to_set().filter(is_stale),
            decreases keys.len() - i,
        {
            let key: i32 = keys[i];
            let ghost before = stale@;
            proof {
                assert(keys@.to_set().contains(key));
                lemma_take_step(keys@, i as int);
            }
            let same: bool = match self.nickname_storage.get(&key) {
                Some(held) => *held == wanted,
                None => false,
            };
            if key != id && same {
                stale.push(key);
                proof {
                    lemma_take_step(stale@, before.len() as int);
                    assert(stale@.take(before.len() as int) =~= before);
                    assert(stale@.take(before.len() as int + 1) =~= stale@);
                }
            }
            assert(stale@.to_set() =~= keys@.take(i + 1).to_set().filter(is_stale));
            i += 1;
        }
        assert(keys@.take(keys.len() as int) =~= keys@);
        stale
    }

    /// Forgets the entities in `stale`.
    fn forget(&mut self, stale: &Vec<i32>)
        requires
            old(self).wf(),
        ensures
            final(self).wf(),
            final(self)@ == old(self)@.forget(stale@.to_set()),
    {
        remove_all(&mut self.nickname_storage, stale);
        remove_all_ids(&mut self.known_player_ids, stale);
        remove_all_ids(&mut self.authoritative_name_ids, stale);
        remove_all(&mut self.pending_nicknames, stale);
        remove_with_value(&mut self.summon_storage, stale);
        scrub_actors(&mut self.target_combat, stale);
        proof {
            let gone = stale@.to_set();
            assert(self@.nicknames =~= old(self)@.nicknames.remove_keys(gone));
            assert(self@.pending_nicknames =~= old(self)@.pending_nicknames.remove_keys(gone));
            assert(self@ =~= old(self)@.forget(gone));
        }
    }

    /// Counts `id` among the players.
    fn note_player(&mut self, id: i32)
        requires
            old(self).wf(),
            !old(self)@.confirmed_summons.contains(id),
        ensures
            final(self).wf(),
            final(self)@ == old(self)@.note_player(id),
    {
        if !self.known_player_ids.contains(&id) {
            self.known_player_ids.insert(id);
            self.summon_storage.remove(&id);
            purge_friendly_damage(
                &mut self.target_combat,
                &self.summon_storage,
                &self.known_player_ids,
            );
        }
        assert(self@ =~= old(self)@.note_player(id));
    }

    /// If `name` is the local character's, `id` is the local player.
    fn bind_local(&mut self, id: i32, name: &str)
        requires
            old(self).wf(),
        ensures
            final(self).wf(),
            final(self)@ == old(self)@.bind_local(id, name@),
    {
        let matches: bool = match &self.local_character_name {
            Some(local) => same_text(local.as_str().trim(), name.trim()),
            None => false,
        };
        if matches {
            self.local_player_id = Some(id as i64);
        }
        assert(self@ =~= old(self)@.bind_local(id, name@));
    }

    /// Whether the name that `id` has looks better than `name`.
    fn prefers_own_name(&self, id: i32, name: &str) -> (prefers: bool)
        ensures
            prefers == self@.prefers_own_name(id, name@),
    {
        match self.nickname_storage.get(&id) {
            Some(own) => {
                assert(self@.nicknames[id] == own@);
                let name_bytes: usize = name.as_bytes().len();
                let own_bytes: usize = own.as_str().as_bytes().len();
                !has_cjk(name) && name_bytes < own_bytes && (has_cjk(own.as_str()) || name_bytes
                    <= 5)
            },
            None => {
                assert(!self@.nicknames.contains_key(id));
                false
            },
        }
    }

    /// Offers `name` for `id`; `force` overrides the preference for the name that
    /// `id` has.
    fn append_nickname_inner_with_force(&mut self, id: i32, name: &str, force: bool)
        requires
            old(self).wf(),
        ensures
            final(self).wf(),
            final(self)@ == old(self)@.set_name(id, name@, force),
    {
        let same: bool = match self.nickname_storage.get(&id) {
            Some(held) => same_text(held.as_str(), name),
            None => false,
        };
        if same {
            self.bind_local(id, name);
            return;
        }
        if !force && self.prefers_own_name(id, name) {
            return;
        }
        let stale: Vec<i32> = self.stale_holders(id, name);
        self.forget(&stale);
        let ghost forgotten = self@;
        self.nickname_storage.insert(id, name.to_owned());
        assert(self@.nicknames =~= forgotten.nicknames.insert(id, name@));
        if !self.confirmed_summon_ids.contains(&id) {
            self.summon_storage.remove(&id);
            assert(self@ =~= (StorageState {
                nicknames: forgotten.nicknames.insert(id, name@),
                summons: forgotten.summons.remove(id),
                ..forgotten
            }));
            self.note_player(id);
        } else {
            assert(self@ =~= (StorageState {
                nicknames: forgotten.nicknames.insert(id, name@),
                ..forgotten
            }));
        }
        assert(self@ == forgotten.give_name(id, name@));
        self.bind_local(id, name);
    }

    /// Offers the name waiting for `id`, now that `id` has been seen.
    fn apply_pending_nickname(&mut self, id: i32)
        requires
            old(self).wf(),
        ensures
            final(self).wf(),
            final(self)@ == old(self)@.apply_pending(id),
    {
        if self.nickname_storage.contains_key(&id) {
            assert(self@.nicknames.contains_key(id));
            return;
        }
        assert(!self@.nicknames.contains_key(id));
        match self.pending_nicknames.remove(&id) {
            Some(pending) => {
                assert(old(self)@.pending_nicknames[id] == pending@);
                assert(self@.pending_nicknames =~= old(self)@.pending_nicknames.remove(id));
                assert(self@ =~= (StorageState {
                    pending_nicknames: old(self)@.pending_nicknames.remove(id),
                    ..old(self)@
                }));
                self.append_nickname_inner_with_force(id, pending.as_str(), false);
            },
            None => {
                assert(!old(self)@.pending_nicknames.contains_key(id));
                assert(self@ =~= old(self)@);
            },
        }
    }

    // ----- damage -----

    /// A target that has a record of actor `id`.
    fn find_record(&self, id: i32) -> (found: Option<i32>)
        ensures
            match found {
                Some(t) => self@.targets.contains_key(t)
                    && self@.targets[t].actors.contains_key(id),
                None => !self@.has_record(id),
            },
    {
        let keys: Vec<i32> = keys_of(&self.target_combat);
        let mut i: usize = 0;
        while i < keys.len()
            invariant
                i <= keys.len(),
                keys@.to_set() == self.target_combat@.dom(),
                forall|j: int|
                    0 <= j < i ==> !self@.targets[#[trigger] keys@[j]].actors.contains_key(id),
            decreases keys.len() - i,
        {
            let key: i32 = keys[i];
            assert(keys@.to_set().contains(key));
            match self.target_combat.get(&key) {
                Some(target) => {
                    assert(self@.targets[key] == target@);
                    if target.actors.contains_key(&id) {
                        return Some(key);
                    }
                },
                None => {},
            }
            i += 1;
        }
        assert forall|t: i32| #[trigger]
            self@.targets.contains_key(t) implies !self@.targets[t].actors.contains_key(id) by {
            assert(keys@.to_set().contains(t));
        }
        None
    }

    /// Adds to the counters that the record of actor `id` against `target` keeps
    /// besides its damage.
    fn add_to_record(&mut self, target: i32, id: i32, taken: i64, hits: i32, healed: i64)
        requires
            old(self).wf(),
            old(self)@.targets.contains_key(target),
            old(self)@.targets[target].actors.contains_key(id),
            ({
                let actor = old(self)@.targets[target].actors[id];
                &&& i64::MIN <= actor.damage_received + taken <= i64::MAX
                &&& i32::MIN <= actor.hits_received + hits <= i32::MAX
                &&& i64::MIN <= actor.party_heal + healed <= i64::MAX
            }),
        ensures
            final(self).wf(),
            ({
                let actor = old(self)@.targets[target].actors[id];
                final(self)@ == old(self)@.with_actor(
                    target,
                    id,
                    ActorState {
                        damage_received: actor.damage_received + taken,
                        hits_received: actor.hits_received + hits,
                        party_heal: actor.party_heal + healed,
                        ..actor
                    },
                )
            }),
    {
        let ghost record = self@.targets[target];
        let ghost before = record.actors[id];
        match self.target_combat.remove(&target) {
            Some(found) => {
                let mut found: TargetCombatData = found;
                match found.actors.remove(&id) {
                    Some(actor) => {
                        let mut actor: ActorCombatData = actor;
                        assert(actor@ == before);
                        actor.damage_received += taken;
                        actor.hits_received += hits;
                        actor.party_heal += healed;
                        let ghost after = actor@;
                        proof {
                            assert(after.skills == before.skills);
                            lemma_actor_change(record.actors, id, after);
                        }
                        found.actors.insert(id, actor);
                        assert(found@.actors =~= record.actors.insert(id, after));
                        assert(found@.wf());
                        self.target_combat.insert(target, found);
                        assert(self@.targets =~= old(self)@.targets.insert(target, found@));
                        assert(self@ =~= old(self)@.with_actor(target, id, after));
                    },
                    None => {},
                }
            },
            None => {},
        }
    }

    /// Counts a hit of `amount` taken by player `id`.
    fn record_damage_taken(&mut self, id: i32, amount: i32)
        requires
            old(self).wf(),
            old(self)@.may_take(id, amount as int),
        ensures
            final(self).wf(),
            old(self)@.one_record_changed(
                final(self)@,
                id,
                |a: ActorState| a.took(amount as int),
            ),
    {
        match self.find_record(id) {
            Some(target) => {
                self.add_to_record(target, id, amount as i64, 1, 0);
            },
            None => {},
        }
    }

    /// Counts healing of `amount` that player `id` did to the party.
    fn record_party_heal(&mut self, id: i32, amount: i32)
        requires
            old(self).wf(),
            old(self)@.may_heal_party(id, amount as int),
            amount > 0,
        ensures
            final(self).wf(),
            old(self)@.one_record_changed(
                final(self)@,
                id,
                |a: ActorState| a.healed_party(amount as int),
            ),
    {
        match self.find_record(id) {
            Some(target) => {
                self.add_to_record(target, id, 0, 0, amount as i64);
            },
            None => {},
        }
    }

    /// Counts healing of `amount` done by `actor` with one skill.
    fn add_heal(&mut self, actor: i32, skill_code: i32, is_hot: bool, amount: i64)
        requires
            old(self).wf(),
            amount > 0,
            old(self)@.heal_fits(actor, skill_code, is_hot, amount as int),
        ensures
            final(self).wf(),
            final(self)@ == old(self)@.add_heal(actor, skill_code, is_hot, amount as int),
    {
        let key: i64 = skill_key(skill_code, is_hot);
        let mut skills: HashMap<i64, HealSkillData> = match self.heal_storage.remove(&actor) {
            Some(skills) => {
                assert(old(self)@.heals[actor] == skills@);
                skills
            },
            None => HashMap::new(),
        };
        let before: HealSkillData = match skills.get(&key) {
            Some(heal) => *heal,
            None => HealSkillData { total_heal: 0, tick_count: 0 },
        };
        assert(before == old(self)@.heal_before(actor, skill_code, is_hot));
        let after = HealSkillData {
            total_heal: before.total_heal + amount,
            tick_count: before.tick_count + 1,
        };
        skills.insert(key, after);
        self.heal_storage.insert(actor, skills);
        proof {
            let expected = old(self)@.add_heal(actor, skill_code, is_hot, amount as int);
            assert(self@.heals =~= expected.heals);
            assert(self@ =~= expected);
        }
    }

    /// Notes hostility, class and segment for a hit.
    fn enter_fight(&mut self, p: &ParsedDamagePacket)
        requires
            old(self).wf(),
        ensures
            final(self).wf(),
            final(self)@ == old(self)@.enter_fight(*p),
    {
        let owner: i32 = resolve(p.actor_id, &self.summon_storage);
        if self.known_player_ids.contains(&owner) {
            self.hostile_target_ids.insert(p.target_id);
        }
        if let Some(job) = p.job {
            if !self.actor_jobs.contains_key(&p.actor_id) {
                self.actor_jobs.insert(p.actor_id, job);
            }
        }
        if self.boss_entity_ids.contains(&p.target_id) {
            if !self.has_boss_in_segment {
                if !self.target_combat.is_empty() {
                    proof {
                        let k = choose|k: i32| self.target_combat@.contains_key(k);
                        assert(self.target_combat@.dom() != Set::<i32>::empty());
                        assert(old(self)@.targets.contains_key(k));
                    }
                    self.target_combat.clear();
                    self.dead_entity_ids.clear();
                } else {
                    assert(old(self)@.targets =~= Map::empty());
                }
                assert(self@.targets =~= Map::empty());
            }
            self.has_boss_in_segment = true;
        }
        assert(self@ =~= old(self)@.enter_fight(*p));
    }

    /// Records the hit itself.
    fn record_hit(&mut self, p: &ParsedDamagePacket, now: i64)
        requires
            old(self).wf(),
            old(self)@.target_before(*p).has_room(*p),
        ensures
            final(self).wf(),
            final(self)@ == old(self)@.record_hit(*p, now),
    {
        let found: Option<TargetCombatData> = self.target_combat.remove(&p.target_id);
        let mut target: TargetCombatData = match found {
            Some(target) => {
                assert(old(self)@.targets[p.target_id] == target@);
                if target.is_idle_at(p.timestamp) {
                    TargetCombatData::new(p.target_id, p.timestamp)
                } else {
                    target
                }
            },
            None => TargetCombatData::new(p.target_id, p.timestamp),
        };
        assert(target@ == old(self)@.target_before(*p));
        target.record_hit(p);
        self.target_combat.insert(p.target_id, target);
        self.damage_generation = self.damage_generation.wrapping_add(1);
        self.last_damage_ms = now;
        proof {
            let expected = old(self)@.record_hit(*p, now);
            assert(self@.targets =~= expected.targets);
            assert(self@ =~= expected);
        }
    }

    /// Whether a heal fits in the healer's counters.
    pub fn has_room_for_heal(
        &self,
        actor: i32,
        skill_code: i32,
        amount: i64,
        is_hot: bool,
    ) -> (fits: bool)
        ensures
            fits == self@.heal_fits(actor, skill_code, is_hot, amount as int),
    {
        let key: i64 = skill_key(skill_code, is_hot);
        let before: HealSkillData = match self.heal_storage.get(&actor) {
            Some(skills) => {
                assert(self@.heals[actor] == skills@);
                match skills.get(&key) {
                    Some(heal) => *heal,
                    None => HealSkillData { total_heal: 0, tick_count: 0 },
                }
            },
            None => HealSkillData { total_heal: 0, tick_count: 0 },
        };
        assert(before == self@.heal_before(actor, skill_code, is_hot));
        before.total_heal as i128 + amount as i128 <= i64::MAX as i128 && before.tick_count
            < i32::MAX
    }

    /// Whether a hit of `amount` fits in what player `id` has taken, by any record.
    fn has_room_taken(&self, id: i32, amount: i32) -> (fits: bool)
        ensures
            fits == self@.may_take(id, amount as int),
    {
        let keys: Vec<i32> = keys_of(&self.target_combat);
        let mut i: usize = 0;
        while i < keys.len()
            invariant
                i <= keys.len(),
                keys@.to_set() == self.target_combat@.dom(),
                forall|j: int|
                    0 <= j < i && self@.targets[#[trigger] keys@[j]].actors.contains_key(id) ==> {
                        let actor = self@.targets[keys@[j]].actors[id];
                        &&& i64::MIN <= actor.damage_received + amount <= i64::MAX
                        &&& actor.hits_received < i32::MAX
                    },
            decreases keys.len() - i,
        {
            let key: i32 = keys[i];
            assert(keys@.to_set().contains(key));
            if let Some(target) = self.target_combat.get(&key) {
                assert(self@.targets.contains_key(key) && self@.targets[key] == target@);
                if let Some(actor) = target.actors.get(&id) {
                    assert(target@.actors.contains_key(id));
                    let taken: i128 = actor.damage_received as i128 + amount as i128;
                    if taken < i64::MIN as i128 || taken > i64::MAX as i128
                        || actor.hits_received == i32::MAX {
                        return false;
                    }
                }
            }
            i += 1;
        }
        assert forall|t: i32| #[trigger]
            self@.targets.contains_key(t) && self@.targets[t].actors.contains_key(id) implies ({
            let actor = self@.targets[t].actors[id];
            &&& i64::MIN <= actor.damage_received + amount <= i64::MAX
            &&& actor.hits_received < i32::MAX
        }) by {
            assert(keys@.to_set().contains(t));
        }
        true
    }

    /// Whether healing of `amount` fits in what player `id` has done for the party,
    /// by any record; with `purged`, by any that is no friendly fire.
    fn has_room_healed(
        &self,
        id: i32,
        amount: i32,
        purged: bool,
        summons: &HashMap<i32, i32>,
        players: &HashSet<i32>,
    ) -> (fits: bool)
        ensures
            fits == forall|t: i32| #[trigger]
                self@.targets.contains_key(t) && self@.targets[t].actors.contains_key(id) && !(
                purged && same_side(summons@, players@, id, t))
                    ==> self@.targets[t].actors[id].party_heal + amount <= i64::MAX,
    {
        let keys: Vec<i32> = keys_of(&self.target_combat);
        let mut i: usize = 0;
        while i < keys.len()
            invariant
                i <= keys.len(),
                keys@.to_set() == self.target_combat@.dom(),
                forall|j: int|
                    0 <= j < i && self@.targets[#[trigger] keys@[j]].actors.contains_key(id) && !(
                    purged && same_side(summons@, players@, id, keys@[j]))
                        ==> self@.targets[keys@[j]].actors[id].party_heal + amount <= i64::MAX,
            decreases keys.len() - i,
        {
            let key: i32 = keys[i];
            assert(keys@.to_set().contains(key));
            if let Some(target) = self.target_combat.get(&key) {
                assert(self@.targets.contains_key(key) && self@.targets[key] == target@);
                if let Some(actor) = target.actors.get(&id) {
                    assert(target@.actors.contains_key(id));
                    let gone: bool = purged && is_friendly_action(summons, players, id, key);
                    if !gone && actor.party_heal as i128 + amount as i128 > i64::MAX as i128 {
                        return false;
                    }
                }
            }
            i += 1;
        }
        assert forall|t: i32| #[trigger]
            self@.targets.contains_key(t) && self@.targets[t].actors.contains_key(id) && !(purged
                && same_side(summons@, players@, id, t)) implies self@.targets[t].actors[id].party_heal
            + amount <= i64::MAX by {
            assert(keys@.to_set().contains(t));
        }
        true
    }

    /// Whether a hit fits in the record that it goes to.
    fn has_room_hit(&self, p: &ParsedDamagePacket) -> (fits: bool)
        requires
            self.wf(),
        ensures
            fits == self@.enter_fight(*p).target_before(*p).has_room(*p),
    {
        proof {
            lemma_fresh_has_room(*p);
        }
        if self.boss_entity_ids.contains(&p.target_id) && !self.has_boss_in_segment {
            return true;
        }
        match self.target_combat.get(&p.target_id) {
            Some(target) => {
                assert(self@.targets.contains_key(p.target_id));
                target.is_idle_at(p.timestamp) || target.has_room_for(p)
            },
            None => true,
        }
    }

    /// Whether the counters that `p` is added to have room for it.
    pub fn has_room_for(&self, p: &ParsedDamagePacket) -> (fits: bool)
        requires
            self.wf(),
        ensures
            fits == self@.has_room(*p),
    {
        let npc_skill: bool = 1_000_000 <= p.skill_code && p.skill_code <= 9_999_999;
        if npc_skill && self.mob_storage.contains_key(&p.actor_id)
            && !self.summon_storage.contains_key(&p.actor_id) {
            let victim: i32 = resolve(p.target_id, &self.summon_storage);
            return !self.known_player_ids.contains(&victim) || self.has_room_taken(
                victim,
                p.total_damage,
            );
        }
        if !(is_player_skill(p.skill_code) && !self.confirmed_summon_ids.contains(&p.actor_id)
            && !self.summon_spawn_ids.contains(&p.actor_id)) || self.known_player_ids.contains(
            &p.actor_id,
        ) {
            assert(self@.classify(*p) == self@);
            if is_friendly_action(
                &self.summon_storage,
                &self.known_player_ids,
                p.actor_id,
                p.target_id,
            ) {
                return p.total_damage <= 0 || (self.has_room_for_heal(
                    p.actor_id,
                    p.skill_code,
                    p.total_damage as i64,
                    false,
                ) && self.has_room_healed(
                    p.actor_id,
                    p.total_damage,
                    false,
                    &self.summon_storage,
                    &self.known_player_ids,
                ));
            }
            return self.has_room_hit(p);
        }
        // The actor is a player from now on.
        let mut players: HashSet<i32> = copy_ids(&self.known_player_ids);
        players.insert(p.actor_id);
        let mut summons: HashMap<i32, i32> = self.summon_storage.clone();
        summons.remove(&p.actor_id);
        if is_friendly_action(&summons, &players, p.actor_id, p.target_id) {
            proof {
                lemma_records_of_a_new_player(self@, p.actor_id, p.total_damage as int);
            }
            p.total_damage <= 0 || (self.has_room_for_heal(
                p.actor_id,
                p.skill_code,
                p.total_damage as i64,
                false,
            ) && self.has_room_healed(p.actor_id, p.total_damage, true, &summons, &players))
        } else {
            proof {
                lemma_target_of_a_new_player(self@, p.actor_id, p.target_id);
            }
            self.has_room_hit(p)
        }
    }

    /// Records one damage record at the clock reading `now`.
    pub fn append_damage_at(&mut self, p: &ParsedDamagePacket, now: i64)
        requires
            old(self).wf(),
            old(self)@.has_room(*p),
        ensures
            final(self).wf(),
            old(self)@.damage_recorded(*p, now, final(self)@),
    {
        let npc_skill: bool = 1_000_000 <= p.skill_code && p.skill_code <= 9_999_999;
        if npc_skill && self.mob_storage.contains_key(&p.actor_id)
            && !self.summon_storage.contains_key(&p.actor_id) {
            let victim: i32 = resolve(p.target_id, &self.summon_storage);
            if self.known_player_ids.contains(&victim) {
                self.record_damage_taken(victim, p.total_damage);
            }
            return;
        }
        if is_player_skill(p.skill_code) && !self.confirmed_summon_ids.contains(&p.actor_id)
            && !self.summon_spawn_ids.contains(&p.actor_id) {
            self.note_player(p.actor_id);
        }
        let ghost s = self@;
        assert(s == old(self)@.classify(*p));
        if is_friendly_action(
            &self.summon_storage,
            &self.known_player_ids,
            p.actor_id,
            p.target_id,
        ) {
            if p.total_damage > 0 {
                self.add_heal(p.actor_id, p.skill_code, false, p.total_damage as i64);
                self.record_party_heal(p.actor_id, p.total_damage);
            }
            return;
        }
        self.enter_fight(p);
        self.record_hit(p, now);
        self.apply_pending_nickname(p.actor_id);
    }

    /// Records one damage record, timed by the wall clock.
    pub fn append_damage(&mut self, pdp: ParsedDamagePacket)
        requires
            old(self).wf(),
            old(self)@.has_room(pdp),
        ensures
            final(self).wf(),
            exists|now: i64| old(self)@.damage_recorded(pdp, now, final(self)@),
    {
        let now: i64 = now_ms();
        self.append_damage_at(&pdp, now);
    }

    /// How many hits were recorded, modulo two to the 64th.
    pub fn damage_generation(&self) -> (generation: i64)
        ensures
            generation == self@.damage_generation,
    {
        self.damage_generation
    }

    /// Whether there may be fights to save: only once a hit was recorded.
    pub fn may_save_fights(&self) -> (may: bool)
        ensures
            may == (self@.damage_generation > 0),
    {
        self.damage_generation > 0
    }

    // ----- zone changes -----

    /// A zone change at the clock reading `now`. Clears the combat segment, but
    /// not who is who, unless a fight is on or the segment was just cleared.
    /// Tells whether it did.
    pub fn note_zone_change_at(&mut self, now: i64) -> (reset: bool)
        requires
            old(self).wf(),
        ensures
            final(self).wf(),
            reset == old(self)@.zone_change_resets(now),
            final(self)@ == old(self)@.zone_changed(now),
    {
        if (now as i128 - self.last_damage_ms as i128) < ZONE_RESET_LULL_MS as i128 {
            return false;
        }
        if (now as i128 - self.last_zone_reset_ms as i128) < ZONE_RESET_DEBOUNCE_MS as i128 {
            return false;
        }
        if self.target_combat.is_empty() {
            assert(self@.targets =~= Map::empty());
            return false;
        }
        proof {
            let k = choose|k: i32| self.target_combat@.contains_key(k);
            assert(self.target_combat@.dom() != Set::<i32>::empty());
            assert(self@.targets.contains_key(k));
        }
        self.last_zone_reset_ms = now;
        assert(self@.heals == old(self)@.heals);
        self.flush_combat_only();
        self.combat_reset_requested = true;
        assert(self@ =~= old(self)@.zone_changed(now));
        true
    }

    /// A zone change, timed by the wall clock.
    pub fn note_zone_change(&mut self) -> (reset: bool)
        requires
            old(self).wf(),
        ensures
            final(self).wf(),
            exists|now: i64|
                reset == old(self)@.zone_change_resets(now) && final(self)@ == #[trigger] old(
                    self,
                )@.zone_changed(now),
    {
        let now: i64 = now_ms();
        self.note_zone_change_at(now)
    }

    /// Picks up the request to drop what was derived from the cleared segment.
    pub fn take_combat_reset_requested(&mut self) -> (requested: bool)
        requires
            old(self).wf(),
        ensures
            final(self).wf(),
            requested == old(self)@.reset_requested,
            final(self)@ == old(self)@.reset_taken(),
    {
        let requested: bool = self.combat_reset_requested;
        self.combat_reset_requested = false;
        assert(self@ =~= old(self)@.reset_taken());
        requested
    }

    /// Clears the combat segment together with classes, summons and players.
    pub fn flush(&mut self)
        requires
            old(self).wf(),
        ensures
            final(self).wf(),
            final(self)@ == old(self)@.clear_all(),
    {
        self.flush_combat_only();
        self.actor_jobs.clear();
        self.summon_storage.clear();
        self.known_player_ids.clear();
        self.confirmed_summon_ids.clear();
        self.summon_spawn_ids.clear();
        self.actor_power_scalars.clear();
        assert(self@.power_scalars =~= Map::empty());
        assert(self@ =~= old(self)@.clear_all());
    }

    /// Clears the combat segment. Who is who stays known: names, players, summon
    /// ownership and classes.
    pub fn flush_combat_only(&mut self)
        requires
            old(self).wf(),
        ensures
            final(self).wf(),
            final(self)@ == old(self)@.clear_combat(),
    {
        self.target_combat.clear();
        self.hostile_target_ids.clear();
        self.dead_entity_ids.clear();
        self.has_boss_in_segment = false;
        self.mob_hp_data.clear();
        self.mob_current_hp.clear();
        self.heal_storage.clear();
        self.current_target = 0;
        assert(self@.targets =~= Map::empty());
        assert(self@.heals =~= Map::empty());
        assert(self@ =~= old(self)@.clear_combat());
    }

    // ----- the local player -----

    pub fn set_local_character_name(&mut self, name: Option<String>)
        requires
            old(self).wf(),
        ensures
            final(self).wf(),
            final(self)@ == (StorageState { local_name: optional_text(name), ..old(self)@ }),
    {
        self.local_character_name = name;
        assert(self@ =~= (StorageState { local_name: optional_text(name), ..old(self)@ }));
    }

    pub fn local_character_name(&self) -> (name: Option<String>)
        ensures
            optional_text(name) == self@.local_name,
    {
        match &self.local_character_name {
            Some(name) => Some(name.clone()),
            None => None,
        }
    }

    pub fn set_local_player_id(&mut self, id: Option<i64>)
        requires
            old(self).wf(),
        ensures
            final(self).wf(),
            final(self)@ == (StorageState { local_player_id: id, ..old(self)@ }),
    {
        self.local_player_id = id;
        assert(self@ =~= (StorageState { local_player_id: id, ..old(self)@ }));
    }

    pub fn local_player_id(&self) -> (id: Option<i64>)
        ensures
            id == self@.local_player_id,
    {
        self.local_player_id
    }

    // ----- mobs and bosses -----

    /// `mid` is a mob. If it passed for a player, it no longer does, and the
    /// damage counted for it goes.
    pub fn append_mob(&mut self, mid: i32, code: i32)
        requires
            old(self).wf(),
        ensures
            final(self).wf(),
            final(self)@ == old(self)@.add_mob(mid, code),
    {
        self.mob_storage.insert(mid, code);
        if self.known_player_ids.contains(&mid) {
            self.known_player_ids.remove(&mid);
            let mut gone: Vec<i32> = Vec::new();
            gone.push(mid);
            proof {
                lemma_take_step(gone@, 0);
                assert(gone@.take(1) =~= gone@);
                assert(gone@.to_set() =~= set![mid]);
            }
            scrub_actors(&mut self.target_combat, &gone);
        }
        assert(self@ =~= old(self)@.add_mob(mid, code));
    }

    /// A maximum hit-point reading; only positive ones count.
    pub fn append_mob_hp(&mut self, mid: i32, hp: i32)
        requires
            old(self).wf(),
        ensures
            final(self).wf(),
            final(self)@ == old(self)@.note_max_hp(mid, hp),
    {
        if hp > 0 {
            self.mob_hp_data.insert(mid, hp);
        }
        assert(self@ =~= old(self)@.note_max_hp(mid, hp));
    }

    /// A current hit-point reading. It also raises the maximum from the observed
    /// peak, so that an entity whose spawn was missed has one.
    pub fn set_mob_current_hp(&mut self, id: i32, hp: i32)
        requires
            old(self).wf(),
        ensures
            final(self).wf(),
            final(self)@ == old(self)@.note_current_hp(id, hp),
    {
        if hp >= 0 {
            let max: i32 = match self.mob_hp_data.get(&id) {
                Some(max) => *max,
                None => 0,
            };
            self.mob_current_hp.insert(id, hp);
            self.mob_hp_data.insert(id, if hp > max { hp } else { max });
        }
        assert(self@ =~= old(self)@.note_current_hp(id, hp));
    }

    pub fn get_mob_hp(&self, id: i32) -> (hp: Option<i32>)
        ensures
            hp == self@.mob_hp.get(id),
    {
        match self.mob_hp_data.get(&id) {
            Some(hp) => Some(*hp),
            None => None,
        }
    }

    pub fn get_mob_current_hp(&self, id: i32) -> (hp: Option<i32>)
        ensures
            hp == self@.mob_current_hp.get(id),
    {
        match self.mob_current_hp.get(&id) {
            Some(hp) => Some(*hp),
            None => None,
        }
    }

    pub fn get_mob_hp_data(&self) -> (data: HashMap<i32, i32>)
        ensures
            data@ == self@.mob_hp,
    {
        self.mob_hp_data.clone()
    }

    pub fn get_mob_data(&self) -> (data: HashMap<i32, i32>)
        ensures
            data@ == self@.mobs,
    {
        self.mob_storage.clone()
    }

    pub fn is_mob(&self, id: i32) -> (mob: bool)
        ensures
            mob == self@.mobs.contains_key(id),
    {
        self.mob_storage.contains_key(&id)
    }

    pub fn mark_entity_dead(&mut self, entity_id: i32)
        requires
            old(self).wf(),
        ensures
            final(self).wf(),
            final(self)@ == old(self)@.died(entity_id),
    {
        self.dead_entity_ids.insert(entity_id);
        assert(self@ =~= old(self)@.died(entity_id));
    }

    pub fn is_entity_dead(&self, entity_id: i32) -> (dead: bool)
        ensures
            dead == self@.dead.contains(entity_id),
    {
        self.dead_entity_ids.contains(&entity_id)
    }

    pub fn get_dead_entities(&self) -> (dead: HashSet<i32>)
        ensures
            dead@ == self@.dead,
    {
        copy_ids(&self.dead_entity_ids)
    }

    pub fn register_boss(&mut self, entity_id: i32)
        requires
            old(self).wf(),
        ensures
            final(self).wf(),
            final(self)@ == old(self)@.boss_known(entity_id),
    {
        self.boss_entity_ids.insert(entity_id);
        assert(self@ =~= old(self)@.boss_known(entity_id));
    }

    pub fn is_boss(&self, entity_id: i32) -> (boss: bool)
        ensures
            boss == self@.bosses.contains(entity_id),
    {
        self.boss_entity_ids.contains(&entity_id)
    }

    pub fn is_damage_target(&self, id: i32) -> (target: bool)
        ensures
            target == self@.targets.contains_key(id),
    {
        self.target_combat.contains_key(&id)
    }

    pub fn set_current_target(&mut self, target: i32)
        requires
            old(self).wf(),
        ensures
            final(self).wf(),
            final(self)@ == old(self)@.target_chosen(target),
    {
        self.current_target = target;
        assert(self@ =~= old(self)@.target_chosen(target));
    }

    pub fn current_target(&self) -> (target: i32)
        ensures
            target == self@.current_target,
    {
        self.current_target
    }

    // ----- summons -----

    pub fn is_summon(&self, id: i32) -> (summon: bool)
        ensures
            summon == self@.summons.contains_key(id),
    {
        self.summon_storage.contains_key(&id)
    }

    pub fn is_confirmed_summon(&self, id: i32) -> (confirmed: bool)
        ensures
            confirmed == self@.confirmed_summons.contains(id),
    {
        self.confirmed_summon_ids.contains(&id)
    }

    /// `id` appeared in a mob or summon spawn. No player ever does.
    pub fn note_summon_spawn(&mut self, id: i32)
        requires
            old(self).wf(),
        ensures
            final(self).wf(),
            final(self)@ == old(self)@.spawned(id),
    {
        self.summon_spawn_ids.insert(id);
        assert(self@ =~= old(self)@.spawned(id));
    }

    pub fn get_summon_spawn_ids(&self) -> (ids: HashSet<i32>)
        ensures
            ids@ == self@.summon_spawns,
    {
        copy_ids(&self.summon_spawn_ids)
    }

    /// The protocol states that `owner_id` owns `summon_id`.
    pub fn register_confirmed_summon_by_id(&mut self, summon_id: i32, owner_id: i32)
        requires
            old(self).wf(),
        ensures
            final(self).wf(),
            final(self)@ == old(self)@.confirm_summon(summon_id, owner_id),
    {
        self.confirmed_summon_ids.insert(summon_id);
        self.known_player_ids.remove(&summon_id);
        self.summon_storage.insert(summon_id, owner_id);
        purge_friendly_damage(
            &mut self.target_combat,
            &self.summon_storage,
            &self.known_player_ids,
        );
        assert(self@ =~= old(self)@.confirm_summon(summon_id, owner_id));
    }

    /// A guess that `summoner` owns `summon`, believed only where nothing known
    /// speaks against it.
    pub fn append_summon(&mut self, summoner: i32, summon: i32)
        requires
            old(self).wf(),
        ensures
            final(self).wf(),
            final(self)@ == old(self)@.link_summon(summoner, summon),
    {
        let named: bool = self.nickname_storage.contains_key(&summon);
        assert(named == self@.nicknames.contains_key(summon));
        if named || self.known_player_ids.contains(&summon) || self.hostile_target_ids.contains(
            &summon,
        ) || self.summon_storage.contains_key(&summoner) || self.mob_storage.contains_key(
            &summoner,
        ) {
            return;
        }
        let compatible: bool = match (self.actor_jobs.get(&summon), self.actor_jobs.get(&summoner)) {
            (Some(summon_job), Some(owner_job)) => *summon_job == *owner_job,
            _ => true,
        };
        if compatible {
            self.summon_storage.insert(summon, summoner);
        }
        assert(self@ =~= old(self)@.link_summon(summoner, summon));
    }

    pub fn get_summon_data(&self) -> (owners: HashMap<i32, i32>)
        ensures
            owners@ == self@.summons,
    {
        self.summon_storage.clone()
    }

    // ----- players and entities -----

    pub fn get_known_player_ids(&self) -> (ids: HashSet<i32>)
        ensures
            ids@ == self@.known_players,
    {
        copy_ids(&self.known_player_ids)
    }

    pub fn is_known_player(&self, id: i32) -> (known: bool)
        ensures
            known == self@.known_players.contains(id),
    {
        self.known_player_ids.contains(&id)
    }

    /// `id`, if below 100, was announced as a real entity.
    pub fn note_low_id_entity(&mut self, id: i32)
        requires
            old(self).wf(),
        ensures
            final(self).wf(),
            final(self)@ == old(self)@.announce_low_id(id),
    {
        if 1 <= id && id < 100 {
            self.low_id_entities.insert(id);
        }
        assert(self@ =~= old(self)@.announce_low_id(id));
    }

    /// Whether `id` may be an entity: ids from 100 on, and lower ones that were
    /// announced.
    pub fn is_plausible_entity_id(&self, id: i32) -> (plausible: bool)
        ensures
            plausible == self@.plausible(id),
    {
        id >= 100 || (id >= 1 && self.low_id_entities.contains(&id))
    }

    /// Whether `actor_id` takes part in combat, as attacker, target or summon.
    pub fn actor_appears_in_combat(&self, actor_id: i32) -> (appears: bool)
        ensures
            appears == self@.in_combat(actor_id),
    {
        let record: Option<i32> = self.find_record(actor_id);
        record.is_some() || self.target_combat.contains_key(&actor_id)
            || self.summon_storage.contains_key(&actor_id)
    }

    /// Takes a party roster. A complete one replaces the roster; a partial one
    /// only updates the members it names. An empty list says nothing.
    pub fn set_party_roster(&mut self, members: Vec<(String, PartyMember)>, complete: bool)
        requires
            old(self).wf(),
        ensures
            final(self).wf(),
            final(self)@ == old(self)@.roster_taken(members@, complete),
    {
        if members.len() == 0 {
            return;
        }
        if complete {
            self.party_members.clear();
        }
        let ghost start = self.party_members@;
        let ghost begun = self@;
        let mut i: usize = 0;
        while i < members.len()
            invariant
                i <= members.len(),
                begun.wf(),
                self.roster_wf(),
                self@ == (StorageState {
                    party: entered(start, members@.take(i as int)),
                    ..begun
                }),
            decreases members.len() - i,
        {
            self.party_members.insert(members[i].0.clone(), members[i].1);
            proof {
                assert(members@.take(i + 1).drop_last() =~= members@.take(i as int));
                assert(self@ =~= (StorageState {
                    party: entered(start, members@.take(i + 1)),
                    ..begun
                }));
            }
            i += 1;
        }
        assert(members@.take(members.len() as int) =~= members@);
    }

    pub fn get_party_members(&self) -> (roster: PartyRoster)
        requires
            self.wf(),
        ensures
            roster.wf(),
            roster@ == self@.party,
    {
        self.party_members.copy()
    }

    /// Records a power-scalar reading for an actor. Only a handful are kept.
    pub fn note_power_scalar(&mut self, actor_id: i32, scalar: i32)
        requires
            old(self).wf(),
        ensures
            final(self).wf(),
            final(self)@ == old(self)@.note_scalar(actor_id, scalar),
    {
        if actor_id <= 0 || scalar <= 0 {
            return;
        }
        let found: Option<HashSet<i32>> = self.actor_power_scalars.remove(&actor_id);
        let mut seen: HashSet<i32> = match found {
            Some(seen) => {
                assert(old(self)@.power_scalars.contains_key(actor_id));
                assert(old(self)@.power_scalars[actor_id] == seen@);
                seen
            },
            None => HashSet::new(),
        };
        if seen.len() < MAX_POWER_SCALARS {
            seen.insert(scalar);
        }
        self.actor_power_scalars.insert(actor_id, seen);
        proof {
            let expected = old(self)@.note_scalar(actor_id, scalar);
            assert(self@.power_scalars =~= expected.power_scalars);
            assert(self@ =~= expected);
        }
    }

    pub fn get_power_scalars(&self) -> (scalars: HashMap<i32, HashSet<i32>>)
        ensures
            id_sets(scalars@) == self@.power_scalars,
    {
        self.actor_power_scalars.clone()
    }

    // ----- binding names -----

    /// Whether a guessed name for `id` is to be considered at all.
    fn fuzzy_bind_allowed(&self, id: i32, name: &str) -> (allowed: bool)
        ensures
            allowed == self@.fuzzy_bind_allowed(id, name@),
    {
        let named: bool = self.nickname_storage.contains_key(&id);
        assert(named == self@.nicknames.contains_key(id));
        let record: Option<i32> = self.find_record(id);
        if !(named || self.known_player_ids.contains(&id) || self.authoritative_name_ids.contains(
            &id,
        ) || self.summon_storage.contains_key(&id) || self.target_combat.contains_key(&id)
            || record.is_some()) {
            return false;
        }
        let holders: Vec<i32> = self.stale_holders(id, name);
        let mut i: usize = 0;
        while i < holders.len()
            invariant
                i <= holders.len(),
                holders@.to_set() == self@.stale_holders(id, name@),
                forall|j: int| 0 <= j < i ==> !self@.authoritative_names.contains(
                    #[trigger] holders@[j],
                ),
            decreases holders.len() - i,
        {
            if self.authoritative_name_ids.contains(&holders[i]) {
                assert(holders@.to_set().contains(holders@[i as int]));
                return false;
            }
            i += 1;
        }
        assert forall|other: i32| #[trigger]
            self@.nicknames.contains_key(other) && other != id && self@.nicknames[other]
                == name@ implies !self@.authoritative_names.contains(other) by {
            assert(holders@.to_set().contains(other));
        }
        if self.authoritative_name_ids.contains(&id) {
            match self.nickname_storage.get(&id) {
                Some(held) => same_text(held.as_str(), name),
                None => true,
            }
        } else {
            true
        }
    }

    /// Binds a name from a lower-confidence source. It may only name an id that
    /// is already a real entity, may not take a name that an authoritative source
    /// gave to another id, and may not rename an id that such a source named.
    pub fn append_nickname(&mut self, uid: i32, nickname: &str)
        requires
            old(self).wf(),
        ensures
            final(self).wf(),
            final(self)@ == old(self)@.guess_name(uid, nickname@),
    {
        if self.fuzzy_bind_allowed(uid, nickname) {
            self.append_nickname_inner_with_force(uid, nickname, false);
        }
    }

    /// Binds a name that the protocol states. Nothing is weighed against it.
    pub fn append_nickname_authoritative(&mut self, uid: i32, nickname: &str)
        requires
            old(self).wf(),
        ensures
            final(self).wf(),
            final(self)@ == old(self)@.state_name(uid, nickname@),
    {
        self.authoritative_name_ids.insert(uid);
        assert(self@ =~= (StorageState {
            authoritative_names: old(self)@.authoritative_names.insert(uid),
            ..old(self)@
        }));
        self.append_nickname_inner_with_force(uid, nickname, true);
    }

    /// Binds a name that the user set. It survives [`Self::reset_nicknames`].
    pub fn set_permanent_nickname(&mut self, uid: i32, nickname: &str)
        requires
            old(self).wf(),
        ensures
            final(self).wf(),
            final(self)@ == old(self)@.pin_name(uid, nickname@),
    {
        self.permanent_nicknames.insert(uid, nickname.to_owned());
        proof {
            assert(self@.permanent_nicknames =~= old(self)@.permanent_nicknames.insert(
                uid,
                nickname@,
            ));
            assert(self@ =~= (StorageState {
                permanent_nicknames: old(self)@.permanent_nicknames.insert(uid, nickname@),
                ..old(self)@
            }));
        }
        self.append_nickname_authoritative(uid, nickname);
    }

    /// Keeps a name for an id until the id is seen in combat.
    pub fn cache_pending_nickname(&mut self, uid: i32, nickname: &str)
        requires
            old(self).wf(),
        ensures
            final(self).wf(),
            final(self)@ == old(self)@.await_name(uid, nickname@),
    {
        let named: bool = self.nickname_storage.contains_key(&uid);
        assert(named == self@.nicknames.contains_key(uid));
        if !named {
            self.pending_nicknames.insert(uid, nickname.to_owned());
            assert(self@.pending_nicknames =~= old(self)@.pending_nicknames.insert(uid, nickname@));
            assert(self@ =~= (StorageState {
                pending_nicknames: old(self)@.pending_nicknames.insert(uid, nickname@),
                ..old(self)@
            }));
        }
    }

    pub fn has_nickname(&self, uid: i32) -> (named: bool)
        ensures
            named == self@.nicknames.contains_key(uid),
    {
        self.nickname_storage.contains_key(&uid)
    }

    pub fn get_nickname(&self, uid: i32) -> (name: Option<String>)
        ensures
            optional_text(name) == self@.nicknames.get(uid),
    {
        match self.nickname_storage.get(&uid) {
            Some(name) => Some(name.clone()),
            None => None,
        }
    }

    /// An id that goes by `name`, where there is one.
    pub fn find_id_by_nickname(&self, name: &str) -> (id: Option<i32>)
        ensures
            match id {
                Some(id) => self@.nicknames.contains_key(id) && self@.nicknames[id] == name@,
                None => forall|id: i32| #[trigger]
                    self@.nicknames.contains_key(id) ==> self@.nicknames[id] != name@,
            },
    {
        let keys: Vec<i32> = keys_of(&self.nickname_storage);
        let wanted: String = name.to_owned();
        let mut i: usize = 0;
        while i < keys.len()
            invariant
                i <= keys.len(),
                wanted@ == name@,
                keys@.to_set() == self.nickname_storage@.dom(),
                forall|j: int| 0 <= j < i ==> self@.nicknames[#[trigger] keys@[j]] != name@,
            decreases keys.len() - i,
        {
            let key: i32 = keys[i];
            assert(keys@.to_set().contains(key));
            match self.nickname_storage.get(&key) {
                Some(held) => {
                    if *held == wanted {
                        return Some(key);
                    }
                },
                None => {},
            }
            i += 1;
        }
        assert forall|id: i32| #[trigger]
            self@.nicknames.contains_key(id) implies self@.nicknames[id] != name@ by {
            assert(keys@.to_set().contains(id));
        }
        None
    }

    pub fn get_nicknames(&self) -> (names: HashMap<i32, String>)
        ensures
            texts(names@) == self@.nicknames,
    {
        self.nickname_storage.clone()
    }

    /// Forgets all names but those that the user set.
    pub fn reset_nicknames(&mut self)
        requires
            old(self).wf(),
        ensures
            final(self).wf(),
            final(self)@ == old(self)@.reset_names(),
    {
        self.nickname_storage = self.permanent_nicknames.clone();
        self.pending_nicknames.clear();
        self.authoritative_name_ids.clear();
        assert(self@.pending_nicknames =~= Map::empty());
        assert(self@ =~= old(self)@.reset_names());
    }

    // ----- heals and snapshots -----

    /// Records a heal tick done by `actor_id`; `is_hot` marks heal-over-time.
    pub fn append_heal(&mut self, actor_id: i32, skill_code: i32, amount: i64, is_hot: bool)
        requires
            old(self).wf(),
            amount > 0 && old(self)@.plausible(actor_id) ==> old(self)@.heal_fits(
                actor_id,
                skill_code,
                is_hot,
                amount as int,
            ),
        ensures
            final(self).wf(),
            final(self)@ == old(self)@.heal_tick(actor_id, skill_code, amount, is_hot),
    {
        if amount <= 0 || !self.is_plausible_entity_id(actor_id) {
            return;
        }
        self.add_heal(actor_id, skill_code, is_hot, amount);
    }

    /// Healing done per healer, then per [`skill_key`].
    pub fn get_heal_snapshot(&self) -> (heals: HashMap<i32, HashMap<i64, HealSkillData>>)
        ensures
            heal_states(heals@) == self@.heals,
            self.wf() ==> heals_by_skill(heals@),
    {
        let keys: Vec<i32> = keys_of(&self.heal_storage);
        let mut heals: HashMap<i32, HashMap<i64, HealSkillData>> = HashMap::new();
        let mut i: usize = 0;
        while i < keys.len()
            invariant
                i <= keys.len(),
                keys@.to_set() == self.heal_storage@.dom(),
                heals@.dom() == keys@.take(i as int).to_set(),
                forall|k: i32| #[trigger]
                    heals@.contains_key(k) ==> heals@[k]@ == self.heal_storage@[k]@,
            decreases keys.len() - i,
        {
            let key: i32 = keys[i];
            assert(keys@.to_set().contains(key));
            if let Some(skills) = self.heal_storage.get(&key) {
                heals.insert(key, copy_heals(skills));
            }
            proof {
                lemma_take_step(keys@, i as int);
            }
            i += 1;
        }
        assert(keys@.take(keys.len() as int) =~= keys@);
        assert(heal_states(heals@) =~= self@.heals);
        assert forall|a: i32, k: i64|
            self.wf() && heals@.contains_key(a) && #[trigger] heals@[a]@.contains_key(
                k,
            ) implies is_skill_key(k) by {
            assert(self@.heals[a].contains_key(k));
        }
        heals
    }

    /// All damage aggregates, with the hit times or without.
    fn snapshot(&self, times: bool) -> (snapshot: HashMap<i32, TargetCombatData>)
        ensures
            snapshot@.dom() == self@.targets.dom(),
            forall|t: i32| #[trigger]
                snapshot@.contains_key(t) ==> snapshot@[t]@ == if times {
                    self@.targets[t]
                } else {
                    self@.targets[t].without_times()
                },
    {
        let keys: Vec<i32> = keys_of(&self.target_combat);
        let mut snapshot: HashMap<i32, TargetCombatData> = HashMap::new();
        let mut i: usize = 0;
        while i < keys.len()
            invariant
                i <= keys.len(),
                keys@.to_set() == self.target_combat@.dom(),
                snapshot@.dom() == keys@.take(i as int).to_set(),
                forall|k: i32| #[trigger]
                    snapshot@.contains_key(k) ==> snapshot@[k]@ == if times {
                        self.target_combat@[k]@
                    } else {
                        self.target_combat@[k]@.without_times()
                    },
            decreases keys.len() - i,
        {
            let key: i32 = keys[i];
            assert(keys@.to_set().contains(key));
            if let Some(target) = self.target_combat.get(&key) {
                snapshot.insert(key, target.copied(times));
            }
            proof {
                lemma_take_step(keys@, i as int);
            }
            i += 1;
        }
        assert(keys@.take(keys.len() as int) =~= keys@);
        assert(snapshot@.dom() =~= self@.targets.dom());
        snapshot
    }

    /// All damage aggregates.
    pub fn get_combat_snapshot(&self) -> (snapshot: HashMap<i32, TargetCombatData>)
        ensures
            target_states(snapshot@) == self@.targets,
            self.wf() ==> records_by_skill(snapshot@),
    {
        let snapshot: HashMap<i32, TargetCombatData> = self.snapshot(true);
        assert(target_states(snapshot@) =~= self@.targets);
        proof {
            if self.wf() {
                lemma_records_by_skill(self@, snapshot@);
            }
        }
        snapshot
    }

    /// All damage aggregates without the hit times, which grow with the fight and
    /// only the details chart reads.
    pub fn get_combat_snapshot_light(&self) -> (snapshot: HashMap<i32, TargetCombatData>)
        ensures
            target_states(snapshot@) == self@.targets.map_values(
                |target: TargetState| target.without_times(),
            ),
            self.wf() ==> records_by_skill(snapshot@),
    {
        let snapshot: HashMap<i32, TargetCombatData> = self.snapshot(false);
        assert(target_states(snapshot@) =~= self@.targets.map_values(
            |target: TargetState| target.without_times(),
        ));
        proof {
            if self.wf() {
                lemma_records_by_skill(self@, snapshot@);
            }
        }
        snapshot
    }
}

/// A snapshot of sound records, with their hit times or without, holds each under
/// its own key.
proof fn lemma_records_by_skill(s: StorageState, snapshot: Map<i32, TargetCombatData>)
    requires
        s.wf(),
        snapshot.dom() == s.targets.dom(),
        forall|t: i32| #[trigger]
            snapshot.contains_key(t) ==> snapshot[t]@ == s.targets[t] || snapshot[t]@
                == s.targets[t].without_times(),
    ensures
        records_by_skill(snapshot),
{
    assert forall|t: i32, a: i32, k: i64|
        snapshot.contains_key(t) && snapshot[t].actors@.contains_key(a)
            && #[trigger] snapshot[t].actors@[a].skills@.contains_key(k) implies ({
        let skill = snapshot[t].actors@[a].skills@[k];
        is_skill_key(k) && k == spec_skill_key(skill.skill_code, skill.is_dot)
    }) by {
        let record = s.targets[t];
        assert(s.targets.contains_key(t));
        assert(snapshot[t]@.actors.contains_key(a));
        assert(snapshot[t]@.actors[a] == snapshot[t].actors@[a]@);
        assert(record.actors.contains_key(a));
        let skills = record.actors[a].skills;
        assert(snapshot[t].actors@[a]@.skills.contains_key(k));
        assert(snapshot[t].actors@[a]@.skills[k] == snapshot[t].actors@[a].skills@[k]@);
        assert(skills.contains_key(k));
    }
}

/// A copy of one healer's heals.
fn copy_heals(heals: &HashMap<i64, HealSkillData>) -> (copies: HashMap<i64, HealSkillData>)
    ensures
        copies@ == heals@,
{
    let keys: Vec<i64> = keys_of(heals);
    let mut copies: HashMap<i64, HealSkillData> = HashMap::new();
    let mut i: usize = 0;
    while i < keys.len()
        invariant
            i <= keys.len(),
            keys@.to_set() == heals@.dom(),
            copies@.dom() == keys@.take(i as int).to_set(),
            forall|k: i64| #[trigger] copies@.contains_key(k) ==> copies@[k] == heals@[k],
        decreases keys.len() - i,
    {
        let key: i64 = keys[i];
        assert(keys@.to_set().contains(key));
        if let Some(heal) = heals.get(&key) {
            copies.insert(key, *heal);
        }
        proof {
            lemma_take_step(keys@, i as int);
        }
        i += 1;
    }
    assert(keys@.take(keys.len() as int) =~= keys@);
    assert(copies@ =~= heals@);
    copies
}

/// A fresh target has room for any hit.
proof fn lemma_fresh_has_room(p: ParsedDamagePacket)
    ensures
        TargetState::fresh(p.target_id, p.timestamp).has_room(p),
{
    let fresh = TargetState::fresh(p.target_id, p.timestamp);
    assert(fresh.actors.dom() =~= Set::<i32>::empty());
    lemma_actor_change(fresh.actors, p.actor_id, fresh.actor_before(p).hit(p));
}

/// The records of an actor that turns out to be a player are those that were no
/// friendly fire.
proof fn lemma_records_of_a_new_player(s: StorageState, id: i32, amount: int)
    requires
        !s.known_players.contains(id),
    ensures
        s.note_player(id).may_heal_party(id, amount) <==> forall|t: i32| #[trigger]
            s.targets.contains_key(t) && s.targets[t].actors.contains_key(id) && !same_side(
                s.summons.remove(id),
                s.known_players.insert(id),
                id,
                t,
            ) ==> s.targets[t].actors[id].party_heal + amount <= i64::MAX,
{
    let after = s.note_player(id);
    let summons = s.summons.remove(id);
    let players = s.known_players.insert(id);
    assert forall|t: i32|
        (#[trigger] after.targets.contains_key(t) && after.targets[t].actors.contains_key(id)) == (
        s.targets.contains_key(t) && s.targets[t].actors.contains_key(id) && !same_side(
            summons,
            players,
            id,
            t,
        )) by {
        if s.targets.contains_key(t) && s.targets[t].actors.contains_key(id) {
            let side = own_side(s.targets[t], t, summons, players);
            assert(side.contains(id) == same_side(summons, players, id, t));
            assert(s.targets[t].actors.dom().contains(id));
        }
    }
    assert forall|t: i32| #[trigger]
        after.targets.contains_key(t) && after.targets[t].actors.contains_key(
            id,
        ) implies after.targets[t].actors[id] == s.targets[t].actors[id] by {}
    if after.may_heal_party(id, amount) {
        assert forall|t: i32| #[trigger]
            s.targets.contains_key(t) && s.targets[t].actors.contains_key(id) && !same_side(
                summons,
                players,
                id,
                t,
            ) implies s.targets[t].actors[id].party_heal + amount <= i64::MAX by {
            assert(after.targets.contains_key(t));
        }
    }
}

/// A target that an actor can harm keeps its record when the actor turns out to be
/// a player.
proof fn lemma_target_of_a_new_player(s: StorageState, id: i32, target: i32)
    requires
        s.wf(),
        !s.known_players.contains(id),
        !s.note_player(id).friendly(id, target),
    ensures
        s.note_player(id).targets.get(target) == s.targets.get(target),
{
    let summons = s.summons.remove(id);
    let players = s.known_players.insert(id);
    if s.targets.contains_key(target) {
        let side = own_side(s.targets[target], target, summons, players);
        assert(side =~= Set::<i32>::empty());
        lemma_scrub_nobody(s.targets[target], side);
    }
}

/// Whether a skill code is one that player characters use.
pub fn is_player_skill(skill_code: i32) -> (player: bool)
    ensures
        player == player_skill(skill_code),
{
    (11_000_000 <= skill_code && skill_code <= 19_999_999) || (3_000_000 <= skill_code && skill_code
        <= 3_999_999) || (100_000 <= skill_code && skill_code <= 199_999)
}

} // verus!
