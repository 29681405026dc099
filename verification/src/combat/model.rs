//! The state of the combat storage as mathematics, and what each event does to it.

use vstd::prelude::*;

use crate::combat::actor::ActorState;
use crate::combat::friendly_fire::{
    same_side, targets_wf, without_actors, without_friendly_fire,
};
use crate::combat::roster::entered;
use crate::combat::skill::{is_skill_key, spec_skill_key, HealSkillData, PartyMember};
use crate::combat::summon_resolver::resolved;
use crate::combat::target::TargetState;
use crate::entity::{JobClass, ParsedDamagePacket};
use crate::maps::keys_with_value;
use crate::text::{some_cjk, trimmed};

verus! {

/// A zone-change reset is ignored if any damage was recorded within this window,
/// so that an in-combat teleport cannot wipe an active fight.
pub const ZONE_RESET_LULL_MS: i64 = 1_500;

/// Minimum spacing between two zone-change resets.
pub const ZONE_RESET_DEBOUNCE_MS: i64 = 4_000;

/// How many power-scalar readings are kept per actor.
pub const MAX_POWER_SCALARS: usize = 16;

/// The skill codes that player characters use: class skills, the alternate band,
/// and basic attacks.
pub open spec fn player_skill(skill_code: i32) -> bool {
    ||| 11_000_000 <= skill_code <= 19_999_999
    ||| 3_000_000 <= skill_code <= 3_999_999
    ||| 100_000 <= skill_code <= 199_999
}

/// The skill codes that non-player characters use.
pub open spec fn npc_skill(skill_code: i32) -> bool {
    1_000_000 <= skill_code <= 9_999_999
}

/// How many bytes `name` takes in UTF-8.
pub open spec fn byte_len(name: Seq<char>) -> nat {
    vstd::utf8::encode_utf8(name).len()
}

/// Everything the storage knows.
#[verifier::ext_equal]
pub struct StorageState {
    /// Damage aggregates per target.
    pub targets: Map<i32, TargetState>,
    /// Class seen per actor.
    pub actor_jobs: Map<i32, JobClass>,
    pub nicknames: Map<i32, Seq<char>>,
    pub pending_nicknames: Map<i32, Seq<char>>,
    pub permanent_nicknames: Map<i32, Seq<char>>,
    /// Owner per summon.
    pub summons: Map<i32, i32>,
    /// Code per mob.
    pub mobs: Map<i32, i32>,
    /// Healing done, per healer, then by the key of the skill and whether it heals
    /// over time.
    pub heals: Map<i32, Map<i64, HealSkillData>>,
    /// Maximum hit points per entity.
    pub mob_hp: Map<i32, i32>,
    /// Current hit points per entity.
    pub mob_current_hp: Map<i32, i32>,
    pub known_players: Set<i32>,
    /// Ids whose nickname the protocol or the user stated.
    pub authoritative_names: Set<i32>,
    pub confirmed_summons: Set<i32>,
    /// Ids that appeared in a mob or summon spawn.
    pub summon_spawns: Set<i32>,
    /// Ids below 100 that were announced as real entities.
    pub low_ids: Set<i32>,
    /// The party roster, by character name.
    pub party: Map<Seq<char>, PartyMember>,
    /// Power-scalar readings per actor.
    pub power_scalars: Map<i32, Set<i32>>,
    pub hostile_targets: Set<i32>,
    pub dead: Set<i32>,
    pub bosses: Set<i32>,
    /// Whether a boss has been hit since the segment began.
    pub boss_in_segment: bool,
    pub current_target: i32,
    pub local_player_id: Option<i64>,
    pub local_name: Option<Seq<char>>,
    /// How many hits were recorded, modulo two to the 64th.
    pub damage_generation: i64,
    /// Clock reading at the last recorded hit.
    pub last_damage_ms: i64,
    /// Clock reading at the last zone-change reset.
    pub last_zone_reset_ms: i64,
    /// Whether a zone-change reset is still to be picked up.
    pub reset_requested: bool,
}

impl StorageState {
    /// A storage that has seen nothing.
    pub open spec fn empty() -> StorageState {
        StorageState {
            targets: Map::empty(),
            actor_jobs: Map::empty(),
            nicknames: Map::empty(),
            pending_nicknames: Map::empty(),
            permanent_nicknames: Map::empty(),
            summons: Map::empty(),
            mobs: Map::empty(),
            heals: Map::empty(),
            mob_hp: Map::empty(),
            mob_current_hp: Map::empty(),
            known_players: Set::empty(),
            authoritative_names: Set::empty(),
            confirmed_summons: Set::empty(),
            summon_spawns: Set::empty(),
            low_ids: Set::empty(),
            party: Map::empty(),
            power_scalars: Map::empty(),
            hostile_targets: Set::empty(),
            dead: Set::empty(),
            bosses: Set::empty(),
            boss_in_segment: false,
            current_target: 0,
            local_player_id: None,
            local_name: None,
            damage_generation: 0,
            last_damage_ms: 0,
            last_zone_reset_ms: 0,
            reset_requested: false,
        }
    }

    /// Every target's record is sound and stands under its own id, announced low
    /// ids are low, no actor has too many power-scalar readings, there are finitely
    /// many summons, no player is a summon, and all healing is that of a skill.
    pub open spec fn wf(self) -> bool {
        &&& targets_wf(self.targets)
        &&& self.summons.dom().finite()
        &&& forall|id: i32| #[trigger]
            self.known_players.contains(id) ==> !self.confirmed_summons.contains(id)
                && !self.summons.contains_key(id)
        &&& forall|a: i32, k: i64|
            self.heals.contains_key(a) && #[trigger] self.heals[a].contains_key(k)
                ==> is_skill_key(k)
        &&& forall|id: i32| #[trigger] self.low_ids.contains(id) ==> 1 <= id < 100
        &&& forall|a: i32| #[trigger]
            self.power_scalars.contains_key(a) ==> self.power_scalars[a].finite()
                && self.power_scalars[a].len() <= MAX_POWER_SCALARS
    }

    // ----- players, summons and friendly fire -----

    /// The entity that `id` belongs to.
    pub open spec fn owner_of(self, id: i32) -> i32 {
        resolved(self.summons, id)
    }

    /// Whether `actor` and `target` both belong to players.
    pub open spec fn friendly(self, actor: i32, target: i32) -> bool {
        same_side(self.summons, self.known_players, actor, target)
    }

    /// The state without any damage that players did to their own side.
    pub open spec fn purge_friendly(self) -> StorageState {
        StorageState {
            targets: without_friendly_fire(self.targets, self.summons, self.known_players),
            ..self
        }
    }

    /// `id` joins the players. One that is new among them was no summon, and
    /// what players did to it was no damage.
    pub open spec fn note_player(self, id: i32) -> StorageState {
        if self.known_players.contains(id) {
            self
        } else {
            StorageState {
                known_players: self.known_players.insert(id),
                summons: self.summons.remove(id),
                ..self
            }.purge_friendly()
        }
    }

    /// The damage of the actors in `gone` taken out of every target.
    pub open spec fn scrub_actors(self, gone: Set<i32>) -> StorageState {
        StorageState {
            targets: without_actors(self.targets, gone),
            ..self
        }
    }

    /// `id` turns out to be a mob. If it passed for a player, it no longer does,
    /// and its damage goes.
    pub open spec fn add_mob(self, id: i32, code: i32) -> StorageState {
        let noted = StorageState { mobs: self.mobs.insert(id, code), ..self };
        if self.known_players.contains(id) {
            StorageState {
                known_players: self.known_players.remove(id),
                ..noted
            }.scrub_actors(set![id])
        } else {
            noted
        }
    }

    /// The protocol states that `owner` owns `summon`.
    pub open spec fn confirm_summon(self, summon: i32, owner: i32) -> StorageState {
        StorageState {
            confirmed_summons: self.confirmed_summons.insert(summon),
            known_players: self.known_players.remove(summon),
            summons: self.summons.insert(summon, owner),
            ..self
        }.purge_friendly()
    }

    /// Whether a guessed link from `summon` to `summoner` is to be believed.
    pub open spec fn may_link(self, summoner: i32, summon: i32) -> bool {
        &&& !self.nicknames.contains_key(summon)
        &&& !self.known_players.contains(summon)
        &&& !self.hostile_targets.contains(summon)
        &&& !self.summons.contains_key(summoner)
        &&& !self.mobs.contains_key(summoner)
        &&& self.actor_jobs.contains_key(summon) && self.actor_jobs.contains_key(summoner)
            ==> self.actor_jobs[summon] == self.actor_jobs[summoner]
    }

    /// A guessed link from `summon` to `summoner`.
    pub open spec fn link_summon(self, summoner: i32, summon: i32) -> StorageState {
        if self.may_link(summoner, summon) {
            StorageState { summons: self.summons.insert(summon, summoner), ..self }
        } else {
            self
        }
    }

    // ----- damage -----

    /// Whether some target has a record of actor `id`.
    pub open spec fn has_record(self, id: i32) -> bool {
        exists|t: i32| #[trigger]
            self.targets.contains_key(t) && self.targets[t].actors.contains_key(id)
    }

    /// The state with the record of actor `id` against `target` replaced.
    pub open spec fn with_actor(self, target: i32, id: i32, actor: ActorState) -> StorageState {
        let record = self.targets[target];
        StorageState {
            targets: self.targets.insert(
                target,
                TargetState { actors: record.actors.insert(id, actor), ..record },
            ),
            ..self
        }
    }

    /// Whether `after` is this state with exactly one record of actor `id`
    /// changed, against whichever target, or this state itself where there is no
    /// such record.
    pub open spec fn one_record_changed(
        self,
        after: StorageState,
        id: i32,
        change: spec_fn(ActorState) -> ActorState,
    ) -> bool {
        if self.has_record(id) {
            exists|t: i32|
                {
                    &&& #[trigger] self.targets.contains_key(t)
                    &&& self.targets[t].actors.contains_key(id)
                    &&& after == self.with_actor(t, id, change(self.targets[t].actors[id]))
                }
        } else {
            after == self
        }
    }

    /// Whether `p` is a mob's attack.
    pub open spec fn npc_attack(self, p: ParsedDamagePacket) -> bool {
        &&& self.mobs.contains_key(p.actor_id)
        &&& !self.summons.contains_key(p.actor_id)
        &&& npc_skill(p.skill_code)
    }

    /// Whether `p` shows its actor to be a player. Nothing that spawned as a mob
    /// or summon is one.
    pub open spec fn shows_player(self, p: ParsedDamagePacket) -> bool {
        &&& player_skill(p.skill_code)
        &&& !self.confirmed_summons.contains(p.actor_id)
        &&& !self.summon_spawns.contains(p.actor_id)
    }

    /// The state once the actor of `p` has been classified.
    pub open spec fn classify(self, p: ParsedDamagePacket) -> StorageState {
        if self.shows_player(p) {
            self.note_player(p.actor_id)
        } else {
            self
        }
    }

    /// Healing of `amount` done by `actor`.
    pub open spec fn add_heal(
        self,
        actor: i32,
        skill_code: i32,
        is_hot: bool,
        amount: int,
    ) -> StorageState {
        let key = spec_skill_key(skill_code, is_hot);
        let skills = if self.heals.contains_key(actor) {
            self.heals[actor]
        } else {
            Map::empty()
        };
        let before = self.heal_before(actor, skill_code, is_hot);
        StorageState {
            heals: self.heals.insert(
                actor,
                skills.insert(
                    key,
                    HealSkillData {
                        total_heal: (before.total_heal + amount) as i64,
                        tick_count: (before.tick_count + 1) as i32,
                    },
                ),
            ),
            ..self
        }
    }

    /// What `actor` has healed so far with one skill.
    pub open spec fn heal_before(self, actor: i32, skill_code: i32, is_hot: bool) -> HealSkillData {
        let key = spec_skill_key(skill_code, is_hot);
        if self.heals.contains_key(actor) && self.heals[actor].contains_key(key) {
            self.heals[actor][key]
        } else {
            HealSkillData { total_heal: 0, tick_count: 0 }
        }
    }

    /// Whether a heal of `amount` fits in the healer's counters.
    pub open spec fn heal_fits(
        self,
        actor: i32,
        skill_code: i32,
        is_hot: bool,
        amount: int,
    ) -> bool {
        let before = self.heal_before(actor, skill_code, is_hot);
        &&& before.total_heal + amount <= i64::MAX
        &&& before.tick_count < i32::MAX
    }

    /// The state once hostility, class and segment have been noted for a hit. The
    /// first hit on a boss throws the segment before it away.
    pub open spec fn enter_fight(self, p: ParsedDamagePacket) -> StorageState {
        let boss = self.bosses.contains(p.target_id);
        let restart = boss && !self.boss_in_segment;
        StorageState {
            hostile_targets: if self.known_players.contains(self.owner_of(p.actor_id)) {
                self.hostile_targets.insert(p.target_id)
            } else {
                self.hostile_targets
            },
            actor_jobs: if p.job is Some && !self.actor_jobs.contains_key(p.actor_id) {
                self.actor_jobs.insert(p.actor_id, p.job->0)
            } else {
                self.actor_jobs
            },
            targets: if restart {
                Map::empty()
            } else {
                self.targets
            },
            dead: if restart && self.targets != Map::<i32, TargetState>::empty() {
                Set::empty()
            } else {
                self.dead
            },
            boss_in_segment: self.boss_in_segment || boss,
            ..self
        }
    }

    /// The record of the target of `p` that the hit goes to: the present one, or
    /// a fresh one if there is none or it has been idle too long.
    pub open spec fn target_before(self, p: ParsedDamagePacket) -> TargetState {
        if self.targets.contains_key(p.target_id) && !self.targets[p.target_id].idle_at(
            p.timestamp,
        ) {
            self.targets[p.target_id]
        } else {
            TargetState::fresh(p.target_id, p.timestamp)
        }
    }

    /// The state once the hit itself has been recorded.
    pub open spec fn record_hit(self, p: ParsedDamagePacket, now: i64) -> StorageState {
        StorageState {
            targets: self.targets.insert(p.target_id, self.target_before(p).hit(p)),
            damage_generation: next_generation(self.damage_generation),
            last_damage_ms: now,
            ..self
        }
    }

    /// Whether `after` may follow on this state when `p` is recorded at `now`.
    ///
    /// A mob's attack on a player counts as damage taken. Among players it is
    /// healing. Everything else is a hit on a target. Damage taken and party
    /// healing go to one of the records that the player has.
    pub open spec fn damage_recorded(
        self,
        p: ParsedDamagePacket,
        now: i64,
        after: StorageState,
    ) -> bool {
        if self.npc_attack(p) {
            if self.known_players.contains(self.owner_of(p.target_id)) {
                self.one_record_changed(
                    after,
                    self.owner_of(p.target_id),
                    |a: ActorState| a.took(p.total_damage as int),
                )
            } else {
                after == self
            }
        } else {
            let s = self.classify(p);
            if s.friendly(p.actor_id, p.target_id) {
                if p.total_damage > 0 {
                    let amount = p.total_damage as int;
                    s.add_heal(p.actor_id, p.skill_code, false, amount).one_record_changed(
                        after,
                        p.actor_id,
                        |a: ActorState| a.healed_party(amount),
                    )
                } else {
                    after == s
                }
            } else {
                after == s.enter_fight(p).record_hit(p, now).apply_pending(p.actor_id)
            }
        }
    }

    /// Whether a hit of `amount` fits in what player `id` has taken, by any record.
    pub open spec fn may_take(self, id: i32, amount: int) -> bool {
        forall|t: i32| #[trigger]
            self.targets.contains_key(t) && self.targets[t].actors.contains_key(id) ==> {
                let actor = self.targets[t].actors[id];
                &&& i64::MIN <= actor.damage_received + amount <= i64::MAX
                &&& actor.hits_received < i32::MAX
            }
    }

    /// Whether healing of `amount` fits in what player `id` has done for the party,
    /// by any record.
    pub open spec fn may_heal_party(self, id: i32, amount: int) -> bool {
        forall|t: i32| #[trigger]
            self.targets.contains_key(t) && self.targets[t].actors.contains_key(id)
                ==> self.targets[t].actors[id].party_heal + amount <= i64::MAX
    }

    /// Whether the counters that `p` is added to have room for it: those of damage
    /// taken for a mob's attack on a player, those of healing among players, and
    /// otherwise those of the record that the hit goes to.
    pub open spec fn has_room(self, p: ParsedDamagePacket) -> bool {
        let amount = p.total_damage as int;
        if self.npc_attack(p) {
            let victim = self.owner_of(p.target_id);
            self.known_players.contains(victim) ==> self.may_take(victim, amount)
        } else {
            let s = self.classify(p);
            if s.friendly(p.actor_id, p.target_id) {
                amount > 0 ==> s.heal_fits(p.actor_id, p.skill_code, false, amount)
                    && s.may_heal_party(p.actor_id, amount)
            } else {
                s.enter_fight(p).target_before(p).has_room(p)
            }
        }
    }

    // ----- names -----

    /// If `name` is the local character's, `id` is the local player.
    pub open spec fn bind_local(self, id: i32, name: Seq<char>) -> StorageState {
        if self.local_name is Some && trimmed(self.local_name->0) == trimmed(name) {
            StorageState { local_player_id: Some(id as i64), ..self }
        } else {
            self
        }
    }

    /// Whether the name that `id` has looks better than `name`: a short name
    /// without Chinese or Korean script does not displace a longer one, and no
    /// such name displaces a longer one in those scripts.
    pub open spec fn prefers_own_name(self, id: i32, name: Seq<char>) -> bool {
        let own = self.nicknames[id];
        &&& self.nicknames.contains_key(id)
        &&& !some_cjk(name)
        &&& byte_len(name) < byte_len(own)
        &&& some_cjk(own) || byte_len(name) <= 5
    }

    /// The ids other than `id` that go by `name`. Names are unique per server, so
    /// such an id is stale once `id` goes by it.
    pub open spec fn stale_holders(self, id: i32, name: Seq<char>) -> Set<i32> {
        self.nicknames.dom().filter(|other: i32| other != id && self.nicknames[other] == name)
    }

    /// The state with the entities in `stale` forgotten: their names, their place
    /// among the players, the summons they own and the damage they did.
    pub open spec fn forget(self, stale: Set<i32>) -> StorageState {
        StorageState {
            nicknames: self.nicknames.remove_keys(stale),
            known_players: self.known_players.difference(stale),
            authoritative_names: self.authoritative_names.difference(stale),
            pending_nicknames: self.pending_nicknames.remove_keys(stale),
            summons: self.summons.remove_keys(keys_with_value(self.summons, stale)),
            ..self
        }.scrub_actors(stale)
    }

    /// `id` goes by `name`, and unless it is a confirmed summon it is a player.
    pub open spec fn give_name(self, id: i32, name: Seq<char>) -> StorageState {
        let named = StorageState { nicknames: self.nicknames.insert(id, name), ..self };
        if self.confirmed_summons.contains(id) {
            named
        } else {
            StorageState { summons: self.summons.remove(id), ..named }.note_player(id)
        }
    }

    /// `name` is offered for `id`. `force` overrides the preference for the name
    /// that `id` has.
    pub open spec fn set_name(self, id: i32, name: Seq<char>, force: bool) -> StorageState {
        if self.nicknames.contains_key(id) && self.nicknames[id] == name {
            self.bind_local(id, name)
        } else if !force && self.prefers_own_name(id, name) {
            self
        } else {
            self.forget(self.stale_holders(id, name)).give_name(id, name).bind_local(id, name)
        }
    }

    /// Whether `id` has shown up as an entity in any way.
    pub open spec fn is_real_entity(self, id: i32) -> bool {
        ||| self.nicknames.contains_key(id)
        ||| self.known_players.contains(id)
        ||| self.authoritative_names.contains(id)
        ||| self.summons.contains_key(id)
        ||| self.targets.contains_key(id)
        ||| self.has_record(id)
    }

    /// Whether a guessed name for `id` is to be considered at all: `id` must be
    /// real, no other id may hold the name with authority, and `id` may not hold
    /// another name with authority.
    pub open spec fn fuzzy_bind_allowed(self, id: i32, name: Seq<char>) -> bool {
        &&& self.is_real_entity(id)
        &&& forall|other: i32| #[trigger]
            self.nicknames.contains_key(other) && other != id && self.nicknames[other] == name
                ==> !self.authoritative_names.contains(other)
        &&& self.authoritative_names.contains(id) && self.nicknames.contains_key(id)
            ==> self.nicknames[id] == name
    }

    /// A guessed name for `id`.
    pub open spec fn guess_name(self, id: i32, name: Seq<char>) -> StorageState {
        if self.fuzzy_bind_allowed(id, name) {
            self.set_name(id, name, false)
        } else {
            self
        }
    }

    /// A name for `id` that the protocol states.
    pub open spec fn state_name(self, id: i32, name: Seq<char>) -> StorageState {
        StorageState {
            authoritative_names: self.authoritative_names.insert(id),
            ..self
        }.set_name(id, name, true)
    }

    /// A name for `id` that the user set.
    pub open spec fn pin_name(self, id: i32, name: Seq<char>) -> StorageState {
        StorageState {
            permanent_nicknames: self.permanent_nicknames.insert(id, name),
            ..self
        }.state_name(id, name)
    }

    /// A name waiting for `id` is offered, now that `id` has been seen.
    pub open spec fn apply_pending(self, id: i32) -> StorageState {
        if self.pending_nicknames.contains_key(id) && !self.nicknames.contains_key(id) {
            StorageState {
                pending_nicknames: self.pending_nicknames.remove(id),
                ..self
            }.set_name(id, self.pending_nicknames[id], false)
        } else {
            self
        }
    }

    /// A name for `id` is kept until `id` is seen in combat, unless it has one.
    pub open spec fn await_name(self, id: i32, name: Seq<char>) -> StorageState {
        if self.nicknames.contains_key(id) {
            self
        } else {
            StorageState {
                pending_nicknames: self.pending_nicknames.insert(id, name),
                ..self
            }
        }
    }

    /// A party roster is taken. A complete one replaces the roster, a partial one updates
    /// the members it names, and an empty one says nothing.
    pub open spec fn roster_taken(
        self,
        entries: Seq<(String, PartyMember)>,
        complete: bool,
    ) -> StorageState {
        StorageState {
            party: if entries.len() == 0 {
                self.party
            } else if complete {
                entered(Map::empty(), entries)
            } else {
                entered(self.party, entries)
            },
            ..self
        }
    }

    /// All names forgotten but those that the user set.
    pub open spec fn reset_names(self) -> StorageState {
        StorageState {
            nicknames: self.permanent_nicknames,
            pending_nicknames: Map::empty(),
            authoritative_names: Set::empty(),
            ..self
        }
    }

    // ----- entities -----

    /// A maximum hit-point reading for `id`; only positive ones count.
    pub open spec fn note_max_hp(self, id: i32, hp: i32) -> StorageState {
        if hp > 0 {
            StorageState { mob_hp: self.mob_hp.insert(id, hp), ..self }
        } else {
            self
        }
    }

    /// A current hit-point reading for `id`. It raises the maximum where that was
    /// lower or unknown.
    pub open spec fn note_current_hp(self, id: i32, hp: i32) -> StorageState {
        let max = if self.mob_hp.contains_key(id) {
            self.mob_hp[id]
        } else {
            0
        };
        if hp < 0 {
            self
        } else {
            StorageState {
                mob_current_hp: self.mob_current_hp.insert(id, hp),
                mob_hp: self.mob_hp.insert(
                    id,
                    if hp > max {
                        hp
                    } else {
                        max
                    },
                ),
                ..self
            }
        }
    }

    /// `id` has died.
    pub open spec fn died(self, id: i32) -> StorageState {
        StorageState { dead: self.dead.insert(id), ..self }
    }

    /// `id` is a boss.
    pub open spec fn boss_known(self, id: i32) -> StorageState {
        StorageState { bosses: self.bosses.insert(id), ..self }
    }

    /// `id` appeared in a mob or summon spawn.
    pub open spec fn spawned(self, id: i32) -> StorageState {
        StorageState { summon_spawns: self.summon_spawns.insert(id), ..self }
    }

    /// The target is `id` from now on.
    pub open spec fn target_chosen(self, id: i32) -> StorageState {
        StorageState { current_target: id, ..self }
    }

    /// The request to drop what was derived from the cleared segment is picked up.
    pub open spec fn reset_taken(self) -> StorageState {
        StorageState { reset_requested: false, ..self }
    }

    /// `id` was announced as a real entity.
    pub open spec fn announce_low_id(self, id: i32) -> StorageState {
        if 1 <= id < 100 {
            StorageState { low_ids: self.low_ids.insert(id), ..self }
        } else {
            self
        }
    }

    /// Whether `id` may be an entity: ids from 100 on, and lower ones that were
    /// announced.
    pub open spec fn plausible(self, id: i32) -> bool {
        id >= 100 || (id >= 1 && self.low_ids.contains(id))
    }

    /// A power-scalar reading for `actor`.
    pub open spec fn note_scalar(self, actor: i32, scalar: i32) -> StorageState {
        let seen = if self.power_scalars.contains_key(actor) {
            self.power_scalars[actor]
        } else {
            Set::empty()
        };
        if actor <= 0 || scalar <= 0 {
            self
        } else {
            StorageState {
                power_scalars: self.power_scalars.insert(
                    actor,
                    if seen.len() < MAX_POWER_SCALARS {
                        seen.insert(scalar)
                    } else {
                        seen
                    },
                ),
                ..self
            }
        }
    }

    /// Whether `id` takes part in combat, as attacker, target or summon.
    pub open spec fn in_combat(self, id: i32) -> bool {
        self.has_record(id) || self.targets.contains_key(id) || self.summons.contains_key(id)
    }

    /// A heal tick of `amount`; only positive ones by a plausible healer count.
    pub open spec fn heal_tick(
        self,
        actor: i32,
        skill_code: i32,
        amount: i64,
        is_hot: bool,
    ) -> StorageState {
        if amount <= 0 || !self.plausible(actor) {
            self
        } else {
            self.add_heal(actor, skill_code, is_hot, amount as int)
        }
    }

    // ----- resets -----

    /// The combat segment cleared. Who is who stays known.
    pub open spec fn clear_combat(self) -> StorageState {
        StorageState {
            targets: Map::empty(),
            hostile_targets: Set::empty(),
            dead: Set::empty(),
            boss_in_segment: false,
            mob_hp: Map::empty(),
            mob_current_hp: Map::empty(),
            heals: Map::empty(),
            current_target: 0,
            ..self
        }
    }

    /// The combat segment cleared together with classes, summons and players.
    pub open spec fn clear_all(self) -> StorageState {
        StorageState {
            actor_jobs: Map::empty(),
            summons: Map::empty(),
            known_players: Set::empty(),
            confirmed_summons: Set::empty(),
            summon_spawns: Set::empty(),
            power_scalars: Map::empty(),
            ..self.clear_combat()
        }
    }

    /// Whether a zone change at `now` resets the segment: not in combat, not just
    /// after another reset, and only if there is something to clear.
    pub open spec fn zone_change_resets(self, now: i64) -> bool {
        &&& now - self.last_damage_ms >= ZONE_RESET_LULL_MS
        &&& now - self.last_zone_reset_ms >= ZONE_RESET_DEBOUNCE_MS
        &&& self.targets != Map::<i32, TargetState>::empty()
    }

    /// The state after a zone change at `now`.
    pub open spec fn zone_changed(self, now: i64) -> StorageState {
        if self.zone_change_resets(now) {
            StorageState {
                last_zone_reset_ms: now,
                reset_requested: true,
                ..self.clear_combat()
            }
        } else {
            self
        }
    }
}

/// The running number after `g`; past the largest comes the smallest.
pub open spec fn next_generation(g: i64) -> i64 {
    if g == i64::MAX {
        i64::MIN
    } else {
        (g + 1) as i64
    }
}

} // verus!
