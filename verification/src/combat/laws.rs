//! What holds of the storage whatever happens to it.

use vstd::prelude::*;

use crate::combat::actor::ActorState;
use crate::combat::friendly_fire::{hit_by_own_side_only, own_side};
use crate::combat::model::{
    next_generation, player_skill, StorageState, MAX_POWER_SCALARS, ZONE_RESET_DEBOUNCE_MS,
    ZONE_RESET_LULL_MS,
};
use crate::combat::roster::{entered, named_at};
use crate::combat::skill::{is_skill_key, spec_skill_key, PartyMember, SkillState};
use crate::combat::summon_resolver::{
    law_summon_belongs_to_the_end_of_its_chain, owner_after,
};
use crate::combat::target::{damage_sum, lemma_actor_change, TargetState, IDLE_RESET_MS};
use crate::entity::ParsedDamagePacket;
use crate::maps::keys_with_value;
use crate::text::trimmed;

verus! {

// ----- damage -----

/// A target's total is the sum of what the actors recorded against it did.
pub proof fn law_total_is_the_sum_over_actors(s: StorageState, target: i32)
    requires
        s.wf(),
        s.targets.contains_key(target),
    ensures
        s.targets[target].total_damage == damage_sum(s.targets[target].actors),
{
}

/// Whatever has happened, the record of a target is consistent: it stands under its
/// own id, its total is that of its actors, its first hit is no later than its
/// last, and every skill on record stands under its own key, has hit, has left the
/// time of each hit, has no more critical hits than hits, and has a smallest hit no
/// larger than its largest.
pub proof fn law_records_are_consistent(
    s: StorageState,
    target: i32,
    actor: i32,
    key: i64,
)
    requires
        s.wf(),
        s.targets.contains_key(target),
    ensures
        ({
            let t = s.targets[target];
            &&& t.target_id == target
            &&& t.total_damage == damage_sum(t.actors)
            &&& t.first_damage_time <= t.last_damage_time
            &&& t.actors.contains_key(actor) && t.actors[actor].skills.contains_key(key) ==> {
                let skill = t.actors[actor].skills[key];
                &&& is_skill_key(key)
                &&& key == spec_skill_key(skill.skill_code, skill.is_dot)
                &&& skill.hit_count >= 1
                &&& skill.hit_timestamps.len() == skill.hit_count
                &&& skill.crit_count <= skill.hit_count
                &&& skill.min_damage <= skill.max_damage
            }
        }),
{
}

/// A record without hit times is the record itself, with the same actors and the same
/// skills under the same keys, in everything but those times.
pub proof fn law_light_record_lacks_only_times(target: TargetState, actor: i32, key: i64)
    ensures
        ({
            let light = target.without_times();
            &&& (TargetState { actors: target.actors, ..light }) == target
            &&& light.actors.dom() == target.actors.dom()
            &&& target.actors.contains_key(actor) ==> {
                let a = target.actors[actor];
                let l = light.actors[actor];
                &&& (ActorState { skills: a.skills, ..l }) == a
                &&& l.skills.dom() == a.skills.dom()
                &&& a.skills.contains_key(key) ==> l.skills[key] == (SkillState {
                    hit_timestamps: Seq::empty(),
                    ..a.skills[key]
                })
            }
        }),
{
    assert(target.without_times().actors.dom() =~= target.actors.dom());
    if target.actors.contains_key(actor) {
        assert(target.without_times().actors[actor].skills.dom()
            =~= target.actors[actor].skills.dom());
    }
}

/// Taking one actor out of a target takes exactly that actor's damage off the
/// target's total, and leaves every other actor as it was.
pub proof fn law_scrubbing_an_actor_takes_off_its_damage(target: TargetState, actor: i32)
    requires
        target.wf(),
    ensures
        !target.scrub(set![actor]).actors.contains_key(actor),
        target.scrub(set![actor]).total_damage == target.total_damage - if target.actors.contains_key(
            actor,
        ) {
            target.actors[actor].total_damage
        } else {
            0
        },
        forall|other: i32| #[trigger]
            target.actors.contains_key(other) && other != actor ==> target.scrub(
                set![actor],
            ).actors.contains_key(other) && target.scrub(set![actor]).actors[other]
                == target.actors[other],
{
    assert(target.actors.remove_keys(set![actor]) =~= target.actors.remove(actor));
    lemma_actor_change(target.actors, actor, ActorState::fresh());
}

/// A hit that is no mob's attack and does not stay among players adds its damage
/// to the target, to the actor and to nobody else's record against that target.
pub proof fn law_hit_counts_once(s: StorageState, p: ParsedDamagePacket, now: i64)
    ensures
        ({
            let before = s.target_before(p);
            let after = s.record_hit(p, now).targets[p.target_id];
            &&& after.total_damage == before.total_damage + p.total_damage
            &&& after.actors[p.actor_id].total_damage == before.actor_before(p).total_damage
                + p.total_damage
            &&& forall|other: i32|
                other != p.actor_id ==> (#[trigger] after.actors.contains_key(other)
                    == before.actors.contains_key(other)) && (before.actors.contains_key(other)
                    ==> after.actors[other] == before.actors[other])
        }),
        forall|t: i32|
            t != p.target_id ==> (#[trigger] s.record_hit(p, now).targets.contains_key(t)
                == s.targets.contains_key(t)) && (s.targets.contains_key(t) ==> s.record_hit(
                p,
                now,
            ).targets[t] == s.targets[t]),
{
}

/// The running number moves exactly when a hit on a target is recorded: not for
/// a mob's attack, and not for what players do to each other.
pub proof fn law_generation_counts_hits(
    s: StorageState,
    p: ParsedDamagePacket,
    now: i64,
    after: StorageState,
)
    requires
        s.damage_recorded(p, now, after),
    ensures
        after.damage_generation == if s.npc_attack(p) || s.classify(p).friendly(
            p.actor_id,
            p.target_id,
        ) {
            s.damage_generation
        } else {
            next_generation(s.damage_generation)
        },
{
}

/// What players do to each other is never recorded as damage: no target's record
/// gains an actor or a point of damage.
pub proof fn law_friendly_action_is_no_damage(
    s: StorageState,
    p: ParsedDamagePacket,
    now: i64,
    after: StorageState,
    target: i32,
    actor: i32,
)
    requires
        s.damage_recorded(p, now, after),
        !s.npc_attack(p),
        s.classify(p).friendly(p.actor_id, p.target_id),
    ensures
        after.targets.contains_key(target) == s.classify(p).targets.contains_key(target),
        after.targets.contains_key(target) ==> {
            let b = s.classify(p).targets[target];
            let a = after.targets[target];
            &&& a.total_damage == b.total_damage
            &&& a.actors.contains_key(actor) == b.actors.contains_key(actor)
            &&& a.actors.contains_key(actor) ==> a.actors[actor].total_damage
                == b.actors[actor].total_damage
        },
{
}

/// Once friendly fire has been purged, no player or summon of a player is
/// recorded as having hit one.
pub proof fn law_purge_leaves_no_friendly_fire(s: StorageState, target: i32, actor: i32)
    requires
        s.purge_friendly().targets.contains_key(target),
        s.purge_friendly().targets[target].actors.contains_key(actor),
    ensures
        !s.purge_friendly().friendly(actor, target),
{
    assert(s.purge_friendly().targets[target] == s.targets[target].scrub(
        own_side(s.targets[target], target, s.summons, s.known_players),
    ));
    assert(s.targets[target].actors.contains_key(actor));
    assert(!own_side(s.targets[target], target, s.summons, s.known_players).contains(actor));
}

/// Purging keeps every hit that was not friendly fire.
pub proof fn law_purge_keeps_other_damage(s: StorageState, target: i32, actor: i32)
    requires
        s.targets.contains_key(target),
        s.targets[target].actors.contains_key(actor),
        !s.friendly(actor, target),
    ensures
        s.purge_friendly().targets.contains_key(target),
        s.purge_friendly().targets[target].actors.contains_key(actor),
        s.purge_friendly().targets[target].actors[actor] == s.targets[target].actors[actor],
{
    let own = own_side(s.targets[target], target, s.summons, s.known_players);
    assert(!own.contains(actor));
    assert(s.targets[target].actors.dom().contains(actor));
    assert(!hit_by_own_side_only(s.targets[target], target, s.summons, s.known_players));
}

/// The first hit on a boss throws the segment before it away: afterwards the
/// boss is the only target, with that one hit on record.
pub proof fn law_boss_fight_starts_clean(s: StorageState, p: ParsedDamagePacket, now: i64)
    requires
        s.bosses.contains(p.target_id),
        !s.boss_in_segment,
    ensures
        s.enter_fight(p).record_hit(p, now).targets == Map::empty().insert(
            p.target_id,
            TargetState::fresh(p.target_id, p.timestamp).hit(p),
        ),
        s.enter_fight(p).record_hit(p, now).boss_in_segment,
{
}

/// Once a boss has been hit, no later hit throws the segment away.
pub proof fn law_boss_fight_is_not_restarted(s: StorageState, p: ParsedDamagePacket)
    requires
        s.boss_in_segment,
    ensures
        s.enter_fight(p).targets == s.targets,
        s.enter_fight(p).dead == s.dead,
        s.enter_fight(p).boss_in_segment,
{
}

/// A hit long after the one before it begins a new fight against the target; any
/// other hit goes on with the fight that is there.
pub proof fn law_long_pause_begins_a_new_fight(s: StorageState, p: ParsedDamagePacket)
    requires
        s.targets.contains_key(p.target_id),
        s.targets[p.target_id].last_damage_time > 0,
    ensures
        p.timestamp - s.targets[p.target_id].last_damage_time > IDLE_RESET_MS
            ==> s.target_before(p) == TargetState::fresh(p.target_id, p.timestamp),
        p.timestamp - s.targets[p.target_id].last_damage_time <= IDLE_RESET_MS
            ==> s.target_before(p) == s.targets[p.target_id],
{
}

/// Two skills share a key only if they are the same skill, in code and flag.
pub proof fn law_skill_keys_are_distinct(a: i32, a_flag: bool, b: i32, b_flag: bool)
    ensures
        spec_skill_key(a, a_flag) == spec_skill_key(b, b_flag) <==> a == b && a_flag == b_flag,
        is_skill_key(spec_skill_key(a, a_flag)),
{
}

// ----- players, mobs and summons -----

/// No player is a confirmed summon, and none has an owner.
pub proof fn law_players_are_no_summons(s: StorageState, id: i32)
    requires
        s.wf(),
        s.known_players.contains(id),
    ensures
        !s.confirmed_summons.contains(id),
        !s.summons.contains_key(id),
        s.owner_of(id) == id,
{
}

/// What one player does to another is healing, and nothing else.
pub proof fn law_players_heal_each_other(
    s: StorageState,
    p: ParsedDamagePacket,
    now: i64,
    after: StorageState,
)
    requires
        s.wf(),
        s.known_players.contains(p.actor_id),
        s.known_players.contains(p.target_id),
        !s.npc_attack(p),
        s.damage_recorded(p, now, after),
    ensures
        p.total_damage > 0 ==> after.heals == s.add_heal(
            p.actor_id,
            p.skill_code,
            false,
            p.total_damage as int,
        ).heals,
        p.total_damage <= 0 ==> after == s,
        after.targets.dom() == s.targets.dom(),
        after.damage_generation == s.damage_generation,
{
    law_players_are_no_summons(s, p.actor_id);
    law_players_are_no_summons(s, p.target_id);
    assert(after.targets.dom() =~= s.targets.dom());
}

/// Healing changes what one healer has healed with one skill, and no other entry,
/// not that of the same skill healing the other way.
pub proof fn law_heal_changes_one_entry(
    s: StorageState,
    actor: i32,
    skill_code: i32,
    is_hot: bool,
    amount: i64,
    other: i32,
    key: i64,
)
    requires
        s.wf(),
        amount > 0,
        s.plausible(actor),
        s.heal_fits(actor, skill_code, is_hot, amount as int),
    ensures
        ({
            let after = s.heal_tick(actor, skill_code, amount, is_hot);
            let own = spec_skill_key(skill_code, is_hot);
            let before = s.heal_before(actor, skill_code, is_hot);
            &&& after.wf()
            &&& after.heals[actor][own].total_heal == before.total_heal + amount
            &&& after.heals[actor][own].tick_count == before.tick_count + 1
            &&& other != actor ==> after.heals.get(other) == s.heals.get(other)
            &&& key != own ==> (after.heals[actor].contains_key(key) == (s.heals.contains_key(actor)
                && s.heals[actor].contains_key(key))) && (s.heals.contains_key(actor)
                && s.heals[actor].contains_key(key) ==> after.heals[actor][key]
                == s.heals[actor][key])
            &&& own != spec_skill_key(skill_code, !is_hot)
            &&& after.targets == s.targets
        }),
{
    let after = s.heal_tick(actor, skill_code, amount, is_hot);
    let own = spec_skill_key(skill_code, is_hot);
    law_skill_keys_are_distinct(skill_code, is_hot, skill_code, !is_hot);
    assert forall|a: i32, k: i64|
        after.heals.contains_key(a) && #[trigger] after.heals[a].contains_key(k) implies is_skill_key(
        k,
    ) by {
        if a != actor || k != own {
            assert(s.heals.contains_key(a) && s.heals[a].contains_key(k));
        }
    }
}

/// What appeared in a mob or summon spawn, or is confirmed as a summon, is not
/// taken for a player because of the skills it uses.
pub proof fn law_spawned_summon_is_no_player(s: StorageState, p: ParsedDamagePacket)
    requires
        s.summon_spawns.contains(p.actor_id) || s.confirmed_summons.contains(p.actor_id),
    ensures
        s.classify(p) == s,
{
}

/// An actor that uses a player's skill, and did not spawn as a mob or summon, is
/// a player from then on and nobody's summon.
pub proof fn law_player_skill_makes_a_player(s: StorageState, p: ParsedDamagePacket)
    requires
        player_skill(p.skill_code),
        !s.summon_spawns.contains(p.actor_id),
        !s.confirmed_summons.contains(p.actor_id),
        !s.known_players.contains(p.actor_id),
    ensures
        s.classify(p).known_players == s.known_players.insert(p.actor_id),
        s.classify(p).owner_of(p.actor_id) == p.actor_id,
{
}

/// A mob is no player, and if it passed for one, no target keeps damage of it.
pub proof fn law_mob_is_no_player(s: StorageState, id: i32, code: i32, target: i32)
    ensures
        s.add_mob(id, code).mobs[id] == code,
        !s.add_mob(id, code).known_players.contains(id),
        s.known_players.contains(id) && s.add_mob(id, code).targets.contains_key(target)
            ==> !s.add_mob(id, code).targets[target].actors.contains_key(id),
{
}

/// A confirmed summon is no player, and is owned by whom the protocol states.
pub proof fn law_confirmed_summon_is_no_player(s: StorageState, summon: i32, owner: i32)
    ensures
        !s.confirm_summon(summon, owner).known_players.contains(summon),
        s.confirm_summon(summon, owner).summons.contains_key(summon),
        s.confirm_summon(summon, owner).summons[summon] == owner,
        s.confirm_summon(summon, owner).confirmed_summons.contains(summon),
{
}

/// However long its chain of owners, a summon belongs to the entity at the end of
/// it. With that entity a player, what it does to players is no damage.
pub proof fn law_summon_acts_for_the_end_of_its_chain(
    s: StorageState,
    summon: i32,
    steps: nat,
    target: i32,
)
    requires
        s.wf(),
        !s.summons.contains_key(owner_after(s.summons, summon, steps)),
    ensures
        s.owner_of(summon) == owner_after(s.summons, summon, steps),
        s.friendly(summon, target) == s.friendly(s.owner_of(summon), target),
{
    law_summon_belongs_to_the_end_of_its_chain(s.summons, summon, steps);
}

/// A guess never makes a summon of a named entity, of a player or of a hostile
/// target, and never an owner of a mob or of a summon.
pub proof fn law_guessed_link_spares_players(s: StorageState, summoner: i32, summon: i32)
    requires
        s.nicknames.contains_key(summon) || s.known_players.contains(summon)
            || s.hostile_targets.contains(summon) || s.mobs.contains_key(summoner)
            || s.summons.contains_key(summoner),
    ensures
        s.link_summon(summoner, summon) == s,
{
}

/// Ids from 100 on are always plausible, ids below 1 never, and those between
/// exactly when they were announced.
pub proof fn law_low_ids_must_be_announced(s: StorageState, announced: i32, id: i32)
    ensures
        id >= 100 ==> s.announce_low_id(announced).plausible(id),
        id < 1 ==> !s.announce_low_id(announced).plausible(id),
        1 <= id < 100 ==> (s.announce_low_id(announced).plausible(id) == (s.low_ids.contains(id)
            || id == announced)),
{
}

/// However many readings come in, no actor keeps more than a handful of power
/// scalars, and a reading once kept stays.
pub proof fn law_power_scalars_are_bounded(s: StorageState, actor: i32, scalar: i32)
    requires
        s.wf(),
    ensures
        s.note_scalar(actor, scalar).wf(),
        s.note_scalar(actor, scalar).power_scalars.contains_key(actor) ==> s.note_scalar(
            actor,
            scalar,
        ).power_scalars[actor].len() <= MAX_POWER_SCALARS,
        s.power_scalars.contains_key(actor) ==> s.power_scalars[actor].subset_of(
            s.note_scalar(actor, scalar).power_scalars[actor],
        ),
{
}

/// Right after a current hit-point reading, the maximum is no lower than it, and
/// no lower than it was before.
pub proof fn law_maximum_covers_current_hp(s: StorageState, id: i32, hp: i32)
    requires
        hp >= 0,
    ensures
        s.note_current_hp(id, hp).mob_current_hp[id] == hp,
        s.note_current_hp(id, hp).mob_hp.contains_key(id),
        s.note_current_hp(id, hp).mob_hp[id] >= hp,
        s.mob_hp.contains_key(id) ==> s.note_current_hp(id, hp).mob_hp[id] >= s.mob_hp[id],
{
}

// ----- names -----

/// After a name has been taken on, nobody else goes by it.
proof fn lemma_given_name(s: StorageState, id: i32, name: Seq<char>, other: i32)
    ensures
        ({
            let after = s.forget(s.stale_holders(id, name)).give_name(id, name).bind_local(
                id,
                name,
            );
            &&& after.nicknames.contains_key(id)
            &&& after.nicknames[id] == name
            &&& after.nicknames.contains_key(other) && after.nicknames[other] == name ==> other
                == id
            &&& s.authoritative_names.contains(id) ==> after.authoritative_names.contains(id)
            &&& after.permanent_nicknames == s.permanent_nicknames
        }),
{
    let stale = s.stale_holders(id, name);
    assert(!stale.contains(id));
    if s.nicknames.contains_key(other) && s.nicknames[other] == name && other != id {
        assert(stale.contains(other));
    }
}

/// A name that the protocol states always takes effect, whatever the entity was
/// called before, and is held with authority.
pub proof fn law_stated_name_takes_effect(s: StorageState, id: i32, name: Seq<char>)
    ensures
        s.state_name(id, name).nicknames.contains_key(id),
        s.state_name(id, name).nicknames[id] == name,
        s.state_name(id, name).authoritative_names.contains(id),
{
    lemma_given_name(
        StorageState { authoritative_names: s.authoritative_names.insert(id), ..s },
        id,
        name,
        id,
    );
}

/// When a stated name is new for the entity, nobody else goes by it any more.
pub proof fn law_stated_name_is_reclaimed(
    s: StorageState,
    id: i32,
    name: Seq<char>,
    other: i32,
)
    requires
        s.nicknames.get(id) != Some(name),
        other != id,
    ensures
        s.state_name(id, name).nicknames.get(other) != Some(name),
{
    lemma_given_name(
        StorageState { authoritative_names: s.authoritative_names.insert(id), ..s },
        id,
        name,
        other,
    );
}

/// An entity that another one takes the name over from is stale, and forgotten: it
/// has no name and none waiting, is no player, owns no summons and has done no
/// damage.
pub proof fn law_name_moves_leave_nothing_behind(
    s: StorageState,
    id: i32,
    name: Seq<char>,
    stale: i32,
)
    requires
        s.nicknames.get(id) != Some(name),
        s.nicknames.get(stale) == Some(name),
    ensures
        ({
            let after = s.state_name(id, name);
            &&& !after.nicknames.contains_key(stale)
            &&& !after.pending_nicknames.contains_key(stale)
            &&& !after.authoritative_names.contains(stale)
            &&& !after.known_players.contains(stale)
            &&& forall|k: i32| #[trigger]
                after.summons.contains_key(k) ==> after.summons[k] != stale
            &&& forall|t: i32| #[trigger]
                after.targets.contains_key(t) ==> !after.targets[t].actors.contains_key(stale)
        }),
{
    let stated = StorageState { authoritative_names: s.authoritative_names.insert(id), ..s };
    let holders = stated.stale_holders(id, name);
    assert(holders.contains(stale));
    let forgotten = stated.forget(holders);
    assert forall|k: i32| #[trigger] forgotten.summons.contains_key(k) implies forgotten.summons[k]
        != stale by {
        if s.summons[k] == stale {
            assert(keys_with_value(s.summons, holders).contains(k));
        }
    }
    assert forall|t: i32| #[trigger]
        forgotten.targets.contains_key(t) implies !forgotten.targets[t].actors.contains_key(
        stale,
    ) by {}
    let named = forgotten.give_name(id, name);
    assert forall|t: i32| #[trigger]
        named.targets.contains_key(t) implies !named.targets[t].actors.contains_key(stale) by {
        assert(forgotten.targets.contains_key(t));
    }
}

/// Whether no two entities go by the same name.
pub open spec fn names_unique(s: StorageState) -> bool {
    forall|a: i32, b: i32|
        #![trigger s.nicknames.contains_key(a), s.nicknames.contains_key(b)]
        s.nicknames.contains_key(a) && s.nicknames.contains_key(b) && s.nicknames[a]
            == s.nicknames[b] ==> a == b
}

/// Names are unique, and giving one keeps them so, whether it is guessed, stated,
/// set by the user or was waiting.
pub proof fn law_names_stay_unique(s: StorageState, id: i32, name: Seq<char>)
    requires
        names_unique(s),
    ensures
        names_unique(s.guess_name(id, name)),
        names_unique(s.state_name(id, name)),
        names_unique(s.pin_name(id, name)),
        names_unique(s.apply_pending(id)),
{
    lemma_set_name_keeps_unique(s, id, name, false);
    let stated = StorageState { authoritative_names: s.authoritative_names.insert(id), ..s };
    lemma_set_name_keeps_unique(stated, id, name, true);
    let pinned = StorageState {
        permanent_nicknames: s.permanent_nicknames.insert(id, name),
        ..stated
    };
    lemma_set_name_keeps_unique(pinned, id, name, true);
    let taken = StorageState { pending_nicknames: s.pending_nicknames.remove(id), ..s };
    lemma_set_name_keeps_unique(taken, id, s.pending_nicknames[id], false);
}

/// Offering a name keeps names unique.
proof fn lemma_set_name_keeps_unique(s: StorageState, id: i32, name: Seq<char>, force: bool)
    requires
        names_unique(s),
    ensures
        names_unique(s.set_name(id, name, force)),
{
    let after = s.set_name(id, name, force);
    assert forall|a: i32, b: i32|
        #![trigger after.nicknames.contains_key(a), after.nicknames.contains_key(b)]
        after.nicknames.contains_key(a) && after.nicknames.contains_key(b) && after.nicknames[a]
            == after.nicknames[b] implies a == b by {
        lemma_given_name(s, id, name, a);
        lemma_given_name(s, id, name, b);
        assert(a != id && b != id ==> s.nicknames.contains_key(a) && s.nicknames.contains_key(b));
    }
}

/// After names have been reset, they are unique if those that the user set are.
pub proof fn law_reset_names_are_the_users(s: StorageState)
    requires
        forall|a: i32, b: i32|
            #![trigger s.permanent_nicknames.contains_key(a), s.permanent_nicknames.contains_key(b)]
            s.permanent_nicknames.contains_key(a) && s.permanent_nicknames.contains_key(b)
                && s.permanent_nicknames[a] == s.permanent_nicknames[b] ==> a == b,
    ensures
        names_unique(s.reset_names()),
{
}

/// A guess neither takes a name away from an entity that holds it with authority,
/// nor renames such an entity.
pub proof fn law_guess_respects_authority(
    s: StorageState,
    id: i32,
    name: Seq<char>,
    holder: i32,
)
    requires
        s.authoritative_names.contains(holder),
        s.nicknames.contains_key(holder),
    ensures
        s.guess_name(id, name).nicknames.contains_key(holder),
        s.guess_name(id, name).nicknames[holder] == s.nicknames[holder],
        s.guess_name(id, name).authoritative_names.contains(holder),
{
    if s.fuzzy_bind_allowed(id, name) {
        let stale = s.stale_holders(id, name);
        if holder != id {
            assert(s.nicknames.contains_key(holder));
            assert(!stale.contains(holder));
        }
    }
}

/// A guess never names something that has not shown up as an entity.
pub proof fn law_guess_needs_a_real_entity(s: StorageState, id: i32, name: Seq<char>)
    requires
        !s.is_real_entity(id),
    ensures
        s.guess_name(id, name) == s,
{
}

/// A name that the user set is there after all names have been reset, and no
/// other name is.
pub proof fn law_users_names_survive_a_reset(
    s: StorageState,
    id: i32,
    name: Seq<char>,
    other: i32,
)
    ensures
        s.pin_name(id, name).reset_names().nicknames.get(id) == Some(name),
        s.reset_names().nicknames.get(other) == s.permanent_nicknames.get(other),
        s.reset_names().authoritative_names == Set::<i32>::empty(),
        s.reset_names().reset_names() == s.reset_names(),
{
    lemma_given_name(
        StorageState {
            permanent_nicknames: s.permanent_nicknames.insert(id, name),
            authoritative_names: s.authoritative_names.insert(id),
            ..s
        },
        id,
        name,
        id,
    );
}

/// A waiting name is taken on by an entity without one, and waits no longer.
pub proof fn law_waiting_name_is_taken_on(s: StorageState, id: i32)
    requires
        s.pending_nicknames.contains_key(id),
        !s.nicknames.contains_key(id),
    ensures
        s.apply_pending(id).nicknames.get(id) == Some(s.pending_nicknames[id]),
        !s.apply_pending(id).pending_nicknames.contains_key(id),
{
    lemma_given_name(
        StorageState { pending_nicknames: s.pending_nicknames.remove(id), ..s },
        id,
        s.pending_nicknames[id],
        id,
    );
}

/// Whoever takes on the local character's name is the local player.
pub proof fn law_local_name_binds_the_local_player(
    s: StorageState,
    id: i32,
    name: Seq<char>,
)
    requires
        s.local_name is Some,
        trimmed(s.local_name->0) == trimmed(name),
    ensures
        s.state_name(id, name).local_player_id == Some(id as i64),
{
}

/// The user's own character goes by its name as soon as both name and entity are
/// known, in whichever order they were given.
pub proof fn law_own_name_in_either_order(s: StorageState, name: Seq<char>, actor_id: i64)
    requires
        trimmed(name).len() > 0,
        actor_id > 0,
    ensures
        s.character_named(name).actor_bound(actor_id).nicknames.get(actor_id as i32) == Some(
            trimmed(name),
        ),
        s.actor_bound(actor_id).character_named(name).nicknames.get(actor_id as i32) == Some(
            trimmed(name),
        ),
{
    let e = actor_id as i32;
    let n = trimmed(name);
    let s1 = s.character_named(name);
    let s2 = s.actor_bound(actor_id);
    lemma_given_name(
        StorageState {
            local_player_id: Some(actor_id),
            permanent_nicknames: s1.permanent_nicknames.insert(e, n),
            authoritative_names: s1.authoritative_names.insert(e),
            ..s1
        },
        e,
        n,
        e,
    );
    assert(s2.local_player_id == Some(actor_id) || s2.local_player_id == Some(e as i64));
    lemma_given_name(
        StorageState {
            local_name: Some(name),
            permanent_nicknames: s2.permanent_nicknames.insert(e, n),
            authoritative_names: s2.authoritative_names.insert(e),
            ..s2
        },
        e,
        n,
        e,
    );
}

// ----- the party roster -----

/// A roster that was entered member by member holds each member as last entered,
/// and of the others exactly those that it held before.
pub proof fn law_roster_update(
    roster: Map<Seq<char>, PartyMember>,
    entries: Seq<(String, PartyMember)>,
    name: Seq<char>,
)
    ensures
        (forall|i: int| !named_at(entries, name, i)) ==> entered(roster, entries).get(name)
            == roster.get(name),
        (exists|i: int| named_at(entries, name, i)) ==> entered(roster, entries).contains_key(name),
        forall|i: int|
            named_at(entries, name, i) && (forall|j: int|
                i < j ==> !#[trigger] named_at(entries, name, j)) ==> entered(
                roster,
                entries,
            ).get(name) == Some(entries[i].1),
    decreases entries.len(),
{
    if entries.len() > 0 {
        let rest = entries.drop_last();
        law_roster_update(roster, rest, name);
        assert forall|i: int| named_at(rest, name, i) implies named_at(entries, name, i) by {}
        let last = entries.len() - 1;
        if !named_at(entries, name, last) {
            assert forall|i: int| named_at(entries, name, i) implies named_at(rest, name, i) by {}
        }
    }
}

// ----- resets -----

/// Clearing the combat segment forgets nobody: names, players, summons, classes,
/// the roster and the local player stay as they are.
pub proof fn law_clearing_combat_keeps_identity(s: StorageState)
    ensures
        s.clear_combat().targets == Map::<i32, TargetState>::empty(),
        s.clear_combat().nicknames == s.nicknames,
        s.clear_combat().pending_nicknames == s.pending_nicknames,
        s.clear_combat().permanent_nicknames == s.permanent_nicknames,
        s.clear_combat().authoritative_names == s.authoritative_names,
        s.clear_combat().known_players == s.known_players,
        s.clear_combat().summons == s.summons,
        s.clear_combat().confirmed_summons == s.confirmed_summons,
        s.clear_combat().summon_spawns == s.summon_spawns,
        s.clear_combat().actor_jobs == s.actor_jobs,
        s.clear_combat().party == s.party,
        s.clear_combat().power_scalars == s.power_scalars,
        s.clear_combat().local_player_id == s.local_player_id,
        s.clear_combat().local_name == s.local_name,
        s.clear_combat().clear_combat() == s.clear_combat(),
{
}

/// Clearing everything still keeps all names.
pub proof fn law_clearing_all_keeps_names(s: StorageState)
    ensures
        s.clear_all().targets == Map::<i32, TargetState>::empty(),
        s.clear_all().known_players == Set::<i32>::empty(),
        s.clear_all().nicknames == s.nicknames,
        s.clear_all().permanent_nicknames == s.permanent_nicknames,
        s.clear_all().authoritative_names == s.authoritative_names,
        s.clear_all().local_player_id == s.local_player_id,
        s.clear_all().local_name == s.local_name,
        s.clear_all().clear_all() == s.clear_all(),
{
}

/// A zone change never wipes a fight that is still going on.
pub proof fn law_zone_change_spares_an_active_fight(s: StorageState, now: i64)
    requires
        now - s.last_damage_ms < ZONE_RESET_LULL_MS,
    ensures
        s.zone_changed(now) == s,
{
}

/// Two zone changes that both clear the segment are well apart, whatever
/// happened between them.
pub proof fn law_zone_resets_are_spaced(
    s: StorageState,
    first: i64,
    later: StorageState,
    second: i64,
)
    requires
        s.zone_change_resets(first),
        later.last_zone_reset_ms == s.zone_changed(first).last_zone_reset_ms,
        later.zone_change_resets(second),
    ensures
        second - first >= ZONE_RESET_DEBOUNCE_MS,
{
}

/// A zone change leaves names, players, summons and classes alone.
pub proof fn law_zone_change_keeps_identity(s: StorageState, now: i64)
    ensures
        s.zone_changed(now).nicknames == s.nicknames,
        s.zone_changed(now).known_players == s.known_players,
        s.zone_changed(now).authoritative_names == s.authoritative_names,
        s.zone_changed(now).summons == s.summons,
        s.zone_changed(now).actor_jobs == s.actor_jobs,
        s.zone_changed(now).party == s.party,
        s.zone_changed(now).local_player_id == s.local_player_id,
{
}

} // verus!
