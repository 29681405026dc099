//! What each event changes in the storage, and what it leaves alone.

use vstd::prelude::*;

use crate::combat::actor::ActorState;
use crate::combat::friendly_fire::{hit_by_own_side_only, own_side, same_side};
use crate::combat::model::{npc_skill, player_skill, StorageState};
use crate::combat::skill::{spec_skill_key, HealSkillData};
use crate::combat::summon_resolver::owner_after;
use crate::combat::target::{damage_sum, TargetState};
use crate::entity::ParsedDamagePacket;

verus! {

/// Whether `actor` is on record as having hit `target`.
pub open spec fn on_record(s: StorageState, target: i32, actor: i32) -> bool {
    s.targets.contains_key(target) && s.targets[target].actors.contains_key(actor)
}

/// Whether what `after` knows of `target`, apart from the actors and their total, is
/// what `before` knew.
pub open spec fn same_fight(before: StorageState, after: StorageState, target: i32) -> bool {
    let b = before.targets[target];
    let a = after.targets[target];
    &&& a.target_id == b.target_id
    &&& a.first_damage_time == b.first_damage_time
    &&& a.last_damage_time == b.last_damage_time
    &&& a.last_packet_id == b.last_packet_id
}

/// Whether, of what was on record of `actor` against `target`, friendly fire by what
/// `after` knows is gone, everything else is there as it was, and nothing is new. A
/// target goes only if all that hit it were on its own side.
pub open spec fn only_friendly_fire_gone(
    before: StorageState,
    after: StorageState,
    target: i32,
    actor: i32,
) -> bool {
    &&& on_record(before, target, actor) && !after.friendly(actor, target) ==> on_record(
        after,
        target,
        actor,
    ) && after.targets[target].actors[actor] == before.targets[target].actors[actor]
    &&& on_record(before, target, actor) && after.friendly(actor, target) ==> !on_record(
        after,
        target,
        actor,
    )
    &&& on_record(after, target, actor) ==> on_record(before, target, actor)
    &&& after.targets.contains_key(target) ==> before.targets.contains_key(target)
        && same_fight(before, after, target) && after.targets[target].total_damage == damage_sum(
        after.targets[target].actors,
    )
    &&& before.targets.contains_key(target) && !after.targets.contains_key(target) ==> exists|
        a: i32,
    | #[trigger]
        before.targets[target].actors.contains_key(a)
    &&& before.targets.contains_key(target) && before.targets[target].actors.dom() == Set::<
        i32,
    >::empty() ==> after.targets.contains_key(target)
}

/// What purging takes out.
proof fn lemma_purge(s: StorageState, target: i32, actor: i32)
    ensures
        only_friendly_fire_gone(s, s.purge_friendly(), target, actor),
        (StorageState { targets: s.targets, ..s.purge_friendly() }) == s,
{
    let after = s.purge_friendly();
    if s.targets.contains_key(target) {
        let record = s.targets[target];
        let own = own_side(record, target, s.summons, s.known_players);
        assert(own.contains(actor) == (record.actors.contains_key(actor) && same_side(
            s.summons,
            s.known_players,
            actor,
            target,
        )));
        if hit_by_own_side_only(record, target, s.summons, s.known_players) {
            assert(record.actors.dom().contains(actor) ==> own.contains(actor));
            assert(exists|a: i32| own.contains(a)) by {
                if forall|a: i32| !own.contains(a) {
                    assert(own =~= Set::<i32>::empty());
                }
            }
            let a = choose|a: i32| own.contains(a);
            assert(record.actors.contains_key(a));
        }
    }
}

// ----- whose side -----

/// Two entities are on one side exactly when both belong to players, and an entity
/// whose owner nobody owns belongs to that owner.
pub proof fn law_sides_are_those_of_the_owners(s: StorageState, a: i32, b: i32, owner: i32)
    requires
        s.wf(),
    ensures
        s.friendly(a, b) <==> s.known_players.contains(s.owner_of(a)) && s.known_players.contains(
            s.owner_of(b),
        ),
        s.friendly(a, b) == s.friendly(b, a),
        !s.summons.contains_key(a) ==> s.owner_of(a) == a,
        s.summons.get(a) == Some(owner) && !s.summons.contains_key(owner) ==> s.owner_of(a)
            == owner,
{
    if s.summons.get(a) == Some(owner) && !s.summons.contains_key(owner) {
        assert(owner_after(s.summons, owner, 0) == owner);
        assert(owner_after(s.summons, a, 1) == owner);
        crate::combat::summon_resolver::law_summon_belongs_to_the_end_of_its_chain(
            s.summons,
            a,
            1,
        );
    }
}

/// Players' skills are those whose code is in the eleventh to nineteenth million, in
/// the third million or in the hundred thousands; those of other characters are in the
/// first nine millions.
pub proof fn law_skill_codes_tell_who_acts(code: i32)
    requires
        code >= 0,
    ensures
        player_skill(code) <==> (11 <= code as int / 1_000_000 <= 19 || code as int / 1_000_000
            == 3 || code as int / 100_000 == 1),
        npc_skill(code) <==> 1 <= code as int / 1_000_000 <= 9,
        !player_skill((-1 - code) as i32),
        !npc_skill((-1 - code) as i32),
{
}

// ----- players, mobs and summons -----

/// When an entity joins the players, the players are those before and that one, it has
/// no owner any more, other links stay, and nothing but friendly fire leaves the
/// record. One that was a player before changes nothing.
pub proof fn law_joining_the_players(
    s: StorageState,
    id: i32,
    other: i32,
    target: i32,
    actor: i32,
)
    requires
        s.wf(),
    ensures
        ({
            let after = s.note_player(id);
            &&& after.known_players.contains(other) <==> s.known_players.contains(other) || other
                == id
            &&& !after.summons.contains_key(id)
            &&& other != id ==> after.summons.get(other) == s.summons.get(other)
            &&& s.known_players.contains(id) ==> after == s
            &&& !s.known_players.contains(id) ==> only_friendly_fire_gone(s, after, target, actor)
            &&& (StorageState {
                known_players: s.known_players,
                summons: s.summons,
                targets: s.targets,
                ..after
            }) == s
        }),
{
    let joined = StorageState {
        known_players: s.known_players.insert(id),
        summons: s.summons.remove(id),
        ..s
    };
    lemma_purge(joined, target, actor);
}

/// Who uses a player's skill joins the players, unless it spawned as a mob or summon or
/// is confirmed as one; nobody else does.
pub proof fn law_skills_show_players(s: StorageState, p: ParsedDamagePacket)
    ensures
        ({
            let code = p.skill_code;
            let players = (11_000_000 <= code < 20_000_000) || (3_000_000 <= code < 4_000_000)
                || (100_000 <= code < 200_000);
            &&& players && !s.confirmed_summons.contains(p.actor_id)
                && !s.summon_spawns.contains(p.actor_id) ==> s.classify(p) == s.note_player(
                p.actor_id,
            )
            &&& !players || s.confirmed_summons.contains(p.actor_id) || s.summon_spawns.contains(
                p.actor_id,
            ) ==> s.classify(p) == s
        }),
{
}

/// Confirming a summon sets that one link, takes that one entity off the players, and
/// keeps all damage on record that is not friendly fire under the new ownership: what
/// the summon did to others stays its own, to be shown with its owner.
pub proof fn law_confirming_a_summon_keeps_its_damage(
    s: StorageState,
    summon: i32,
    owner: i32,
    other: i32,
    target: i32,
    actor: i32,
)
    ensures
        ({
            let after = s.confirm_summon(summon, owner);
            &&& after.summons.get(summon) == Some(owner)
            &&& other != summon ==> after.summons.get(other) == s.summons.get(other)
            &&& after.confirmed_summons.contains(other) <==> s.confirmed_summons.contains(other)
                || other == summon
            &&& after.known_players.contains(other) <==> s.known_players.contains(other) && other
                != summon
            &&& only_friendly_fire_gone(s, after, target, actor)
            &&& (StorageState {
                summons: s.summons,
                confirmed_summons: s.confirmed_summons,
                known_players: s.known_players,
                targets: s.targets,
                ..after
            }) == s
        }),
{
    let linked = StorageState {
        confirmed_summons: s.confirmed_summons.insert(summon),
        known_players: s.known_players.remove(summon),
        summons: s.summons.insert(summon, owner),
        ..s
    };
    lemma_purge(linked, target, actor);
    assert(s.known_players.remove(summon).contains(other) <==> s.known_players.contains(other)
        && other != summon);
}

/// A mob gets its code, and every other mob keeps its own. If it passed for a player,
/// it stops doing so, and its damage, and nobody else's, leaves every target; if it did
/// not, nothing else changes.
pub proof fn law_mob_loses_only_its_own_damage(
    s: StorageState,
    id: i32,
    code: i32,
    other: i32,
    target: i32,
)
    ensures
        ({
            let after = s.add_mob(id, code);
            &&& after.mobs.get(id) == Some(code)
            &&& other != id ==> after.mobs.get(other) == s.mobs.get(other)
            &&& after.known_players.contains(other) <==> s.known_players.contains(other) && other
                != id
            &&& after.targets.contains_key(target) == s.targets.contains_key(target)
            &&& other != id ==> on_record(after, target, other) == on_record(s, target, other)
            &&& other != id && on_record(s, target, other) ==> after.targets[target].actors[other]
                == s.targets[target].actors[other]
            &&& s.known_players.contains(id) ==> !on_record(after, target, id)
            &&& s.targets.contains_key(target) ==> same_fight(s, after, target)
            &&& s.known_players.contains(id) && s.targets.contains_key(target)
                ==> after.targets[target].total_damage == damage_sum(
                after.targets[target].actors,
            )
            &&& !s.known_players.contains(id) ==> after.targets == s.targets
            &&& (StorageState {
                mobs: s.mobs,
                known_players: s.known_players,
                targets: s.targets,
                ..after
            }) == s
        }),
{
    if !s.known_players.contains(id) {
        assert(s.known_players.remove(id) =~= s.known_players);
    }
    assert(s.known_players.remove(id).contains(other) <==> s.known_players.contains(other)
        && other != id);
}

/// A guessed link is made exactly where nothing known speaks against it: the summon is
/// neither named nor a player nor hostile, the summoner is neither a summon nor a mob,
/// and their classes, where both are known, are one. It changes that link alone.
pub proof fn law_guessed_link_changes_one_link(
    s: StorageState,
    summoner: i32,
    summon: i32,
    other: i32,
)
    ensures
        ({
            let after = s.link_summon(summoner, summon);
            let against = s.nicknames.contains_key(summon) || s.known_players.contains(summon)
                || s.hostile_targets.contains(summon) || s.summons.contains_key(summoner)
                || s.mobs.contains_key(summoner) || (s.actor_jobs.contains_key(summon)
                && s.actor_jobs.contains_key(summoner) && s.actor_jobs[summon]
                != s.actor_jobs[summoner]);
            &&& against ==> after == s
            &&& !against ==> after.summons.get(summon) == Some(summoner)
            &&& other != summon ==> after.summons.get(other) == s.summons.get(other)
            &&& (StorageState { summons: s.summons, ..after }) == s
        }),
{
}

// ----- damage -----

/// Whether `p` is a hit on a target that tells nothing new of its actor: no mob's
/// attack, not among players, by a player that is known or by who uses no player's
/// skill or is a summon, and by somebody for whom no name waits.
pub open spec fn plain_hit(s: StorageState, p: ParsedDamagePacket) -> bool {
    &&& !s.mobs.contains_key(p.actor_id) || s.summons.contains_key(p.actor_id) || p.skill_code
        < 1_000_000 || p.skill_code > 9_999_999
    &&& s.known_players.contains(p.actor_id) || s.confirmed_summons.contains(p.actor_id)
        || s.summon_spawns.contains(p.actor_id) || !player_skill(p.skill_code)
    &&& !(s.known_players.contains(s.owner_of(p.actor_id)) && s.known_players.contains(
        s.owner_of(p.target_id),
    ))
    &&& s.nicknames.contains_key(p.actor_id) || !s.pending_nicknames.contains_key(p.actor_id)
}

/// A hit goes to the record of its target, which is begun anew where there is none,
/// where the last hit is more than half a minute back, and where a boss is hit for the
/// first time in the segment, which throws every other record away too. No other
/// record changes, and nobody's name, side or healing.
pub proof fn law_hit_goes_to_its_target(
    s: StorageState,
    p: ParsedDamagePacket,
    now: i64,
    after: StorageState,
    other: i32,
)
    requires
        s.damage_recorded(p, now, after),
        plain_hit(s, p),
    ensures
        ({
            let opens_boss_fight = s.bosses.contains(p.target_id) && !s.boss_in_segment;
            let idle = s.targets[p.target_id].last_damage_time > 0 && p.timestamp
                - s.targets[p.target_id].last_damage_time > 30_000;
            let goes_on = s.targets.contains_key(p.target_id) && !opens_boss_fight && !idle;
            let t = after.targets[p.target_id];
            &&& after.targets.contains_key(p.target_id)
            &&& goes_on ==> {
                let b = s.targets[p.target_id];
                &&& t.total_damage - b.total_damage == p.total_damage
                &&& t == b.hit(p)
            }
            &&& !goes_on ==> {
                &&& t.target_id == p.target_id
                &&& t.total_damage == p.total_damage
                &&& t.first_damage_time == p.timestamp
                &&& t.last_damage_time == p.timestamp
                &&& t.last_packet_id == p.id
                &&& t.actors == Map::<i32, ActorState>::empty().insert(
                    p.actor_id,
                    ActorState::fresh().hit(p),
                )
            }
            &&& other != p.target_id && opens_boss_fight ==> !after.targets.contains_key(other)
            &&& other != p.target_id && !opens_boss_fight ==> after.targets.get(other)
                == s.targets.get(other)
        }),
{
    let before = s.enter_fight(p).target_before(p);
    assert(after.targets[p.target_id] == before.hit(p));
}

/// What a hit changes besides the record of its target: the running number goes up by
/// one, the clock reading is kept, a hit by a player's side makes its target hostile, a
/// class shown by an actor of none becomes its class, and a boss that is hit marks the
/// segment. Those who died are forgotten when a boss fight throws records away.
pub proof fn law_hit_leaves_the_rest_alone(
    s: StorageState,
    p: ParsedDamagePacket,
    now: i64,
    after: StorageState,
    id: i32,
)
    requires
        s.damage_recorded(p, now, after),
        plain_hit(s, p),
    ensures
        ({
            let opens_boss_fight = s.bosses.contains(p.target_id) && !s.boss_in_segment;
            &&& s.damage_generation < i64::MAX ==> after.damage_generation - s.damage_generation
                == 1
            &&& s.damage_generation == i64::MAX ==> after.damage_generation == i64::MIN
            &&& after.last_damage_ms == now
            &&& after.hostile_targets.contains(id) <==> s.hostile_targets.contains(id) || (id
                == p.target_id && s.known_players.contains(s.owner_of(p.actor_id)))
            &&& id != p.actor_id || s.actor_jobs.contains_key(id) || p.job is None
                ==> after.actor_jobs.get(id) == s.actor_jobs.get(id)
            &&& id == p.actor_id && !s.actor_jobs.contains_key(id) ==> after.actor_jobs.get(id)
                == p.job
            &&& after.boss_in_segment <==> s.boss_in_segment || s.bosses.contains(p.target_id)
            &&& opens_boss_fight && s.targets.contains_key(id) ==> after.dead == Set::<
                i32,
            >::empty()
            &&& !opens_boss_fight || s.targets == Map::<i32, TargetState>::empty() ==> after.dead
                == s.dead
            &&& after.dead.contains(id) ==> s.dead.contains(id)
            &&& (StorageState {
                targets: s.targets,
                damage_generation: s.damage_generation,
                last_damage_ms: s.last_damage_ms,
                hostile_targets: s.hostile_targets,
                actor_jobs: s.actor_jobs,
                boss_in_segment: s.boss_in_segment,
                dead: s.dead,
                ..after
            }) == s
        }),
{
    if s.targets.contains_key(id) {
        assert(s.targets != Map::<i32, TargetState>::empty());
    }
}

/// A hit by somebody who shows to be a player by it is recorded as if that had been
/// known before.
pub proof fn law_newly_shown_player_hits_as_a_player(
    s: StorageState,
    p: ParsedDamagePacket,
    now: i64,
    after: StorageState,
)
    requires
        !s.mobs.contains_key(p.actor_id) || p.skill_code < 1_000_000 || p.skill_code > 9_999_999,
        s.wf(),
    ensures
        s.damage_recorded(p, now, after) <==> s.classify(p).damage_recorded(p, now, after),
{
    assert(s.classify(p).classify(p) == s.classify(p));
    assert(s.classify(p).mobs == s.mobs);
}

/// A mob's attack on a player, or on what belongs to one, adds to what that player has
/// taken, by one of the records there are of them, and to nothing else; it is nobody's
/// damage. With no such record, or no player hit, nothing changes.
pub proof fn law_mob_attack_is_damage_taken(
    s: StorageState,
    p: ParsedDamagePacket,
    now: i64,
    after: StorageState,
)
    requires
        s.damage_recorded(p, now, after),
        s.mobs.contains_key(p.actor_id),
        !s.summons.contains_key(p.actor_id),
        1_000_000 <= p.skill_code <= 9_999_999,
    ensures
        ({
            let victim = s.owner_of(p.target_id);
            &&& !s.known_players.contains(victim) || (forall|t: i32| !on_record(s, t, victim))
                ==> after == s
            &&& s.known_players.contains(victim) && (exists|t: i32| on_record(s, t, victim))
                ==> exists|t: i32|
                {
                    let b = s.targets[t];
                    &&& #[trigger] on_record(s, t, victim)
                    &&& after == (StorageState {
                        targets: s.targets.insert(
                            t,
                            TargetState {
                                actors: b.actors.insert(
                                    victim,
                                    ActorState {
                                        damage_received: b.actors[victim].damage_received
                                            + p.total_damage,
                                        hits_received: b.actors[victim].hits_received + 1,
                                        ..b.actors[victim]
                                    },
                                ),
                                ..b
                            },
                        ),
                        ..s
                    })
                }
        }),
{
    let victim = s.owner_of(p.target_id);
    if s.known_players.contains(victim) {
        if s.has_record(victim) {
            let t = choose|t: i32|
                {
                    &&& #[trigger] s.targets.contains_key(t)
                    &&& s.targets[t].actors.contains_key(victim)
                    &&& after == s.with_actor(
                        t,
                        victim,
                        (|a: ActorState| a.took(p.total_damage as int))(
                            s.targets[t].actors[victim],
                        ),
                    )
                };
            assert(on_record(s, t, victim));
        } else {
            assert forall|t: i32| !on_record(s, t, victim) by {
                if on_record(s, t, victim) {
                    assert(s.targets.contains_key(t));
                }
            }
        }
    }
}

/// What a player's side does to a player's side is healing by the actor, with the skill
/// it was done with, and adds to what one of the actor's records counts as done for the
/// party. It is no damage, and without a positive amount it is nothing.
pub proof fn law_friendly_action_is_healing(
    s: StorageState,
    p: ParsedDamagePacket,
    now: i64,
    after: StorageState,
    healer: i32,
    key: i64,
)
    requires
        s.wf(),
        s.damage_recorded(p, now, after),
        s.has_room(p),
        !s.mobs.contains_key(p.actor_id) || s.summons.contains_key(p.actor_id) || p.skill_code
            < 1_000_000 || p.skill_code > 9_999_999,
        s.known_players.contains(s.owner_of(p.actor_id)),
        s.known_players.contains(s.owner_of(p.target_id)),
        s.known_players.contains(p.actor_id) || s.confirmed_summons.contains(p.actor_id)
            || s.summon_spawns.contains(p.actor_id) || !player_skill(p.skill_code),
    ensures
        ({
            let own = spec_skill_key(p.skill_code, false);
            let had = s.heals.contains_key(p.actor_id) && s.heals[p.actor_id].contains_key(own);
            let amount = p.total_damage as int;
            &&& amount <= 0 ==> after == s
            &&& amount > 0 ==> {
                let entry = after.heals[p.actor_id][own];
                &&& after.heals.contains_key(p.actor_id)
                &&& after.heals[p.actor_id].contains_key(own)
                &&& had ==> entry.total_heal - s.heals[p.actor_id][own].total_heal == amount
                    && entry.tick_count - s.heals[p.actor_id][own].tick_count == 1
                &&& !had ==> entry.total_heal == amount && entry.tick_count == 1
                &&& healer != p.actor_id ==> after.heals.get(healer) == s.heals.get(healer)
                &&& key != own && s.heals.contains_key(p.actor_id)
                    ==> after.heals[p.actor_id].get(key) == s.heals[p.actor_id].get(key)
                &&& key != own && !s.heals.contains_key(p.actor_id)
                    ==> !after.heals[p.actor_id].contains_key(key)
                &&& (forall|t: i32| !on_record(s, t, p.actor_id)) ==> after.targets == s.targets
                &&& (exists|t: i32| on_record(s, t, p.actor_id)) ==> exists|t: i32|
                    {
                        let b = s.targets[t];
                        &&& #[trigger] on_record(s, t, p.actor_id)
                        &&& after.targets == s.targets.insert(
                            t,
                            TargetState {
                                actors: b.actors.insert(
                                    p.actor_id,
                                    ActorState {
                                        party_heal: b.actors[p.actor_id].party_heal + amount,
                                        ..b.actors[p.actor_id]
                                    },
                                ),
                                ..b
                            },
                        )
                    }
                &&& (StorageState { heals: s.heals, targets: s.targets, ..after }) == s
            }
        }),
{
    let amount = p.total_damage as int;
    assert(s.classify(p) == s);
    if amount > 0 {
        let healed = s.add_heal(p.actor_id, p.skill_code, false, amount);
        if s.has_record(p.actor_id) {
            assert(healed.has_record(p.actor_id)) by {
                let t = choose|t: i32| #[trigger]
                    s.targets.contains_key(t) && s.targets[t].actors.contains_key(p.actor_id);
                assert(healed.targets.contains_key(t));
            }
            let t = choose|t: i32|
                {
                    &&& #[trigger] healed.targets.contains_key(t)
                    &&& healed.targets[t].actors.contains_key(p.actor_id)
                    &&& after == healed.with_actor(
                        t,
                        p.actor_id,
                        (|a: ActorState| a.healed_party(amount))(
                            healed.targets[t].actors[p.actor_id],
                        ),
                    )
                };
            assert(on_record(s, t, p.actor_id));
        } else {
            assert(!healed.has_record(p.actor_id)) by {
                if healed.has_record(p.actor_id) {
                    let t = choose|t: i32| #[trigger]
                        healed.targets.contains_key(t) && healed.targets[t].actors.contains_key(
                            p.actor_id,
                        );
                    assert(s.targets.contains_key(t));
                }
            }
            assert forall|t: i32| !on_record(s, t, p.actor_id) by {
                if on_record(s, t, p.actor_id) {
                    assert(s.targets.contains_key(t));
                }
            }
        }
    }
}

/// A heal tick adds its amount and one tick to what its healer has done with its skill,
/// and changes nothing else. One of nothing, or by an id that was not announced, does
/// not count.
pub proof fn law_heal_tick_counts_for_its_healer(
    s: StorageState,
    actor: i32,
    skill_code: i32,
    amount: i64,
    is_hot: bool,
)
    requires
        amount > 0 && s.plausible(actor) ==> s.heal_fits(actor, skill_code, is_hot, amount as int),
    ensures
        ({
            let after = s.heal_tick(actor, skill_code, amount, is_hot);
            let own = spec_skill_key(skill_code, is_hot);
            let credible = actor >= 100 || (actor >= 1 && s.low_ids.contains(actor));
            let had = s.heals.contains_key(actor) && s.heals[actor].contains_key(own);
            &&& amount <= 0 || !credible ==> after == s
            &&& amount > 0 && credible ==> {
                &&& after.heals.contains_key(actor)
                &&& after.heals[actor].get(own) == Some(
                    HealSkillData {
                        total_heal: (amount + if had {
                            s.heals[actor][own].total_heal as int
                        } else {
                            0
                        }) as i64,
                        tick_count: (1 + if had {
                            s.heals[actor][own].tick_count as int
                        } else {
                            0
                        }) as i32,
                    },
                )
            }
            &&& (StorageState { heals: s.heals, ..after }) == s
        }),
{
}

// ----- segments -----

/// Whether `states` follow one on the other as the damage records `ps` come in at the
/// clock readings `nows`, none of them against a boss.
pub open spec fn goes_on_without_boss(
    states: Seq<StorageState>,
    ps: Seq<ParsedDamagePacket>,
    nows: Seq<i64>,
) -> bool {
    &&& states.len() == ps.len() + 1
    &&& nows.len() == ps.len()
    &&& forall|i: int|
        #![trigger states[i]]
        0 <= i < ps.len() ==> states[i].damage_recorded(ps[i], nows[i], states[i + 1])
            && !states[i].bosses.contains(ps[i].target_id)
}

/// Naming somebody, and finding out that somebody is a player, leave bosses alone.
proof fn lemma_names_leave_bosses(s: StorageState, id: i32, name: Seq<char>, force: bool)
    ensures
        s.set_name(id, name, force).bosses == s.bosses,
        s.set_name(id, name, force).boss_in_segment == s.boss_in_segment,
        s.note_player(id).bosses == s.bosses,
        s.note_player(id).boss_in_segment == s.boss_in_segment,
{
}

/// As long as no boss is hit, the segment has none.
proof fn lemma_segment_without_boss(
    states: Seq<StorageState>,
    ps: Seq<ParsedDamagePacket>,
    nows: Seq<i64>,
    n: int,
)
    requires
        goes_on_without_boss(states, ps, nows),
        !states[0].boss_in_segment,
        0 <= n <= ps.len(),
    ensures
        !states[n].boss_in_segment,
    decreases n,
{
    if n > 0 {
        lemma_segment_without_boss(states, ps, nows, n - 1);
        let s = states[n - 1];
        let p = ps[n - 1];
        assert(s.damage_recorded(p, nows[n - 1], states[n - 1 + 1]));
        let c = s.classify(p);
        lemma_names_leave_bosses(s, p.actor_id, Seq::empty(), false);
        let hit = c.enter_fight(p).record_hit(p, nows[n - 1]);
        let taken = StorageState {
            pending_nicknames: hit.pending_nicknames.remove(p.actor_id),
            ..hit
        };
        lemma_names_leave_bosses(taken, p.actor_id, hit.pending_nicknames[p.actor_id], false);
    }
}

/// Once the segment has been cleared, by a flush of either kind or by a zone change,
/// no boss has been hit in it: whatever else was hit since, the first hit on a boss
/// leaves that boss as the only target, with that one hit on record.
pub proof fn law_cleared_segment_has_no_boss(
    cleared: StorageState,
    states: Seq<StorageState>,
    ps: Seq<ParsedDamagePacket>,
    nows: Seq<i64>,
    p: ParsedDamagePacket,
    now: i64,
    after: StorageState,
    other: i32,
)
    requires
        goes_on_without_boss(states, ps, nows),
        ({
            ||| states[0] == cleared.clear_combat()
            ||| states[0] == cleared.clear_all()
            ||| exists|at: i64|
                cleared.zone_change_resets(at) && states[0] == #[trigger] cleared.zone_changed(at)
        }),
        states.last().damage_recorded(p, now, after),
        states.last().bosses.contains(p.target_id),
        !states.last().npc_attack(p),
        !states.last().classify(p).friendly(p.actor_id, p.target_id),
        !after.friendly(p.actor_id, p.target_id),
    ensures
        after.targets.contains_key(other) <==> other == p.target_id,
        after.targets[p.target_id].total_damage == p.total_damage,
        on_record(after, p.target_id, other) <==> other == p.actor_id,
        after.targets[p.target_id].actors[p.actor_id].total_damage == p.total_damage,
        after.targets[p.target_id].actors[p.actor_id].skills[spec_skill_key(
            p.skill_code,
            p.is_dot,
        )].hit_count == 1,
{
    lemma_segment_without_boss(states, ps, nows, ps.len() as int);
    let s = states.last();
    assert(!s.boss_in_segment);
    let c = s.classify(p);
    lemma_names_leave_bosses(s, p.actor_id, Seq::empty(), false);
    let hit = c.enter_fight(p).record_hit(p, now);
    let only = TargetState::fresh(p.target_id, p.timestamp).hit(p);
    assert(hit.targets =~= Map::empty().insert(p.target_id, only));
    assert(only.actors.dom() =~= set![p.actor_id]);
    lemma_name_keeps_single_hit(hit, p.actor_id, p.target_id, after);
}

/// A damage sum over one actor is that actor's damage.
proof fn lemma_sum_of_one(actors: Map<i32, ActorState>, id: i32)
    requires
        actors.dom() == set![id],
    ensures
        damage_sum(actors) == actors[id].total_damage,
{
    crate::combat::target::lemma_actor_change(actors, id, actors[id]);
    assert(actors.remove(id).dom() =~= Set::<i32>::empty());
    assert(actors.insert(id, actors[id]) =~= actors);
}

/// A waiting name that is taken on after the one hit there is leaves that hit on
/// record, unless it turns out to be friendly fire.
proof fn lemma_name_keeps_single_hit(
    hit: StorageState,
    actor: i32,
    target: i32,
    after: StorageState,
)
    requires
        after == hit.apply_pending(actor),
        hit.targets.dom() == set![target],
        hit.targets[target].actors.dom() == set![actor],
        hit.targets[target].total_damage == hit.targets[target].actors[actor].total_damage,
        !after.friendly(actor, target),
    ensures
        after.targets == hit.targets,
{
    let record = hit.targets[target];
    lemma_sum_of_one(record.actors, actor);
    if hit.pending_nicknames.contains_key(actor) && !hit.nicknames.contains_key(actor) {
        let name = hit.pending_nicknames[actor];
        let taken = StorageState { pending_nicknames: hit.pending_nicknames.remove(actor), ..hit };
        let stale = taken.stale_holders(actor, name);
        assert(!stale.contains(actor));
        let forgotten = taken.forget(stale);
        assert(record.actors.remove_keys(stale) =~= record.actors);
        assert(forgotten.targets =~= hit.targets);
        let named = forgotten.give_name(actor, name);
        if !forgotten.confirmed_summons.contains(actor) && !forgotten.known_players.contains(
            actor,
        ) {
            let joined = StorageState {
                nicknames: forgotten.nicknames.insert(actor, name),
                known_players: forgotten.known_players.insert(actor),
                summons: forgotten.summons.remove(actor).remove(actor),
                ..forgotten
            };
            let own = own_side(record, target, joined.summons, joined.known_players);
            assert(named =~= joined.purge_friendly());
            assert(own =~= Set::<i32>::empty()) by {
                assert forall|a: i32| !own.contains(a) by {
                    if own.contains(a) {
                        assert(record.actors.dom().contains(a));
                    }
                }
            }
            assert(record.actors.remove_keys(own) =~= record.actors);
            assert(named.targets =~= hit.targets);
        }
    }
}

/// Clearing the combat segment forgets all damage and healing, who is hostile, who
/// died, all hit points and the current target; and it leaves everything else as it is.
pub proof fn law_clearing_combat_forgets_the_fight(s: StorageState, id: i32)
    ensures
        ({
            let after = s.clear_combat();
            &&& !after.targets.contains_key(id)
            &&& !after.heals.contains_key(id)
            &&& !after.hostile_targets.contains(id)
            &&& !after.dead.contains(id)
            &&& !after.mob_hp.contains_key(id)
            &&& !after.mob_current_hp.contains_key(id)
            &&& !after.boss_in_segment
            &&& after.current_target == 0
            &&& (StorageState {
                targets: s.targets,
                heals: s.heals,
                hostile_targets: s.hostile_targets,
                dead: s.dead,
                mob_hp: s.mob_hp,
                mob_current_hp: s.mob_current_hp,
                boss_in_segment: s.boss_in_segment,
                current_target: s.current_target,
                ..after
            }) == s
        }),
{
}

/// Clearing everything forgets, besides the combat segment, classes, players and
/// summons, and leaves everything else as clearing the segment does.
pub proof fn law_clearing_all_forgets_who_is_who(s: StorageState, id: i32)
    ensures
        ({
            let after = s.clear_all();
            let part = s.clear_combat();
            &&& !after.actor_jobs.contains_key(id)
            &&& !after.summons.contains_key(id)
            &&& !after.known_players.contains(id)
            &&& !after.confirmed_summons.contains(id)
            &&& !after.summon_spawns.contains(id)
            &&& !after.power_scalars.contains_key(id)
            &&& (StorageState {
                actor_jobs: part.actor_jobs,
                summons: part.summons,
                known_players: part.known_players,
                confirmed_summons: part.confirmed_summons,
                summon_spawns: part.summon_spawns,
                power_scalars: part.power_scalars,
                ..after
            }) == part
        }),
{
}

/// A zone change clears the segment exactly when no damage came in for a second and a
/// half, no zone change cleared it for four seconds, and there is damage on record. It
/// then asks for the reset to be picked up and keeps the time; else it does nothing.
pub proof fn law_zone_change_clears_a_quiet_segment(s: StorageState, now: i64, target: i32)
    requires
        s.targets.contains_key(target),
    ensures
        ({
            let after = s.zone_changed(now);
            let quiet = now - s.last_damage_ms >= 1_500 && now - s.last_zone_reset_ms >= 4_000;
            &&& s.zone_change_resets(now) == quiet
            &&& !quiet ==> after == s
            &&& quiet ==> {
                &&& after.last_zone_reset_ms == now
                &&& after.reset_requested
                &&& (StorageState {
                    last_zone_reset_ms: s.last_zone_reset_ms,
                    reset_requested: s.reset_requested,
                    ..after
                }) == s.clear_combat()
            }
            &&& !s.clear_combat().zone_change_resets(now)
            &&& s.clear_combat().zone_changed(now) == s.clear_combat()
        }),
{
}

// ----- entities -----

/// A reading of the maximum hit points counts if it is positive, a reading of the
/// current ones unless it is negative; the latter never lowers the maximum, and raises
/// it only up to itself. Both leave all other entities, and all else, alone.
pub proof fn law_hit_points_follow_the_readings(
    s: StorageState,
    id: i32,
    hp: i32,
    other: i32,
)
    requires
        s.mob_hp.contains_key(id) ==> s.mob_hp[id] >= 0,
    ensures
        ({
            let a = s.note_max_hp(id, hp);
            let c = s.note_current_hp(id, hp);
            &&& hp > 0 ==> a.mob_hp.get(id) == Some(hp)
            &&& hp <= 0 ==> a == s
            &&& other != id ==> a.mob_hp.get(other) == s.mob_hp.get(other)
            &&& (StorageState { mob_hp: s.mob_hp, ..a }) == s
            &&& hp < 0 ==> c == s
            &&& hp >= 0 ==> c.mob_current_hp.get(id) == Some(hp)
            &&& hp >= 0 && s.mob_hp.contains_key(id) && s.mob_hp[id] >= hp ==> c.mob_hp.get(id)
                == s.mob_hp.get(id)
            &&& hp >= 0 && (!s.mob_hp.contains_key(id) || s.mob_hp[id] < hp) ==> c.mob_hp.get(id)
                == Some(hp)
            &&& other != id ==> c.mob_hp.get(other) == s.mob_hp.get(other)
                && c.mob_current_hp.get(other) == s.mob_current_hp.get(other)
            &&& (StorageState {
                mob_hp: s.mob_hp,
                mob_current_hp: s.mob_current_hp,
                ..c
            }) == s
        }),
{
}

/// A reading of a power scalar is kept, beside those that were there, as long as its
/// actor has fewer than sixteen; readings and actors that are not positive do not
/// count. Other actors' readings, and all else, stay.
pub proof fn law_power_scalar_joins_its_actor(
    s: StorageState,
    actor: i32,
    scalar: i32,
    other: i32,
    seen: i32,
)
    ensures
        ({
            let after = s.note_scalar(actor, scalar);
            let had = s.power_scalars.contains_key(actor);
            let counts = actor > 0 && scalar > 0;
            &&& !counts ==> after == s
            &&& counts ==> after.power_scalars.contains_key(actor)
            &&& counts && !had ==> (after.power_scalars[actor].contains(seen) <==> seen == scalar)
            &&& counts && had && s.power_scalars[actor].len() < 16 ==> (
            after.power_scalars[actor].contains(seen) <==> s.power_scalars[actor].contains(seen)
                || seen == scalar)
            &&& counts && had && s.power_scalars[actor].len() >= 16 ==> after.power_scalars[actor]
                == s.power_scalars[actor]
            &&& other != actor ==> after.power_scalars.get(other) == s.power_scalars.get(other)
            &&& (StorageState { power_scalars: s.power_scalars, ..after }) == s
        }),
{
}

/// Announcing an id from one to ninety-nine makes that id, and no other, an announced
/// one; announcing any other id does nothing.
pub proof fn law_announcing_a_low_id(s: StorageState, id: i32, other: i32)
    ensures
        ({
            let after = s.announce_low_id(id);
            &&& after.low_ids.contains(other) <==> s.low_ids.contains(other) || (other == id && 1
                <= id <= 99)
            &&& (StorageState { low_ids: s.low_ids, ..after }) == s
        }),
{
    assert(1 <= id < 100 || s.announce_low_id(id) == s);
}

/// Somebody takes part in combat who hit a target, was hit, or is a summon; and nobody
/// else does.
pub proof fn law_taking_part_in_combat(s: StorageState, id: i32, target: i32)
    ensures
        on_record(s, target, id) ==> s.in_combat(id),
        s.targets.contains_key(id) ==> s.in_combat(id),
        s.summons.contains_key(id) ==> s.in_combat(id),
        (forall|t: i32| !on_record(s, t, id)) && !s.targets.contains_key(id)
            && !s.summons.contains_key(id) ==> !s.in_combat(id),
{
    if s.has_record(id) {
        let t = choose|t: i32| #[trigger]
            s.targets.contains_key(t) && s.targets[t].actors.contains_key(id);
        assert(on_record(s, t, id));
    }
}

/// What is noted of an entity is noted of that one alone: who died, who is a boss, who
/// spawned, and which target is looked at. Picking up a reset leaves none to pick up.
pub proof fn law_notes_are_of_one_entity(s: StorageState, id: i32, other: i32)
    ensures
        s.died(id).dead.contains(other) <==> s.dead.contains(other) || other == id,
        (StorageState { dead: s.dead, ..s.died(id) }) == s,
        s.boss_known(id).bosses.contains(other) <==> s.bosses.contains(other) || other == id,
        (StorageState { bosses: s.bosses, ..s.boss_known(id) }) == s,
        s.spawned(id).summon_spawns.contains(other) <==> s.summon_spawns.contains(other) || other
            == id,
        (StorageState { summon_spawns: s.summon_spawns, ..s.spawned(id) }) == s,
        s.target_chosen(id).current_target == id,
        (StorageState { current_target: s.current_target, ..s.target_chosen(id) }) == s,
        !s.reset_taken().reset_requested,
        (StorageState { reset_requested: s.reset_requested, ..s.reset_taken() }) == s,
{
}

/// A storage that has seen nothing knows nobody and nothing, and clearing it changes
/// nothing.
pub proof fn law_new_storage_knows_nothing(id: i32, name: Seq<char>)
    ensures
        ({
            let s = StorageState::empty();
            &&& s.wf()
            &&& s.clear_all() == s
            &&& s.reset_names() == s
            &&& !s.nicknames.contains_key(id)
            &&& !s.permanent_nicknames.contains_key(id)
            &&& !s.mobs.contains_key(id)
            &&& !s.low_ids.contains(id)
            &&& !s.bosses.contains(id)
            &&& !s.party.contains_key(name)
            &&& s.local_player_id is None
            &&& s.local_name is None
            &&& s.damage_generation == 0
            &&& s.last_damage_ms == 0
            &&& s.last_zone_reset_ms == 0
            &&& !s.reset_requested
        }),
{
}

/// There is room for a hit on a target exactly when everything that it is added to stays
/// in range, and the target's damage does so whichever of its actors are taken out again.
pub proof fn law_room_for_a_hit_is_room_in_its_counters(t: TargetState, p: ParsedDamagePacket)
    requires
        t.actors.dom().finite(),
        t.actors.contains_key(p.actor_id) ==> t.actors[p.actor_id].regen <= i64::MAX,
        t.actor_before(p).skill_before(p).multi_hit_hits <= i32::MAX,
    ensures
        ({
            let after = t.hit(p);
            let a = after.actors[p.actor_id];
            let k = a.skills[spec_skill_key(p.skill_code, p.is_dot)];
            t.has_room(p) <==> {
                &&& a.regen <= 0x7fff_ffff_ffff_ffff
                &&& k.hit_count <= 0x7fff_ffff
                &&& k.multi_hit_hits <= 0x7fff_ffff
                &&& forall|gone: Set<i32>|
                    -0x8000_0000_0000_0000 <= #[trigger] damage_sum(
                        after.actors.remove_keys(gone),
                    ) <= 0x7fff_ffff_ffff_ffff
            }
        }),
{
    let after = t.hit(p);
    assert(after.actors.dom() =~= t.actors.dom().insert(p.actor_id));
    crate::combat::target::law_sums_fit_whichever_actors_go(after.actors);
}

/// There is room for an event exactly when there is in what it is added to: for a mob's
/// attack in what the victim has taken, for healing in what the healer has done, and for
/// any other hit in the record that it goes to.
pub proof fn law_room_is_where_an_event_goes(s: StorageState, p: ParsedDamagePacket)
    ensures
        ({
            let mob = s.mobs.contains_key(p.actor_id) && !s.summons.contains_key(p.actor_id)
                && 1_000_000 <= p.skill_code <= 9_999_999;
            let victim = s.owner_of(p.target_id);
            let c = s.classify(p);
            let friendly = c.friendly(p.actor_id, p.target_id);
            let own = spec_skill_key(p.skill_code, false);
            let had = c.heals.contains_key(p.actor_id) && c.heals[p.actor_id].contains_key(own);
            let opens_boss_fight = c.bosses.contains(p.target_id) && !c.boss_in_segment;
            let idle = c.targets[p.target_id].last_damage_time > 0 && p.timestamp
                - c.targets[p.target_id].last_damage_time > 30_000;
            let goes_on = c.targets.contains_key(p.target_id) && !opens_boss_fight && !idle;
            &&& mob && !s.known_players.contains(victim) ==> s.has_room(p)
            &&& mob && s.known_players.contains(victim) ==> (s.has_room(p) <==> forall|t: i32|
                #[trigger]
                on_record(s, t, victim) ==> {
                    let a = s.targets[t].actors[victim];
                    &&& i64::MIN <= a.damage_received + p.total_damage <= i64::MAX
                    &&& a.hits_received + 1 <= i32::MAX
                })
            &&& !mob && friendly && p.total_damage <= 0 ==> s.has_room(p)
            &&& !mob && friendly && p.total_damage > 0 ==> (s.has_room(p) <==> {
                &&& had ==> c.heals[p.actor_id][own].total_heal + p.total_damage <= i64::MAX
                    && c.heals[p.actor_id][own].tick_count + 1 <= i32::MAX
                &&& forall|t: i32| #[trigger]
                    on_record(c, t, p.actor_id) ==> c.targets[t].actors[p.actor_id].party_heal
                        + p.total_damage <= i64::MAX
            })
            &&& !mob && !friendly && goes_on ==> (s.has_room(p) <==> c.targets[p.target_id].has_room(
                p,
            ))
            &&& !mob && !friendly && !goes_on ==> (s.has_room(p) <==> TargetState::fresh(
                p.target_id,
                p.timestamp,
            ).has_room(p))
        }),
{
    let victim = s.owner_of(p.target_id);
    let c = s.classify(p);
    if forall|t: i32| #[trigger]
        on_record(s, t, victim) ==> {
            let a = s.targets[t].actors[victim];
            &&& i64::MIN <= a.damage_received + p.total_damage <= i64::MAX
            &&& a.hits_received + 1 <= i32::MAX
        } {
        assert forall|t: i32| #[trigger]
            s.targets.contains_key(t) && s.targets[t].actors.contains_key(victim) implies ({
            let actor = s.targets[t].actors[victim];
            &&& i64::MIN <= actor.damage_received + p.total_damage <= i64::MAX
            &&& actor.hits_received < i32::MAX
        }) by {
            assert(on_record(s, t, victim));
        }
    }
    if forall|t: i32| #[trigger]
        on_record(c, t, p.actor_id) ==> c.targets[t].actors[p.actor_id].party_heal
            + p.total_damage <= i64::MAX {
        assert forall|t: i32| #[trigger]
            c.targets.contains_key(t) && c.targets[t].actors.contains_key(
                p.actor_id,
            ) implies c.targets[t].actors[p.actor_id].party_heal + p.total_damage <= i64::MAX by {
            assert(on_record(c, t, p.actor_id));
        }
    }
}

/// There is room for a heal exactly when what the healer has done with the skill, and how
/// often, stays in range.
pub proof fn law_room_for_a_heal_is_room_in_its_entry(
    s: StorageState,
    actor: i32,
    skill_code: i32,
    is_hot: bool,
    amount: i64,
)
    ensures
        ({
            let own = spec_skill_key(skill_code, is_hot);
            let had = s.heals.contains_key(actor) && s.heals[actor].contains_key(own);
            &&& !had ==> s.heal_fits(actor, skill_code, is_hot, amount as int)
            &&& had ==> (s.heal_fits(actor, skill_code, is_hot, amount as int) <==> {
                &&& s.heals[actor][own].total_heal + amount <= 0x7fff_ffff_ffff_ffff
                &&& s.heals[actor][own].tick_count + 1 <= 0x7fff_ffff
            })
        }),
{
}

/// There is room for every attack of a mob on nobody that is known, for every friendly
/// action that heals nothing, and for a first hit on a target.
pub proof fn law_room_is_not_asked_for_in_vain(s: StorageState, p: ParsedDamagePacket)
    ensures
        s.npc_attack(p) && !s.known_players.contains(s.owner_of(p.target_id)) ==> s.has_room(p),
        s.npc_attack(p) && (forall|t: i32| !on_record(s, t, s.owner_of(p.target_id)))
            ==> s.has_room(p),
        !s.npc_attack(p) && s.classify(p).friendly(p.actor_id, p.target_id) && p.total_damage <= 0
            ==> s.has_room(p),
        !s.npc_attack(p) && !s.classify(p).friendly(p.actor_id, p.target_id)
            && !s.classify(p).targets.contains_key(p.target_id) ==> s.has_room(p),
{
    if s.npc_attack(p) && (forall|t: i32| !on_record(s, t, s.owner_of(p.target_id))) {
        let victim = s.owner_of(p.target_id);
        assert forall|t: i32| #[trigger]
            s.targets.contains_key(t) implies !s.targets[t].actors.contains_key(victim) by {
            assert(!on_record(s, t, victim));
        }
    }
    let c = s.classify(p);
    if !s.npc_attack(p) && !c.friendly(p.actor_id, p.target_id) && !c.targets.contains_key(
        p.target_id,
    ) {
        let fresh = TargetState::fresh(p.target_id, p.timestamp);
        let after = fresh.hit(p);
        assert(c.enter_fight(p).target_before(p) == fresh);
        assert(after.actors.dom() =~= set![p.actor_id]);
        law_room_for_a_hit_is_room_in_its_counters(fresh, p);
        assert forall|gone: Set<i32>|
            -0x8000_0000_0000_0000 <= #[trigger] damage_sum(after.actors.remove_keys(gone))
                <= 0x7fff_ffff_ffff_ffff by {
            let kept = after.actors.remove_keys(gone);
            if gone.contains(p.actor_id) {
                assert(kept.dom() =~= Set::<i32>::empty());
            } else {
                assert(kept.dom() =~= set![p.actor_id]);
                lemma_sum_of_one(kept, p.actor_id);
            }
        }
    }
}

} // verus!
