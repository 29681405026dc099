//! What the records of skills, actors and targets add up to.

use vstd::prelude::*;

use crate::combat::actor::ActorState;
use crate::combat::skill::{spec_skill_key, SkillState};
use crate::combat::sums::{
    lemma_sum_insert, lemma_sum_remove, lemma_sum_same_terms, sum_over,
};
use crate::combat::target::TargetState;
use crate::entity::{ParsedDamagePacket, SpecialDamage};

verus! {

// ----- one skill -----

/// Whether `after` is `before + gain`, or the end of the range of an `i32` that the
/// sum lies past.
pub open spec fn added_in_range(before: int, gain: int, after: int) -> bool {
    let sum = before + gain;
    &&& -0x8000_0000 <= sum <= 0x7fff_ffff ==> after == sum
    &&& sum > 0x7fff_ffff ==> after == 0x7fff_ffff
    &&& sum < -0x8000_0000 ==> after == -0x8000_0000
}

/// A hit adds its whole damage and healing to the skill, whether it is a tick of
/// damage over time or not, counts as one, and leaves its time behind the others'.
/// What a multi-hit adds is added only where there is one.
pub proof fn law_skill_adds_each_hit(s: SkillState, p: ParsedDamagePacket)
    ensures
        ({
            let a = s.hit(p);
            &&& a.skill_code == s.skill_code
            &&& a.is_dot == s.is_dot
            &&& a.hit_count - s.hit_count == 1
            &&& added_in_range(s.total_damage, p.total_damage as int, a.total_damage)
            &&& added_in_range(s.heal_amount, p.heal_amount as int, a.heal_amount)
            &&& a.hit_timestamps == s.hit_timestamps.push(p.timestamp)
            &&& p.multi_hit_count > 0 ==> {
                &&& a.multi_hit_count - s.multi_hit_count == 1
                &&& a.multi_hit_hits - s.multi_hit_hits == p.multi_hit_count
                &&& added_in_range(
                    s.multi_hit_damage,
                    p.multi_hit_damage as int,
                    a.multi_hit_damage,
                )
            }
            &&& p.multi_hit_count <= 0 ==> {
                &&& a.multi_hit_count == s.multi_hit_count
                &&& a.multi_hit_hits == s.multi_hit_hits
                &&& a.multi_hit_damage == s.multi_hit_damage
            }
        }),
{
}

/// Each marker is counted by the hits that bear it and by no other hit, and a flag
/// is up once any hit has had it up.
pub proof fn law_skill_counts_markers(s: SkillState, p: ParsedDamagePacket, flag: int)
    requires
        0 <= flag < 5,
    ensures
        ({
            let a = s.hit(p);
            let marks = p.specials@;
            let one = |b: bool| if b { 1int } else { 0int };
            &&& a.crit_count - s.crit_count == one(p.is_crit)
            &&& a.back_count - s.back_count == one(marks.contains(SpecialDamage::Back))
            &&& a.frontal_count - s.frontal_count == one(marks.contains(SpecialDamage::Frontal))
            &&& a.parry_count - s.parry_count == one(marks.contains(SpecialDamage::Parry))
            &&& a.perfect_count - s.perfect_count == one(marks.contains(SpecialDamage::Perfect))
            &&& a.double_count - s.double_count == one(marks.contains(SpecialDamage::Double))
            &&& a.smite_count - s.smite_count == one(marks.contains(SpecialDamage::Smite))
            &&& a.powershard_count - s.powershard_count == one(
                marks.contains(SpecialDamage::PowerShard),
            )
            &&& a.spec_flags.len() == 5
            &&& a.spec_flags[flag] <==> s.spec_flags[flag] || p.spec_flags@[flag]
        }),
{
}

/// The smallest and the largest hit bound every hit and are hits themselves, or what
/// they were before.
pub proof fn law_skill_keeps_its_extremes(s: SkillState, p: ParsedDamagePacket)
    ensures
        ({
            let a = s.hit(p);
            &&& a.min_damage <= s.min_damage
            &&& a.min_damage <= p.damage
            &&& a.min_damage == s.min_damage || a.min_damage == p.damage
            &&& a.max_damage >= s.max_damage
            &&& a.max_damage >= p.damage
            &&& a.max_damage == s.max_damage || a.max_damage == p.damage
        }),
{
}

/// The first hit with a skill is all there is on its record.
pub proof fn law_first_hit_is_the_whole_record(
    skill_code: i32,
    is_dot: bool,
    p: ParsedDamagePacket,
    flag: int,
)
    requires
        0 <= flag < 5,
    ensures
        ({
            let a = SkillState::fresh(skill_code, is_dot).hit(p);
            let marks = p.specials@;
            &&& a.skill_code == skill_code
            &&& a.is_dot == is_dot
            &&& a.hit_count == 1
            &&& a.total_damage == p.total_damage
            &&& a.heal_amount == p.heal_amount
            &&& a.min_damage == p.damage
            &&& p.damage >= 0 ==> a.max_damage == p.damage
            &&& p.damage < 0 ==> a.max_damage == 0
            &&& a.hit_timestamps == seq![p.timestamp]
            &&& (a.crit_count == 1 <==> p.is_crit) && 0 <= a.crit_count <= 1
            &&& (a.back_count == 1 <==> marks.contains(SpecialDamage::Back)) && 0 <= a.back_count
                <= 1
            &&& (a.frontal_count == 1 <==> marks.contains(SpecialDamage::Frontal)) && 0
                <= a.frontal_count <= 1
            &&& (a.parry_count == 1 <==> marks.contains(SpecialDamage::Parry)) && 0
                <= a.parry_count <= 1
            &&& (a.perfect_count == 1 <==> marks.contains(SpecialDamage::Perfect)) && 0
                <= a.perfect_count <= 1
            &&& (a.double_count == 1 <==> marks.contains(SpecialDamage::Double)) && 0
                <= a.double_count <= 1
            &&& (a.smite_count == 1 <==> marks.contains(SpecialDamage::Smite)) && 0
                <= a.smite_count <= 1
            &&& (a.powershard_count == 1 <==> marks.contains(SpecialDamage::PowerShard)) && 0
                <= a.powershard_count <= 1
            &&& p.multi_hit_count > 0 ==> a.multi_hit_count == 1 && a.multi_hit_hits
                == p.multi_hit_count && a.multi_hit_damage == p.multi_hit_damage
            &&& p.multi_hit_count <= 0 ==> a.multi_hit_count == 0 && a.multi_hit_hits == 0
                && a.multi_hit_damage == 0
            &&& a.spec_flags[flag] == p.spec_flags@[flag]
        }),
{
    assert(SkillState::fresh(skill_code, is_dot).hit(p).hit_timestamps =~= seq![p.timestamp]);
}

// ----- one actor -----

/// A hit adds its damage to the actor, and its healing where there is any; moves the
/// time of the actor's last hit forward only; shows the class where none is known; and
/// changes the record of the one skill it was done with, by code and flag.
pub proof fn law_actor_adds_each_hit(a: ActorState, p: ParsedDamagePacket, key: i64)
    ensures
        ({
            let after = a.hit(p);
            let own = spec_skill_key(p.skill_code, p.is_dot);
            &&& after.total_damage - a.total_damage == p.total_damage
            &&& p.heal_amount > 0 ==> after.regen - a.regen == p.heal_amount
            &&& p.heal_amount <= 0 ==> after.regen == a.regen
            &&& after.last_damage_time >= a.last_damage_time
            &&& after.last_damage_time >= p.timestamp
            &&& after.last_damage_time == a.last_damage_time || after.last_damage_time
                == p.timestamp
            &&& a.job is Some ==> after.job == a.job
            &&& a.job is None ==> after.job == p.job
            &&& after.party_heal == a.party_heal
            &&& after.damage_received == a.damage_received
            &&& after.hits_received == a.hits_received
            &&& after.skills.contains_key(own)
            &&& a.skills.contains_key(own) ==> after.skills[own] == a.skills[own].hit(p)
            &&& !a.skills.contains_key(own) ==> after.skills[own] == SkillState::fresh(
                p.skill_code,
                p.is_dot,
            ).hit(p)
            &&& key != own ==> after.skills.contains_key(key) == a.skills.contains_key(key)
            &&& key != own && a.skills.contains_key(key) ==> after.skills[key] == a.skills[key]
        }),
{
}

/// The damage that an actor did with all its skills together.
pub open spec fn skill_sum(skills: Map<i64, SkillState>) -> int {
    sum_over(skills.dom(), |k: i64| skills[k].total_damage)
}

/// How the sum over an actor's skills changes when one of them is replaced.
proof fn lemma_skill_change(skills: Map<i64, SkillState>, key: i64, skill: SkillState)
    requires
        skills.dom().finite(),
    ensures
        skill_sum(skills.insert(key, skill)) == skill_sum(skills) + skill.total_damage
            - if skills.contains_key(key) { skills[key].total_damage } else { 0 },
{
    let rest = skills.remove(key);
    let grown = skills.insert(key, skill);
    let d = |m: Map<i64, SkillState>| |k: i64| m[k].total_damage;
    assert(grown.dom() =~= rest.dom().insert(key));
    lemma_sum_insert(rest.dom(), d(grown), key);
    lemma_sum_same_terms(rest.dom(), d(grown), d(rest));
    if skills.contains_key(key) {
        assert(rest.dom() =~= skills.dom().remove(key));
        lemma_sum_remove(skills.dom(), d(skills), key);
        lemma_sum_same_terms(rest.dom(), d(skills), d(rest));
    } else {
        assert(rest =~= skills);
    }
}

/// An actor after the hits `hits`, one after the other.
pub open spec fn actor_after(a: ActorState, hits: Seq<ParsedDamagePacket>) -> ActorState
    decreases hits.len(),
{
    if hits.len() == 0 {
        a
    } else {
        actor_after(a, hits.drop_last()).hit(hits.last())
    }
}

/// What `hits` did with the skill under `key`.
pub open spec fn done_with(hits: Seq<ParsedDamagePacket>, key: i64) -> int
    decreases hits.len(),
{
    if hits.len() == 0 {
        0
    } else {
        done_with(hits.drop_last(), key) + if spec_skill_key(
            hits.last().skill_code,
            hits.last().is_dot,
        ) == key {
            hits.last().total_damage as int
        } else {
            0
        }
    }
}

/// How many of `hits` were done with the skill under `key`.
pub open spec fn hits_with(hits: Seq<ParsedDamagePacket>, key: i64) -> int
    decreases hits.len(),
{
    if hits.len() == 0 {
        0
    } else {
        hits_with(hits.drop_last(), key) + if spec_skill_key(
            hits.last().skill_code,
            hits.last().is_dot,
        ) == key {
            1int
        } else {
            0
        }
    }
}

/// Whether no skill's damage leaves the range of an `i32` on the way through `hits`.
pub open spec fn nothing_held_back(hits: Seq<ParsedDamagePacket>) -> bool {
    forall|n: int, key: i64|
        0 <= n <= hits.len() ==> -0x8000_0000 <= #[trigger] done_with(hits.take(n), key)
            <= 0x7fff_ffff
}

/// However many hits an actor does, with whichever skills: each skill's record holds
/// the damage and the number of the hits done with it, and, where nothing was held
/// back, the actor's total is the sum of the totals of its skills.
pub proof fn law_actor_total_is_the_sum_over_skills(
    hits: Seq<ParsedDamagePacket>,
    key: i64,
)
    requires
        nothing_held_back(hits),
    ensures
        ({
            let a = actor_after(ActorState::fresh(), hits);
            &&& a.skills.dom().finite()
            &&& a.total_damage == skill_sum(a.skills)
            &&& a.skills.contains_key(key) <==> hits_with(hits, key) > 0
            &&& a.skills.contains_key(key) ==> a.skills[key].total_damage == done_with(hits, key)
                && a.skills[key].hit_count == hits_with(hits, key)
        }),
    decreases hits.len(),
{
    lemma_skills_hold_their_hits(hits, key);
    let a = actor_after(ActorState::fresh(), hits);
    if hits.len() > 0 {
        let rest = hits.drop_last();
        let p = hits.last();
        let own = spec_skill_key(p.skill_code, p.is_dot);
        lemma_held_back_before(hits);
        law_actor_total_is_the_sum_over_skills(rest, own);
        lemma_skills_hold_their_hits(hits, own);
        lemma_skills_hold_their_hits(rest, own);
        let before = actor_after(ActorState::fresh(), rest);
        lemma_skill_change(before.skills, own, before.skill_before(p).hit(p));
        assert(hits.take(hits.len() as int) =~= hits);
        assert(done_with(hits.take(hits.len() as int), own) == done_with(rest, own)
            + p.total_damage);
    } else {
        assert(a.skills.dom() =~= Set::<i64>::empty());
    }
}

/// What is not held back over some hits is not before the last of them.
proof fn lemma_held_back_before(hits: Seq<ParsedDamagePacket>)
    requires
        nothing_held_back(hits),
        hits.len() > 0,
    ensures
        nothing_held_back(hits.drop_last()),
{
    let rest = hits.drop_last();
    assert forall|n: int, key: i64| 0 <= n <= rest.len() implies -0x8000_0000
        <= #[trigger] done_with(rest.take(n), key) <= 0x7fff_ffff by {
        assert(rest.take(n) =~= hits.take(n));
        assert(-0x8000_0000 <= done_with(hits.take(n), key) <= 0x7fff_ffff);
    }
}

/// A skill's record holds the hits done with it.
proof fn lemma_skills_hold_their_hits(hits: Seq<ParsedDamagePacket>, key: i64)
    requires
        nothing_held_back(hits),
    ensures
        ({
            let a = actor_after(ActorState::fresh(), hits);
            &&& a.skills.dom().finite()
            &&& a.skills.contains_key(key) <==> hits_with(hits, key) > 0
            &&& hits_with(hits, key) >= 0
            &&& hits_with(hits, key) == 0 ==> done_with(hits, key) == 0
            &&& a.skills.contains_key(key) ==> a.skills[key].total_damage == done_with(hits, key)
                && a.skills[key].hit_count == hits_with(hits, key)
        }),
    decreases hits.len(),
{
    if hits.len() > 0 {
        lemma_held_back_before(hits);
        lemma_skills_hold_their_hits(hits.drop_last(), key);
        assert(hits.take(hits.len() as int) =~= hits);
        assert(-0x8000_0000 <= done_with(hits.take(hits.len() as int), key) <= 0x7fff_ffff);
    }
}

/// Party healing and being hit each add to what they are counted by, and to nothing
/// else that is kept of an actor.
pub proof fn law_healing_and_being_hit_are_kept_apart(a: ActorState, amount: int)
    ensures
        a.healed_party(amount).party_heal - a.party_heal == amount,
        (ActorState { party_heal: a.party_heal, ..a.healed_party(amount) }) == a,
        a.took(amount).damage_received - a.damage_received == amount,
        a.took(amount).hits_received - a.hits_received == 1,
        (ActorState {
            damage_received: a.damage_received,
            hits_received: a.hits_received,
            ..a.took(amount)
        }) == a,
{
}

// ----- one target -----

/// A target after the hits `hits`, one after the other.
pub open spec fn target_after(t: TargetState, hits: Seq<ParsedDamagePacket>) -> TargetState
    decreases hits.len(),
{
    if hits.len() == 0 {
        t
    } else {
        target_after(t, hits.drop_last()).hit(hits.last())
    }
}

/// Those of `hits` that `actor` did.
pub open spec fn hits_of(hits: Seq<ParsedDamagePacket>, actor: i32) -> Seq<ParsedDamagePacket>
    decreases hits.len(),
{
    if hits.len() == 0 {
        Seq::empty()
    } else if hits.last().actor_id == actor {
        hits_of(hits.drop_last(), actor).push(hits.last())
    } else {
        hits_of(hits.drop_last(), actor)
    }
}

/// What `hits` did together.
pub open spec fn done_by(hits: Seq<ParsedDamagePacket>) -> int
    decreases hits.len(),
{
    if hits.len() == 0 {
        0
    } else {
        done_by(hits.drop_last()) + hits.last().total_damage
    }
}

/// However many hits a target takes, from whomever: its total is what they did
/// together, each actor's record is made by that actor's hits alone, whatever came
/// between them, and the actor's total is what those did together.
pub proof fn law_target_adds_up_its_hits(
    id: i32,
    seen: i64,
    hits: Seq<ParsedDamagePacket>,
    actor: i32,
)
    ensures
        ({
            let t = target_after(TargetState::fresh(id, seen), hits);
            &&& t.target_id == id
            &&& t.total_damage == done_by(hits)
            &&& t.actors.contains_key(actor) <==> hits_of(hits, actor).len() > 0
            &&& t.actors.contains_key(actor) ==> t.actors[actor] == actor_after(
                ActorState::fresh(),
                hits_of(hits, actor),
            ) && t.actors[actor].total_damage == done_by(hits_of(hits, actor))
        }),
    decreases hits.len(),
{
    if hits.len() > 0 {
        law_target_adds_up_its_hits(id, seen, hits.drop_last(), actor);
        let before = hits_of(hits.drop_last(), actor);
        if hits.last().actor_id == actor {
            let more = before.push(hits.last());
            assert(more.drop_last() =~= before);
            assert(more.last() == hits.last());
            assert(actor_after(ActorState::fresh(), more) == actor_after(
                ActorState::fresh(),
                before,
            ).hit(hits.last()));
            assert(done_by(more) == done_by(before) + hits.last().total_damage);
            let t = target_after(TargetState::fresh(id, seen), hits.drop_last());
            if before.len() == 0 {
                assert(t.actor_before(hits.last()) == ActorState::fresh());
            }
        }
    }
}

/// A fight lasts from its first hit to its last, in whichever order they come in, and
/// bears the number of the record that came in last.
pub proof fn law_fight_spans_its_hits(
    id: i32,
    seen: i64,
    hits: Seq<ParsedDamagePacket>,
    i: int,
)
    requires
        0 <= i < hits.len(),
    ensures
        ({
            let t = target_after(TargetState::fresh(id, seen), hits);
            &&& t.first_damage_time <= hits[i].timestamp <= t.last_damage_time
            &&& t.first_damage_time <= seen <= t.last_damage_time
            &&& t.first_damage_time == seen || exists|j: int|
                0 <= j < hits.len() && t.first_damage_time == (#[trigger] hits[j]).timestamp
            &&& t.last_damage_time == seen || exists|j: int|
                0 <= j < hits.len() && t.last_damage_time == (#[trigger] hits[j]).timestamp
            &&& t.last_packet_id == hits.last().id
        }),
    decreases hits.len(),
{
    let rest = hits.drop_last();
    let before = target_after(TargetState::fresh(id, seen), rest);
    assert(hits.last() == hits[hits.len() - 1]);
    if rest.len() > 0 {
        law_fight_spans_its_hits(id, seen, rest, if i < rest.len() { i } else { 0 });
        assert(rest[i] == hits[i] || i == rest.len());
        if before.first_damage_time != seen {
            let j = choose|j: int|
                0 <= j < rest.len() && before.first_damage_time == (#[trigger] rest[j]).timestamp;
            assert(hits[j] == rest[j]);
        }
        if before.last_damage_time != seen {
            let j = choose|j: int|
                0 <= j < rest.len() && before.last_damage_time == (#[trigger] rest[j]).timestamp;
            assert(hits[j] == rest[j]);
        }
    }
}

} // verus!
