//! What the meter keeps about one skill, and the small records beside it.

use vstd::prelude::*;

use crate::entity::{ParsedDamagePacket, SpecialDamage};

verus! {

/// The key of a per-skill record: the skill code, and whether the record counts
/// damage-over-time (or heal-over-time) ticks, folded into one number.
pub open spec fn spec_skill_key(skill_code: i32, over_time: bool) -> i64 {
    (2 * skill_code + if over_time { 1int } else { 0int }) as i64
}

#[verifier::when_used_as_spec(spec_skill_key)]
pub fn skill_key(skill_code: i32, over_time: bool) -> (key: i64)
    ensures
        key == spec_skill_key(skill_code, over_time),
{
    2 * (skill_code as i64) + if over_time { 1 } else { 0 }
}

/// Whether `key` is that of a skill.
pub open spec fn is_skill_key(key: i64) -> bool {
    i32::MIN <= key as int / 2 <= i32::MAX
}

/// The skill that a key stands for, by code and flag.
pub fn skill_of_key(key: i64) -> (skill: (i32, bool))
    requires
        is_skill_key(key),
    ensures
        spec_skill_key(skill.0, skill.1) == key,
{
    if key >= 0 {
        ((key / 2) as i32, key % 2 == 1)
    } else {
        let below: i64 = -(key + 1);
        ((-(below / 2) - 1) as i32, below % 2 == 0)
    }
}

/// `x` held to the range of an `i32`.
pub open spec fn clamp_i32(x: int) -> int {
    if x > i32::MAX {
        i32::MAX as int
    } else if x < i32::MIN {
        i32::MIN as int
    } else {
        x
    }
}

/// One if `b`, else nothing.
pub open spec fn count(b: bool) -> int {
    if b { 1 } else { 0 }
}

pub open spec fn max_of(a: int, b: int) -> int {
    if a >= b { a } else { b }
}

pub open spec fn min_of(a: int, b: int) -> int {
    if a <= b { a } else { b }
}

/// Healing done with one skill by one healer.
#[derive(Clone, Copy, Debug, PartialEq, Eq, Structural)]
pub struct HealSkillData {
    pub total_heal: i64,
    pub tick_count: i32,
}

impl Default for HealSkillData {
    /// No healing done.
    fn default() -> (heal: HealSkillData)
        ensures
            heal == (HealSkillData { total_heal: 0, tick_count: 0 }),
    {
        HealSkillData { total_heal: 0, tick_count: 0 }
    }
}

/// One entry of the party roster, known by character name.
#[derive(Clone, Copy, Debug, PartialEq, Eq, Structural)]
pub struct PartyMember {
    /// 1-based party slot.
    pub slot: u8,
    pub level: i32,
    /// Equipment item level.
    pub gear_score: i32,
    /// The number the game shows on the character sheet.
    pub combat_power: i64,
    /// World id, the tag next to the name of a player from another server.
    pub server_id: u16,
}

impl Default for PartyMember {
    /// A member of whom nothing is known.
    fn default() -> (member: PartyMember)
        ensures
            member == (PartyMember {
                slot: 0,
                level: 0,
                gear_score: 0,
                combat_power: 0,
                server_id: 0,
            }),
    {
        PartyMember { slot: 0, level: 0, gear_score: 0, combat_power: 0, server_id: 0 }
    }
}

/// What one actor did to one target with one skill.
#[derive(Clone, Debug)]
pub struct SkillCombatData {
    pub skill_code: i32,
    pub is_dot: bool,
    pub hit_count: i32,
    pub total_damage: i32,
    pub min_damage: i32,
    pub max_damage: i32,
    pub crit_count: i32,
    pub back_count: i32,
    pub frontal_count: i32,
    pub parry_count: i32,
    pub perfect_count: i32,
    pub double_count: i32,
    pub smite_count: i32,
    pub powershard_count: i32,
    pub multi_hit_count: i32,
    pub multi_hit_damage: i32,
    pub multi_hit_hits: i32,
    pub heal_amount: i32,
    pub hit_timestamps: Vec<i64>,
    pub spec_flags: [bool; 5],
}

/// The mathematical reading of a [`SkillCombatData`].
#[verifier::ext_equal]
pub struct SkillState {
    pub skill_code: i32,
    pub is_dot: bool,
    pub hit_count: int,
    pub total_damage: int,
    pub min_damage: int,
    pub max_damage: int,
    pub crit_count: int,
    pub back_count: int,
    pub frontal_count: int,
    pub parry_count: int,
    pub perfect_count: int,
    pub double_count: int,
    pub smite_count: int,
    pub powershard_count: int,
    pub multi_hit_count: int,
    pub multi_hit_damage: int,
    pub multi_hit_hits: int,
    pub heal_amount: int,
    pub hit_timestamps: Seq<i64>,
    pub spec_flags: Seq<bool>,
}

impl SkillState {
    /// A skill that has not hit yet.
    pub open spec fn fresh(skill_code: i32, is_dot: bool) -> SkillState {
        SkillState {
            skill_code,
            is_dot,
            hit_count: 0,
            total_damage: 0,
            min_damage: i32::MAX as int,
            max_damage: 0,
            crit_count: 0,
            back_count: 0,
            frontal_count: 0,
            parry_count: 0,
            perfect_count: 0,
            double_count: 0,
            smite_count: 0,
            powershard_count: 0,
            multi_hit_count: 0,
            multi_hit_damage: 0,
            multi_hit_hits: 0,
            heal_amount: 0,
            hit_timestamps: Seq::empty(),
            spec_flags: Seq::new(5, |i: int| false),
        }
    }

    /// The skill after one more hit. Counters count, the `i32` totals stop at the
    /// ends of their range, and a flag once seen stays seen.
    pub open spec fn hit(self, p: ParsedDamagePacket) -> SkillState {
        let multi = p.multi_hit_count > 0;
        SkillState {
            skill_code: self.skill_code,
            is_dot: self.is_dot,
            hit_count: self.hit_count + 1,
            total_damage: clamp_i32(self.total_damage + p.total_damage),
            min_damage: min_of(self.min_damage, p.damage as int),
            max_damage: max_of(self.max_damage, p.damage as int),
            crit_count: self.crit_count + count(p.is_crit),
            back_count: self.back_count + count(p.spec_has(SpecialDamage::Back)),
            frontal_count: self.frontal_count + count(p.spec_has(SpecialDamage::Frontal)),
            parry_count: self.parry_count + count(p.spec_has(SpecialDamage::Parry)),
            perfect_count: self.perfect_count + count(p.spec_has(SpecialDamage::Perfect)),
            double_count: self.double_count + count(p.spec_has(SpecialDamage::Double)),
            smite_count: self.smite_count + count(p.spec_has(SpecialDamage::Smite)),
            powershard_count: self.powershard_count + count(
                p.spec_has(SpecialDamage::PowerShard),
            ),
            multi_hit_count: self.multi_hit_count + count(multi),
            multi_hit_damage: if multi {
                clamp_i32(self.multi_hit_damage + p.multi_hit_damage)
            } else {
                self.multi_hit_damage
            },
            multi_hit_hits: self.multi_hit_hits + if multi {
                p.multi_hit_count as int
            } else {
                0
            },
            heal_amount: clamp_i32(self.heal_amount + p.heal_amount),
            hit_timestamps: self.hit_timestamps.push(p.timestamp),
            spec_flags: Seq::new(5, |i: int| self.spec_flags[i] || p.spec_flags@[i]),
        }
    }

    /// The same skill without its hit times.
    pub open spec fn without_times(self) -> SkillState {
        SkillState { hit_timestamps: Seq::empty(), ..self }
    }

    /// Whether one more hit fits in the counters.
    pub open spec fn has_room(self, p: ParsedDamagePacket) -> bool {
        &&& self.hit_count < i32::MAX
        &&& p.multi_hit_count > 0 ==> self.multi_hit_hits + p.multi_hit_count <= i32::MAX
    }

    /// No marker is counted more often than the skill has hit, and every hit has
    /// left its time.
    pub open spec fn wf(self) -> bool {
        &&& 0 <= self.crit_count <= self.hit_count
        &&& 0 <= self.back_count <= self.hit_count
        &&& 0 <= self.frontal_count <= self.hit_count
        &&& 0 <= self.parry_count <= self.hit_count
        &&& 0 <= self.perfect_count <= self.hit_count
        &&& 0 <= self.double_count <= self.hit_count
        &&& 0 <= self.smite_count <= self.hit_count
        &&& 0 <= self.powershard_count <= self.hit_count
        &&& 0 <= self.multi_hit_count <= self.hit_count
        &&& self.multi_hit_count <= self.multi_hit_hits
        &&& self.hit_count > 0 ==> self.min_damage <= self.max_damage
        &&& self.hit_timestamps.len() == self.hit_count
        &&& self.spec_flags.len() == 5
    }
}

impl View for SkillCombatData {
    type V = SkillState;

    open spec fn view(&self) -> SkillState {
        SkillState {
            skill_code: self.skill_code,
            is_dot: self.is_dot,
            hit_count: self.hit_count as int,
            total_damage: self.total_damage as int,
            min_damage: self.min_damage as int,
            max_damage: self.max_damage as int,
            crit_count: self.crit_count as int,
            back_count: self.back_count as int,
            frontal_count: self.frontal_count as int,
            parry_count: self.parry_count as int,
            perfect_count: self.perfect_count as int,
            double_count: self.double_count as int,
            smite_count: self.smite_count as int,
            powershard_count: self.powershard_count as int,
            multi_hit_count: self.multi_hit_count as int,
            multi_hit_damage: self.multi_hit_damage as int,
            multi_hit_hits: self.multi_hit_hits as int,
            heal_amount: self.heal_amount as int,
            hit_timestamps: self.hit_timestamps@,
            spec_flags: self.spec_flags@,
        }
    }
}

/// `a + b`, stopped at the ends of the range.
fn add_i32_clamped(a: i32, b: i32) -> (sum: i32)
    ensures
        sum == clamp_i32(a + b),
{
    let wide: i64 = a as i64 + b as i64;
    if wide > i32::MAX as i64 {
        i32::MAX
    } else if wide < i32::MIN as i64 {
        i32::MIN
    } else {
        wide as i32
    }
}

fn one_if(b: bool) -> (n: i32)
    ensures
        n == count(b),
{
    if b { 1 } else { 0 }
}

fn smaller(a: i32, b: i32) -> (m: i32)
    ensures
        m == min_of(a as int, b as int),
{
    if b < a { b } else { a }
}

fn larger(a: i32, b: i32) -> (m: i32)
    ensures
        m == max_of(a as int, b as int),
{
    if b > a { b } else { a }
}

impl SkillCombatData {
    /// A skill that has not hit yet.
    pub fn new(skill_code: i32, is_dot: bool) -> (skill: SkillCombatData)
        ensures
            skill@ == SkillState::fresh(skill_code, is_dot),
    {
        let skill = SkillCombatData {
            skill_code,
            is_dot,
            hit_count: 0,
            total_damage: 0,
            min_damage: i32::MAX,
            max_damage: 0,
            crit_count: 0,
            back_count: 0,
            frontal_count: 0,
            parry_count: 0,
            perfect_count: 0,
            double_count: 0,
            smite_count: 0,
            powershard_count: 0,
            multi_hit_count: 0,
            multi_hit_damage: 0,
            multi_hit_hits: 0,
            heal_amount: 0,
            hit_timestamps: Vec::new(),
            spec_flags: [false, false, false, false, false],
        };
        assert(skill.spec_flags@ =~= Seq::new(5, |i: int| false));
        skill
    }

    /// A copy of every aggregate, with the hit times or without.
    pub fn copied(&self, times: bool) -> (copy: SkillCombatData)
        ensures
            copy@ == if times {
                self@
            } else {
                self@.without_times()
            },
    {
        let hit_timestamps: Vec<i64> = if times {
            self.hit_timestamps.clone()
        } else {
            Vec::new()
        };
        assert(hit_timestamps@ =~= if times {
            self.hit_timestamps@
        } else {
            Seq::empty()
        });
        SkillCombatData {
            skill_code: self.skill_code,
            is_dot: self.is_dot,
            hit_count: self.hit_count,
            total_damage: self.total_damage,
            min_damage: self.min_damage,
            max_damage: self.max_damage,
            crit_count: self.crit_count,
            back_count: self.back_count,
            frontal_count: self.frontal_count,
            parry_count: self.parry_count,
            perfect_count: self.perfect_count,
            double_count: self.double_count,
            smite_count: self.smite_count,
            powershard_count: self.powershard_count,
            multi_hit_count: self.multi_hit_count,
            multi_hit_damage: self.multi_hit_damage,
            multi_hit_hits: self.multi_hit_hits,
            heal_amount: self.heal_amount,
            hit_timestamps,
            spec_flags: self.spec_flags,
        }
    }

    /// A copy of every aggregate with no hit times. The times grow by one entry
    /// per hit, and only the details chart reads them.
    pub fn clone_light(&self) -> (copy: SkillCombatData)
        ensures
            copy@ == self@.without_times(),
    {
        self.copied(false)
    }

    /// Whether one more hit fits in the counters.
    pub fn has_room_for(&self, p: &ParsedDamagePacket) -> (fits: bool)
        ensures
            fits == self@.has_room(*p),
    {
        self.hit_count < i32::MAX && (p.multi_hit_count <= 0 || self.multi_hit_hits as i64
            + p.multi_hit_count as i64 <= i32::MAX as i64)
    }

    /// Counts one more hit.
    pub fn record_hit(&mut self, p: &ParsedDamagePacket)
        requires
            old(self)@.wf(),
            old(self)@.has_room(*p),
        ensures
            final(self)@ == old(self)@.hit(*p),
            final(self)@.wf(),
    {
        self.hit_count += 1;
        self.total_damage = add_i32_clamped(self.total_damage, p.total_damage);
        self.min_damage = smaller(self.min_damage, p.damage);
        self.max_damage = larger(self.max_damage, p.damage);
        self.crit_count += one_if(p.is_crit);
        self.back_count += one_if(p.has_special(SpecialDamage::Back));
        self.frontal_count += one_if(p.has_special(SpecialDamage::Frontal));
        self.parry_count += one_if(p.has_special(SpecialDamage::Parry));
        self.perfect_count += one_if(p.has_special(SpecialDamage::Perfect));
        self.double_count += one_if(p.has_special(SpecialDamage::Double));
        self.smite_count += one_if(p.has_special(SpecialDamage::Smite));
        self.powershard_count += one_if(p.has_special(SpecialDamage::PowerShard));
        if p.multi_hit_count > 0 {
            self.multi_hit_count += 1;
            self.multi_hit_damage = add_i32_clamped(self.multi_hit_damage, p.multi_hit_damage);
            self.multi_hit_hits += p.multi_hit_count;
        }
        self.heal_amount = add_i32_clamped(self.heal_amount, p.heal_amount);
        self.hit_timestamps.push(p.timestamp);
        self.spec_flags = [
            self.spec_flags[0] || p.spec_flags[0],
            self.spec_flags[1] || p.spec_flags[1],
            self.spec_flags[2] || p.spec_flags[2],
            self.spec_flags[3] || p.spec_flags[3],
            self.spec_flags[4] || p.spec_flags[4],
        ];
        assert(self.spec_flags@ =~= old(self)@.hit(*p).spec_flags);
    }
}

} // verus!
