//! The plain values that a decoded damage record carries.

use vstd::prelude::*;

verus! {

/// A character class, known by its number. The meter records classes and
/// compares them; it never looks inside one.
#[derive(Clone, Copy, Debug, PartialEq, Eq, Structural)]
pub struct JobClass {
    pub id: i32,
}

/// A marker that a single hit can carry besides its damage.
#[derive(Clone, Copy, Debug, PartialEq, Eq, Structural)]
pub enum SpecialDamage {
    Back,
    Frontal,
    Parry,
    Perfect,
    Double,
    Smite,
    PowerShard,
}

/// One decoded damage record.
#[derive(Clone, Debug)]
pub struct ParsedDamagePacket {
    /// Running number of the record.
    pub id: i64,
    /// Epoch milliseconds of the hit.
    pub timestamp: i64,
    pub actor_id: i32,
    pub target_id: i32,
    pub skill_code: i32,
    /// The class that `skill_code` belongs to, where it names one.
    pub job: Option<JobClass>,
    pub is_dot: bool,
    pub is_crit: bool,
    /// Damage of the main hit alone.
    pub damage: i32,
    /// Damage of the whole record, extra hits included.
    pub total_damage: i32,
    pub multi_hit_count: i32,
    pub multi_hit_damage: i32,
    pub heal_amount: i32,
    pub specials: Vec<SpecialDamage>,
    pub spec_flags: [bool; 5],
}

impl ParsedDamagePacket {
    /// Whether the hit carries `special`.
    pub open spec fn spec_has(self, special: SpecialDamage) -> bool {
        self.specials@.contains(special)
    }

    /// Whether the hit carries `special`.
    pub fn has_special(&self, special: SpecialDamage) -> (found: bool)
        ensures
            found == self.spec_has(special),
    {
        let mut i: usize = 0;
        while i < self.specials.len()
            invariant
                i <= self.specials.len(),
                forall|j: int| 0 <= j < i ==> self.specials@[j] != special,
            decreases self.specials.len() - i,
        {
            if self.specials[i] == special {
                assert(self.specials@[i as int] == special);
                return true;
            }
            i += 1;
        }
        false
    }
}

} // verus!
