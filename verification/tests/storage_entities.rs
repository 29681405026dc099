use a2tools_dps_meter::combat::data_storage::DataStorage;
use a2tools_dps_meter::combat::skill::{HealSkillData, PartyMember};
use a2tools_dps_meter::entity::ParsedDamagePacket;

fn member(slot: u8, combat_power: i64) -> PartyMember {
    PartyMember { slot, level: 50, gear_score: 6008, combat_power, server_id: 2014 }
}

#[test]
fn a_complete_roster_replaces_the_party() {
    let mut storage = DataStorage::new();
    storage.set_party_roster(
        vec![("Misti".to_string(), member(1, 833_876)), ("M7".to_string(), member(2, 500_000))],
        true,
    );
    assert_eq!(storage.get_party_members().len(), 2);
    storage.set_party_roster(vec![("Grandine".to_string(), member(1, 700_000))], true);
    let party = storage.get_party_members();
    assert_eq!(party.len(), 1);
    assert_eq!(party.get("Misti"), None);
    assert_eq!(party.get("Grandine"), Some(member(1, 700_000)));
}

#[test]
fn a_partial_roster_updates_whom_it_names() {
    let mut storage = DataStorage::new();
    storage.set_party_roster(
        vec![("Misti".to_string(), member(1, 833_876)), ("M7".to_string(), member(2, 500_000))],
        true,
    );
    storage.set_party_roster(
        vec![("M7".to_string(), member(2, 1)), ("M7".to_string(), member(3, 510_000))],
        false,
    );
    let party = storage.get_party_members();
    assert_eq!(party.len(), 2);
    assert_eq!(party.get("Misti"), Some(member(1, 833_876)));
    assert_eq!(party.get("M7"), Some(member(3, 510_000)));
    assert_eq!(party.to_vec().len(), 2);
}

#[test]
fn an_empty_roster_says_nothing() {
    let mut storage = DataStorage::new();
    storage.set_party_roster(vec![("Misti".to_string(), member(1, 833_876))], true);
    storage.set_party_roster(Vec::new(), true);
    storage.set_party_roster(Vec::new(), false);
    assert_eq!(storage.get_party_members().len(), 1);
}

#[test]
fn low_ids_count_once_announced() {
    let mut storage = DataStorage::new();
    assert!(storage.is_plausible_entity_id(100));
    assert!(!storage.is_plausible_entity_id(48));
    assert!(!storage.is_plausible_entity_id(0));
    storage.note_low_id_entity(48);
    storage.note_low_id_entity(0);
    storage.note_low_id_entity(-1);
    storage.note_low_id_entity(100);
    assert!(storage.is_plausible_entity_id(48));
    assert!(!storage.is_plausible_entity_id(49));
    assert!(!storage.is_plausible_entity_id(0));
    assert!(!storage.is_plausible_entity_id(-1));
}

#[test]
fn power_scalars_are_few_and_positive() {
    let mut storage = DataStorage::new();
    storage.note_power_scalar(0, 10_000);
    storage.note_power_scalar(1000, 0);
    assert!(storage.get_power_scalars().is_empty());
    for scalar in 1..40 {
        storage.note_power_scalar(1000, scalar);
    }
    storage.note_power_scalar(1000, 3);
    let scalars = storage.get_power_scalars();
    assert_eq!(scalars[&1000].len(), 16);
    assert!(scalars[&1000].contains(&1));
    assert!(!scalars[&1000].contains(&17));
}

#[test]
fn hit_points_raise_the_maximum() {
    let mut storage = DataStorage::new();
    storage.append_mob_hp(7000, 0);
    storage.append_mob_hp(7000, -5);
    assert_eq!(storage.get_mob_hp(7000), None);
    storage.set_mob_current_hp(7000, 0);
    assert_eq!(storage.get_mob_hp(7000), Some(0));
    storage.set_mob_current_hp(7000, 500);
    storage.set_mob_current_hp(7000, 300);
    storage.set_mob_current_hp(7000, -1);
    assert_eq!(storage.get_mob_current_hp(7000), Some(300));
    assert_eq!(storage.get_mob_hp(7000), Some(500));
    storage.append_mob_hp(7000, 400);
    assert_eq!(storage.get_mob_hp_data()[&7000], 400);
    assert_eq!(storage.get_mob_current_hp(1), None);
}

#[test]
fn actors_targets_and_summons_are_in_combat() {
    let mut storage = DataStorage::new();
    assert!(!storage.actor_appears_in_combat(1000));
    storage.append_damage_at(
        &ParsedDamagePacket {
            id: 1,
            timestamp: 1,
            actor_id: 1000,
            target_id: 7000,
            skill_code: 42,
            job: None,
            is_dot: false,
            is_crit: false,
            damage: 1,
            total_damage: 1,
            multi_hit_count: 0,
            multi_hit_damage: 0,
            heal_amount: 0,
            specials: Vec::new(),
            spec_flags: [false; 5],
        },
        1,
    );
    storage.append_summon(1000, 3000);
    assert!(storage.actor_appears_in_combat(1000));
    assert!(storage.actor_appears_in_combat(7000));
    assert!(storage.actor_appears_in_combat(3000));
    assert!(!storage.actor_appears_in_combat(4000));
}

#[test]
fn plain_settings_are_kept() {
    let mut storage = DataStorage::new();
    storage.set_current_target(7);
    assert_eq!(storage.current_target(), 7);
    storage.set_local_player_id(Some(9));
    assert_eq!(storage.local_player_id(), Some(9));
    storage.mark_entity_dead(5);
    assert!(storage.is_entity_dead(5));
    assert!(!storage.is_entity_dead(6));
}

#[test]
fn defaults_are_empty() {
    assert_eq!(HealSkillData::default(), HealSkillData { total_heal: 0, tick_count: 0 });
    let nobody = PartyMember::default();
    assert_eq!((nobody.slot, nobody.level, nobody.combat_power), (0, 0, 0));
}
