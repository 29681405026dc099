use a2tools_dps_meter::combat::data_storage::{is_player_skill, DataStorage};
use a2tools_dps_meter::combat::skill::{skill_key, skill_of_key};
use a2tools_dps_meter::combat::summon_resolver::resolve;
use a2tools_dps_meter::entity::{JobClass, ParsedDamagePacket, SpecialDamage};
use std::collections::HashMap;

const CLASS_SKILL: i32 = 11_000_001;
const NPC_SKILL: i32 = 5_000_000;
const BLUE: JobClass = JobClass { id: 1 };
const RED: JobClass = JobClass { id: 2 };

fn hit(actor: i32, target: i32, damage: i32, timestamp: i64) -> ParsedDamagePacket {
    ParsedDamagePacket {
        id: 1,
        timestamp,
        actor_id: actor,
        target_id: target,
        skill_code: CLASS_SKILL,
        job: Some(BLUE),
        is_dot: false,
        is_crit: false,
        damage,
        total_damage: damage,
        multi_hit_count: 0,
        multi_hit_damage: 0,
        heal_amount: 0,
        specials: Vec::new(),
        spec_flags: [false; 5],
    }
}

fn totals(storage: &DataStorage, target: i32) -> (i64, i64) {
    let snapshot = storage.get_combat_snapshot();
    let data = &snapshot[&target];
    (data.total_damage, data.actors.values().map(|a| a.total_damage).sum())
}

#[test]
fn a_new_storage_is_empty() {
    let storage = DataStorage::new();
    assert_eq!(storage.damage_generation(), 0);
    assert_eq!(storage.current_target(), 0);
    assert!(storage.get_combat_snapshot().is_empty());
    assert!(storage.get_nicknames().is_empty());
    assert_eq!(storage.local_player_id(), None);
    assert_eq!(storage.local_character_name(), None);
}

#[test]
fn hits_add_up_per_target_actor_and_skill() {
    let mut storage = DataStorage::new();
    let mut p = hit(1000, 7000, 120, 5_000);
    p.id = 41;
    p.is_crit = true;
    p.specials = vec![SpecialDamage::Back, SpecialDamage::Smite];
    p.multi_hit_count = 3;
    p.multi_hit_damage = 20;
    p.total_damage = 140;
    p.heal_amount = 9;
    p.spec_flags = [true, false, false, false, true];
    assert!(storage.has_room_for(&p));
    storage.append_damage_at(&p, 77);
    let mut q = hit(1000, 7000, 80, 5_200);
    q.id = 42;
    q.specials = vec![
        SpecialDamage::Frontal,
        SpecialDamage::Parry,
        SpecialDamage::Perfect,
        SpecialDamage::Double,
        SpecialDamage::PowerShard,
    ];
    q.job = Some(RED);
    storage.append_damage_at(&q, 78);

    assert_eq!(storage.damage_generation(), 2);
    assert_eq!(totals(&storage, 7000), (220, 220));
    let snapshot = storage.get_combat_snapshot();
    let target = &snapshot[&7000];
    assert_eq!(target.target_id, 7000);
    assert_eq!(target.first_damage_time, 5_000);
    assert_eq!(target.last_damage_time, 5_200);
    assert_eq!(target.last_packet_id, 42);
    let actor = &target.actors[&1000];
    assert_eq!(actor.total_damage, 220);
    assert_eq!(actor.regen, 9);
    assert_eq!(actor.last_damage_time, 5_200);
    assert_eq!(actor.job, Some(BLUE));
    assert_eq!(actor.skills.len(), 1);
    let skill = &actor.skills[&skill_key(CLASS_SKILL, false)];
    assert_eq!(skill.skill_code, CLASS_SKILL);
    assert!(!skill.is_dot);
    assert_eq!(skill.hit_count, 2);
    assert_eq!(skill.total_damage, 220);
    assert_eq!((skill.min_damage, skill.max_damage), (80, 120));
    assert_eq!(skill.crit_count, 1);
    assert_eq!(skill.back_count, 1);
    assert_eq!(skill.frontal_count, 1);
    assert_eq!(skill.parry_count, 1);
    assert_eq!(skill.perfect_count, 1);
    assert_eq!(skill.double_count, 1);
    assert_eq!(skill.smite_count, 1);
    assert_eq!(skill.powershard_count, 1);
    assert_eq!(skill.multi_hit_count, 1);
    assert_eq!(skill.multi_hit_damage, 20);
    assert_eq!(skill.multi_hit_hits, 3);
    assert_eq!(skill.heal_amount, 9);
    assert_eq!(skill.hit_timestamps, vec![5_000, 5_200]);
    assert_eq!(skill.spec_flags, [true, false, false, false, true]);
}

#[test]
fn damage_over_time_is_a_skill_of_its_own() {
    let mut storage = DataStorage::new();
    storage.append_damage_at(&hit(1000, 7000, 10, 1), 1);
    let mut dot = hit(1000, 7000, 5, 2);
    dot.is_dot = true;
    storage.append_damage_at(&dot, 2);
    let snapshot = storage.get_combat_snapshot();
    let skills = &snapshot[&7000].actors[&1000].skills;
    assert_eq!(skills.len(), 2);
    assert_eq!(skills[&skill_key(CLASS_SKILL, false)].total_damage, 10);
    assert_eq!(skills[&skill_key(CLASS_SKILL, true)].total_damage, 5);
    assert!(skills[&skill_key(CLASS_SKILL, true)].is_dot);
}

#[test]
fn skill_keys_do_not_collide() {
    assert_ne!(skill_key(5, false), skill_key(5, true));
    assert_ne!(skill_key(5, true), skill_key(6, false));
    assert_eq!(skill_key(-3, true), skill_key(-3, true));
    assert_ne!(skill_key(i32::MAX, false), skill_key(i32::MIN, false));
    for code in [0, 1, -1, -2, 7, CLASS_SKILL, i32::MAX, i32::MIN] {
        for flag in [false, true] {
            assert_eq!(skill_of_key(skill_key(code, flag)), (code, flag));
        }
    }
}

#[test]
fn skill_totals_stop_at_the_end_of_their_range() {
    let mut storage = DataStorage::new();
    storage.append_damage_at(&hit(1000, 7000, i32::MAX, 1), 1);
    storage.append_damage_at(&hit(1000, 7000, 10, 2), 2);
    let snapshot = storage.get_combat_snapshot();
    let actor = &snapshot[&7000].actors[&1000];
    assert_eq!(actor.skills[&skill_key(CLASS_SKILL, false)].total_damage, i32::MAX);
    assert_eq!(actor.total_damage, i32::MAX as i64 + 10);
}

#[test]
fn a_long_pause_begins_a_new_fight() {
    let mut storage = DataStorage::new();
    storage.append_damage_at(&hit(1000, 7000, 10, 1_000), 1);
    storage.append_damage_at(&hit(1000, 7000, 10, 31_000), 2);
    assert_eq!(totals(&storage, 7000), (20, 20));
    storage.append_damage_at(&hit(1000, 7000, 7, 61_001), 3);
    assert_eq!(totals(&storage, 7000), (7, 7));
    assert_eq!(storage.get_combat_snapshot()[&7000].first_damage_time, 61_001);
}

#[test]
fn an_earlier_hit_moves_the_start_back() {
    let mut storage = DataStorage::new();
    storage.append_damage_at(&hit(1000, 7000, 10, 1_000), 1);
    storage.append_damage_at(&hit(1000, 7000, 10, 400), 2);
    let snapshot = storage.get_combat_snapshot();
    assert_eq!(snapshot[&7000].first_damage_time, 400);
    assert_eq!(snapshot[&7000].last_damage_time, 1_000);
}

#[test]
fn the_first_boss_hit_clears_the_segment() {
    let mut storage = DataStorage::new();
    storage.register_boss(9000);
    assert!(storage.is_boss(9000));
    assert!(!storage.is_boss(7000));
    storage.append_damage_at(&hit(1000, 7000, 10, 1), 1);
    storage.mark_entity_dead(7000);
    storage.append_damage_at(&hit(1000, 9000, 30, 2), 2);
    assert!(!storage.is_damage_target(7000));
    assert!(!storage.is_entity_dead(7000));
    assert_eq!(totals(&storage, 9000), (30, 30));
    // Later hits, on bosses or not, leave the segment alone.
    storage.append_damage_at(&hit(1000, 7000, 5, 3), 3);
    storage.append_damage_at(&hit(1000, 9000, 30, 4), 4);
    assert_eq!(totals(&storage, 9000), (60, 60));
    assert_eq!(totals(&storage, 7000), (5, 5));
}

#[test]
fn a_boss_hit_first_keeps_the_dead() {
    let mut storage = DataStorage::new();
    storage.register_boss(9000);
    storage.mark_entity_dead(55);
    storage.append_damage_at(&hit(1000, 9000, 30, 2), 2);
    assert!(storage.is_entity_dead(55));
    assert_eq!(storage.get_dead_entities().len(), 1);
}

#[test]
fn a_mobs_attack_counts_as_damage_taken() {
    let mut storage = DataStorage::new();
    storage.append_damage_at(&hit(1000, 7000, 10, 1), 1);
    storage.append_mob(7000, 31);
    let mut attack = hit(7000, 1000, 25, 2);
    attack.skill_code = NPC_SKILL;
    storage.append_damage_at(&attack, 2);
    let snapshot = storage.get_combat_snapshot();
    assert_eq!(snapshot.len(), 1);
    assert_eq!(snapshot[&7000].actors[&1000].damage_received, 25);
    assert_eq!(snapshot[&7000].actors[&1000].hits_received, 1);
    assert_eq!(storage.damage_generation(), 1);
}

#[test]
fn a_mobs_attack_on_a_stranger_is_dropped() {
    let mut storage = DataStorage::new();
    storage.append_mob(7000, 31);
    let mut attack = hit(7000, 1000, 25, 2);
    attack.skill_code = NPC_SKILL;
    storage.append_damage_at(&attack, 2);
    assert!(storage.get_combat_snapshot().is_empty());
    assert_eq!(storage.damage_generation(), 0);
}

#[test]
fn what_players_do_to_each_other_is_healing() {
    let mut storage = DataStorage::new();
    storage.append_damage_at(&hit(1000, 7000, 10, 1), 1);
    storage.append_damage_at(&hit(2000, 7000, 10, 2), 2);
    storage.append_damage_at(&hit(1000, 2000, 40, 3), 3);
    assert!(!storage.is_damage_target(2000));
    assert_eq!(storage.damage_generation(), 2);
    assert_eq!(storage.get_combat_snapshot()[&7000].actors[&1000].party_heal, 40);
    let heals = storage.get_heal_snapshot();
    let heal = heals[&1000][&skill_key(CLASS_SKILL, false)];
    assert_eq!((heal.total_heal, heal.tick_count), (40, 1));
    // Nothing comes of an empty heal.
    storage.append_damage_at(&hit(1000, 2000, 0, 4), 4);
    assert_eq!(storage.get_heal_snapshot()[&1000][&skill_key(CLASS_SKILL, false)].tick_count, 1);
}

#[test]
fn a_new_player_takes_friendly_fire_back() {
    let mut storage = DataStorage::new();
    // Entity 2000 is not known yet, so the hit on it counts.
    storage.append_damage_at(&hit(1000, 2000, 40, 1), 1);
    assert_eq!(totals(&storage, 2000), (40, 40));
    // It turns out to be a player.
    storage.append_damage_at(&hit(2000, 7000, 10, 2), 2);
    assert!(!storage.is_damage_target(2000));
    assert_eq!(totals(&storage, 7000), (10, 10));
}

#[test]
fn purging_keeps_the_damage_of_others() {
    let mut storage = DataStorage::new();
    storage.append_damage_at(&hit(1000, 2000, 40, 1), 1);
    let mut stranger = hit(3000, 2000, 5, 1);
    stranger.skill_code = 42;
    storage.append_damage_at(&stranger, 2);
    assert_eq!(totals(&storage, 2000), (45, 45));
    storage.append_damage_at(&hit(2000, 7000, 10, 2), 3);
    assert_eq!(totals(&storage, 2000), (5, 5));
}

#[test]
fn a_player_turned_mob_loses_its_damage() {
    let mut storage = DataStorage::new();
    storage.append_damage_at(&hit(1000, 7000, 10, 1), 1);
    storage.append_damage_at(&hit(3000, 7000, 99, 2), 2);
    assert!(storage.is_known_player(3000));
    storage.append_mob(3000, 31);
    assert!(storage.is_mob(3000));
    assert!(!storage.is_known_player(3000));
    assert_eq!(totals(&storage, 7000), (10, 10));
    assert_eq!(storage.get_mob_data()[&3000], 31);
}

#[test]
fn spawned_summons_are_not_taken_for_players() {
    let mut storage = DataStorage::new();
    storage.note_summon_spawn(3000);
    storage.append_damage_at(&hit(3000, 7000, 10, 1), 1);
    assert!(!storage.is_known_player(3000));
    assert!(storage.get_summon_spawn_ids().contains(&3000));
    storage.append_damage_at(&hit(1000, 7000, 10, 1), 1);
    assert!(storage.is_known_player(1000));
    assert_eq!(storage.get_known_player_ids().len(), 1);
}

#[test]
fn confirmed_summons_belong_to_their_owner() {
    let mut storage = DataStorage::new();
    storage.append_damage_at(&hit(1000, 7000, 10, 1), 1);
    storage.append_damage_at(&hit(3000, 7000, 10, 1), 1);
    storage.register_confirmed_summon_by_id(3000, 1000);
    assert!(storage.is_summon(3000));
    assert!(storage.is_confirmed_summon(3000));
    assert!(!storage.is_known_player(3000));
    assert_eq!(storage.get_summon_data()[&3000], 1000);
    // The owner's hits on its own summon are no damage.
    storage.append_damage_at(&hit(1000, 3000, 10, 2), 2);
    assert!(!storage.is_damage_target(3000));
}

#[test]
fn guessed_summons_are_believed_only_without_evidence() {
    let mut storage = DataStorage::new();
    storage.append_summon(1000, 3000);
    assert!(storage.is_summon(3000));
    // A summon owns nobody.
    storage.append_summon(3000, 3001);
    assert!(!storage.is_summon(3001));
    // A mob owns nobody either.
    storage.append_mob(7000, 31);
    storage.append_summon(7000, 3001);
    assert!(!storage.is_summon(3001));
    // Nor is a named entity, a player or a hostile target a summon.
    storage.append_nickname_authoritative(3002, "Misti");
    storage.append_summon(1000, 3002);
    storage.append_damage_at(&hit(1000, 3003, 1, 1), 1);
    storage.append_summon(1001, 3003);
    assert!(!storage.is_summon(3002));
    assert!(!storage.is_summon(3003));
    assert!(!storage.is_summon(1000));
}

#[test]
fn guessed_summons_share_their_owners_class() {
    let mut storage = DataStorage::new();
    storage.note_summon_spawn(3000);
    storage.note_summon_spawn(3001);
    storage.append_damage_at(&hit(1000, 7000, 1, 1), 1);
    let mut other = hit(3000, 7000, 1, 1);
    other.job = Some(RED);
    storage.append_damage_at(&other, 1);
    storage.append_damage_at(&hit(3001, 7000, 1, 1), 1);
    storage.append_summon(1000, 3000);
    storage.append_summon(1000, 3001);
    assert!(!storage.is_summon(3000));
    assert!(storage.is_summon(3001));
}

#[test]
fn owners_are_found_through_chains() {
    let mut summons: HashMap<i32, i32> = HashMap::new();
    summons.insert(3, 2);
    summons.insert(2, 1);
    assert_eq!(resolve(3, &summons), 1);
    assert_eq!(resolve(2, &summons), 1);
    assert_eq!(resolve(1, &summons), 1);
    assert_eq!(resolve(9, &summons), 9);
    // A circle is left after as many steps as there are links.
    summons.insert(1, 3);
    assert_eq!(resolve(3, &summons), 3);
}

#[test]
fn player_skills_lie_in_three_bands() {
    for code in [11_000_000, 19_999_999, 3_000_000, 3_999_999, 100_000, 199_999] {
        assert!(is_player_skill(code));
    }
    for code in [10_999_999, 20_000_000, 2_999_999, 4_000_000, 99_999, 200_000, -1] {
        assert!(!is_player_skill(code));
    }
}

#[test]
fn a_light_snapshot_lacks_the_hit_times_alone() {
    let mut storage = DataStorage::new();
    storage.append_damage_at(&hit(1000, 7000, 10, 1), 1);
    storage.append_damage_at(&hit(1000, 7000, 20, 2), 2);
    let full = storage.get_combat_snapshot();
    let light = storage.get_combat_snapshot_light();
    assert_eq!(light.len(), full.len());
    let key = skill_key(CLASS_SKILL, false);
    let a = &full[&7000].actors[&1000].skills[&key];
    let b = &light[&7000].actors[&1000].skills[&key];
    assert_eq!(a.hit_timestamps, vec![1, 2]);
    assert!(b.hit_timestamps.is_empty());
    assert_eq!(a.hit_count, b.hit_count);
    assert_eq!(a.total_damage, b.total_damage);
    assert_eq!(light[&7000].total_damage, 30);
    assert_eq!(light[&7000].last_packet_id, full[&7000].last_packet_id);
}

#[test]
fn snapshots_hold_no_key_but_those_of_skills() {
    let mut storage = DataStorage::new();
    storage.append_damage_at(&hit(1000, 7000, 10, 1), 1);
    storage.append_damage_at(&hit(2000, 7000, 20, 2), 2);
    storage.append_damage_at(&hit(1000, 2000, 40, 3), 3);
    storage.append_heal(1000, 7, 5, true);
    for snapshot in [storage.get_combat_snapshot(), storage.get_combat_snapshot_light()] {
        assert_eq!(snapshot.len(), 1);
        assert_eq!(snapshot[&7000].actors.len(), 2);
        for actor in snapshot[&7000].actors.values() {
            let keys: Vec<i64> = actor.skills.keys().copied().collect();
            assert_eq!(keys, vec![skill_key(CLASS_SKILL, false)]);
            assert_eq!(skill_of_key(keys[0]), (CLASS_SKILL, false));
        }
    }
    let heals = storage.get_heal_snapshot();
    assert_eq!(heals.len(), 1);
    let mut skills: Vec<(i32, bool)> = heals[&1000].keys().map(|&k| skill_of_key(k)).collect();
    skills.sort();
    assert_eq!(skills, vec![(7, true), (CLASS_SKILL, false)]);
}

#[test]
fn fights_are_saved_only_after_a_hit() {
    let mut storage = DataStorage::new();
    assert!(!storage.may_save_fights());
    storage.append_heal(1000, 7, 5, false);
    assert!(!storage.may_save_fights());
    storage.append_damage_at(&hit(1000, 7000, 10, 1), 1);
    assert!(storage.may_save_fights());
    storage.flush();
    assert!(storage.may_save_fights());
}

#[test]
fn the_clock_times_recorded_hits() {
    let mut storage = DataStorage::new();
    storage.append_damage(hit(1000, 7000, 10, 1));
    // The hit was recorded just now, so a zone change finds a fight going on.
    assert!(!storage.note_zone_change());
    assert!(storage.is_damage_target(7000));
}

#[test]
fn the_clock_times_zone_changes() {
    let mut storage = DataStorage::new();
    storage.append_damage_at(&hit(1000, 7000, 10, 1), 0);
    // By the clock the hit is long past.
    assert!(storage.note_zone_change());
    assert!(!storage.is_damage_target(7000));
}

#[test]
fn a_zone_change_spares_an_active_fight() {
    let mut storage = DataStorage::new();
    storage.append_damage_at(&hit(1000, 7000, 10, 1), 100_000);
    assert!(!storage.note_zone_change_at(101_499));
    assert!(storage.is_damage_target(7000));
    assert!(!storage.take_combat_reset_requested());
    assert!(storage.note_zone_change_at(101_500));
    assert!(!storage.is_damage_target(7000));
    assert!(storage.take_combat_reset_requested());
    assert!(!storage.take_combat_reset_requested());
}

#[test]
fn zone_changes_in_a_row_clear_once() {
    let mut storage = DataStorage::new();
    storage.append_damage_at(&hit(1000, 7000, 10, 1), 100_000);
    assert!(storage.note_zone_change_at(110_000));
    storage.append_damage_at(&hit(1000, 7000, 10, 1), 110_500);
    assert!(!storage.note_zone_change_at(113_999));
    assert!(storage.note_zone_change_at(114_000));
    assert!(!storage.note_zone_change_at(200_000));
}

#[test]
fn a_zone_change_keeps_who_is_who() {
    let mut storage = DataStorage::new();
    storage.append_nickname_authoritative(1000, "Misti");
    storage.append_damage_at(&hit(1000, 7000, 10, 1), 1_000);
    storage.register_confirmed_summon_by_id(3000, 1000);
    storage.append_mob_hp(7000, 500);
    storage.set_current_target(7000);
    storage.append_heal(1000, 1, 5, true);
    assert!(storage.note_zone_change_at(100_000));
    assert_eq!(storage.get_nickname(1000), Some("Misti".to_string()));
    assert!(storage.is_known_player(1000));
    assert!(storage.is_summon(3000));
    assert_eq!(storage.get_mob_hp(7000), None);
    assert_eq!(storage.current_target(), 0);
    assert!(storage.get_heal_snapshot().is_empty());
}

#[test]
fn flushing_forgets_players_but_not_names() {
    let mut storage = DataStorage::new();
    storage.append_nickname_authoritative(1000, "Misti");
    storage.append_damage_at(&hit(1000, 7000, 10, 1), 1_000);
    storage.register_confirmed_summon_by_id(3000, 1000);
    storage.note_power_scalar(1000, 16_000);
    storage.flush();
    assert!(storage.get_combat_snapshot().is_empty());
    assert!(storage.get_known_player_ids().is_empty());
    assert!(storage.get_summon_data().is_empty());
    assert!(!storage.is_confirmed_summon(3000));
    assert!(storage.get_power_scalars().is_empty());
    assert!(storage.has_nickname(1000));
    assert_eq!(storage.damage_generation(), 1);
}

#[test]
fn heals_need_a_plausible_healer_and_an_amount() {
    let mut storage = DataStorage::new();
    assert!(storage.has_room_for_heal(48, 7, 10, false));
    storage.append_heal(48, 7, 10, false);
    storage.append_heal(1000, 7, 0, false);
    storage.append_heal(1000, 7, -5, false);
    assert!(storage.get_heal_snapshot().is_empty());
    storage.note_low_id_entity(48);
    storage.append_heal(48, 7, 10, false);
    storage.append_heal(48, 7, 15, false);
    storage.append_heal(48, 7, 100, true);
    let heals = storage.get_heal_snapshot();
    let direct = heals[&48][&skill_key(7, false)];
    let over_time = heals[&48][&skill_key(7, true)];
    assert_eq!((direct.total_heal, direct.tick_count), (25, 2));
    assert_eq!((over_time.total_heal, over_time.tick_count), (100, 1));
}

#[test]
fn counters_that_are_not_touched_need_no_room() {
    let mut storage = DataStorage::new();
    // Healing is full, but a hit is no healing.
    storage.append_heal(1000, CLASS_SKILL, i64::MAX, false);
    assert!(storage.has_room_for(&hit(1000, 7000, 10, 1)));
    storage.append_damage_at(&hit(1000, 7000, 10, 1), 1);
    storage.append_damage_at(&hit(2000, 7000, 10, 1), 1);
    assert!(!storage.has_room_for(&hit(1000, 2000, 10, 1)));
    assert!(storage.has_room_for(&hit(2000, 1000, 10, 1)));
    assert!(storage.has_room_for(&hit(1000, 2000, 0, 1)));
    // A full record does not matter where the hit begins a new one.
    let mut full = hit(1000, 7000, 1, 1);
    full.multi_hit_count = i32::MAX;
    storage.append_damage_at(&full, 1);
    assert!(!storage.has_room_for(&full));
    full.timestamp = 30_002;
    assert!(storage.has_room_for(&full));
    full.timestamp = 1;
    storage.register_boss(7000);
    assert!(storage.has_room_for(&full));
    // An actor that turns out to be a player heals from its first hit on one.
    assert!(!storage.is_known_player(3000));
    storage.append_heal(3000, CLASS_SKILL, i64::MAX, false);
    assert!(!storage.has_room_for(&hit(3000, 1000, 10, 1)));
    assert!(storage.has_room_for(&hit(3000, 8000, 10, 1)));
}

#[test]
fn gains_and_losses_are_counted_apart() {
    let mut storage = DataStorage::new();
    for actor in [1000, 1001, 1002] {
        assert!(storage.has_room_for(&hit(actor, 7000, i32::MAX, 1)));
        storage.append_damage_at(&hit(actor, 7000, i32::MAX, 1), 1);
        assert!(storage.has_room_for(&hit(actor, 7000, i32::MIN, 1)));
        storage.append_damage_at(&hit(actor, 7000, i32::MIN, 1), 1);
    }
    assert_eq!(totals(&storage, 7000), (-3, -3));
}

#[test]
fn a_mobs_attack_needs_room_for_damage_taken_alone() {
    let mut storage = DataStorage::new();
    storage.append_mob(7000, 31);
    let mut attack = hit(7000, 1000, 25, 2);
    attack.skill_code = NPC_SKILL;
    storage.append_heal(7000, NPC_SKILL, i64::MAX, false);
    assert!(storage.has_room_for(&attack));
    storage.append_damage_at(&hit(1000, 7000, 10, 1), 1);
    assert!(storage.has_room_for(&attack));
}

#[test]
fn players_are_no_summons() {
    let mut storage = DataStorage::new();
    storage.append_summon(1000, 3000);
    storage.append_damage_at(&hit(3000, 7000, 10, 1), 1);
    assert!(storage.is_known_player(3000));
    assert!(!storage.is_summon(3000));
    storage.register_confirmed_summon_by_id(3000, 1000);
    storage.append_damage_at(&hit(3000, 7000, 10, 1), 1);
    storage.append_nickname_authoritative(3000, "Pet");
    assert!(!storage.is_known_player(3000));
    assert!(storage.is_summon(3000));
    for id in storage.get_known_player_ids() {
        assert!(!storage.is_summon(id) && !storage.is_confirmed_summon(id));
    }
}

#[test]
fn snapshots_are_consistent() {
    let mut storage = DataStorage::new();
    for (actor, timestamp) in [(1000, 900), (1000, 100), (2000, 500)] {
        storage.append_damage_at(&hit(actor, 7000, 10 + actor, timestamp), 1);
    }
    for (id, target) in storage.get_combat_snapshot() {
        assert_eq!(target.target_id, id);
        assert!(target.first_damage_time <= target.last_damage_time);
        for (key, skill) in target.actors.values().flat_map(|actor| actor.skills.iter()) {
            assert_eq!(skill_of_key(*key), (skill.skill_code, skill.is_dot));
            assert!(skill.hit_count >= 1);
            assert_eq!(skill.hit_timestamps.len() as i32, skill.hit_count);
            assert!(skill.crit_count <= skill.hit_count);
            assert!(skill.min_damage <= skill.max_damage);
        }
    }
}

#[test]
fn full_counters_have_no_room() {
    let mut storage = DataStorage::new();
    let mut p = hit(1000, 7000, 1, 1);
    p.multi_hit_count = i32::MAX;
    assert!(storage.has_room_for(&p));
    storage.append_damage_at(&p, 1);
    assert!(!storage.has_room_for(&p));
    assert!(storage.has_room_for(&hit(1000, 7000, 1, 1)));
    storage.append_heal(1000, 7, i64::MAX, false);
    assert!(!storage.has_room_for_heal(1000, 7, 1, false));
    assert!(storage.has_room_for_heal(1000, 8, 1, false));
}
