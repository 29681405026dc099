use a2tools_dps_meter::combat::data_storage::DataStorage;
use a2tools_dps_meter::entity::ParsedDamagePacket;
use a2tools_dps_meter::text::has_cjk;

fn class_hit(actor: i32, target: i32) -> ParsedDamagePacket {
    ParsedDamagePacket {
        id: 1,
        timestamp: 1,
        actor_id: actor,
        target_id: target,
        skill_code: 11_000_001,
        job: None,
        is_dot: false,
        is_crit: false,
        damage: 10,
        total_damage: 10,
        multi_hit_count: 0,
        multi_hit_damage: 0,
        heal_amount: 0,
        specials: Vec::new(),
        spec_flags: [false; 5],
    }
}

fn name(storage: &DataStorage, id: i32) -> String {
    storage.get_nickname(id).unwrap_or_default()
}

#[test]
fn guesses_name_real_entities_only() {
    let mut storage = DataStorage::new();
    storage.append_nickname(1000, "Misti");
    assert!(!storage.has_nickname(1000));
    storage.append_damage_at(&class_hit(1000, 7000), 1);
    storage.append_nickname(1000, "Misti");
    assert_eq!(name(&storage, 1000), "Misti");
    // A target is real as well.
    storage.append_nickname(7000, "Grandine");
    assert_eq!(name(&storage, 7000), "Grandine");
}

#[test]
fn guesses_do_not_steal_stated_names() {
    let mut storage = DataStorage::new();
    storage.append_nickname_authoritative(1000, "Misti");
    storage.append_damage_at(&class_hit(2000, 7000), 1);
    storage.append_nickname(2000, "Misti");
    assert_eq!(storage.find_id_by_nickname("Misti"), Some(1000));
    assert!(!storage.has_nickname(2000));
}

#[test]
fn guesses_do_not_rename_the_stated() {
    let mut storage = DataStorage::new();
    storage.append_nickname_authoritative(1000, "M7");
    storage.append_nickname(1000, "BaroqueWorks");
    assert_eq!(name(&storage, 1000), "M7");
}

#[test]
fn stated_names_displace_guessed_ones() {
    let mut storage = DataStorage::new();
    storage.append_damage_at(&class_hit(1000, 7000), 1);
    storage.append_nickname(1000, "BaroqueWorks");
    storage.append_nickname(1000, "M7");
    // A guess does not put a short name in place of a longer one.
    assert_eq!(name(&storage, 1000), "BaroqueWorks");
    storage.append_nickname_authoritative(1000, "M7");
    assert_eq!(name(&storage, 1000), "M7");
}

#[test]
fn guesses_prefer_longer_and_eastern_names() {
    let mut storage = DataStorage::new();
    storage.append_damage_at(&class_hit(1000, 7000), 1);
    storage.append_nickname(1000, "九州依然在");
    storage.append_nickname(1000, "Grandine");
    assert_eq!(name(&storage, 1000), "九州依然在");
    storage.append_nickname(1000, "AVeryLongLatinName");
    assert_eq!(name(&storage, 1000), "AVeryLongLatinName");
    storage.append_nickname(1000, "Short");
    assert_eq!(name(&storage, 1000), "AVeryLongLatinName");
    storage.append_nickname(1000, "Sixsix");
    assert_eq!(name(&storage, 1000), "Sixsix");
    storage.append_nickname(1000, "나");
    assert_eq!(name(&storage, 1000), "나");
}

#[test]
fn a_name_moves_with_its_player() {
    let mut storage = DataStorage::new();
    storage.append_nickname_authoritative(1000, "Misti");
    storage.append_damage_at(&class_hit(1000, 7000), 1);
    storage.append_damage_at(&class_hit(2000, 7000), 1);
    storage.register_confirmed_summon_by_id(3000, 1000);
    storage.append_nickname_authoritative(4000, "Misti");
    assert_eq!(storage.find_id_by_nickname("Misti"), Some(4000));
    assert!(!storage.has_nickname(1000));
    assert!(!storage.is_known_player(1000));
    assert!(storage.is_known_player(4000));
    assert!(!storage.is_summon(3000));
    let snapshot = storage.get_combat_snapshot();
    assert!(!snapshot[&7000].actors.contains_key(&1000));
    assert_eq!(snapshot[&7000].total_damage, 10);
}

#[test]
fn waiting_names_are_taken_on_in_combat() {
    let mut storage = DataStorage::new();
    storage.cache_pending_nickname(1000, "Misti");
    assert!(!storage.has_nickname(1000));
    storage.append_damage_at(&class_hit(1000, 7000), 1);
    assert_eq!(name(&storage, 1000), "Misti");
    // A name that is there already leaves nothing to wait for.
    storage.cache_pending_nickname(1000, "Grandine");
    storage.append_damage_at(&class_hit(1000, 7000), 2);
    assert_eq!(name(&storage, 1000), "Misti");
}

#[test]
fn users_names_survive_a_reset() {
    let mut storage = DataStorage::new();
    storage.set_permanent_nickname(1000, "Misti");
    storage.append_nickname_authoritative(2000, "Grandine");
    storage.cache_pending_nickname(3000, "M7");
    storage.reset_nicknames();
    assert_eq!(storage.get_nicknames().len(), 1);
    assert_eq!(name(&storage, 1000), "Misti");
    storage.append_damage_at(&class_hit(3000, 7000), 1);
    assert!(!storage.has_nickname(3000));
    storage.reset_nicknames();
    assert_eq!(name(&storage, 1000), "Misti");
}

#[test]
fn confirmed_summons_keep_their_owner_when_named() {
    let mut storage = DataStorage::new();
    storage.register_confirmed_summon_by_id(3000, 1000);
    storage.append_nickname_authoritative(3000, "Pet");
    assert!(storage.is_summon(3000));
    assert!(!storage.is_known_player(3000));
    storage.append_summon(1000, 3001);
    storage.append_nickname_authoritative(3001, "Grandine");
    assert!(!storage.is_summon(3001));
    assert!(storage.is_known_player(3001));
}

#[test]
fn the_local_name_binds_the_local_player() {
    let mut storage = DataStorage::new();
    storage.set_local_character_name(Some(" Misti ".to_string()));
    storage.append_nickname_authoritative(4099, "Misti");
    assert_eq!(storage.local_player_id(), Some(4099));
    storage.set_local_player_id(None);
    // Hearing the same name again binds it again.
    storage.append_nickname_authoritative(4099, "Misti");
    assert_eq!(storage.local_player_id(), Some(4099));
    storage.append_nickname_authoritative(5000, "Grandine");
    assert_eq!(storage.local_player_id(), Some(4099));
}

#[test]
fn a_character_name_goes_to_the_bound_player() {
    let mut storage = DataStorage::new();
    storage.bind_local_actor_id(4099);
    assert!(!storage.has_nickname(4099));
    storage.set_character_name("  Misti ".to_string());
    assert_eq!(storage.local_character_name(), Some("  Misti ".to_string()));
    assert_eq!(name(&storage, 4099), "Misti");
    storage.reset_nicknames();
    assert_eq!(name(&storage, 4099), "Misti");
    storage.set_character_name("   ".to_string());
    assert_eq!(name(&storage, 4099), "Misti");
}

#[test]
fn a_bound_player_takes_the_character_name() {
    let mut storage = DataStorage::new();
    storage.set_character_name("Misti".to_string());
    assert_eq!(storage.local_player_id(), None);
    storage.bind_local_actor_id(4099);
    assert_eq!(storage.local_player_id(), Some(4099));
    assert_eq!(name(&storage, 4099), "Misti");
    storage.bind_local_actor_id(0);
    assert_eq!(storage.local_player_id(), None);
    storage.bind_local_actor_id(-7);
    assert_eq!(storage.local_player_id(), None);
}

#[test]
fn large_player_ids_keep_their_low_bits_as_entity() {
    let mut storage = DataStorage::new();
    storage.bind_local_nickname((1i64 << 32) + 4099, "Misti".to_string());
    assert_eq!(storage.local_player_id(), Some((1i64 << 32) + 4099));
    assert_eq!(name(&storage, 4099), "Misti");
}

#[test]
fn binding_a_nickname_replaces_a_stale_one() {
    let mut storage = DataStorage::new();
    storage.append_nickname_authoritative(4099, "BaroqueWorks");
    storage.bind_local_nickname(4099, "M7".to_string());
    assert_eq!(name(&storage, 4099), "M7");
    assert_eq!(storage.local_player_id(), Some(4099));
    storage.bind_local_nickname(4099, "M7".to_string());
    assert_eq!(name(&storage, 4099), "M7");
}

#[test]
fn names_are_looked_up_both_ways() {
    let mut storage = DataStorage::new();
    assert_eq!(storage.find_id_by_nickname("Misti"), None);
    storage.append_nickname_authoritative(1000, "Misti");
    storage.append_nickname_authoritative(1001, "丨Mamepoko丨");
    assert_eq!(storage.find_id_by_nickname("丨Mamepoko丨"), Some(1001));
    assert_eq!(storage.find_id_by_nickname("Grandine"), None);
    assert_eq!(storage.get_nickname(2), None);
}

#[test]
fn eastern_scripts_are_told_by_their_blocks() {
    for text in ["九", "가", "\u{3400}", "\u{20000}", "\u{1100}", "abc丨"] {
        assert!(has_cjk(text), "{text}");
    }
    for text in ["", "Misti", "é", "\u{3399}", "\u{a000}", "\u{1200}", "\u{2a6e0}", "ひ"] {
        assert!(!has_cjk(text), "{text}");
    }
}
