use a2tools_dps_meter::history::fight_history::{
    fight_file_name, is_fight_file, DirStamp, FightHistoryManager,
};
use a2tools_dps_meter::history::fight_record::{top_fights, FightRecord, FightSummary};
use a2tools_dps_meter::history::ranking::rank;

fn fight(id: &str, start_time_ms: i64, total_damage: i64) -> FightRecord {
    FightRecord {
        id: id.to_string(),
        boss_name: format!("boss of {id}"),
        target_id: 9000,
        start_time_ms,
        duration_ms: 60_000,
        total_damage,
        jobs: vec!["Cleric".to_string(), "Ranger".to_string()],
        job_ids: vec![17, 14],
        is_train: false,
        app_version: "1.2.3".to_string(),
        mob_code: 31,
    }
}

fn ids(fights: &[FightSummary]) -> Vec<&str> {
    fights.iter().map(|f| f.id.as_str()).collect()
}

#[test]
fn things_are_ranked_stably() {
    let ranked = rank(vec!["a", "b", "c", "d", "e"], &vec![3, 5, 3, -1, 5]);
    assert_eq!(ranked, vec!["b", "e", "a", "c", "d"]);
    assert!(rank(Vec::<u8>::new(), &Vec::new()).is_empty());
}

#[test]
fn fights_are_listed_latest_first() {
    let mut manager = FightHistoryManager::new();
    let stamp = DirStamp { count: 3, latest: Some(1) };
    assert!(manager.list_fights(stamp, None).is_none());
    let records = vec![fight("a", 10, 1), fight("b", 30, 2), fight("c", 10, 3)];
    let fights = manager.list_fights(stamp, Some(records)).expect("a list");
    assert_eq!(ids(&fights), vec!["b", "a", "c"]);
    let b = &fights[0];
    assert_eq!(b.boss_name, "boss of b");
    assert_eq!((b.target_id, b.start_time_ms, b.duration_ms), (9000, 30, 60_000));
    assert_eq!(b.total_damage, 2);
    assert_eq!(b.jobs, vec!["Cleric", "Ranger"]);
    assert_eq!(b.job_ids, vec![17, 14]);
    assert!(!b.is_train);
    assert!(!b.is_live);
    assert_eq!(b.app_version, "1.2.3");
    assert_eq!(b.mob_code, 31);
}

#[test]
fn a_list_is_kept_until_the_directory_changes() {
    let mut manager = FightHistoryManager::new();
    let stamp = DirStamp { count: 1, latest: Some(1) };
    manager.list_fights(stamp, Some(vec![fight("a", 10, 1)]));
    // Nothing has changed, so the new records are not looked at.
    let again = manager.list_fights(stamp, Some(vec![fight("b", 20, 1)])).expect("a list");
    assert_eq!(ids(&again), vec!["a"]);
    assert_eq!(ids(&manager.list_fights(stamp, None).expect("a list")), vec!["a"]);
    let touched = DirStamp { count: 1, latest: Some(2) };
    assert!(manager.list_fights(touched, None).is_none());
    let grown = DirStamp { count: 2, latest: Some(1) };
    assert!(manager.list_fights(grown, None).is_none());
    let fresh = manager.list_fights(touched, Some(vec![fight("b", 20, 1)])).expect("a list");
    assert_eq!(ids(&fresh), vec!["b"]);
}

#[test]
fn a_saved_fight_makes_the_list_stale() {
    let mut manager = FightHistoryManager::new();
    let stamp = DirStamp { count: 1, latest: None };
    manager.list_fights(stamp, Some(vec![fight("a", 10, 1)]));
    manager.invalidate();
    assert!(manager.list_fights(stamp, None).is_none());
}

#[test]
fn a_directory_is_known_by_count_and_latest_write() {
    assert_eq!(DirStamp::of(&Vec::new()), DirStamp { count: 0, latest: None });
    assert_eq!(DirStamp::of(&vec![None, None]), DirStamp { count: 2, latest: None });
    assert_eq!(
        DirStamp::of(&vec![Some(3), None, Some(9), Some(-4), Some(9)]),
        DirStamp { count: 5, latest: Some(9) }
    );
}

#[test]
fn fights_are_files_of_their_own() {
    assert_eq!(fight_file_name("boss_1"), "boss_1.json");
    assert!(is_fight_file(&fight_file_name("x")));
    for name in ["a.json", "a.b.json", "..json", "é.json"] {
        assert!(is_fight_file(name), "{name}");
    }
    for name in ["", ".json", "json", "a.jso", "a.json.bak", "a.JSON", "ajson", "a.json "] {
        assert!(!is_fight_file(name), "{name}");
    }
}

#[test]
fn fight_files_are_told_as_paths_tell_extensions() {
    for name in ["a.json", ".json", "..json", "a.", "a", "a.b.json", "json", ".a.json", "x.jsonl"] {
        let by_path = std::path::Path::new(name).extension().is_some_and(|e| e == "json");
        assert_eq!(is_fight_file(name), by_path, "{name}");
    }
}

#[test]
fn the_ten_largest_fights_are_kept() {
    let damages: Vec<i64> = (0..12i64).map(|i| (i * 7) % 12).collect();
    let kept = top_fights(damages.clone(), &damages);
    assert_eq!(kept, vec![11, 10, 9, 8, 7, 6, 5, 4, 3, 2]);
    assert_eq!(top_fights(vec!["a", "b", "c"], &vec![5, 9, 5]), vec!["b", "a", "c"]);
}
