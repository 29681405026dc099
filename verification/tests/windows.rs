use a2tools_dps_meter::ui::auto_hide::{AutoHide, HideAction, OverlayState};
use a2tools_dps_meter::ui::geometry::{
    cascade_offset, center_on, details_geometry_is_user_placed, first_place, geometry_settings,
    overlay_settings, rect_covers_a_monitor, remembered_labels, restore_overlay,
    restore_window_geometry, window_setting_key, FirstPlace, NewWindow, Placement, Rect, WindowState,
};
use a2tools_dps_meter::ui::monitors::{
    check_monitor, is_primary_monitor, list_monitors, picker_number, MonitorInfo, Side,
};
use a2tools_dps_meter::ui::requests::{PendingRequests, Request};
use a2tools_dps_meter::ui::routing::{
    attention, details_monitor_setting, fight_window_label, opening, placement_to_announce,
    route_request, Attention, DetailsWindow, Opening,
};

const FULL_HD: Rect = Rect { x: 0, y: 0, width: 1920, height: 1080 };

#[test]
fn fight_labels_are_made_safe() {
    assert_eq!(fight_window_label("abc123"), "details-abc123");
    assert_eq!(fight_window_label("a b/c-é.9"), "details-a_b_c___9");
    assert_eq!(fight_window_label(""), "details-");
}

#[test]
fn requests_go_to_the_window_they_ask_for() {
    let history = route_request(Some("history"), Some("7"));
    assert_eq!(history.window, DetailsWindow::History);
    assert_eq!(history.label, "history");
    assert!(!history.asks_for_fight);
    let fight = route_request(Some("fight"), Some("boss 7"));
    assert_eq!(fight.window, DetailsWindow::Fight);
    assert_eq!(fight.label, "details-boss_7");
    assert!(fight.asks_for_fight);
    // A fight without an id is shown in the live window.
    let nameless = route_request(Some("fight"), None);
    assert_eq!(nameless.window, DetailsWindow::Live);
    assert_eq!(nameless.label, "details");
    assert!(nameless.asks_for_fight);
    for kind in [None, Some("row"), Some(""), Some("History")] {
        let live = route_request(kind, Some("7"));
        assert_eq!(live.window, DetailsWindow::Live);
        assert_eq!(live.label, "details");
        assert!(!live.asks_for_fight);
    }
}

#[test]
fn open_windows_come_back_or_forward() {
    assert_eq!(attention(Some(false), Some(false), false), Attention::Restore);
    assert_eq!(attention(Some(true), Some(true), true), Attention::Restore);
    assert_eq!(attention(Some(true), Some(false), true), Attention::Focus);
    assert_eq!(attention(Some(true), Some(false), false), Attention::Leave);
    assert_eq!(attention(None, None, false), Attention::Leave);
    assert_eq!(attention(None, Some(true), false), Attention::Restore);
}

#[test]
fn the_monitor_setting_is_read_every_time() {
    assert_eq!(details_monitor_setting(None), None);
    for text in ["", "  ", "off", " off ", "Off", "-1", "1.0", "one", "+"] {
        assert_eq!(details_monitor_setting(Some(text)), None, "{text}");
    }
    assert_eq!(details_monitor_setting(Some(" 2\n")), Some(2));
    assert_eq!(details_monitor_setting(Some("+0")), Some(0));
    assert_eq!(opening(DetailsWindow::History, Some("1")), Opening::History);
    assert_eq!(opening(DetailsWindow::Fight, Some("1")), Opening::Fight);
    assert_eq!(opening(DetailsWindow::Live, Some("1")), Opening::Pinned(1));
    assert_eq!(opening(DetailsWindow::Live, Some("off")), Opening::Windowed);
    assert_eq!(opening(DetailsWindow::Live, None), Opening::Windowed);
}

#[test]
fn only_the_live_window_confirms_its_monitor() {
    assert_eq!(placement_to_announce("details", Some(1)), Some(1));
    assert_eq!(placement_to_announce("details", None), None);
    assert_eq!(placement_to_announce("details-7", Some(1)), None);
    assert_eq!(placement_to_announce("history", Some(1)), None);
}

#[test]
fn requests_wait_under_their_label() {
    let mut requests: PendingRequests<&str> = PendingRequests::new();
    assert_eq!(requests.submit("details-1", false, "first"), None);
    assert_eq!(requests.submit("details-2", false, "second"), None);
    assert_eq!(requests.submit("details-1", false, "again"), None);
    assert_eq!(requests.take("history"), None);
    assert_eq!(requests.take("details-1"), Some("again"));
    assert_eq!(requests.take("details-1"), None);
    // An open window gets its request at once, and nothing stays parked.
    assert_eq!(requests.submit("details-2", true, "third"), Some("third"));
    assert_eq!(requests.take("details-2"), None);
}

#[test]
fn a_request_is_withdrawn_if_its_window_does_not_open() {
    let mut requests: PendingRequests<&str> = PendingRequests::new();
    assert_eq!(requests.number(), 1);
    requests.submit("details", false, "first");
    requests.submit("history", false, "second");
    requests.opened("history", true);
    requests.opened("details", false);
    assert_eq!(requests.take("details"), None);
    assert_eq!(requests.take("history"), Some("second"));
    requests.opened("settings", false);
    assert_eq!(requests.number(), 2);
}

#[test]
fn requests_are_numbered() {
    let mut requests: PendingRequests<u8> = PendingRequests::new();
    assert_eq!(requests.number(), 1);
    requests.park("details", 7);
    assert_eq!(requests.number(), 2);
    assert_eq!(requests.take("details"), Some(7));
    assert_eq!(requests.number(), 3);
}

#[test]
fn requests_bear_their_number_among_their_fields() {
    let mut requests: PendingRequests<Request<i32>> = PendingRequests::new();
    let payload = || Some(vec![("kind".to_string(), 1), ("seq".to_string(), 99), ("x".to_string(), 2)]);
    let first = requests.request("details", true, payload()).expect("the window is open");
    assert_eq!(first.number, 1);
    assert_eq!(first.fields, vec![("kind".to_string(), 1), ("x".to_string(), 2)]);
    assert!(requests.request("details-7", false, payload()).is_none());
    let parked = requests.take("details-7").expect("a parked request");
    assert_eq!(parked.number, 2);
    assert_eq!(parked.fields, first.fields);
    // What is no object counts as one without fields.
    let bare = requests.request("details", true, None).expect("the window is open");
    assert_eq!(bare.number, 3);
    assert!(bare.fields.is_empty());
}

#[test]
fn fight_windows_are_not_remembered() {
    assert_eq!(remembered_labels(), vec!["details", "settings", "history"]);
    let window = WindowState { visible: true, position: Some((1, 2)), size: Some((800, 600)) };
    for label in remembered_labels() {
        assert!(!geometry_settings(&label, false, window, &Vec::new()).is_empty());
    }
    for label in ["details-7", "details-", "main", ""] {
        assert!(geometry_settings(label, false, window, &Vec::new()).is_empty());
    }
}

#[test]
fn a_window_covers_a_monitor_or_not() {
    let monitors = vec![FULL_HD, Rect { x: 1920, y: 0, width: 800, height: 600 }];
    assert!(rect_covers_a_monitor(FULL_HD, &monitors));
    assert!(rect_covers_a_monitor(Rect { x: 1900, y: -5, width: 900, height: 700 }, &monitors));
    assert!(!rect_covers_a_monitor(Rect { x: 1, y: 0, width: 1919, height: 1080 }, &monitors));
    assert!(!rect_covers_a_monitor(Rect { x: 0, y: 0, width: 1920, height: 1079 }, &monitors));
    assert!(!rect_covers_a_monitor(FULL_HD, &Vec::new()));
}

#[test]
fn windows_are_centred_on_a_monitor() {
    assert_eq!(center_on(FULL_HD, 1180, 760), (370, 160));
    assert_eq!(center_on(Rect { x: -1920, y: 100, ..FULL_HD }, 1181, 761), (-1551, 259));
    assert_eq!(center_on(FULL_HD, 4000, 4000), (0, 0));
}

#[test]
fn fight_windows_cascade() {
    let mut labels: Vec<String> = vec!["main".to_string(), "details".to_string()];
    for expected in [0, 34, 68, 102, 136, 170, 0, 34] {
        assert_eq!(cascade_offset(&labels), expected);
        labels.push("details-x".to_string());
    }
}

#[test]
fn remembered_places_are_restored_on_screen() {
    let monitors = vec![FULL_HD];
    let restore = |x, y, w, h| restore_window_geometry(x, y, w, h, &monitors);
    assert_eq!(
        restore(Some(" 100 "), Some("200"), Some("800"), Some("600")),
        Some(Placement { x: 100, y: 200, size: Some((800, 600)) })
    );
    assert_eq!(
        restore(Some("-64"), Some("-64"), Some("200"), Some("600")),
        Some(Placement { x: -64, y: -64, size: None })
    );
    assert_eq!(
        restore(Some("0"), Some("0"), Some("201"), Some("151")),
        Some(Placement { x: 0, y: 0, size: Some((201, 151)) })
    );
    assert_eq!(
        restore(Some("0"), Some("0"), None, Some("600")),
        Some(Placement { x: 0, y: 0, size: None })
    );
    assert_eq!(restore(Some("-65"), Some("0"), None, None), None);
    assert_eq!(restore(Some("1920"), Some("0"), None, None), None);
    assert_eq!(restore(Some("0"), Some("1080"), None, None), None);
    assert_eq!(restore(Some("x"), Some("0"), None, None), None);
    assert_eq!(restore(None, Some("0"), None, None), None);
}

#[test]
fn minimized_places_are_not_restored() {
    let everywhere = vec![Rect { x: -40_000, y: -40_000, width: 80_000, height: 80_000 }];
    let restore = |x, y| restore_window_geometry(Some(x), Some(y), None, None, &everywhere);
    assert!(restore("-9999", "-9999").is_some());
    assert!(restore("-10000", "0").is_none());
    assert!(restore("0", "-32000").is_none());
    assert_eq!(restore_overlay(Some("5"), Some("-6")), Some((5, -6)));
    assert_eq!(restore_overlay(Some("-10000"), Some("0")), None);
    assert_eq!(restore_overlay(Some("-9999"), Some("0")), Some((-9999, 0)));
    assert_eq!(restore_overlay(Some(" 5"), Some("0")), None);
    assert_eq!(restore_overlay(None, Some("0")), None);
}

#[test]
fn new_windows_go_where_they_were_unless_picked() {
    let memory = Placement { x: 1, y: 2, size: None };
    let remembered = FirstPlace::Remembered(memory);
    let place = |window| first_place(window, Some(memory));
    assert_eq!(place(NewWindow::PinnedDetails(false)), remembered);
    assert_eq!(place(NewWindow::PinnedDetails(true)), FirstPlace::WholeMonitor);
    assert_eq!(place(NewWindow::FloatingDetails(true)), remembered);
    assert_eq!(place(NewWindow::FloatingDetails(false)), FirstPlace::BesideMeter);
    assert_eq!(place(NewWindow::Fight), FirstPlace::BesideMeter);
    assert_eq!(place(NewWindow::History), remembered);
    assert_eq!(place(NewWindow::Settings), remembered);
    let fresh = |window| first_place(window, None);
    assert_eq!(fresh(NewWindow::PinnedDetails(false)), FirstPlace::WholeMonitor);
    assert_eq!(fresh(NewWindow::FloatingDetails(true)), FirstPlace::BesideMeter);
    assert_eq!(fresh(NewWindow::History), FirstPlace::BesideMeter);
    assert_eq!(fresh(NewWindow::Settings), FirstPlace::Middle);
}

#[test]
fn the_users_choice_is_marked() {
    assert!(details_geometry_is_user_placed(Some(" true ")));
    assert!(!details_geometry_is_user_placed(Some("yes")));
    assert!(!details_geometry_is_user_placed(None));
}

fn texts(settings: &[(String, String)]) -> Vec<(&str, &str)> {
    settings.iter().map(|(k, v)| (k.as_str(), v.as_str())).collect()
}

#[test]
fn open_windows_are_remembered() {
    let monitors = vec![FULL_HD];
    let window = WindowState {
        visible: true,
        position: Some((-5, 30)),
        size: Some((800, 600)),
    };
    assert_eq!(
        texts(&geometry_settings("history", false, window, &monitors)),
        vec![
            ("window.history.x", "-5"),
            ("window.history.y", "30"),
            ("window.history.w", "800"),
            ("window.history.h", "600"),
        ]
    );
    assert_eq!(
        texts(&geometry_settings("details", false, window, &monitors)).last(),
        Some(&("window.details.userPlaced", "true"))
    );
    assert!(geometry_settings("details", true, window, &monitors).is_empty());
    assert_eq!(geometry_settings("settings", true, window, &monitors).len(), 4);
    let hidden = WindowState { visible: false, ..window };
    assert!(geometry_settings("history", false, hidden, &monitors).is_empty());
}

#[test]
fn filling_and_tiny_windows_earn_no_mark() {
    let monitors = vec![FULL_HD];
    let filling = WindowState { visible: true, position: Some((0, 0)), size: Some((1920, 1080)) };
    assert_eq!(geometry_settings("details", false, filling, &monitors).len(), 4);
    let unknown = WindowState { visible: true, position: None, size: Some((800, 600)) };
    assert_eq!(geometry_settings("details", false, unknown, &monitors).len(), 2);
    let tiny = WindowState { visible: true, position: Some((0, 0)), size: Some((100, 600)) };
    assert_eq!(geometry_settings("history", false, tiny, &monitors).len(), 2);
    let away = WindowState { visible: true, position: Some((-32000, -32000)), size: Some((800, 600)) };
    assert_eq!(geometry_settings("history", false, away, &monitors).len(), 2);
}

#[test]
fn what_is_remembered_is_restored() {
    let monitors = vec![FULL_HD];
    let window = WindowState { visible: true, position: Some((12, 34)), size: Some((800, 600)) };
    let stored = geometry_settings("history", false, window, &monitors);
    let get = |part: &str| {
        let key = window_setting_key("history", part);
        stored.iter().find(|(k, _)| *k == key).map(|(_, v)| v.as_str())
    };
    assert_eq!(
        restore_window_geometry(get("x"), get("y"), get("w"), get("h"), &monitors),
        Some(Placement { x: 12, y: 34, size: Some((800, 600)) })
    );
}

#[test]
fn the_meters_own_place_is_remembered() {
    assert_eq!(texts(&overlay_settings(7, -8)), vec![("window.x", "7"), ("window.y", "-8")]);
    assert!(overlay_settings(-10_000, 0).is_empty());
    assert!(overlay_settings(0, -32_000).is_empty());
}

fn monitor(name: Option<&str>, x: i32, y: i32) -> MonitorInfo {
    MonitorInfo {
        name: name.map(|n| n.to_string()),
        area: Rect { x, y, ..FULL_HD },
    }
}

#[test]
fn the_primary_monitor_is_offered_first() {
    let monitors = vec![
        monitor(Some("left"), -1920, 0),
        monitor(Some("main"), 0, 0),
        monitor(None, 1920, 0),
        monitor(Some("up"), 0, -1080),
        monitor(Some("down"), 0, 1080),
        monitor(Some("over"), 10, 10),
    ];
    let primary = monitor(Some("main"), 0, 0);
    let list = list_monitors(&monitors, Some(&primary));
    let indices: Vec<usize> = list.iter().map(|e| e.index).collect();
    assert_eq!(indices, vec![1, 0, 2, 3, 4, 5]);
    let names: Vec<&str> = list.iter().map(|e| e.name.as_str()).collect();
    assert_eq!(names, vec!["main", "left", "Display 3", "up", "down", "over"]);
    let sides: Vec<String> = list.iter().map(|e| e.side.text()).collect();
    assert_eq!(sides, vec!["", "left", "right", "above", "below", ""]);
    assert!(list[0].is_primary);
    assert!(!list[1].is_primary);
    let areas: Vec<Rect> = list.iter().map(|e| e.area).collect();
    assert_eq!(areas[0], FULL_HD);
    assert_eq!(areas[1], Rect { x: -1920, y: 0, width: 1920, height: 1080 });
    assert_eq!(areas[5], Rect { x: 10, y: 10, width: 1920, height: 1080 });
    for (number, entry) in list.iter().enumerate() {
        assert_eq!(picker_number(&monitors, Some(&primary), entry.index), number + 1);
    }
}

#[test]
fn without_a_primary_monitor_the_order_stays() {
    let monitors = vec![monitor(Some("a"), 0, 0), monitor(Some("b"), 1920, 0)];
    let list = list_monitors(&monitors, None);
    assert_eq!(list.len(), 2);
    assert_eq!(list[1].index, 1);
    assert_eq!(list[1].side, Side::Nowhere);
    assert!(!list[0].is_primary);
    assert_eq!(picker_number(&monitors, None, 1), 2);
    assert!(!is_primary_monitor(&monitors, None, 0));
    assert!(is_primary_monitor(&monitors, Some(&monitor(Some("b"), 1920, 0)), 1));
}

#[test]
fn nameless_monitors_count_as_primary_in_the_numbering() {
    let monitors = vec![monitor(Some("a"), 0, 0), monitor(None, 1920, 0)];
    assert_eq!(picker_number(&monitors, None, 1), 1);
    assert_eq!(picker_number(&monitors, None, 0), 2);
    assert!(!is_primary_monitor(&monitors, None, 1));
    assert!(is_primary_monitor(&monitors, Some(&monitor(Some(""), 0, 0)), 1));
}

#[test]
fn monitors_must_be_connected() {
    assert_eq!(check_monitor(2, 1), Ok(()));
    assert_eq!(check_monitor(0, 0), Err("no monitors reported".to_string()));
    assert_eq!(check_monitor(2, 12), Err("monitor 12 is not connected".to_string()));
}

const AWAY: OverlayState = OverlayState {
    game_in_front: false,
    focused: false,
    visible: true,
    minimized: false,
};

fn after_grace() -> AutoHide {
    let mut hide = AutoHide::new();
    for _ in 0..20 {
        assert_eq!(hide.tick(Some("true"), Some(AWAY)), HideAction::Nothing);
    }
    hide
}

#[test]
fn the_meter_hides_after_a_while() {
    let mut hide = after_grace();
    assert_eq!(hide.tick(Some("true"), Some(AWAY)), HideAction::Nothing);
    assert_eq!(hide.tick(Some("true"), Some(AWAY)), HideAction::Nothing);
    assert_eq!(hide.tick(Some("true"), Some(AWAY)), HideAction::Minimize);
    let minimized = OverlayState { minimized: true, ..AWAY };
    assert_eq!(hide.tick(Some("true"), Some(minimized)), HideAction::Nothing);
    let wanted = OverlayState { game_in_front: true, minimized: true, ..AWAY };
    assert_eq!(hide.tick(Some("true"), Some(wanted)), HideAction::Show);
    assert_eq!(hide.tick(Some("true"), Some(AWAY)), HideAction::Nothing);
}

#[test]
fn focus_starts_the_delay_over() {
    let mut hide = after_grace();
    hide.tick(Some("true"), Some(AWAY));
    hide.tick(Some("true"), Some(AWAY));
    let focused = OverlayState { focused: true, ..AWAY };
    assert_eq!(hide.tick(Some("true"), Some(focused)), HideAction::Nothing);
    assert_eq!(hide.tick(Some("true"), Some(AWAY)), HideAction::Nothing);
    assert_eq!(hide.tick(Some("true"), Some(AWAY)), HideAction::Nothing);
    assert_eq!(hide.tick(Some("true"), Some(AWAY)), HideAction::Minimize);
}

#[test]
fn hiding_must_be_turned_on() {
    let mut hide = after_grace();
    for setting in [None, Some("false"), Some("TRUE"), Some(" true")] {
        for _ in 0..5 {
            assert_eq!(hide.tick(setting, Some(AWAY)), HideAction::Nothing);
        }
    }
    assert_eq!(hide.tick(Some("true"), None), HideAction::Nothing);
}

#[test]
fn places_are_saved_every_tenth_tick() {
    let mut hide = AutoHide::new();
    let mut saves = Vec::new();
    for _ in 0..25 {
        hide.tick(None, None);
        if hide.saves_places() {
            saves.push(hide.ticks());
        }
    }
    assert_eq!(saves, vec![10, 20]);
}
