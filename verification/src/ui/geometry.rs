//! Where windows are put, and how their places are remembered.

use vstd::prelude::*;

use crate::numbers::{
    as_i32, decimal, decimal_text, is_digit, law_number_survives_as_text, lemma_decimal,
    parse_i32, signed_decimal,
};
use crate::text::{chars_of, is_white_space, same_text, trimmed};
use crate::ui::routing::{fight_label, law_fight_windows_are_their_own};

verus! {

/// Coordinates from here down are those of a minimized window.
pub const NOWHERE: i32 = -10_000;

/// How far a window may stick out over the left and upper edge of a monitor.
pub const EDGE_SLACK: i32 = 64;

/// A remembered window must be wider than this.
pub const MIN_RESTORED_WIDTH: i32 = 200;

/// A remembered window must be higher than this.
pub const MIN_RESTORED_HEIGHT: i32 = 150;

/// Only a window larger than this in both directions is remembered.
pub const MIN_SAVED_SIZE: u32 = 100;

/// A rectangle in physical pixels. Where it ends is reckoned with width and height
/// as signed 32-bit numbers, like positions.
#[derive(Clone, Copy, Debug, PartialEq, Eq, Structural)]
pub struct Rect {
    pub x: i32,
    pub y: i32,
    pub width: u32,
    pub height: u32,
}

impl Rect {
    /// The first column past the rectangle.
    pub open spec fn right(self) -> int {
        self.x + (self.width as i32)
    }

    /// The first row past the rectangle.
    pub open spec fn bottom(self) -> int {
        self.y + (self.height as i32)
    }

    /// Whether this rectangle swallows all of `other`.
    pub open spec fn covers(self, other: Rect) -> bool {
        &&& self.x <= other.x
        &&& self.y <= other.y
        &&& self.right() >= other.right()
        &&& self.bottom() >= other.bottom()
    }

    /// Whether a window at `x` and `y` is on this monitor.
    pub open spec fn shows(self, x: int, y: int) -> bool {
        &&& self.x - EDGE_SLACK <= x < self.right()
        &&& self.y - EDGE_SLACK <= y < self.bottom()
    }

    /// The first column past the rectangle.
    pub fn right_edge(&self) -> (edge: i64)
        ensures
            edge == self.right(),
    {
        self.x as i64 + (#[verifier::truncate] (self.width as i32)) as i64
    }

    /// The first row past the rectangle.
    pub fn bottom_edge(&self) -> (edge: i64)
        ensures
            edge == self.bottom(),
    {
        self.y as i64 + (#[verifier::truncate] (self.height as i32)) as i64
    }
}

/// Whether a window swallows a whole monitor, which nobody does by dragging.
pub fn rect_covers_a_monitor(window: Rect, monitors: &Vec<Rect>) -> (covers: bool)
    ensures
        covers == exists|i: int|
            0 <= i < monitors@.len() && window.covers(#[trigger] monitors@[i]),
{
    let mut i: usize = 0;
    while i < monitors.len()
        invariant
            i <= monitors@.len(),
            forall|j: int| 0 <= j < i ==> !window.covers(#[trigger] monitors@[j]),
        decreases monitors.len() - i,
    {
        let m: Rect = monitors[i];
        if window.x <= m.x && window.y <= m.y && window.right_edge() >= m.right_edge()
            && window.bottom_edge() >= m.bottom_edge() {
            assert(window.covers(monitors@[i as int]));
            return true;
        }
        i += 1;
    }
    false
}

/// Half of what `outer` exceeds `inner` by, rounded down; none where it does not.
pub open spec fn half_excess(outer: u32, inner: u32) -> int {
    if (outer as i32) > (inner as i32) {
        ((outer as i32) - (inner as i32)) / 2
    } else {
        0
    }
}

/// Half of what `outer` exceeds `inner` by.
fn excess_half(outer: u32, inner: u32) -> (half: i64)
    ensures
        half == half_excess(outer, inner),
        half >= 0,
{
    let outer: i64 = (#[verifier::truncate] (outer as i32)) as i64;
    let inner: i64 = (#[verifier::truncate] (inner as i32)) as i64;
    if outer > inner {
        (outer - inner) / 2
    } else {
        0
    }
}

/// Where a window of the given size stands in the middle of a monitor. One that
/// is too large begins at the monitor's corner.
pub fn center_on(monitor: Rect, width: u32, height: u32) -> (at: (i64, i64))
    ensures
        at.0 == monitor.x + half_excess(monitor.width, width),
        at.1 == monitor.y + half_excess(monitor.height, height),
{
    (
        monitor.x as i64 + excess_half(monitor.width, width),
        monitor.y as i64 + excess_half(monitor.height, height),
    )
}

/// How many of `labels` are those of fight windows.
pub open spec fn fight_windows(labels: Seq<String>) -> nat
    decreases labels.len(),
{
    if labels.len() == 0 {
        0
    } else {
        fight_windows(labels.drop_last()) + if "details-"@.is_prefix_of(labels.last()@) {
            1nat
        } else {
            0nat
        }
    }
}

/// Whether `label` is that of a fight window.
fn is_fight_window(label: &str) -> (is: bool)
    ensures
        is == "details-"@.is_prefix_of(label@),
{
    let prefix: Vec<char> = chars_of("details-");
    let chars: Vec<char> = chars_of(label);
    if chars.len() < prefix.len() {
        return false;
    }
    let mut i: usize = 0;
    while i < prefix.len()
        invariant
            i <= prefix@.len() <= chars@.len(),
            prefix@ == "details-"@,
            chars@ == label@,
            forall|j: int| 0 <= j < i ==> prefix@[j] == chars@[j],
        decreases prefix.len() - i,
    {
        if chars[i] != prefix[i] {
            assert("details-"@[i as int] != label@[i as int]);
            return false;
        }
        i += 1;
    }
    true
}

/// How far to shift a new fight window when `open` of them are open.
pub open spec fn cascade(open: nat) -> nat {
    34 * (open % 6)
}

/// Six fight windows in a row get different places, each a step further than the one
/// before, and the seventh that of the first again.
pub proof fn law_fight_windows_cascade(open: nat)
    ensures
        cascade(0) == 0,
        cascade(open + 6) == cascade(open),
        open % 6 != 5 ==> cascade(open + 1) == cascade(open) + 34,
        open % 6 == 5 ==> cascade(open + 1) == 0,
{
}

/// How far to shift a new fight window, so that it does not land exactly on
/// another: a step for each that is open, and back to none after six.
pub fn cascade_offset(labels: &Vec<String>) -> (offset: i32)
    ensures
        offset == cascade(fight_windows(labels@)),
{
    let mut step: usize = 0;
    let mut i: usize = 0;
    assert(labels@.take(0) =~= Seq::<String>::empty());
    while i < labels.len()
        invariant
            i <= labels@.len(),
            step <= i,
            step == fight_windows(labels@.take(i as int)),
        decreases labels.len() - i,
    {
        assert(labels@.take(i + 1).drop_last() =~= labels@.take(i as int));
        if is_fight_window(labels[i].as_str()) {
            step += 1;
        }
        i += 1;
    }
    assert(labels@.take(i as int) =~= labels@);
    34 * ((step % 6) as i32)
}

/// Where a remembered window goes.
#[derive(Clone, Copy, Debug, PartialEq, Eq)]
pub struct Placement {
    pub x: i32,
    pub y: i32,
    /// Width and height, where they are to be restored too.
    pub size: Option<(u32, u32)>,
}

/// The number that a setting holds, blanks around it aside.
pub open spec fn setting_number(setting: Option<&str>) -> Option<i32> {
    match setting {
        Some(text) => as_i32(trimmed(text@)),
        None => None,
    }
}

/// Whether a window at `x` and `y` is on any of `monitors`.
pub open spec fn on_some_monitor(monitors: Seq<Rect>, x: int, y: int) -> bool {
    exists|i: int| 0 <= i < monitors.len() && (#[trigger] monitors[i]).shows(x, y)
}

/// Where a window goes whose place and size were remembered in settings: nowhere
/// unless its place is known and still on a screen.
pub open spec fn remembered(
    x: Option<i32>,
    y: Option<i32>,
    w: Option<i32>,
    h: Option<i32>,
    monitors: Seq<Rect>,
) -> Option<Placement> {
    if x is Some && y is Some && x->0 > NOWHERE && y->0 > NOWHERE && on_some_monitor(
        monitors,
        x->0 as int,
        y->0 as int,
    ) {
        Some(
            Placement {
                x: x->0,
                y: y->0,
                size: if w is Some && h is Some && w->0 > MIN_RESTORED_WIDTH && h->0
                    > MIN_RESTORED_HEIGHT {
                    Some((w->0 as u32, h->0 as u32))
                } else {
                    None
                },
            },
        )
    } else {
        None
    }
}

/// Whether a window at `x` and `y` is on any of `monitors`.
fn is_on_some_monitor(monitors: &Vec<Rect>, x: i32, y: i32) -> (on: bool)
    ensures
        on == on_some_monitor(monitors@, x as int, y as int),
{
    let mut i: usize = 0;
    while i < monitors.len()
        invariant
            i <= monitors@.len(),
            forall|j: int| 0 <= j < i ==> !(#[trigger] monitors@[j]).shows(x as int, y as int),
        decreases monitors.len() - i,
    {
        let m: Rect = monitors[i];
        if x as i64 >= m.x as i64 - EDGE_SLACK as i64 && (x as i64) < m.right_edge() && y as i64
            >= m.y as i64 - EDGE_SLACK as i64 && (y as i64) < m.bottom_edge() {
            assert(monitors@[i as int].shows(x as int, y as int));
            return true;
        }
        i += 1;
    }
    false
}

/// The number that a setting holds.
fn read_setting(setting: Option<&str>) -> (value: Option<i32>)
    ensures
        value == setting_number(setting),
{
    match setting {
        Some(text) => {
            let chars: Vec<char> = chars_of(text.trim());
            parse_i32(chars.as_slice())
        },
        None => None,
    }
}

/// Where a tool window goes by its settings. Nothing is restored onto a screen
/// that is no longer there, where the window could not be reached.
pub fn restore_window_geometry(
    x: Option<&str>,
    y: Option<&str>,
    w: Option<&str>,
    h: Option<&str>,
    monitors: &Vec<Rect>,
) -> (placement: Option<Placement>)
    ensures
        placement == remembered(
            setting_number(x),
            setting_number(y),
            setting_number(w),
            setting_number(h),
            monitors@,
        ),
{
    let (x, y): (i32, i32) = match (read_setting(x), read_setting(y)) {
        (Some(x), Some(y)) => (x, y),
        _ => {
            return None;
        },
    };
    if x <= NOWHERE || y <= NOWHERE {
        return None;
    }
    let size: Option<(u32, u32)> = match (read_setting(w), read_setting(h)) {
        (Some(w), Some(h)) => if w > MIN_RESTORED_WIDTH && h > MIN_RESTORED_HEIGHT {
            Some((w as u32, h as u32))
        } else {
            None
        },
        _ => None,
    };
    if is_on_some_monitor(monitors, x, y) {
        Some(Placement { x, y, size })
    } else {
        None
    }
}

/// Where the meter itself goes by its settings.
pub open spec fn overlay_place(x: Option<&str>, y: Option<&str>) -> Option<(i32, i32)> {
    match (x, y) {
        (Some(x), Some(y)) => match (as_i32(x@), as_i32(y@)) {
            (Some(x), Some(y)) => if x > NOWHERE && y > NOWHERE {
                Some((x, y))
            } else {
                None
            },
            _ => None,
        },
        _ => None,
    }
}

/// Where the meter itself goes by its settings. The place of a minimized window
/// is not restored.
pub fn restore_overlay(x: Option<&str>, y: Option<&str>) -> (at: Option<(i32, i32)>)
    ensures
        at == overlay_place(x, y),
{
    match (x, y) {
        (Some(x), Some(y)) => {
            let x: Vec<char> = chars_of(x);
            let y: Vec<char> = chars_of(y);
            match (parse_i32(x.as_slice()), parse_i32(y.as_slice())) {
                (Some(x), Some(y)) => if x > NOWHERE && y > NOWHERE {
                    Some((x, y))
                } else {
                    None
                },
                _ => None,
            }
        },
        _ => None,
    }
}

/// A window beside the meter that has just been built.
#[derive(Clone, Copy, Debug, PartialEq, Eq, Structural)]
pub enum NewWindow {
    /// The details on a monitor; whether the user has just picked it.
    PinnedDetails(bool),
    /// The details tied to no monitor; whether their remembered place is one that
    /// the user chose.
    FloatingDetails(bool),
    Fight,
    History,
    Settings,
}

/// Where a window that has just been built is put.
#[derive(Clone, Copy, Debug, PartialEq, Eq)]
pub enum FirstPlace {
    /// Where it was remembered.
    Remembered(Placement),
    /// Over the whole of the monitor it is pinned to.
    WholeMonitor,
    /// In the middle of the monitor that the meter is on.
    BesideMeter,
    /// In the middle of whichever monitor the system takes.
    Middle,
}

/// Whether a remembered place counts for a new window: not where the user has
/// just picked another, nor where it was not the user who chose it, nor for
/// fights, which are not remembered.
pub open spec fn memory_counts(window: NewWindow) -> bool {
    match window {
        NewWindow::PinnedDetails(picked) => !picked,
        NewWindow::FloatingDetails(chosen) => chosen,
        NewWindow::Fight => false,
        NewWindow::History => true,
        NewWindow::Settings => true,
    }
}

/// Where a new window is put when no remembered place counts.
pub open spec fn place_without_memory(window: NewWindow) -> FirstPlace {
    match window {
        NewWindow::PinnedDetails(_) => FirstPlace::WholeMonitor,
        NewWindow::FloatingDetails(_) => FirstPlace::BesideMeter,
        NewWindow::Fight => FirstPlace::BesideMeter,
        NewWindow::History => FirstPlace::BesideMeter,
        NewWindow::Settings => FirstPlace::Middle,
    }
}

/// Where a window that has just been built is put, given where it was remembered.
pub open spec fn place_of(window: NewWindow, memory: Option<Placement>) -> FirstPlace {
    if memory_counts(window) && memory is Some {
        FirstPlace::Remembered(memory->0)
    } else {
        place_without_memory(window)
    }
}

/// A new window goes to its remembered place exactly where that is known and counts, and
/// without it to where its kind goes.
pub proof fn law_memory_decides_where_it_counts(window: NewWindow, memory: Placement)
    ensures
        memory_counts(window) ==> place_of(window, Some(memory)) == FirstPlace::Remembered(memory),
        !memory_counts(window) ==> place_of(window, Some(memory)) == place_of(window, None),
        place_of(window, None) == place_without_memory(window),
        !(place_of(window, None) is Remembered),
{
}

/// Where a window that has just been built is put, given where it was remembered.
pub fn first_place(window: NewWindow, memory: Option<Placement>) -> (place: FirstPlace)
    ensures
        place == place_of(window, memory),
{
    let (counts, otherwise): (bool, FirstPlace) = match window {
        NewWindow::PinnedDetails(picked) => (!picked, FirstPlace::WholeMonitor),
        NewWindow::FloatingDetails(chosen) => (chosen, FirstPlace::BesideMeter),
        NewWindow::Fight => (false, FirstPlace::BesideMeter),
        NewWindow::History => (true, FirstPlace::BesideMeter),
        NewWindow::Settings => (true, FirstPlace::Middle),
    };
    match memory {
        Some(placement) => if counts {
            FirstPlace::Remembered(placement)
        } else {
            otherwise
        },
        None => otherwise,
    }
}

/// Whether a setting says that the user chose the place of the details.
pub open spec fn says_user_placed(setting: Option<&str>) -> bool {
    setting is Some && trimmed(setting->0@) == "true"@
}

/// The user chose the place of the details if the setting reads `true`, blanks around it
/// aside, and not otherwise. The setting is one of the window's own.
pub proof fn law_choice_of_place_is_read_as_written(setting: &str)
    ensures
        says_user_placed(Some(setting)) <==> trimmed(setting@) == seq!['t', 'r', 'u', 'e'],
        !says_user_placed(None),
        user_placed_key() == geometry_key("details"@, "userPlaced"@),
{
    reveal_strlit("true");
    assert("true"@ =~= seq!['t', 'r', 'u', 'e']);
    reveal_strlit("window.details.userPlaced");
    reveal_strlit("window.");
    reveal_strlit("details");
    reveal_strlit(".");
    reveal_strlit("userPlaced");
    assert(user_placed_key() =~= geometry_key("details"@, "userPlaced"@));
}

/// Whether the remembered place of the details is one that the user chose.
pub fn details_geometry_is_user_placed(setting: Option<&str>) -> (placed: bool)
    ensures
        placed == says_user_placed(setting),
{
    match setting {
        Some(value) => same_text(value.trim(), "true"),
        None => false,
    }
}

/// The setting that tells whether the user chose the place of the details.
pub open spec fn user_placed_key() -> Seq<char> {
    "window.details.userPlaced"@
}

/// The setting that holds one number of a window's place.
pub open spec fn geometry_key(label: Seq<char>, part: Seq<char>) -> Seq<char> {
    "window."@ + label + "."@ + part
}

/// The settings of a list, by key and value.
pub open spec fn setting_list(settings: Seq<(String, String)>) -> Seq<(Seq<char>, Seq<char>)> {
    settings.map_values(|setting: (String, String)| (setting.0@, setting.1@))
}

/// The setting that holds one number of a window's place.
pub fn window_setting_key(label: &str, part: &str) -> (key: String)
    ensures
        key@ == geometry_key(label@, part@),
{
    let mut key: String = "window.".to_owned();
    key.append(label);
    key.append(".");
    key.append(part);
    key
}

/// What is known of an open window.
#[derive(Clone, Copy, Debug, PartialEq, Eq)]
pub struct WindowState {
    pub visible: bool,
    /// Left and upper edge, where they can be told.
    pub position: Option<(i32, i32)>,
    /// Width and height, where they can be told.
    pub size: Option<(u32, u32)>,
}

impl WindowState {
    /// Whether the window's place is worth remembering.
    pub open spec fn has_place(self) -> bool {
        self.position is Some && (self.position->0).0 > NOWHERE && (self.position->0).1 > NOWHERE
    }

    /// Whether the window's size is worth remembering.
    pub open spec fn has_size(self) -> bool {
        self.size is Some && (self.size->0).0 > MIN_SAVED_SIZE && (self.size->0).1
            > MIN_SAVED_SIZE
    }

    /// Whether the window fills a monitor. What cannot be told counts as filling.
    pub open spec fn fills(self, monitors: Seq<Rect>) -> bool {
        self.position is Some && self.size is Some ==> exists|i: int|
            0 <= i < monitors.len() && (Rect {
                x: (self.position->0).0,
                y: (self.position->0).1,
                width: (self.size->0).0,
                height: (self.size->0).1,
            }).covers(#[trigger] monitors[i])
    }
}

/// Whether a window with `label` is remembered at all. The windows of fights are
/// not: they are opened to be read and closed, and remembering each by its fight
/// would grow the settings without bound.
pub open spec fn is_remembered(label: Seq<char>) -> bool {
    label == "details"@ || label == "settings"@ || label == "history"@
}

/// The labels of the windows that are remembered.
pub fn remembered_labels() -> (labels: Vec<String>)
    ensures
        labels@.len() == 3,
        labels@[0]@ == "details"@,
        labels@[1]@ == "settings"@,
        labels@[2]@ == "history"@,
{
    let mut labels: Vec<String> = Vec::new();
    labels.push("details".to_owned());
    labels.push("settings".to_owned());
    labels.push("history".to_owned());
    labels
}

/// The settings that remember a tool window. A window that is not shown is not
/// remembered, nor the details while a setting pins them to a monitor, and a
/// monitor-filling place of the details is not taken for the user's choice.
pub open spec fn remembering(
    label: Seq<char>,
    pinned: bool,
    window: WindowState,
    monitors: Seq<Rect>,
) -> Seq<(Seq<char>, Seq<char>)> {
    let details = label == "details"@;
    if !is_remembered(label) || (details && pinned) || !window.visible {
        Seq::empty()
    } else {
        let place = if window.has_place() {
            seq![
                (geometry_key(label, "x"@), signed_decimal((window.position->0).0 as int)),
                (geometry_key(label, "y"@), signed_decimal((window.position->0).1 as int)),
            ]
        } else {
            Seq::empty()
        };
        let size = if window.has_size() {
            seq![
                (geometry_key(label, "w"@), signed_decimal((window.size->0).0 as int)),
                (geometry_key(label, "h"@), signed_decimal((window.size->0).1 as int)),
            ]
        } else {
            Seq::empty()
        };
        let choice = if details && !window.fills(monitors) {
            seq![(user_placed_key(), "true"@)]
        } else {
            Seq::empty()
        };
        place + size + choice
    }
}

/// The settings to store for a tool window that is open.
pub fn geometry_settings(
    label: &str,
    pinned: bool,
    window: WindowState,
    monitors: &Vec<Rect>,
) -> (settings: Vec<(String, String)>)
    ensures
        setting_list(settings@) == remembering(label@, pinned, window, monitors@),
{
    let details: bool = same_text(label, "details");
    let remembered: bool = details || same_text(label, "settings") || same_text(label, "history");
    let mut settings: Vec<(String, String)> = Vec::new();
    if !remembered || (details && pinned) || !window.visible {
        assert(setting_list(settings@) =~= Seq::empty());
        return settings;
    }
    let ghost mut expected: Seq<(Seq<char>, Seq<char>)> = Seq::empty();
    if let Some((x, y)) = window.position {
        if x > NOWHERE && y > NOWHERE {
            settings.push((window_setting_key(label, "x"), decimal_text(x as i64)));
            settings.push((window_setting_key(label, "y"), decimal_text(y as i64)));
            proof {
                expected = seq![
                    (geometry_key(label@, "x"@), signed_decimal(x as int)),
                    (geometry_key(label@, "y"@), signed_decimal(y as int)),
                ];
            }
        }
    }
    assert(setting_list(settings@) =~= expected);
    if let Some((w, h)) = window.size {
        if w > MIN_SAVED_SIZE && h > MIN_SAVED_SIZE {
            settings.push((window_setting_key(label, "w"), decimal_text(w as i64)));
            settings.push((window_setting_key(label, "h"), decimal_text(h as i64)));
            proof {
                expected = expected + seq![
                    (geometry_key(label@, "w"@), signed_decimal(w as int)),
                    (geometry_key(label@, "h"@), signed_decimal(h as int)),
                ];
            }
        }
    }
    assert(setting_list(settings@) =~= expected);
    let filling: bool = match (window.position, window.size) {
        (Some((x, y)), Some((width, height))) => rect_covers_a_monitor(
            Rect { x, y, width, height },
            monitors,
        ),
        _ => true,
    };
    if details && !filling {
        settings.push(("window.details.userPlaced".to_owned(), "true".to_owned()));
        proof {
            expected = expected + seq![(user_placed_key(), "true"@)];
        }
    }
    assert(setting_list(settings@) =~= expected);
    assert(expected =~= remembering(label@, pinned, window, monitors@));
    settings
}

/// The settings that remember the meter itself, at `x` and `y`.
pub open spec fn overlay_memory(x: i32, y: i32) -> Seq<(Seq<char>, Seq<char>)> {
    if x > NOWHERE && y > NOWHERE {
        seq![("window.x"@, signed_decimal(x as int)), ("window.y"@, signed_decimal(y as int))]
    } else {
        Seq::empty()
    }
}

/// What is remembered of the meter is where it goes back to, and nothing is remembered of
/// it while it is minimized.
pub proof fn law_meter_is_remembered_where_it_is(x: i32, y: i32, texts: (&str, &str))
    ensures
        x <= -10_000 || y <= -10_000 ==> overlay_memory(x, y).len() == 0,
        x > -10_000 && y > -10_000 ==> overlay_memory(x, y).len() == 2,
        x > -10_000 && y > -10_000 && texts.0@ == overlay_memory(x, y)[0].1 && texts.1@
            == overlay_memory(x, y)[1].1 ==> overlay_place(Some(texts.0), Some(texts.1)) == Some(
            (x, y),
        ),
        x > -10_000 && y > -10_000 ==> overlay_memory(x, y)[0].0 == "window.x"@ && overlay_memory(
            x,
            y,
        )[1].0 == "window.y"@,
{
    law_number_survives_as_text(x as int);
    law_number_survives_as_text(y as int);
}

/// The settings to store for the meter itself, at `x` and `y`.
pub fn overlay_settings(x: i32, y: i32) -> (settings: Vec<(String, String)>)
    ensures
        setting_list(settings@) == overlay_memory(x, y),
{
    let mut settings: Vec<(String, String)> = Vec::new();
    if x > NOWHERE && y > NOWHERE {
        settings.push(("window.x".to_owned(), decimal_text(x as i64)));
        settings.push(("window.y".to_owned(), decimal_text(y as i64)));
        assert(setting_list(settings@) =~= seq![
            ("window.x"@, signed_decimal(x as int)),
            ("window.y"@, signed_decimal(y as int)),
        ]);
    } else {
        assert(setting_list(settings@) =~= Seq::empty());
    }
    settings
}

/// A text without whitespace at its ends is what is left of it when they are
/// trimmed.
proof fn lemma_already_trimmed(s: Seq<char>)
    requires
        s.len() > 0,
        !is_white_space(s.first()),
        !is_white_space(s.last()),
    ensures
        trimmed(s) == s,
{
}

/// The decimal text of a number has no whitespace at its ends.
proof fn lemma_decimal_is_trimmed(v: int)
    ensures
        trimmed(signed_decimal(v)) == signed_decimal(v),
{
    let s = signed_decimal(v);
    if v < 0 {
        assert(s.last() == decimal((-v) as nat).last());
    } else {
        lemma_decimal(v as nat);
        assert(is_digit(s[0]));
    }
    lemma_already_trimmed(s);
}

/// What was remembered of a window is what is restored, as long as a monitor
/// still shows the place, and the size unless it is too small to be of use.
pub proof fn law_remembered_place_is_restored(
    x: i32,
    y: i32,
    width: u32,
    height: u32,
    texts: (&str, &str, &str, &str),
    monitors: Seq<Rect>,
)
    requires
        x > NOWHERE,
        y > NOWHERE,
        width <= i32::MAX,
        height <= i32::MAX,
        texts.0@ == signed_decimal(x as int),
        texts.1@ == signed_decimal(y as int),
        texts.2@ == signed_decimal(width as int),
        texts.3@ == signed_decimal(height as int),
        on_some_monitor(monitors, x as int, y as int),
    ensures
        remembered(
            setting_number(Some(texts.0)),
            setting_number(Some(texts.1)),
            setting_number(Some(texts.2)),
            setting_number(Some(texts.3)),
            monitors,
        ) == Some(
            Placement {
                x,
                y,
                size: if width > MIN_RESTORED_WIDTH && height > MIN_RESTORED_HEIGHT {
                    Some((width, height))
                } else {
                    None
                },
            },
        ),
        overlay_place(Some(texts.0), Some(texts.1)) == Some((x, y)),
{
    lemma_decimal_is_trimmed(x as int);
    lemma_decimal_is_trimmed(y as int);
    lemma_decimal_is_trimmed(width as int);
    lemma_decimal_is_trimmed(height as int);
    law_number_survives_as_text(x as int);
    law_number_survives_as_text(y as int);
    law_number_survives_as_text(width as int);
    law_number_survives_as_text(height as int);
}

/// While a setting pins the details to a monitor, nothing is remembered of them.
pub proof fn law_pinned_details_are_not_remembered(window: WindowState, monitors: Seq<Rect>)
    ensures
        remembering("details"@, true, window, monitors) == Seq::<(Seq<char>, Seq<char>)>::empty(),
{
}

/// Nothing is ever remembered of the window of a fight.
pub proof fn law_fight_windows_are_not_remembered(
    fight_id: Seq<char>,
    pinned: bool,
    window: WindowState,
    monitors: Seq<Rect>,
)
    ensures
        remembering(fight_label(fight_id), pinned, window, monitors) == Seq::<
            (Seq<char>, Seq<char>),
        >::empty(),
{
    law_fight_windows_are_their_own(fight_id);
    reveal_strlit("details-");
    reveal_strlit("settings");
    assert(fight_label(fight_id)[0] == 'd');
}

/// A rectangle ends where its width and height take it.
pub proof fn law_rectangles_end_behind_their_size(r: Rect)
    requires
        r.width <= 0x7fff_ffff,
        r.height <= 0x7fff_ffff,
    ensures
        r.right() == r.x + r.width,
        r.bottom() == r.y + r.height,
{
}

/// One rectangle covers another exactly when every pixel of the other is one of its own.
pub proof fn law_covering_is_by_the_pixel(a: Rect, b: Rect)
    requires
        0 < b.width <= 0x7fff_ffff,
        0 < b.height <= 0x7fff_ffff,
        a.width <= 0x7fff_ffff,
        a.height <= 0x7fff_ffff,
    ensures
        a.covers(b) <==> forall|x: int, y: int|
            has_pixel(b, x, y) ==> #[trigger] has_pixel(a, x, y),
{
    if forall|x: int, y: int| has_pixel(b, x, y) ==> #[trigger] has_pixel(a, x, y) {
        assert(has_pixel(b, b.x as int, b.y as int));
        assert(has_pixel(a, b.x as int, b.y as int));
        assert(has_pixel(b, b.x + b.width - 1, b.y + b.height - 1));
        assert(has_pixel(a, b.x + b.width - 1, b.y + b.height - 1));
    }
}

/// Whether the pixel in column `x` and row `y` is one of `r`.
pub open spec fn has_pixel(r: Rect, x: int, y: int) -> bool {
    r.x <= x < r.x + r.width && r.y <= y < r.y + r.height
}

/// A window is on a monitor if its corner is, or sticks out by no more than a little over
/// the left and the upper edge.
pub proof fn law_windows_are_on_monitors_by_their_corner(m: Rect, x: int, y: int)
    requires
        m.width <= 0x7fff_ffff,
        m.height <= 0x7fff_ffff,
    ensures
        has_pixel(m, x, y) ==> m.shows(x, y),
        m.shows(x, y) <==> m.x - 64 <= x < m.x + m.width && m.y - 64 <= y < m.y + m.height,
{
}

/// In the middle, as much is left on one side as on the other, to the pixel; what is too
/// large begins at the edge.
pub proof fn law_middle_leaves_even_margins(outer: u32, inner: u32)
    requires
        outer <= 0x7fff_ffff,
        inner <= 0x7fff_ffff,
    ensures
        ({
            let before = half_excess(outer, inner);
            let behind = outer - inner - before;
            &&& inner <= outer ==> before >= 0 && (behind == before || behind == before + 1)
            &&& inner > outer ==> before == 0
        }),
{
}

/// Fight windows are counted one by one, by the beginning of their labels.
pub proof fn law_fight_windows_are_counted_one_by_one(
    a: Seq<String>,
    b: Seq<String>,
    label: String,
)
    ensures
        fight_windows(a + b) == fight_windows(a) + fight_windows(b),
        fight_windows(Seq::empty()) == 0,
        label@.len() >= 8 && label@.take(8) == seq!['d', 'e', 't', 'a', 'i', 'l', 's', '-']
            ==> fight_windows(seq![label]) == 1,
        label@.len() < 8 || label@.take(8) != seq!['d', 'e', 't', 'a', 'i', 'l', 's', '-']
            ==> fight_windows(seq![label]) == 0,
    decreases b.len(),
{
    reveal_strlit("details-");
    let prefix = seq!['d', 'e', 't', 'a', 'i', 'l', 's', '-'];
    assert("details-"@ =~= prefix);
    let one = seq![label];
    assert(one.drop_last() =~= Seq::<String>::empty());
    assert(fight_windows(one.drop_last()) == 0);
    if label@.len() >= 8 {
        assert(label@.take(8) =~= label@.subrange(0, 8));
    }
    if b.len() == 0 {
        assert(a + b =~= a);
    } else {
        law_fight_windows_are_counted_one_by_one(a, b.drop_last(), label);
        assert((a + b).drop_last() =~= a + b.drop_last());
        assert((a + b).last() == b.last());
    }
}

/// A window is put back only where its place is known, is none of a minimized window, and
/// is on a monitor; then exactly there, and in its size where that is of use.
pub proof fn law_window_goes_back_to_its_place(
    x: Option<i32>,
    y: Option<i32>,
    w: Option<i32>,
    h: Option<i32>,
    monitors: Seq<Rect>,
)
    ensures
        ({
            let p = remembered(x, y, w, h, monitors);
            let usable = w is Some && h is Some && w->0 > 200 && h->0 > 150;
            &&& x is None || y is None ==> p is None
            &&& x is Some && x->0 <= -10_000 ==> p is None
            &&& y is Some && y->0 <= -10_000 ==> p is None
            &&& x is Some && y is Some && (forall|i: int|
                0 <= i < monitors.len() ==> !(#[trigger] monitors[i]).shows(
                    x->0 as int,
                    y->0 as int,
                )) ==> p is None
            &&& x is Some && y is Some && x->0 > -10_000 && y->0 > -10_000 && (exists|i: int|
                0 <= i < monitors.len() && (#[trigger] monitors[i]).shows(
                    x->0 as int,
                    y->0 as int,
                )) ==> p is Some && (p->0).x == x->0 && (p->0).y == y->0
            &&& p is Some && usable ==> (p->0).size == Some((w->0 as u32, h->0 as u32))
            &&& p is Some && !usable ==> (p->0).size is None
        }),
{
}

/// The meter goes back to a place that two numbers give, unless it is one of a minimized
/// window.
pub proof fn law_meter_goes_back_to_its_place(x: &str, y: &str)
    ensures
        overlay_place(None, Some(y)) is None,
        overlay_place(Some(x), None) is None,
        as_i32(x@) is None || as_i32(y@) is None ==> overlay_place(Some(x), Some(y)) is None,
        as_i32(x@) is Some && as_i32(y@) is Some ==> {
            let (px, py) = (as_i32(x@)->0, as_i32(y@)->0);
            &&& px > -10_000 && py > -10_000 ==> overlay_place(Some(x), Some(y)) == Some((px, py))
            &&& px <= -10_000 || py <= -10_000 ==> overlay_place(Some(x), Some(y)) is None
        },
        setting_number(None) is None,
        setting_number(Some(x)) == as_i32(trimmed(x@)),
{
}

/// What is remembered of a window that is shown, and that no setting pins: its place
/// unless it is minimized, its size unless that is tiny, each under a key of its own, and
/// of the details that the user put them there unless they fill a monitor. What cannot be
/// told of a window is not remembered.
pub proof fn law_shown_window_is_remembered(
    label: Seq<char>,
    pinned: bool,
    window: WindowState,
    monitors: Seq<Rect>,
)
    requires
        label == "details"@ || label == "settings"@ || label == "history"@,
        window.visible,
        !(label == "details"@ && pinned),
    ensures
        ({
            let kept = remembering(label, pinned, window, monitors);
            let at = window.position->0;
            let size = window.size->0;
            let placed = window.position is Some && at.0 > -10_000 && at.1 > -10_000;
            let sized = window.size is Some && size.0 > 100 && size.1 > 100;
            let filling = exists|i: int|
                0 <= i < monitors.len() && (Rect {
                    x: at.0,
                    y: at.1,
                    width: size.0,
                    height: size.1,
                }).covers(#[trigger] monitors[i]);
            let chosen = label == "details"@ && window.position is Some && window.size is Some
                && !filling;
            let n: int = if placed { 2 } else { 0 };
            let m: int = n + if sized { 2int } else { 0int };
            &&& kept.len() == m + if chosen { 1int } else { 0int }
            &&& placed ==> kept[0] == (geometry_key(label, "x"@), signed_decimal(at.0 as int))
            &&& placed ==> kept[1] == (geometry_key(label, "y"@), signed_decimal(at.1 as int))
            &&& sized ==> kept[n] == (geometry_key(label, "w"@), signed_decimal(size.0 as int))
            &&& sized ==> kept[n + 1] == (geometry_key(label, "h"@), signed_decimal(
                size.1 as int,
            ))
            &&& chosen ==> kept[m] == (user_placed_key(), "true"@)
        }),
{
}

/// A window that is not shown, or is not one of those to remember, leaves nothing.
pub proof fn law_hidden_window_is_not_remembered(
    label: Seq<char>,
    pinned: bool,
    window: WindowState,
    monitors: Seq<Rect>,
)
    requires
        !window.visible || (label != "details"@ && label != "settings"@ && label != "history"@),
    ensures
        remembering(label, pinned, window, monitors).len() == 0,
{
}

/// The keys of a window's numbers are told apart by the number and by the window.
pub proof fn law_window_keys_are_their_own(label: Seq<char>, part: Seq<char>)
    ensures
        geometry_key(label, part).len() == 8 + label.len() + part.len(),
        geometry_key(label, part).take(7) == seq!['w', 'i', 'n', 'd', 'o', 'w', '.'],
        geometry_key(label, part).subrange(7, 7int + label.len()) == label,
        geometry_key(label, part)[7int + label.len()] == '.',
        geometry_key(label, part).skip(8int + label.len()) == part,
{
    reveal_strlit("window.");
    reveal_strlit(".");
    let key = geometry_key(label, part);
    assert(key.take(7) =~= seq!['w', 'i', 'n', 'd', 'o', 'w', '.']);
    assert(key.subrange(7, 7int + label.len()) =~= label);
    assert(key.skip(8int + label.len()) =~= part);
}

/// A remembered place counts for the history and the settings always, for the details
/// unless the user has just picked a monitor or did not choose the place, and for fights
/// never. Without one, pinned details fill their monitor, settings open in the middle,
/// and all else beside the meter.
pub proof fn law_new_windows_find_their_place(flag: bool)
    ensures
        memory_counts(NewWindow::PinnedDetails(flag)) == !flag,
        memory_counts(NewWindow::FloatingDetails(flag)) == flag,
        !memory_counts(NewWindow::Fight),
        memory_counts(NewWindow::History) && memory_counts(NewWindow::Settings),
        place_without_memory(NewWindow::PinnedDetails(flag)) is WholeMonitor,
        place_without_memory(NewWindow::Settings) is Middle,
        place_without_memory(NewWindow::FloatingDetails(flag)) is BesideMeter,
        place_without_memory(NewWindow::Fight) is BesideMeter,
        place_without_memory(NewWindow::History) is BesideMeter,
{
}

} // verus!
