//! Which window serves a request to show details.

use vstd::prelude::*;

use crate::numbers::{
    as_usize, decimal, is_digit, law_numbers_are_read_in_range, lemma_decimal, parse_usize,
    unsigned_value,
};
use crate::text::{chars_of, same_text, trimmed};

verus! {

/// Whether `c` may stand in a window label as it is.
pub open spec fn is_label_char(c: char) -> bool {
    'a' <= c <= 'z' || 'A' <= c <= 'Z' || '0' <= c <= '9'
}

/// The label of the window of a saved fight: the fight's id, with everything but
/// ASCII letters and digits replaced.
pub open spec fn fight_label(fight_id: Seq<char>) -> Seq<char> {
    "details-"@ + fight_id.map_values(
        |c: char|
            if is_label_char(c) {
                c
            } else {
                '_'
            },
    )
}

/// The label of the window of a saved fight. Every fight has its own, so that
/// several can be compared.
pub fn fight_window_label(fight_id: &str) -> (label: String)
    ensures
        label@ == fight_label(fight_id@),
{
    let chars: Vec<char> = chars_of(fight_id);
    let ghost safe = |c: char|
        if is_label_char(c) {
            c
        } else {
            '_'
        };
    let mut label: String = "details-".to_owned();
    let mut i: usize = 0;
    assert(label@ =~= "details-"@ + fight_id@.take(0).map_values(safe));
    while i < chars.len()
        invariant
            i <= chars@.len(),
            chars@ == fight_id@,
            safe == (|c: char|
                if is_label_char(c) {
                    c
                } else {
                    '_'
                }),
            label@ == "details-"@ + fight_id@.take(i as int).map_values(safe),
        decreases chars.len() - i,
    {
        let c: char = chars[i];
        if ('a' <= c && c <= 'z') || ('A' <= c && c <= 'Z') || ('0' <= c && c <= '9') {
            label.push(c);
        } else {
            label.push('_');
        }
        assert(label@ =~= "details-"@ + fight_id@.take(i + 1).map_values(safe));
        i += 1;
    }
    assert(fight_id@.take(i as int) =~= fight_id@);
    label
}

/// The windows that show details.
#[derive(Clone, Copy, Debug, PartialEq, Eq, Structural)]
pub enum DetailsWindow {
    /// The one window to browse saved fights in.
    History,
    /// A window of its own for a saved fight.
    Fight,
    /// The one window that follows the meter's rows.
    Live,
}

/// The window that serves a request, by its kind and the fight it names.
pub open spec fn window_for(kind: Seq<char>, fight_id: Seq<char>) -> DetailsWindow {
    if kind == "history"@ {
        DetailsWindow::History
    } else if kind == "fight"@ && fight_id.len() > 0 {
        DetailsWindow::Fight
    } else {
        DetailsWindow::Live
    }
}

/// The label of a window that shows details.
pub open spec fn label_of(window: DetailsWindow, fight_id: Seq<char>) -> Seq<char> {
    match window {
        DetailsWindow::History => "history"@,
        DetailsWindow::Fight => fight_label(fight_id),
        DetailsWindow::Live => "details"@,
    }
}

/// Where a request goes.
#[derive(Debug)]
pub struct Route {
    pub window: DetailsWindow,
    pub label: String,
    /// Whether the request asks for a fight, be it one that has no id.
    pub asks_for_fight: bool,
}

/// What a request asks for where it does not say: a row of the meter.
pub open spec fn kind_or_row(kind: Option<&str>) -> Seq<char> {
    match kind {
        Some(kind) => kind@,
        None => "row"@,
    }
}

/// The fight that a request names, or an empty text.
pub open spec fn id_or_empty(fight_id: Option<&str>) -> Seq<char> {
    match fight_id {
        Some(fight_id) => fight_id@,
        None => ""@,
    }
}

/// Finds the window that serves a request: saved fights are browsed in one
/// window and opened in their own, and the meter's rows share one.
pub fn route_request(kind: Option<&str>, fight_id: Option<&str>) -> (route: Route)
    ensures
        route.window == window_for(kind_or_row(kind), id_or_empty(fight_id)),
        route.label@ == label_of(route.window, id_or_empty(fight_id)),
        route.asks_for_fight == (kind_or_row(kind) == "fight"@),
{
    let kind: &str = match kind {
        Some(kind) => kind,
        None => "row",
    };
    let fight_id: &str = match fight_id {
        Some(fight_id) => fight_id,
        None => "",
    };
    proof {
        reveal_strlit("");
        reveal_strlit("fight");
        reveal_strlit("history");
        assert("fight"@.len() != "history"@.len());
    }
    let asks_for_fight: bool = same_text(kind, "fight");
    if same_text(kind, "history") {
        Route { window: DetailsWindow::History, label: "history".to_owned(), asks_for_fight }
    } else if asks_for_fight && !fight_id.is_empty() {
        Route {
            window: DetailsWindow::Fight,
            label: fight_window_label(fight_id),
            asks_for_fight,
        }
    } else {
        Route { window: DetailsWindow::Live, label: "details".to_owned(), asks_for_fight }
    }
}

/// The window of a fight is never one of the two that there is one of.
pub proof fn law_fight_windows_are_their_own(fight_id: Seq<char>)
    ensures
        fight_label(fight_id) != "history"@,
        fight_label(fight_id) != "details"@,
{
    reveal_strlit("details-");
    reveal_strlit("history");
    reveal_strlit("details");
    assert(fight_label(fight_id)[0] == 'd');
    assert(fight_label(fight_id).len() >= 8);
}

/// Two fights whose ids are ASCII letters and digits share a window only if they
/// are one and the same.
pub proof fn law_plain_ids_keep_their_windows(a: Seq<char>, b: Seq<char>)
    requires
        forall|i: int| 0 <= i < a.len() ==> is_label_char(#[trigger] a[i]),
        forall|i: int| 0 <= i < b.len() ==> is_label_char(#[trigger] b[i]),
        fight_label(a) == fight_label(b),
    ensures
        a == b,
{
    let n = "details-"@.len() as int;
    assert(fight_label(a).len() == n + a.len());
    assert(fight_label(b).len() == n + b.len());
    assert forall|i: int| 0 <= i < a.len() implies a[i] == b[i] by {
        assert(fight_label(a)[n + i] == a[i]);
        assert(fight_label(b)[n + i] == b[i]);
    }
    assert(a =~= b);
}

/// What to do with a window that is already open when it is asked for.
#[derive(Clone, Copy, Debug, PartialEq, Eq, Structural)]
pub enum Attention {
    /// Leave it as it is, so as not to take focus from the game.
    Leave,
    /// Bring it forward.
    Focus,
    /// Bring it back and forward.
    Restore,
}

/// How an open window answers a request.
pub open spec fn answer(
    visible: Option<bool>,
    minimized: Option<bool>,
    asks_for_fight: bool,
) -> Attention {
    if visible == Some(false) || minimized == Some(true) {
        Attention::Restore
    } else if asks_for_fight {
        Attention::Focus
    } else {
        Attention::Leave
    }
}

/// A window that was put away always comes back. One on screen never takes the focus,
/// unless it is a fight's that is asked for.
pub proof fn law_open_windows_answer(
    visible: Option<bool>,
    minimized: Option<bool>,
    asks_for_fight: bool,
)
    ensures
        visible == Some(false) ==> answer(visible, minimized, asks_for_fight)
            == Attention::Restore,
        minimized == Some(true) ==> answer(visible, minimized, asks_for_fight)
            == Attention::Restore,
        visible != Some(false) && minimized != Some(true) ==> answer(visible, minimized, true)
            == Attention::Focus && answer(visible, minimized, false) == Attention::Leave,
{
}

/// How an open window answers a request: one that was put away comes back, and a
/// fight asked for again comes forward. What is not known of the window counts as
/// its being on screen.
pub fn attention(
    visible: Option<bool>,
    minimized: Option<bool>,
    asks_for_fight: bool,
) -> (what: Attention)
    ensures
        what == answer(visible, minimized, asks_for_fight),
{
    let hidden: bool = match (visible, minimized) {
        (Some(false), _) => true,
        (_, Some(true)) => true,
        _ => false,
    };
    if hidden {
        Attention::Restore
    } else if asks_for_fight {
        Attention::Focus
    } else {
        Attention::Leave
    }
}

/// The monitor that a setting pins the details to. A blank setting, `off` and
/// what is no number pin it to none.
pub open spec fn pinned_monitor(setting: Option<&str>) -> Option<usize> {
    match setting {
        Some(raw) => if trimmed(raw@) == "off"@ {
            None
        } else {
            as_usize(trimmed(raw@))
        },
        None => None,
    }
}

/// The monitor that the user has pinned the details to, or `None` when the
/// setting is off.
pub fn details_monitor_setting(setting: Option<&str>) -> (monitor: Option<usize>)
    ensures
        monitor == pinned_monitor(setting),
{
    match setting {
        Some(raw) => {
            let raw: &str = raw.trim();
            if same_text(raw, "off") {
                None
            } else {
                let chars: Vec<char> = chars_of(raw);
                parse_usize(chars.as_slice())
            }
        },
        None => None,
    }
}

/// How a window that is not open yet is opened.
#[derive(Clone, Copy, Debug, PartialEq, Eq, Structural)]
pub enum Opening {
    History,
    Fight,
    /// Filling the monitor with this index.
    Pinned(usize),
    /// Free-floating, tied to no monitor.
    Windowed,
}

/// How a window is opened.
pub open spec fn way_to_open(window: DetailsWindow, setting: Option<&str>) -> Opening {
    match window {
        DetailsWindow::History => Opening::History,
        DetailsWindow::Fight => Opening::Fight,
        DetailsWindow::Live => match pinned_monitor(setting) {
            Some(index) => Opening::Pinned(index),
            None => Opening::Windowed,
        },
    }
}

/// Only the live window is opened on the monitor that a setting pins it to, and only
/// while one does.
pub proof fn law_only_live_details_are_pinned(
    window: DetailsWindow,
    setting: Option<&str>,
    index: usize,
)
    ensures
        way_to_open(window, setting) == Opening::Pinned(index) <==> window == DetailsWindow::Live
            && pinned_monitor(setting) == Some(index),
        way_to_open(window, setting) == Opening::Windowed <==> window == DetailsWindow::Live
            && pinned_monitor(setting) is None,
        way_to_open(window, setting) == Opening::History <==> window == DetailsWindow::History,
        way_to_open(window, setting) == Opening::Fight <==> window == DetailsWindow::Fight,
{
}

/// How to open a window. For the live one, the setting decides every time.
pub fn opening(window: DetailsWindow, setting: Option<&str>) -> (how: Opening)
    ensures
        how == way_to_open(window, setting),
{
    match window {
        DetailsWindow::History => Opening::History,
        DetailsWindow::Fight => Opening::Fight,
        DetailsWindow::Live => match details_monitor_setting(setting) {
            Some(index) => Opening::Pinned(index),
            None => Opening::Windowed,
        },
    }
}

/// The monitor to confirm once the window with `label` has painted.
pub open spec fn announced(label: Seq<char>, placed_on: Option<usize>) -> Option<usize> {
    if label == "details"@ {
        placed_on
    } else {
        None
    }
}

/// The live window confirms the monitor it was placed on, and no other window confirms
/// any.
pub proof fn law_only_live_details_confirm_their_monitor(
    fight_id: Seq<char>,
    label: Seq<char>,
    placed_on: Option<usize>,
)
    ensures
        announced(label_of(DetailsWindow::Live, fight_id), placed_on) == placed_on,
        announced(label_of(DetailsWindow::Fight, fight_id), placed_on) is None,
        announced(label_of(DetailsWindow::History, fight_id), placed_on) is None,
        label != label_of(DetailsWindow::Live, fight_id) ==> announced(label, placed_on) is None,
{
    law_fight_windows_are_their_own(fight_id);
    reveal_strlit("history");
    reveal_strlit("details");
    assert("history"@[0] == 'h');
    assert("details"@[0] == 'd');
}

/// The monitor to confirm once the window with `label` has painted: the one that
/// it was placed on, if it is the live window and was placed on any.
pub fn placement_to_announce(label: &str, placed_on: Option<usize>) -> (monitor: Option<usize>)
    ensures
        monitor == announced(label@, placed_on),
{
    if same_text(label, "details") {
        placed_on
    } else {
        None
    }
}

/// The label of a fight's window is `details-` and the fight's id, character by
/// character, with an underscore for whatever is no ASCII letter or digit.
pub proof fn law_fight_label_spells_the_id(fight_id: Seq<char>, i: int)
    requires
        0 <= i < fight_id.len(),
    ensures
        ({
            let label = fight_label(fight_id);
            let n = fight_id[i] as int;
            let plain = 0x30 <= n <= 0x39 || 0x41 <= n <= 0x5a || 0x61 <= n <= 0x7a;
            &&& label.len() == 8 + fight_id.len()
            &&& label.take(8) == seq!['d', 'e', 't', 'a', 'i', 'l', 's', '-']
            &&& plain ==> label[8 + i] == fight_id[i]
            &&& !plain ==> label[8 + i] == '_'
        }),
{
    reveal_strlit("details-");
    assert(fight_label(fight_id).take(8) =~= seq!['d', 'e', 't', 'a', 'i', 'l', 's', '-']);
}

/// Saved fights are browsed in the one window for that; a fight with an id opens in its
/// own; and everything else, a fight without one included, goes to the live window.
pub proof fn law_requests_go_to_their_windows(kind: Seq<char>, fight_id: Seq<char>)
    ensures
        kind == seq!['h', 'i', 's', 't', 'o', 'r', 'y'] ==> window_for(kind, fight_id)
            == DetailsWindow::History,
        kind == seq!['f', 'i', 'g', 'h', 't'] && fight_id.len() > 0 ==> window_for(kind, fight_id)
            == DetailsWindow::Fight,
        kind == seq!['f', 'i', 'g', 'h', 't'] && fight_id.len() == 0 ==> window_for(
            kind,
            fight_id,
        ) == DetailsWindow::Live,
        kind != seq!['h', 'i', 's', 't', 'o', 'r', 'y'] && kind != seq!['f', 'i', 'g', 'h', 't']
            ==> window_for(kind, fight_id) == DetailsWindow::Live,
        label_of(DetailsWindow::History, fight_id) == seq!['h', 'i', 's', 't', 'o', 'r', 'y'],
        label_of(DetailsWindow::Live, fight_id) == seq!['d', 'e', 't', 'a', 'i', 'l', 's'],
        label_of(DetailsWindow::Fight, fight_id) == fight_label(fight_id),
        kind_or_row(None) != seq!['f', 'i', 'g', 'h', 't'],
        kind_or_row(None) != seq!['h', 'i', 's', 't', 'o', 'r', 'y'],
        id_or_empty(None).len() == 0,
{
    reveal_strlit("history");
    reveal_strlit("fight");
    reveal_strlit("details");
    reveal_strlit("row");
    reveal_strlit("");
    assert("history"@ =~= seq!['h', 'i', 's', 't', 'o', 'r', 'y']);
    assert("fight"@ =~= seq!['f', 'i', 'g', 'h', 't']);
    assert("details"@ =~= seq!['d', 'e', 't', 'a', 'i', 'l', 's']);
    assert(seq!['h', 'i', 's', 't', 'o', 'r', 'y'].len() != seq!['f', 'i', 'g', 'h', 't'].len());
}

/// What a request says of its kind and its fight is taken as it is said.
pub proof fn law_requests_are_taken_at_their_word(kind: &str, fight_id: &str)
    ensures
        kind_or_row(Some(kind)) == kind@,
        id_or_empty(Some(fight_id)) == fight_id@,
{
}

/// The number of a monitor, blanks around it or not, pins the details to that monitor;
/// nothing, a blank setting, `off` and what is no number pin them to none.
pub proof fn law_setting_pins_by_number(setting: &str, n: usize)
    ensures
        trimmed(setting@) == decimal(n as nat) ==> pinned_monitor(Some(setting)) == Some(n),
        trimmed(setting@).len() == 0 ==> pinned_monitor(Some(setting)) is None,
        trimmed(setting@) == seq!['o', 'f', 'f'] ==> pinned_monitor(Some(setting)) is None,
        unsigned_value(trimmed(setting@)) is None ==> pinned_monitor(Some(setting)) is None,
        pinned_monitor(None) is None,
{
    reveal_strlit("off");
    assert("off"@ =~= seq!['o', 'f', 'f']);
    lemma_decimal(n as nat);
    let d = decimal(n as nat);
    assert(is_digit(d[0]));
    assert(d != "off"@) by {
        if d == "off"@ {
            assert(d[0] == 'o');
        }
    }
    law_numbers_are_read_in_range(trimmed(setting@));
}

} // verus!
