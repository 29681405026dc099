//! Hiding the meter while the game is not in front.

use vstd::prelude::*;

use crate::text::same_text;

verus! {

/// The meter is left alone for this many ticks after the start.
pub const GRACE_TICKS: u64 = 20;

/// The meter is put away when this many ticks in a row found the game not in
/// front.
pub const HIDE_AFTER_TICKS: u64 = 3;

/// Places of windows are stored every so many ticks.
pub const TICKS_PER_SAVE: u64 = 10;

/// What is to be done with the meter's window.
#[derive(Clone, Copy, Debug, PartialEq, Eq, Structural)]
pub enum HideAction {
    Nothing,
    /// Bring it back, without taking the focus.
    Show,
    /// Put it away.
    Minimize,
}

/// What is known of the meter's window at a tick.
#[derive(Clone, Copy, Debug, PartialEq, Eq, Structural)]
pub struct OverlayState {
    pub game_in_front: bool,
    pub focused: bool,
    pub visible: bool,
    pub minimized: bool,
}

impl OverlayState {
    /// Whether the meter is wanted on screen.
    pub open spec fn wanted(self) -> bool {
        self.game_in_front || self.focused
    }

    /// Whether the meter is on screen.
    pub open spec fn on_screen(self) -> bool {
        self.visible && !self.minimized
    }
}

/// Whether the places of windows are stored at the tick with this number.
pub open spec fn is_saving_tick(ticks: int) -> bool {
    ticks % TICKS_PER_SAVE as int == 0
}

/// The clockwork behind hiding the meter.
#[derive(Clone, Copy, Debug, PartialEq, Eq, Structural)]
pub struct AutoHide {
    ticks: u64,
    delay: u64,
}

/// The mathematical reading of an [`AutoHide`].
#[verifier::ext_equal]
pub struct HideState {
    /// How many ticks there have been.
    pub ticks: int,
    /// How many ticks in a row found the meter on screen and not wanted.
    pub delay: int,
}

impl HideState {
    /// The clockwork after one more tick, and what is to be done. The meter is
    /// left alone unless `enabled`, and during the first ticks.
    pub open spec fn tick(self, enabled: bool, window: Option<OverlayState>) -> (
        HideState,
        HideAction,
    ) {
        let next = HideState { ticks: self.ticks + 1, ..self };
        if next.ticks <= GRACE_TICKS || !enabled || window is None {
            (next, HideAction::Nothing)
        } else if (window->0).wanted() {
            (
                HideState { delay: 0, ..next },
                if (window->0).on_screen() {
                    HideAction::Nothing
                } else {
                    HideAction::Show
                },
            )
        } else if (window->0).on_screen() {
            (
                HideState { delay: self.delay + 1, ..next },
                if self.delay + 1 >= HIDE_AFTER_TICKS {
                    HideAction::Minimize
                } else {
                    HideAction::Nothing
                },
            )
        } else {
            (next, HideAction::Nothing)
        }
    }
}

impl View for AutoHide {
    type V = HideState;

    closed spec fn view(&self) -> HideState {
        HideState { ticks: self.ticks as int, delay: self.delay as int }
    }
}

impl AutoHide {
    /// The delay is no longer than there have been ticks.
    pub open spec fn wf(&self) -> bool {
        0 <= self@.delay <= self@.ticks <= u64::MAX
    }

    /// Nothing has happened yet.
    pub fn new() -> (hide: AutoHide)
        ensures
            hide.wf(),
            hide@ == (HideState { ticks: 0, delay: 0 }),
    {
        AutoHide { ticks: 0, delay: 0 }
    }

    /// How many ticks there have been.
    pub fn ticks(&self) -> (ticks: u64)
        ensures
            ticks == self@.ticks,
    {
        self.ticks
    }

    /// Whether this tick is one at which the places of windows are stored.
    pub fn saves_places(&self) -> (saves: bool)
        requires
            self.wf(),
        ensures
            saves == is_saving_tick(self@.ticks),
    {
        self.ticks % TICKS_PER_SAVE == 0
    }

    /// One more tick. The setting turns hiding on when it reads `true`.
    pub fn tick(&mut self, setting: Option<&str>, window: Option<OverlayState>) -> (action:
        HideAction)
        requires
            old(self).wf(),
            old(self)@.ticks < u64::MAX,
        ensures
            final(self).wf(),
            (final(self)@, action) == old(self)@.tick(
                setting is Some && setting->0@ == "true"@,
                window,
            ),
    {
        self.ticks += 1;
        let enabled: bool = match setting {
            Some(value) => same_text(value, "true"),
            None => false,
        };
        match window {
            Some(window) => {
                if self.ticks <= GRACE_TICKS || !enabled {
                    HideAction::Nothing
                } else if window.game_in_front || window.focused {
                    self.delay = 0;
                    if !window.visible || window.minimized {
                        HideAction::Show
                    } else {
                        HideAction::Nothing
                    }
                } else if window.visible && !window.minimized {
                    self.delay += 1;
                    if self.delay >= HIDE_AFTER_TICKS {
                        HideAction::Minimize
                    } else {
                        HideAction::Nothing
                    }
                } else {
                    HideAction::Nothing
                }
            },
            None => HideAction::Nothing,
        }
    }
}

/// The meter is never put away while the game or the meter itself is in front,
/// nor during the first ticks, nor at the first or second tick that finds it not
/// wanted.
pub proof fn law_meter_is_not_hidden_in_haste(
    s: HideState,
    enabled: bool,
    window: OverlayState,
)
    requires
        s.tick(enabled, Some(window)).1 is Minimize,
    ensures
        enabled,
        s.ticks >= GRACE_TICKS,
        !window.wanted(),
        s.delay >= HIDE_AFTER_TICKS - 1,
{
}

/// Once the meter has been wanted, it takes the full delay again to put it away.
pub proof fn law_focus_starts_the_delay_over(
    s: HideState,
    wanted: OverlayState,
    next: OverlayState,
)
    requires
        s.ticks >= GRACE_TICKS,
        wanted.wanted(),
    ensures
        !(s.tick(true, Some(wanted)).0.tick(true, Some(next)).1 is Minimize),
{
}

/// The meter is put away at the third tick in a row that finds it on screen with neither
/// the game nor itself in front, and at no earlier one.
pub proof fn law_meter_is_put_away_at_the_third_tick(
    s: HideState,
    a: OverlayState,
    b: OverlayState,
    c: OverlayState,
)
    requires
        s.ticks >= 20,
        s.delay == 0,
        !a.game_in_front && !a.focused && a.visible && !a.minimized,
        !b.game_in_front && !b.focused && b.visible && !b.minimized,
        !c.game_in_front && !c.focused && c.visible && !c.minimized,
    ensures
        ({
            let (s1, first) = s.tick(true, Some(a));
            let (s2, second) = s1.tick(true, Some(b));
            let (s3, third) = s2.tick(true, Some(c));
            &&& first == HideAction::Nothing
            &&& second == HideAction::Nothing
            &&& third == HideAction::Minimize
            &&& s3.tick(true, Some(c)).1 == HideAction::Minimize
            &&& s3.ticks == s.ticks + 3
        }),
{
}

/// When the game or the meter is in front, the meter is brought back if it is off screen
/// and left alone otherwise, and the count towards putting it away starts over.
pub proof fn law_wanted_meter_is_on_screen(s: HideState, window: OverlayState)
    requires
        s.ticks >= 20,
        window.game_in_front || window.focused,
    ensures
        ({
            let (after, action) = s.tick(true, Some(window));
            &&& !window.visible || window.minimized ==> action == HideAction::Show
            &&& window.visible && !window.minimized ==> action == HideAction::Nothing
            &&& after.delay == 0
            &&& after.ticks == s.ticks + 1
        }),
{
}

/// The meter is left alone, and the count stands, for the first twenty ticks, while
/// hiding is off, while there is no window, and while it is off screen and not wanted.
pub proof fn law_meter_is_left_alone(s: HideState, enabled: bool, window: Option<OverlayState>)
    requires
        s.ticks < 20 || !enabled || window is None || (!(window->0).game_in_front && !(
        window->0).focused && (!(window->0).visible || (window->0).minimized)),
    ensures
        s.tick(enabled, window).1 == HideAction::Nothing,
        s.tick(enabled, window).0 == (HideState { ticks: s.ticks + 1, delay: s.delay }),
{
}

/// Places are stored at every tenth tick.
pub proof fn law_places_are_stored_at_every_tenth_tick(n: int)
    ensures
        is_saving_tick(10 * n),
        forall|k: int| 1 <= k <= 9 ==> !#[trigger] is_saving_tick(10 * n + k),
{
}

/// Each tick that finds the meter on screen and not wanted counts one more, and puts the
/// meter away from the third on.
pub proof fn law_ticks_out_of_sight_are_counted(s: HideState, window: OverlayState)
    requires
        s.ticks >= 20,
        !window.game_in_front && !window.focused && window.visible && !window.minimized,
    ensures
        s.tick(true, Some(window)).0 == (HideState { ticks: s.ticks + 1, delay: s.delay + 1 }),
        s.tick(true, Some(window)).1 == HideAction::Minimize <==> s.delay >= 2,
        s.tick(true, Some(window)).1 == HideAction::Nothing <==> s.delay < 2,
{
}

} // verus!
