//! The monitors, as the picker for the details offers them.

use vstd::prelude::*;

use crate::numbers::{decimal, push_decimal};
use crate::text::{optional_text, same_text};
use crate::ui::geometry::{has_pixel, Rect};

verus! {

/// A monitor as the system reports it.
#[derive(Debug)]
pub struct MonitorInfo {
    pub name: Option<String>,
    pub area: Rect,
}

/// Where a monitor sits relative to the primary one.
#[derive(Clone, Copy, Debug, PartialEq, Eq, Structural)]
pub enum Side {
    /// It is the primary one, overlaps it, or there is none.
    Nowhere,
    Right,
    Left,
    Below,
    Above,
}

impl Side {
    /// The word for a side.
    pub open spec fn word(self) -> Seq<char> {
        match self {
            Side::Nowhere => ""@,
            Side::Right => "right"@,
            Side::Left => "left"@,
            Side::Below => "below"@,
            Side::Above => "above"@,
        }
    }

    /// The word for a side.
    pub fn text(&self) -> (text: String)
        ensures
            text@ == self.word(),
    {
        match self {
            Side::Nowhere => "".to_owned(),
            Side::Right => "right".to_owned(),
            Side::Left => "left".to_owned(),
            Side::Below => "below".to_owned(),
            Side::Above => "above".to_owned(),
        }
    }
}

/// The side of `primary` on which `area` lies.
pub open spec fn side_of(area: Rect, primary: Rect) -> Side {
    if area.x >= primary.right() {
        Side::Right
    } else if area.right() <= primary.x {
        Side::Left
    } else if area.y >= primary.bottom() {
        Side::Below
    } else if area.bottom() <= primary.y {
        Side::Above
    } else {
        Side::Nowhere
    }
}

/// The side of `primary` on which `area` lies.
fn find_side(area: &Rect, primary: &Rect) -> (side: Side)
    ensures
        side == side_of(*area, *primary),
{
    if area.x as i64 >= primary.right_edge() {
        Side::Right
    } else if area.right_edge() <= primary.x as i64 {
        Side::Left
    } else if area.y as i64 >= primary.bottom_edge() {
        Side::Below
    } else if area.bottom_edge() <= primary.y as i64 {
        Side::Above
    } else {
        Side::Nowhere
    }
}

/// A monitor as the picker offers it.
#[derive(Debug)]
pub struct MonitorEntry {
    /// The monitor's place in the system's list, by which it is asked for.
    pub index: usize,
    pub name: String,
    /// Where the monitor lies, for exact placement on it.
    pub area: Rect,
    pub is_primary: bool,
    pub side: Side,
}

/// The mathematical reading of a [`MonitorEntry`].
#[verifier::ext_equal]
pub struct EntryState {
    pub index: int,
    pub name: Seq<char>,
    pub area: Rect,
    pub is_primary: bool,
    pub side: Side,
}

impl View for MonitorEntry {
    type V = EntryState;

    open spec fn view(&self) -> EntryState {
        EntryState {
            index: self.index as int,
            name: self.name@,
            area: self.area,
            is_primary: self.is_primary,
            side: self.side,
        }
    }
}

/// The name of a monitor, if the system gives one.
pub open spec fn given_name(monitor: MonitorInfo) -> Option<Seq<char>> {
    optional_text(monitor.name)
}

/// The name of the primary monitor, if there is one and it has a name.
pub open spec fn primary_name(primary: Option<MonitorInfo>) -> Option<Seq<char>> {
    match primary {
        Some(primary) => given_name(primary),
        None => None,
    }
}

/// What to call the monitor at `index`: its name, or else its number.
pub open spec fn display_name(monitor: MonitorInfo, index: int) -> Seq<char> {
    match given_name(monitor) {
        Some(name) => name,
        None => "Display "@ + decimal((index + 1) as nat),
    }
}

/// The monitor at `index` as the picker offers it.
pub open spec fn entry_of(
    monitors: Seq<MonitorInfo>,
    primary: Option<MonitorInfo>,
    index: int,
) -> EntryState {
    let name = display_name(monitors[index], index);
    let is_primary = primary_name(primary) == Some(name);
    EntryState {
        index,
        name,
        area: monitors[index].area,
        is_primary,
        side: if !is_primary && primary is Some {
            side_of(monitors[index].area, (primary->0).area)
        } else {
            Side::Nowhere
        },
    }
}

/// All monitors as the picker offers them, in the system's order.
pub open spec fn entries(
    monitors: Seq<MonitorInfo>,
    primary: Option<MonitorInfo>,
) -> Seq<EntryState> {
    Seq::new(monitors.len(), |i: int| entry_of(monitors, primary, i))
}

/// Whether an entry is that of the primary monitor.
pub open spec fn is_first() -> spec_fn(EntryState) -> bool {
    |e: EntryState| e.is_primary
}

/// Whether an entry is that of another monitor.
pub open spec fn is_behind() -> spec_fn(EntryState) -> bool {
    |e: EntryState| !e.is_primary
}

/// All monitors in the order of the picker: the primary one first, because that
/// is where the game is, and otherwise as the system lists them.
pub open spec fn picker_order(
    monitors: Seq<MonitorInfo>,
    primary: Option<MonitorInfo>,
) -> Seq<EntryState> {
    let all = entries(monitors, primary);
    all.filter(is_first()) + all.filter(is_behind())
}

/// The entries of a list, each by its reading.
pub open spec fn entry_states(list: Seq<MonitorEntry>) -> Seq<EntryState> {
    list.map_values(|e: MonitorEntry| e@)
}

/// A monitor that is there, where there is one.
pub open spec fn seen(primary: Option<&MonitorInfo>) -> Option<MonitorInfo> {
    match primary {
        Some(primary) => Some(*primary),
        None => None,
    }
}

/// What to call the monitor at `index`.
fn name_of(monitor: &MonitorInfo, index: usize) -> (name: String)
    requires
        index < usize::MAX,
    ensures
        name@ == display_name(*monitor, index as int),
{
    match &monitor.name {
        Some(name) => name.clone(),
        None => {
            let mut name: String = "Display ".to_owned();
            push_decimal(&mut name, (index + 1) as u64);
            name
        },
    }
}

/// Whether `name` is that of the primary monitor.
fn names_primary(primary: Option<&MonitorInfo>, name: &str) -> (names: bool)
    ensures
        names == (primary_name(seen(primary)) == Some(name@)),
{
    match primary {
        Some(primary) => match &primary.name {
            Some(held) => same_text(held.as_str(), name),
            None => false,
        },
        None => false,
    }
}

/// Lists the monitors for the picker.
pub fn list_monitors(
    monitors: &Vec<MonitorInfo>,
    primary: Option<&MonitorInfo>,
) -> (list: Vec<MonitorEntry>)
    ensures
        entry_states(list@) == picker_order(monitors@, seen(primary)),
{
    let ghost all = entries(monitors@, seen(primary));
    let mut first: Vec<MonitorEntry> = Vec::new();
    let mut rest: Vec<MonitorEntry> = Vec::new();
    let mut i: usize = 0;
    reveal(Seq::filter);
    assert(all.take(0) =~= Seq::<EntryState>::empty());
    assert(entry_states(first@) =~= all.take(0).filter(is_first()));
    assert(entry_states(rest@) =~= all.take(0).filter(is_behind()));
    while i < monitors.len()
        invariant
            i <= monitors@.len(),
            all == entries(monitors@, seen(primary)),
            entry_states(first@) == all.take(i as int).filter(is_first()),
            entry_states(rest@) == all.take(i as int).filter(is_behind()),
        decreases monitors.len() - i,
    {
        let ghost first_before = first@;
        let ghost rest_before = rest@;
        reveal(Seq::filter);
        assert(all.take(i + 1).drop_last() =~= all.take(i as int));
        assert(all.take(i + 1).last() == all[i as int]);
        let name: String = name_of(&monitors[i], i);
        let is_primary: bool = names_primary(primary, name.as_str());
        let side: Side = match primary {
            Some(primary) => if is_primary {
                Side::Nowhere
            } else {
                find_side(&monitors[i].area, &primary.area)
            },
            None => Side::Nowhere,
        };
        let entry = MonitorEntry { index: i, name, area: monitors[i].area, is_primary, side };
        assert(entry@ =~= all[i as int]);
        if is_primary {
            first.push(entry);
            assert(entry_states(first@) =~= entry_states(first_before).push(all[i as int]));
        } else {
            rest.push(entry);
            assert(entry_states(rest@) =~= entry_states(rest_before).push(all[i as int]));
        }
        i += 1;
    }
    assert(all.take(i as int) =~= all);
    let ghost head = first@;
    let ghost tail = rest@;
    first.append(&mut rest);
    assert(entry_states(first@) =~= entry_states(head) + entry_states(tail));
    first
}

/// Whether a name is the one held.
pub open spec fn is_held(held: Option<Seq<char>>) -> spec_fn(Option<Seq<char>>) -> bool {
    |name: Option<Seq<char>>| name == held
}

/// Whether a name is not the one held.
pub open spec fn is_other(held: Option<Seq<char>>) -> spec_fn(Option<Seq<char>>) -> bool {
    |name: Option<Seq<char>>| name != held
}

/// The place of the monitor at `index`, from zero, once those that go by the
/// primary one's name come first.
pub open spec fn picker_place(
    names: Seq<Option<Seq<char>>>,
    primary: Option<Seq<char>>,
    index: int,
) -> nat {
    if names[index] == primary {
        names.take(index).filter(is_held(primary)).len()
    } else {
        names.filter(is_held(primary)).len() + names.take(index).filter(is_other(primary)).len()
    }
}

/// The names of the monitors of a list.
pub open spec fn given_names(monitors: Seq<MonitorInfo>) -> Seq<Option<Seq<char>>> {
    monitors.map_values(|m: MonitorInfo| given_name(m))
}

/// Whether a monitor goes by the name of the primary one. Two without a name go
/// by the same.
fn same_name(monitor: &MonitorInfo, primary: Option<&MonitorInfo>) -> (same: bool)
    ensures
        same == (given_name(*monitor) == primary_name(seen(primary))),
{
    match primary {
        Some(primary) => match (&monitor.name, &primary.name) {
            (Some(a), Some(b)) => same_text(a.as_str(), b.as_str()),
            (None, None) => true,
            _ => false,
        },
        None => monitor.name.is_none(),
    }
}

/// The number announced for the monitor at `index`, from one: its place once those
/// that go by the primary one's name come first. Going by it here means to have
/// the same name, or none if the primary one has none, while the picker's list
/// takes one without a name for another. So the number is the one in the list
/// unless the primary monitor could be mistaken for one without a name.
pub fn picker_number(
    monitors: &Vec<MonitorInfo>,
    primary: Option<&MonitorInfo>,
    index: usize,
) -> (number: usize)
    requires
        index < monitors@.len(),
    ensures
        number == picker_place(given_names(monitors@), primary_name(seen(primary)), index as int)
            + 1,
{
    let ghost names = given_names(monitors@);
    let ghost held = primary_name(seen(primary));
    let mut mains: usize = 0;
    let mut mains_before: usize = 0;
    let mut others_before: usize = 0;
    let mut i: usize = 0;
    reveal(Seq::filter);
    assert(names.take(0) =~= Seq::empty());
    while i < monitors.len()
        invariant
            i <= monitors@.len(),
            index < monitors@.len(),
            names == given_names(monitors@),
            held == primary_name(seen(primary)),
            mains <= i,
            mains == names.take(i as int).filter(is_held(held)).len(),
            mains_before + others_before <= if i < index { i } else { index },
            mains_before == names.take(if i < index { i as int } else { index as int }).filter(
                is_held(held),
            ).len(),
            others_before == names.take(if i < index { i as int } else { index as int }).filter(
                is_other(held),
            ).len(),
            mains + others_before <= i,
        decreases monitors.len() - i,
    {
        reveal(Seq::filter);
        assert(names.take(i + 1).drop_last() =~= names.take(i as int));
        assert(names.take(i + 1).last() == names[i as int]);
        let same: bool = same_name(&monitors[i], primary);
        if same {
            mains += 1;
        }
        if i < index {
            if same {
                mains_before += 1;
            } else {
                others_before += 1;
            }
        }
        i += 1;
    }
    assert(names.take(i as int) =~= names);
    if same_name(&monitors[index], primary) {
        mains_before + 1
    } else {
        proof {
            reveal(Seq::filter);
            lemma_filters_apart(names, held, index as int);
        }
        mains + others_before + 1
    }
}

/// Of `names`, those that are the primary one's, and those before `index` that
/// are not, leave out the one at `index` if it is not.
proof fn lemma_filters_apart(
    names: Seq<Option<Seq<char>>>,
    held: Option<Seq<char>>,
    index: int,
)
    requires
        0 <= index < names.len(),
        names[index] != held,
    ensures
        names.filter(is_held(held)).len() + names.take(index).filter(is_other(held)).len()
            < names.len(),
    decreases names.len(),
{
    reveal(Seq::filter);
    if index == names.len() - 1 {
        assert(names.take(index) =~= names.drop_last());
        lemma_filters_cover(names.drop_last(), held);
    } else {
        lemma_filters_apart(names.drop_last(), held, index);
        assert(names.drop_last().take(index) =~= names.take(index));
    }
}

/// Every name is the primary one's or is not.
proof fn lemma_filters_cover(names: Seq<Option<Seq<char>>>, held: Option<Seq<char>>)
    ensures
        names.filter(is_held(held)).len() + names.filter(is_other(held)).len() == names.len(),
    decreases names.len(),
{
    reveal(Seq::filter);
    if names.len() > 0 {
        lemma_filters_cover(names.drop_last(), held);
    }
}

/// Whether a monitor is the primary one, as the confirmation on it says.
pub open spec fn is_confirmed_primary(monitor: MonitorInfo, primary: Option<MonitorInfo>) -> bool {
    primary_name(primary) == Some(
        match given_name(monitor) {
            Some(name) => name,
            None => ""@,
        },
    )
}

/// A monitor is confirmed as the primary one exactly when the primary one has a name and
/// it goes by the same, one without a name going by the empty one.
pub proof fn law_primary_monitor_is_confirmed_by_name(
    monitor: MonitorInfo,
    primary: MonitorInfo,
)
    ensures
        !is_confirmed_primary(monitor, None),
        primary.name is None ==> !is_confirmed_primary(monitor, Some(primary)),
        primary.name is Some && monitor.name is Some ==> (is_confirmed_primary(
            monitor,
            Some(primary),
        ) <==> monitor.name->0@ == primary.name->0@),
        primary.name is Some && monitor.name is None ==> (is_confirmed_primary(
            monitor,
            Some(primary),
        ) <==> primary.name->0@.len() == 0),
{
    reveal_strlit("");
    if primary.name is Some && primary.name->0@.len() == 0 {
        assert(primary.name->0@ =~= ""@);
    }
}

/// Whether the monitor at `index` is the primary one, as the confirmation on it
/// says. One without a name goes by the empty name.
pub fn is_primary_monitor(
    monitors: &Vec<MonitorInfo>,
    primary: Option<&MonitorInfo>,
    index: usize,
) -> (is: bool)
    requires
        index < monitors@.len(),
    ensures
        is == is_confirmed_primary(monitors@[index as int], seen(primary)),
{
    match &monitors[index].name {
        Some(name) => names_primary(primary, name.as_str()),
        None => names_primary(primary, ""),
    }
}

/// Why the details cannot be put on a monitor.
pub open spec fn placement_error(count: nat, index: nat) -> Seq<char> {
    if count == 0 {
        "no monitors reported"@
    } else {
        "monitor "@ + decimal(index) + " is not connected"@
    }
}

/// Whether the details can be put on the monitor at `index` of `count`.
pub fn check_monitor(count: usize, index: usize) -> (result: Result<(), String>)
    ensures
        result is Ok <==> index < count,
        result matches Err(e) ==> e@ == placement_error(count as nat, index as nat),
{
    if count == 0 {
        Err("no monitors reported".to_owned())
    } else if index < count {
        Ok(())
    } else {
        let mut text: String = "monitor ".to_owned();
        push_decimal(&mut text, index as u64);
        text.append(" is not connected");
        Err(text)
    }
}

/// An element that is kept by a filter stands behind those kept before it.
proof fn lemma_filter_place<T>(s: Seq<T>, keep: spec_fn(T) -> bool, i: int)
    requires
        0 <= i < s.len(),
        keep(s[i]),
    ensures
        s.take(i).filter(keep).len() < s.filter(keep).len(),
        s.filter(keep)[s.take(i).filter(keep).len() as int] == s[i],
    decreases s.len(),
{
    reveal(Seq::filter);
    if i == s.len() - 1 {
        assert(s.take(i) =~= s.drop_last());
    } else {
        lemma_filter_place(s.drop_last(), keep, i);
        assert(s.drop_last().take(i) =~= s.take(i));
        assert(s.drop_last()[i] == s[i]);
    }
}

/// Filtering two sequences that agree on what is kept keeps equally many.
proof fn lemma_filter_same_len<A, B>(
    a: Seq<A>,
    b: Seq<B>,
    keep_a: spec_fn(A) -> bool,
    keep_b: spec_fn(B) -> bool,
)
    requires
        a.len() == b.len(),
        forall|i: int| 0 <= i < a.len() ==> keep_a(#[trigger] a[i]) == keep_b(b[i]),
    ensures
        a.filter(keep_a).len() == b.filter(keep_b).len(),
    decreases a.len(),
{
    reveal(Seq::filter);
    if a.len() > 0 {
        assert forall|i: int| 0 <= i < a.len() - 1 implies keep_a(#[trigger] a.drop_last()[i])
            == keep_b(b.drop_last()[i]) by {
            assert(a.drop_last()[i] == a[i]);
        }
        lemma_filter_same_len(a.drop_last(), b.drop_last(), keep_a, keep_b);
        assert(keep_a(a[a.len() - 1]) == keep_b(b[b.len() - 1]));
    }
}

/// The number announced for a monitor is its place in the picker's list, as long
/// as the primary one cannot be mistaken for one without a name.
pub proof fn law_picker_number_is_the_place_in_the_list(
    monitors: Seq<MonitorInfo>,
    primary: Option<MonitorInfo>,
    index: int,
)
    requires
        0 <= index < monitors.len(),
        forall|i: int|
            0 <= i < monitors.len() && (#[trigger] monitors[i]).name is None ==> primary_name(
                primary,
            ) is Some && primary_name(primary)->0 != display_name(monitors[i], i),
    ensures
        ({
            let place = picker_place(given_names(monitors), primary_name(primary), index);
            &&& place < picker_order(monitors, primary).len()
            &&& picker_order(monitors, primary)[place as int].index == index
        }),
{
    let all = entries(monitors, primary);
    let names = given_names(monitors);
    let held = primary_name(primary);
    assert forall|i: int| 0 <= i < all.len() implies (#[trigger] all[i]).is_primary == (names[i]
        == held) by {
        assert(names[i] == given_name(monitors[i]));
    }
    lemma_filter_same_len(all, names, is_first(), is_held(held));
    lemma_filter_same_len(all.take(index), names.take(index), is_first(), is_held(held));
    lemma_filter_same_len(all.take(index), names.take(index), is_behind(), is_other(held));
    if all[index].is_primary {
        lemma_filter_place(all, is_first(), index);
    } else {
        lemma_filter_place(all, is_behind(), index);
    }
}

/// The side that a monitor lies on is told by its pixels: to the right if all its columns
/// are behind the primary one's, and so on; a monitor that shares a pixel with the
/// primary one lies nowhere.
pub proof fn law_sides_are_told_by_the_pixel(area: Rect, primary: Rect, x: int, y: int)
    requires
        0 < area.width <= 0x7fff_ffff,
        0 < area.height <= 0x7fff_ffff,
        0 < primary.width <= 0x7fff_ffff,
        0 < primary.height <= 0x7fff_ffff,
    ensures
        has_pixel(area, x, y) && side_of(area, primary) is Right ==> x >= primary.x
            + primary.width,
        has_pixel(area, x, y) && side_of(area, primary) is Left ==> x < primary.x,
        has_pixel(area, x, y) && side_of(area, primary) is Below ==> y >= primary.y
            + primary.height,
        has_pixel(area, x, y) && side_of(area, primary) is Above ==> y < primary.y,
        has_pixel(area, x, y) && has_pixel(primary, x, y) ==> side_of(area, primary) is Nowhere,
        area.x >= primary.x + primary.width ==> side_of(area, primary) is Right,
        area.x + area.width <= primary.x ==> side_of(area, primary) is Left,
        area.x < primary.x + primary.width && primary.x < area.x + area.width && area.y
            >= primary.y + primary.height ==> side_of(area, primary) is Below,
        area.x < primary.x + primary.width && primary.x < area.x + area.width && area.y
            + area.height <= primary.y ==> side_of(area, primary) is Above,
{
}

/// A monitor is offered under its place in the system's list, by its name or else its
/// number from one on, with its area; it is the primary one if it goes by that one's
/// name, and lies on the side of the primary one that its area does.
pub proof fn law_monitor_is_offered_as_it_is(
    monitors: Seq<MonitorInfo>,
    primary: Option<MonitorInfo>,
    i: int,
)
    requires
        0 <= i < monitors.len(),
    ensures
        ({
            let m = monitors[i];
            let e = entries(monitors, primary)[i];
            &&& entries(monitors, primary).len() == monitors.len()
            &&& e.index == i
            &&& m.name is Some ==> e.name == m.name->0@
            &&& m.name is None ==> e.name == seq!['D', 'i', 's', 'p', 'l', 'a', 'y', ' ']
                + decimal((i + 1) as nat)
            &&& e.area == m.area
            &&& e.is_primary <==> primary is Some && (primary->0).name is Some && (
            primary->0).name->0@ == e.name
            &&& e.is_primary || primary is None ==> e.side is Nowhere
            &&& !e.is_primary && primary is Some ==> e.side == side_of(m.area, (primary->0).area)
        }),
{
    reveal_strlit("Display ");
    assert("Display "@ =~= seq!['D', 'i', 's', 'p', 'l', 'a', 'y', ' ']);
}

/// The picker offers every monitor once: those that pass for the primary one first, and
/// on either side of that as the system lists them.
pub proof fn law_picker_offers_every_monitor(
    monitors: Seq<MonitorInfo>,
    primary: Option<MonitorInfo>,
    i: int,
)
    requires
        0 <= i < monitors.len(),
    ensures
        ({
            let all = entries(monitors, primary);
            let list = picker_order(monitors, primary);
            let mains = all.filter(is_first()).len() as int;
            let before = all.take(i).filter(is_first()).len() as int;
            &&& list.len() == monitors.len()
            &&& before + all.take(i).filter(is_behind()).len() == i
            &&& all[i].is_primary ==> before < mains && list[before] == all[i]
            &&& !all[i].is_primary ==> list[mains + i - before] == all[i]
        }),
{
    let all = entries(monitors, primary);
    lemma_first_and_behind(all);
    lemma_first_and_behind(all.take(i));
    if all[i].is_primary {
        lemma_filter_place(all, is_first(), i);
    } else {
        lemma_filter_place(all, is_behind(), i);
    }
}

/// Every entry is first or behind.
proof fn lemma_first_and_behind(all: Seq<EntryState>)
    ensures
        all.filter(is_first()).len() + all.filter(is_behind()).len() == all.len(),
    decreases all.len(),
{
    reveal(Seq::filter);
    if all.len() > 0 {
        lemma_first_and_behind(all.drop_last());
    }
}

/// The number announced for a monitor is no other's: those that go by the primary one's
/// name are numbered before the others, and each of the two in the system's order.
pub proof fn law_picker_numbers_are_in_order(
    names: Seq<Option<Seq<char>>>,
    primary: Option<Seq<char>>,
    i: int,
    j: int,
)
    requires
        0 <= i < j < names.len(),
    ensures
        ({
            let a = picker_place(names, primary, i);
            let b = picker_place(names, primary, j);
            &&& a < names.len() && b < names.len()
            &&& (names[i] == primary) == (names[j] == primary) ==> a < b
            &&& names[i] == primary && names[j] != primary ==> a < b
            &&& names[i] != primary && names[j] == primary ==> b < a
            &&& i == 0 && names[i] == primary ==> a == 0
        }),
{
    lemma_filters_cover(names, primary);
    lemma_place_in_order(names, primary, i, j);
    lemma_place_in_list(names, primary, i);
    lemma_place_in_list(names, primary, j);
    if i == 0 {
        reveal(Seq::filter);
        assert(names.take(0) =~= Seq::empty());
    }
}

/// A monitor's place is one of as many as there are.
proof fn lemma_place_in_list(
    names: Seq<Option<Seq<char>>>,
    primary: Option<Seq<char>>,
    i: int,
)
    requires
        0 <= i < names.len(),
    ensures
        picker_place(names, primary, i) < names.len(),
        names[i] == primary ==> picker_place(names, primary, i) < names.filter(
            is_held(primary),
        ).len(),
{
    lemma_filters_cover(names, primary);
    if names[i] == primary {
        lemma_filter_place(names, is_held(primary), i);
    } else {
        lemma_filter_place(names, is_other(primary), i);
    }
}

/// Of two monitors of one kind, the one that stands first keeps that.
proof fn lemma_place_in_order(
    names: Seq<Option<Seq<char>>>,
    primary: Option<Seq<char>>,
    i: int,
    j: int,
)
    requires
        0 <= i < j < names.len(),
    ensures
        names[i] == primary ==> names.take(i).filter(is_held(primary)).len() < names.take(
            j,
        ).filter(is_held(primary)).len(),
        names[i] != primary ==> names.take(i).filter(is_other(primary)).len() < names.take(
            j,
        ).filter(is_other(primary)).len(),
{
    let part = names.take(j);
    assert(part.take(i) =~= names.take(i));
    assert(part[i] == names[i]);
    if names[i] == primary {
        lemma_filter_place(part, is_held(primary), i);
    } else {
        lemma_filter_place(part, is_other(primary), i);
    }
}

/// No monitor at all, and one that is not there, are told apart, and the latter is named
/// by its number.
pub proof fn law_missing_monitor_is_named(count: nat, index: nat)
    ensures
        placement_error(0, index) == "no monitors reported"@,
        count > 0 ==> placement_error(count, index) == "monitor "@ + decimal(index)
            + " is not connected"@,
{
}

} // verus!
