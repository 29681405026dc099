//! Which network devices to capture on.

use vstd::prelude::*;

use crate::text::{
    chars_of, is_white_space, law_trimming_takes_whitespace_off_the_ends, trimmed, trims_to,
};

verus! {

/// The device shown while none is known.
pub open spec fn default_device() -> Seq<char> {
    "en0"@
}

/// A network device, as far as the choice among them goes.
#[derive(Debug)]
pub struct CaptureDevice {
    pub name: String,
    pub desc: Option<String>,
    /// Whether any address is bound to the device.
    pub has_address: bool,
}

/// Whether a name begins with `en`, in upper or lower case.
pub open spec fn begins_with_en(name: Seq<char>) -> bool {
    &&& name.len() >= 2
    &&& name[0] == 'e' || name[0] == 'E'
    &&& name[1] == 'n' || name[1] == 'N'
}

impl CaptureDevice {
    /// Whether to capture on this device: a physical interface, by its name, that
    /// is in use.
    pub open spec fn qualifies(self) -> bool {
        begins_with_en(self.name@) && self.has_address
    }

    /// What to call this device: its description, or else its name.
    pub open spec fn called(self) -> Seq<char> {
        match self.desc {
            Some(desc) => desc@,
            None => self.name@,
        }
    }

    /// Whether to capture on this device.
    pub fn is_eligible(&self) -> (eligible: bool)
        ensures
            eligible == self.qualifies(),
    {
        is_en_name(self.name.as_str()) && self.has_address
    }

    /// What to call this device.
    pub fn label(&self) -> (label: String)
        ensures
            label@ == self.called(),
    {
        match &self.desc {
            Some(desc) => desc.clone(),
            None => self.name.clone(),
        }
    }
}

/// Whether a name begins with `en`, in upper or lower case.
pub fn is_en_name(name: &str) -> (is: bool)
    ensures
        is == begins_with_en(name@),
{
    let chars: Vec<char> = chars_of(name);
    chars.len() >= 2 && (chars[0] == 'e' || chars[0] == 'E') && (chars[1] == 'n' || chars[1]
        == 'N')
}

/// The devices of a list to capture on, in their order.
pub open spec fn eligible(devices: Seq<CaptureDevice>) -> Seq<CaptureDevice> {
    devices.filter(|device: CaptureDevice| device.qualifies())
}

/// The labels of the devices to capture on, in their order.
pub fn device_labels(devices: &Vec<CaptureDevice>) -> (labels: Vec<String>)
    ensures
        labels@.map_values(|label: String| label@) == eligible(devices@).map_values(
            |device: CaptureDevice| device.called(),
        ),
{
    let mut labels: Vec<String> = Vec::new();
    let mut i: usize = 0;
    reveal(Seq::filter);
    assert(devices@.take(0) =~= Seq::<CaptureDevice>::empty());
    assert(labels@.map_values(|label: String| label@) =~= eligible(devices@.take(0)).map_values(
        |device: CaptureDevice| device.called(),
    ));
    while i < devices.len()
        invariant
            i <= devices@.len(),
            labels@.map_values(|label: String| label@) == eligible(
                devices@.take(i as int),
            ).map_values(|device: CaptureDevice| device.called()),
        decreases devices.len() - i,
    {
        let ghost before = labels@;
        reveal(Seq::filter);
        assert(devices@.take(i + 1).drop_last() =~= devices@.take(i as int));
        if devices[i].is_eligible() {
            labels.push(devices[i].label());
            assert(labels@.map_values(|label: String| label@) =~= before.map_values(
                |label: String| label@,
            ).push(devices@[i as int].called()));
        }
        assert(labels@.map_values(|label: String| label@) =~= eligible(
            devices@.take(i + 1),
        ).map_values(|device: CaptureDevice| device.called()));
        i += 1;
    }
    assert(devices@.take(i as int) =~= devices@);
    labels
}

/// What to do when capturing is to start.
#[derive(Debug)]
pub enum CapturePlan {
    /// It is running already.
    Leave,
    /// There is nothing to capture on.
    GiveUp,
    /// Capture on the devices with these places in the list.
    Capture(Vec<usize>),
}

/// Whether `places` are the places of the devices to capture on, in their order.
pub open spec fn are_eligible_places(
    places: Seq<usize>,
    devices: Seq<CaptureDevice>,
) -> bool {
    &&& forall|i: int|
        0 <= i < places.len() ==> (#[trigger] places[i]) < devices.len()
            && devices[places[i] as int].qualifies()
    &&& forall|i: int, j: int|
        #![trigger places[i], places[j]]
        0 <= i < j < places.len() ==> places[i] < places[j]
    &&& forall|k: int|
        0 <= k < devices.len() && (#[trigger] devices[k]).qualifies() ==> places.contains(
            k as usize,
        )
}

/// Plans the start of capturing, given whether it runs already and the devices
/// that could be listed.
pub fn plan_capture(running: bool, devices: Option<&Vec<CaptureDevice>>) -> (plan: CapturePlan)
    ensures
        plan is Leave <==> running,
        plan is Capture <==> !running && devices is Some && exists|k: int|
            0 <= k < devices->0@.len() && (#[trigger] devices->0@[k]).qualifies(),
        plan matches CapturePlan::Capture(places) ==> are_eligible_places(
            places@,
            devices->0@,
        ),
{
    if running {
        return CapturePlan::Leave;
    }
    let devices: &Vec<CaptureDevice> = match devices {
        Some(devices) => devices,
        None => {
            return CapturePlan::GiveUp;
        },
    };
    let mut places: Vec<usize> = Vec::new();
    let mut i: usize = 0;
    while i < devices.len()
        invariant
            i <= devices@.len(),
            forall|k: int|
                0 <= k < places@.len() ==> (#[trigger] places@[k]) < i
                    && devices@[places@[k] as int].qualifies(),
            forall|j: int, k: int|
                #![trigger places@[j], places@[k]]
                0 <= j < k < places@.len() ==> places@[j] < places@[k],
            forall|k: int|
                0 <= k < i && (#[trigger] devices@[k]).qualifies() ==> places@.contains(
                    k as usize,
                ),
        decreases devices.len() - i,
    {
        if devices[i].is_eligible() {
            let ghost before = places@;
            places.push(i);
            proof {
                assert(places@[before.len() as int] == i);
                assert forall|k: int|
                    0 <= k < i + 1 && (#[trigger] devices@[k]).qualifies() implies places@.contains(
                    k as usize,
                ) by {
                    if k < i {
                        let at = choose|at: int| 0 <= at < before.len() && before[at] == k as usize;
                        assert(places@[at] == k as usize);
                    }
                }
            }
        }
        i += 1;
    }
    if places.len() == 0 {
        CapturePlan::GiveUp
    } else {
        assert(devices@[places@[0] as int].qualifies());
        CapturePlan::Capture(places)
    }
}

/// What came of waiting for a frame.
#[derive(Clone, Copy, Debug, PartialEq, Eq, Structural)]
pub enum ReadOutcome {
    Frame,
    /// None came in time.
    Timeout,
    Failed,
}

/// Whether to wait for another frame, when `last` came of the wait before.
pub open spec fn waits_on(running: bool, last: Option<ReadOutcome>) -> bool {
    running && last != Some(ReadOutcome::Failed)
}

/// Capturing stops when it is told to or when a wait fails, and for no other reason.
pub proof fn law_capture_stops_when_told_or_failed(last: Option<ReadOutcome>)
    ensures
        !waits_on(false, last),
        waits_on(true, None),
        waits_on(true, Some(ReadOutcome::Frame)),
        waits_on(true, Some(ReadOutcome::Timeout)),
        !waits_on(true, Some(ReadOutcome::Failed)),
{
}

/// Whether to wait for another frame, when `last` came of the wait before: as long as
/// capturing is meant to run, unless the last wait failed. That no frame came in time
/// ends nothing.
pub fn capture_goes_on(running: bool, last: Option<ReadOutcome>) -> (on: bool)
    ensures
        on == waits_on(running, last),
{
    if !running {
        return false;
    }
    match last {
        Some(ReadOutcome::Failed) => false,
        Some(ReadOutcome::Frame) | Some(ReadOutcome::Timeout) | None => true,
    }
}

/// The first of `labels` that begins with `en`, or else the default.
pub open spec fn first_en(labels: Seq<String>) -> Seq<char>
    decreases labels.len(),
{
    if labels.len() == 0 {
        default_device()
    } else if begins_with_en(labels[0]@) {
        labels[0]@
    } else {
        first_en(labels.skip(1))
    }
}

/// The device to show: the one in use, or else the first whose label begins with
/// `en`, or else the default.
pub fn shown_device(current: Option<String>, labels: &Vec<String>) -> (device: String)
    ensures
        device@ == (match current {
            Some(current) => current@,
            None => first_en(labels@),
        }),
{
    if let Some(current) = current {
        return current;
    }
    let mut i: usize = 0;
    assert(labels@.skip(0) =~= labels@);
    while i < labels.len()
        invariant
            i <= labels@.len(),
            current is None,
            first_en(labels@) == first_en(labels@.skip(i as int)),
        decreases labels.len() - i,
    {
        assert(labels@.skip(i as int)[0] == labels@[i as int]);
        if is_en_name(labels[i].as_str()) {
            return labels[i].clone();
        }
        assert(labels@.skip(i as int).skip(1) =~= labels@.skip(i + 1));
        i += 1;
    }
    "en0".to_owned()
}

/// The device that the user asks for; a blank name asks for none.
pub open spec fn asked_for(device: String) -> Option<String> {
    if trimmed(device@).len() == 0 {
        None
    } else {
        Some(device)
    }
}

/// A device is asked for by its name as it was given, if anything in it is more than
/// whitespace, and by no other name.
pub proof fn law_named_device_is_asked_for(device: String)
    ensures
        (exists|i: int| 0 <= i < device@.len() && !is_white_space(#[trigger] device@[i])) <==> asked_for(
            device,
        ) == Some(device),
        asked_for(device) is Some ==> asked_for(device) == Some(device),
{
    law_trimming_takes_whitespace_off_the_ends(device@);
    let (from, to) = choose|from: int, to: int| trims_to(device@, from, to);
    assert(trims_to(device@, from, to));
    if from < to {
        assert(trimmed(device@)[0] == device@[from]);
        assert(!is_white_space(device@[from]));
    }
}

/// The device that the user asks for; a blank name asks for none.
pub fn manual_device(device: String) -> (chosen: Option<String>)
    ensures
        chosen == asked_for(device),
{
    if device.as_str().trim().is_empty() {
        None
    } else {
        Some(device)
    }
}

/// A device is captured on if it has an address and its name begins with `en`, each
/// letter in either case, and not otherwise.
pub proof fn law_devices_in_use_are_captured(
    device: CaptureDevice,
    e: char,
    n: char,
    rest: Seq<char>,
)
    requires
        device.name@ == seq![e, n] + rest,
    ensures
        device.qualifies() <==> device.has_address && (e as int == 0x65 || e as int == 0x45) && (
        n as int == 0x6e || n as int == 0x4e),
        !begins_with_en(Seq::empty()),
        !begins_with_en(seq![e]),
{
    assert(device.name@[0] == e);
    assert(device.name@[1] == n);
}

/// A device goes by its description, and by its name only where it has none.
pub proof fn law_devices_go_by_their_description(device: CaptureDevice)
    ensures
        device.desc is Some ==> device.called() == device.desc->0@,
        device.desc is None ==> device.called() == device.name@,
{
}

/// Of a list of devices, those to capture on are picked one by one, in their order.
pub proof fn law_devices_are_picked_one_by_one(
    a: Seq<CaptureDevice>,
    b: Seq<CaptureDevice>,
    device: CaptureDevice,
)
    ensures
        eligible(a + b) == eligible(a) + eligible(b),
        device.qualifies() ==> eligible(seq![device]) == seq![device],
        !device.qualifies() ==> eligible(seq![device]) == Seq::<CaptureDevice>::empty(),
        eligible(Seq::empty()) == Seq::<CaptureDevice>::empty(),
    decreases b.len(),
{
    reveal(Seq::filter);
    let one = seq![device];
    assert(one.drop_last() =~= Seq::<CaptureDevice>::empty());
    assert(one.last() == device);
    assert(eligible(one.drop_last()) == Seq::<CaptureDevice>::empty());
    if device.qualifies() {
        assert(eligible(one) =~= one);
    }
    if b.len() == 0 {
        assert(a + b =~= a);
        assert(eligible(a) + eligible(b) =~= eligible(a));
    } else {
        law_devices_are_picked_one_by_one(a, b.drop_last(), device);
        assert((a + b).drop_last() =~= a + b.drop_last());
        assert((a + b).last() == b.last());
        assert(eligible(a + b) =~= eligible(a) + eligible(b));
    }
}

/// Where no device is in use, the first one shows whose label begins with `en`, and
/// `en0` where none does.
pub proof fn law_first_en_device_is_shown(labels: Seq<String>, i: int)
    ensures
        0 <= i < labels.len() && begins_with_en(labels[i]@) && (forall|j: int|
            0 <= j < i ==> !begins_with_en((#[trigger] labels[j])@)) ==> first_en(labels)
            == labels[i]@,
        (forall|j: int| 0 <= j < labels.len() ==> !begins_with_en((#[trigger] labels[j])@))
            ==> first_en(labels) == seq!['e', 'n', '0'],
    decreases labels.len(),
{
    reveal_strlit("en0");
    assert("en0"@ =~= seq!['e', 'n', '0']);
    if labels.len() > 0 && !begins_with_en(labels[0]@) {
        let rest = labels.skip(1);
        law_first_en_device_is_shown(rest, i - 1);
        assert(forall|j: int| 0 <= j < rest.len() ==> rest[j] == labels[j + 1]);
    }
}

} // verus!
