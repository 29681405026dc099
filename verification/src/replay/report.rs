//! What a replay comes to.

use vstd::prelude::*;

use crate::numbers::{decimal, decimal_text, push_decimal, signed_decimal};
use crate::replay::log::{ReplayStep, StepState};

verus! {

/// How many of `steps` hold a payload.
pub open spec fn packets_in(steps: Seq<StepState>) -> nat
    decreases steps.len(),
{
    if steps.len() == 0 {
        0
    } else {
        packets_in(steps.drop_last()) + if steps.last().packet is Some {
            1nat
        } else {
            0nat
        }
    }
}

/// How many of `steps` hold a payload.
pub fn packet_count(steps: &Vec<ReplayStep>) -> (count: usize)
    ensures
        count == packets_in(steps@.map_values(|step: ReplayStep| step@)),
{
    let ghost all = steps@.map_values(|step: ReplayStep| step@);
    let mut count: usize = 0;
    let mut i: usize = 0;
    while i < steps.len()
        invariant
            i <= steps@.len(),
            count <= i,
            all == steps@.map_values(|step: ReplayStep| step@),
            count == packets_in(all.take(i as int)),
        decreases steps.len() - i,
    {
        assert(all.take(i + 1).drop_last() =~= all.take(i as int));
        assert(all.take(i + 1).last() == steps@[i as int]@);
        if steps[i].packet.is_some() {
            count += 1;
        }
        i += 1;
    }
    assert(all.take(i as int) =~= all);
    count
}

/// The report on a replay.
pub open spec fn report_text(packets: nat, damage_events: int) -> Seq<char> {
    "Replay complete. "@ + decimal(packets) + " packets, "@ + signed_decimal(damage_events)
        + " damage events."@
}

/// The report on a replay of `packets` payloads that led to `damage_events` hits.
pub fn replay_report(packets: usize, damage_events: i64) -> (text: String)
    ensures
        text@ == report_text(packets as nat, damage_events as int),
{
    let mut text: String = "Replay complete. ".to_owned();
    push_decimal(&mut text, packets as u64);
    text.append(" packets, ");
    let events: String = decimal_text(damage_events);
    text.append(events.as_str());
    text.append(" damage events.");
    text
}

/// A replay counts its steps with a payload, one by one, and no other step.
pub proof fn law_packets_are_counted_one_by_one(a: Seq<StepState>, b: Seq<StepState>, s: StepState)
    ensures
        packets_in(Seq::empty()) == 0,
        packets_in(seq![s]) == (if s.packet is Some { 1nat } else { 0nat }),
        packets_in(a + b) == packets_in(a) + packets_in(b),
    decreases b.len(),
{
    assert(seq![s].drop_last() =~= Seq::<StepState>::empty());
    assert(packets_in(seq![s].drop_last()) == 0);
    if b.len() == 0 {
        assert(a + b =~= a);
    } else {
        law_packets_are_counted_one_by_one(a, b.drop_last(), s);
        assert((a + b).drop_last() =~= a + b.drop_last());
        assert((a + b).last() == b.last());
    }
}

/// The report states both numbers as they are, between the same words always.
pub proof fn law_report_states_both_numbers(packets: nat, damage_events: int)
    ensures
        ({
            let r = report_text(packets, damage_events);
            let p = decimal(packets);
            let d = signed_decimal(damage_events);
            let n = "Replay complete. "@.len() as int;
            let m = " packets, "@.len() as int;
            let o = " damage events."@.len() as int;
            &&& r.len() == n + p.len() + m + d.len() + o
            &&& r.take(n) == "Replay complete. "@
            &&& r.subrange(n, n + p.len()) == p
            &&& r.subrange(n + p.len(), n + p.len() + m) == " packets, "@
            &&& r.subrange(n + p.len() + m, n + p.len() + m + d.len()) == d
            &&& r.skip(n + p.len() + m + d.len()) == " damage events."@
        }),
{
    let r = report_text(packets, damage_events);
    let p = decimal(packets);
    let d = signed_decimal(damage_events);
    let n = "Replay complete. "@.len() as int;
    let m = " packets, "@.len() as int;
    assert(r.take(n) =~= "Replay complete. "@);
    assert(r.subrange(n, n + p.len()) =~= p);
    assert(r.subrange(n + p.len(), n + p.len() + m) =~= " packets, "@);
    assert(r.subrange(n + p.len() + m, n + p.len() + m + d.len()) =~= d);
    assert(r.skip(n + p.len() + m + d.len()) =~= " damage events."@);
}

} // verus!
