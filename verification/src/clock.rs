//! The wall clock.

use std::time::{Duration, SystemTime, SystemTimeError, UNIX_EPOCH};
use vstd::prelude::*;

verus! {

/// A point on the wall clock of std.
#[verifier::external_type_specification]
#[verifier::external_body]
pub struct ExSystemTime(SystemTime);

/// What std reports for a clock that stands before the epoch.
#[verifier::external_type_specification]
#[verifier::external_body]
pub struct ExSystemTimeError(SystemTimeError);

/// `SystemTime::now` of std reads the wall clock. Nothing is promised of it: the
/// clock may stand anywhere, and may be set back between two readings.
#[verifier::external_body]
fn system_now() -> (now: SystemTime) {
    SystemTime::now()
}

/// `SystemTime::duration_since` of std, measured from the Unix epoch. Nothing is
/// promised of it: what a point in time holds cannot be seen from here.
#[verifier::external_body]
fn since_epoch(t: SystemTime) -> (span: Result<Duration, SystemTimeError>) {
    t.duration_since(UNIX_EPOCH)
}

/// `Duration::as_millis` of std counts whole milliseconds. Nothing is promised of
/// it: what a span holds cannot be seen from here.
#[verifier::external_body]
fn whole_millis(span: Duration) -> (millis: u128) {
    span.as_millis()
}

/// The epoch milliseconds that a reading of the clock stands for, `None` being a
/// clock before the epoch: the reading itself, down to its low 64 bits, and 0
/// before the epoch.
pub open spec fn clock_ms(reading: Option<u128>) -> i64 {
    match reading {
        Some(millis) => millis as i64,
        None => 0,
    }
}

/// The epoch milliseconds that a reading of the clock stands for.
pub fn epoch_ms(reading: Option<u128>) -> (now: i64)
    ensures
        now == clock_ms(reading),
{
    match reading {
        Some(millis) => {
            #[verifier::truncate]
            (millis as i64)
        },
        None => 0,
    }
}

/// The clock in epoch milliseconds, by [`epoch_ms`]. Any value may come back,
/// since the clock may stand anywhere.
pub fn now_ms() -> (now: i64) {
    let reading: Option<u128> = match since_epoch(system_now()) {
        Ok(span) => Some(whole_millis(span)),
        Err(_) => None,
    };
    epoch_ms(reading)
}

/// A reading in the range of an `i64` is the time itself, and a clock before the epoch
/// reads zero.
pub proof fn law_clock_reads_milliseconds(millis: u128)
    ensures
        millis <= 0x7fff_ffff_ffff_ffff ==> clock_ms(Some(millis)) == millis,
        clock_ms(None) == 0,
{
}

} // verus!
