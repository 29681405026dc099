//! Days of the civil calendar.

use vstd::prelude::*;

use crate::numbers::quotient;

verus! {

/// Days from 1970-01-01 to a date of the civil calendar, reckoned in years that
/// begin in March, so that the leap day comes last. Months and days past their
/// ends are counted on.
pub open spec fn civil_days(y: int, m: int, d: int) -> int {
    let year = if m <= 2 {
        y - 1
    } else {
        y
    };
    let month = if m > 2 {
        m - 3
    } else {
        m + 9
    };
    365 * year + year / 4 - year / 100 + year / 400 + quotient(153 * month + 2, 5) + d - 1 - 719468
}

/// Whether `y` has a leap day.
pub open spec fn is_leap(y: int) -> bool {
    y % 4 == 0 && (y % 100 != 0 || y % 400 == 0)
}

/// How many days the month `m` of the year `y` has.
pub open spec fn days_in_month(y: int, m: int) -> int {
    if m == 2 {
        if is_leap(y) {
            29
        } else {
            28
        }
    } else if m == 4 || m == 6 || m == 9 || m == 11 {
        30
    } else {
        31
    }
}

/// The days from 1970-01-01 are those of the civil calendar: that day is day
/// zero, one day follows on the other, and so does the first of a month on the
/// last of the month before it.
pub proof fn law_days_follow_the_calendar(y: int, m: int, d: int)
    requires
        1 <= m <= 12,
    ensures
        civil_days(1970, 1, 1) == 0,
        civil_days(y, m, d + 1) == civil_days(y, m, d) + 1,
        m < 12 ==> civil_days(y, m + 1, 1) == civil_days(y, m, days_in_month(y, m)) + 1,
        m == 12 ==> civil_days(y + 1, 1, 1) == civil_days(y, m, days_in_month(y, m)) + 1,
{
    let p = y - 1;
    assert(y / 4 - p / 4 == if y % 4 == 0 { 1int } else { 0int });
    assert(y / 100 - p / 100 == if y % 100 == 0 { 1int } else { 0int });
    assert(y / 400 - p / 400 == if y % 400 == 0 { 1int } else { 0int });
}

/// Days are counted on past the end of a month, and months past the end of a year, as if
/// months went on being as long as they are from March on.
pub proof fn law_days_are_counted_on(y: int, m: int, d: int, n: int)
    ensures
        civil_days(y, m, d + n) == civil_days(y, m, d) + n,
        m > 2 ==> civil_days(y, m + 5, d) == civil_days(y, m, d) + 153,
        -4 <= m <= 2 ==> civil_days(y, m - 5, d) == civil_days(y, m, d) - 153,
        civil_days(y + 400, m, d) == civil_days(y, m, d) + 146097,
{
}

/// `a / b` rounded down.
fn floor_div(a: i128, b: i128) -> (q: i128)
    requires
        b == 4 || b == 100 || b == 400,
        -0x1_0000_0000_0000_0000i128 <= a <= 0x1_0000_0000_0000_0000i128,
    ensures
        q == a as int / b as int,
        -0x1_0000_0000_0000_0000i128 <= q <= 0x1_0000_0000_0000_0000i128,
{
    if a >= 0 {
        a / b
    } else {
        -((b - 1 - a) / b)
    }
}

/// Days from 1970-01-01, in an integer that holds them for any date.
pub fn civil_days_wide(y: i64, m: i64, d: i64) -> (days: i128)
    ensures
        days == civil_days(y as int, m as int, d as int),
        -0x1_0000_0000_0000_0000_0000i128 <= days <= 0x1_0000_0000_0000_0000_0000i128,
{
    let year: i128 = if m <= 2 {
        y as i128 - 1
    } else {
        y as i128
    };
    let month: i128 = if m > 2 {
        m as i128 - 3
    } else {
        m as i128 + 9
    };
    let n: i128 = 153 * month + 2;
    let before: i128 = if n >= 0 {
        n / 5
    } else {
        -((-n) / 5)
    };
    365 * year + floor_div(year, 4) - floor_div(year, 100) + floor_div(year, 400) + before
        + d as i128 - 1 - 719468
}

/// Days from 1970-01-01 to a date of the civil calendar.
pub fn days_from_civil(y: i64, m: i64, d: i64) -> (days: i64)
    requires
        i64::MIN <= civil_days(y as int, m as int, d as int) <= i64::MAX,
    ensures
        days == civil_days(y as int, m as int, d as int),
{
    civil_days_wide(y, m, d) as i64
}

} // verus!
