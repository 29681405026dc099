//! When a recorded packet was captured.

use vstd::prelude::*;
use vstd::slice::slice_subrange;

use crate::fields::{
    fields, find, find_char, joined, law_joined_pieces_come_apart,
    law_places_are_the_first_and_the_last, lemma_fields_not_empty, lemma_find, rfind, rfind_char,
    split, trim_end_char, without_trailing,
};
use crate::numbers::{
    as_i64, digits_value, is_digit, is_number, law_numbers_are_read_digit_by_digit,
    law_numbers_are_read_in_range, lemma_digits_grow, parse_i64,
};
use crate::replay::calendar::{civil_days, civil_days_wide};
use crate::text::chars_of;

verus! {

/// The minutes of a zone offset, `HH` or `HH:MM`. Minutes that are no number
/// count as none.
pub open spec fn offset_minutes(zone: Seq<char>) -> Option<int> {
    let parts = fields(zone, ':');
    match as_i64(parts[0]) {
        Some(h) => Some(
            h * 60 + if parts.len() > 1 && as_i64(parts[1]) is Some {
                as_i64(parts[1])->0 as int
            } else {
                0
            },
        ),
        None => None,
    }
}

/// The time of day and the zone offset in minutes, where the two stand together.
/// A sign is the zone's only past the place where the seconds begin. Without a
/// sign the time is UTC, with or without `Z`.
pub open spec fn time_and_offset(clock: Seq<char>) -> Option<(Seq<char>, int)> {
    let plus = rfind(clock, '+');
    let minus = rfind(clock, '-');
    if plus > 6 {
        match offset_minutes(clock.skip(plus + 1)) {
            Some(m) => Some((clock.take(plus), m)),
            None => None,
        }
    } else if plus >= 0 {
        Some((clock, 0))
    } else if minus > 6 {
        match offset_minutes(clock.skip(minus + 1)) {
            Some(m) => Some((clock.take(minus), -m)),
            None => None,
        }
    } else if minus >= 0 {
        Some((clock, 0))
    } else {
        Some((without_trailing(clock, 'Z'), 0))
    }
}

/// The milliseconds of a fraction of a second: its first three digits, and fewer
/// as if zeros followed.
pub open spec fn fraction_millis(fraction: Seq<char>) -> Option<int> {
    let digits = if fraction.len() >= 3 {
        fraction.take(3)
    } else {
        fraction
    };
    match as_i64(digits) {
        Some(v) => Some(
            v * if fraction.len() == 1 {
                100int
            } else if fraction.len() == 2 {
                10
            } else {
                1
            },
        ),
        None => None,
    }
}

/// The milliseconds since midnight of a time `HH:MM:SS`, with or without a
/// fraction of a second.
pub open spec fn day_millis(time: Seq<char>) -> Option<int> {
    let parts = fields(time, ':');
    if parts.len() < 3 {
        None
    } else {
        let seconds = fields(parts[2], '.');
        let millis = if seconds.len() > 1 {
            fraction_millis(seconds[1])
        } else {
            Some(0)
        };
        match (as_i64(parts[0]), as_i64(parts[1]), as_i64(seconds[0]), millis) {
            (Some(h), Some(m), Some(s), Some(ms)) => Some(
                (h * 3600 + m * 60 + s) * 1000 + ms,
            ),
            _ => None,
        }
    }
}

/// The days from 1970-01-01 to a date `YYYY-MM-DD`.
pub open spec fn date_days(date: Seq<char>) -> Option<int> {
    let parts = fields(date, '-');
    if parts.len() != 3 {
        None
    } else {
        match (as_i64(parts[0]), as_i64(parts[1]), as_i64(parts[2])) {
            (Some(y), Some(m), Some(d)) => Some(civil_days(y as int, m as int, d as int)),
            _ => None,
        }
    }
}

/// The milliseconds since the epoch that a date and a clock reading, joined by
/// `T`, stand for.
pub open spec fn date_time_millis(s: Seq<char>) -> Option<int> {
    let t = find(s, 'T');
    if t >= s.len() {
        None
    } else {
        match (date_days(s.take(t)), time_and_offset(s.skip(t + 1))) {
            (Some(days), Some((time, offset))) => match day_millis(time) {
                Some(ms) => Some(days * 86_400_000 + ms - offset * 60_000),
                None => None,
            },
            _ => None,
        }
    }
}

/// The milliseconds since the epoch that `s` stands for: a plain number of them,
/// or a date and a clock reading.
pub open spec fn epoch_millis(s: Seq<char>) -> Option<int> {
    match as_i64(s) {
        Some(ms) => Some(ms as int),
        None => date_time_millis(s),
    }
}

/// Whether the time that `s` stands for, if any, is in the range of an `i64`.
pub open spec fn time_in_range(s: Seq<char>) -> bool {
    match epoch_millis(s) {
        Some(ms) => i64::MIN <= ms <= i64::MAX,
        None => true,
    }
}

/// The minutes of a zone offset.
fn read_offset(zone: &[char]) -> (minutes: Option<i128>)
    ensures
        match minutes {
            Some(m) => offset_minutes(zone@) == Some(m as int),
            None => offset_minutes(zone@) is None,
        },
        minutes matches Some(m) ==> -0x1_0000_0000_0000_0000_00i128 <= m
            <= 0x1_0000_0000_0000_0000_00i128,
{
    let parts: Vec<(usize, usize)> = split(zone, ':');
    proof {
        lemma_fields_not_empty(zone@, ':');
    }
    let h: i64 = match parse_i64(slice_subrange(zone, parts[0].0, parts[0].1)) {
        Some(h) => h,
        None => {
            return None;
        },
    };
    let m: i64 = if parts.len() > 1 {
        match parse_i64(slice_subrange(zone, parts[1].0, parts[1].1)) {
            Some(m) => m,
            None => 0,
        }
    } else {
        0
    };
    Some(h as i128 * 60 + m as i128)
}

/// Parts the time of day from the zone offset, by the length of the former.
fn read_zone(clock: &[char]) -> (parted: Option<(&[char], i128)>)
    ensures
        match parted {
            Some((time, offset)) => time_and_offset(clock@) == Some((time@, offset as int)),
            None => time_and_offset(clock@) is None,
        },
        parted matches Some((_, offset)) ==> -0x1_0000_0000_0000_0000_00i128 <= offset
            <= 0x1_0000_0000_0000_0000_00i128,
{
    let len: usize = clock.len();
    let (at, east): (usize, bool) = match rfind_char(clock, '+') {
        Some(plus) => (plus, true),
        None => match rfind_char(clock, '-') {
            Some(minus) => (minus, false),
            None => {
                return Some((trim_end_char(clock, 'Z'), 0));
            },
        },
    };
    if at <= 6 {
        return Some((clock, 0));
    }
    assert(clock@.subrange(at + 1, len as int) =~= clock@.skip(at + 1));
    assert(clock@.subrange(0, at as int) =~= clock@.take(at as int));
    match read_offset(slice_subrange(clock, at + 1, len)) {
        Some(m) => Some((slice_subrange(clock, 0, at), if east { m } else { -m })),
        None => None,
    }
}

/// The milliseconds of a fraction of a second.
fn read_fraction(fraction: &[char]) -> (millis: Option<i128>)
    ensures
        match millis {
            Some(v) => fraction_millis(fraction@) == Some(v as int),
            None => fraction_millis(fraction@) is None,
        },
        millis matches Some(v) ==> -0x1_0000_0000_0000_0000_00i128 <= v
            <= 0x1_0000_0000_0000_0000_00i128,
{
    let len: usize = fraction.len();
    assert(fraction@.subrange(0, len as int) =~= fraction@);
    let digits: &[char] = slice_subrange(fraction, 0, if len >= 3 { 3 } else { len });
    let scale: i128 = if len == 1 {
        100
    } else if len == 2 {
        10
    } else {
        1
    };
    match parse_i64(digits) {
        Some(v) => if scale == 100 {
            Some(v as i128 * 100)
        } else if scale == 10 {
            Some(v as i128 * 10)
        } else {
            Some(v as i128)
        },
        None => None,
    }
}

/// The milliseconds since midnight of a time of day.
fn read_time(time: &[char]) -> (millis: Option<i128>)
    ensures
        match millis {
            Some(v) => day_millis(time@) == Some(v as int),
            None => day_millis(time@) is None,
        },
        millis matches Some(v) ==> -0x1_0000_0000_0000_0000_0000_00i128 <= v
            <= 0x1_0000_0000_0000_0000_0000_00i128,
{
    let parts: Vec<(usize, usize)> = split(time, ':');
    if parts.len() < 3 {
        return None;
    }
    let rest: &[char] = slice_subrange(time, parts[2].0, parts[2].1);
    let seconds: Vec<(usize, usize)> = split(rest, '.');
    proof {
        lemma_fields_not_empty(rest@, '.');
    }
    let millis: Option<i128> = if seconds.len() > 1 {
        read_fraction(slice_subrange(rest, seconds[1].0, seconds[1].1))
    } else {
        Some(0)
    };
    match (
        parse_i64(slice_subrange(time, parts[0].0, parts[0].1)),
        parse_i64(slice_subrange(time, parts[1].0, parts[1].1)),
        parse_i64(slice_subrange(rest, seconds[0].0, seconds[0].1)),
        millis,
    ) {
        (Some(h), Some(m), Some(s), Some(ms)) => Some(
            (h as i128 * 3600 + m as i128 * 60 + s as i128) * 1000 + ms,
        ),
        _ => None,
    }
}

/// The days from 1970-01-01 to a date.
fn read_date(date: &[char]) -> (days: Option<i128>)
    ensures
        match days {
            Some(d) => date_days(date@) == Some(d as int),
            None => date_days(date@) is None,
        },
        days matches Some(d) ==> -0x1_0000_0000_0000_0000_0000i128 <= d
            <= 0x1_0000_0000_0000_0000_0000i128,
{
    let parts: Vec<(usize, usize)> = split(date, '-');
    if parts.len() != 3 {
        return None;
    }
    match (
        parse_i64(slice_subrange(date, parts[0].0, parts[0].1)),
        parse_i64(slice_subrange(date, parts[1].0, parts[1].1)),
        parse_i64(slice_subrange(date, parts[2].0, parts[2].1)),
    ) {
        (Some(y), Some(m), Some(d)) => Some(civil_days_wide(y, m, d)),
        _ => None,
    }
}

/// The milliseconds since the epoch that `s` stands for, in an integer that
/// holds them whatever the date.
pub fn epoch_millis_wide(s: &[char]) -> (millis: Option<i128>)
    ensures
        match millis {
            Some(v) => epoch_millis(s@) == Some(v as int),
            None => epoch_millis(s@) is None,
        },
{
    if let Some(ms) = parse_i64(s) {
        return Some(ms as i128);
    }
    let t: usize = find_char(s, 'T');
    if t == s.len() {
        return None;
    }
    assert(s@.subrange(0, t as int) =~= s@.take(t as int));
    assert(s@.subrange(t + 1, s@.len() as int) =~= s@.skip(t + 1));
    let days: Option<i128> = read_date(slice_subrange(s, 0, t));
    let zoned: Option<(&[char], i128)> = read_zone(slice_subrange(s, t + 1, s.len()));
    match (days, zoned) {
        (Some(days), Some((time, offset))) => match read_time(time) {
            Some(ms) => Some(days * 86_400_000 + ms - offset * 60_000),
            None => None,
        },
        _ => None,
    }
}

/// Whether the time that `s` stands for, if any, is in the range of an `i64`.
pub fn is_time_in_range(s: &str) -> (fits: bool)
    ensures
        fits == time_in_range(s@),
{
    let chars: Vec<char> = chars_of(s);
    match epoch_millis_wide(chars.as_slice()) {
        Some(v) => i64::MIN as i128 <= v && v <= i64::MAX as i128,
        None => true,
    }
}

/// Reads an ISO 8601 timestamp, or a plain number of milliseconds, as
/// milliseconds since the epoch.
pub fn parse_replay_timestamp(s: &str) -> (millis: Option<i64>)
    requires
        time_in_range(s@),
    ensures
        match millis {
            Some(v) => epoch_millis(s@) == Some(v as int),
            None => epoch_millis(s@) is None,
        },
{
    let chars: Vec<char> = chars_of(s);
    match epoch_millis_wide(chars.as_slice()) {
        Some(v) => Some(v as i64),
        None => None,
    }
}

/// Whether `s` is made of digits and stands for a number in the range of an `i64`.
pub open spec fn is_count(s: Seq<char>) -> bool {
    is_number(s) && digits_value(s) <= 0x7fff_ffff_ffff_ffff
}

/// A count is read as its number, and holds no character that is no digit.
proof fn lemma_count(s: Seq<char>, c: char)
    requires
        is_count(s),
        !('0' <= c <= '9'),
    ensures
        as_i64(s) == Some(digits_value(s) as i64),
        0 <= digits_value(s) <= i64::MAX,
        forall|i: int| 0 <= i < s.len() ==> #[trigger] s[i] != c,
{
    law_numbers_are_read_digit_by_digit(s, c);
    law_numbers_are_read_in_range(s);
    lemma_digits_grow(s, 0);
    assert forall|i: int| 0 <= i < s.len() implies #[trigger] s[i] != c by {
        assert(is_digit(s[i]));
    }
}

/// Three counts with separators between them come apart into the three.
proof fn lemma_three_parts(a: Seq<char>, b: Seq<char>, c: Seq<char>, sep: char)
    requires
        forall|i: int| 0 <= i < a.len() ==> #[trigger] a[i] != sep,
        forall|i: int| 0 <= i < b.len() ==> #[trigger] b[i] != sep,
        forall|i: int| 0 <= i < c.len() ==> #[trigger] c[i] != sep,
    ensures
        fields(a + seq![sep] + b + seq![sep] + c, sep) == seq![a, b, c],
        fields(a + seq![sep] + b, sep) == seq![a, b],
        fields(a, sep) == seq![a],
{
    let three = seq![a, b, c];
    let two = seq![a, b];
    let one = seq![a];
    assert forall|i: int, j: int| 0 <= i < three.len() && 0 <= j < three[i].len() implies
        #[trigger] three[i][j] != sep by {
        assert(three[0] == a && three[1] == b && three[2] == c);
    }
    assert forall|i: int, j: int| 0 <= i < two.len() && 0 <= j < two[i].len() implies
        #[trigger] two[i][j] != sep by {
        assert(two[0] == a && two[1] == b);
    }
    law_joined_pieces_come_apart(three, sep);
    law_joined_pieces_come_apart(two, sep);
    law_joined_pieces_come_apart(one, sep);
    assert(three.skip(1) =~= seq![b, c]);
    assert(three.skip(1).skip(1) =~= seq![c]);
    assert(two.skip(1) =~= seq![b]);
    assert(joined(seq![c], sep) == c);
    assert(joined(seq![b], sep) == b);
    assert(seq![b, c].skip(1) =~= seq![c]);
    assert(joined(seq![b, c], sep) == b + seq![sep] + c);
    assert(joined(three, sep) =~= a + seq![sep] + b + seq![sep] + c);
    assert(joined(two, sep) == a + seq![sep] + b);
}

/// A date in the calendar's order of year, month and day.
pub open spec fn date_text(y: Seq<char>, m: Seq<char>, d: Seq<char>) -> Seq<char> {
    y + seq!['-'] + m + seq!['-'] + d
}

/// A time of day by hours, minutes and seconds.
pub open spec fn time_text(h: Seq<char>, m: Seq<char>, s: Seq<char>) -> Seq<char> {
    h + seq![':'] + m + seq![':'] + s
}

/// A date stands for its day in the calendar, and for none with a part missing or one too
/// many.
pub proof fn law_date_is_its_day(y: Seq<char>, m: Seq<char>, d: Seq<char>)
    requires
        is_count(y),
        is_count(m),
        is_count(d),
    ensures
        date_days(date_text(y, m, d)) == Some(
            civil_days(digits_value(y), digits_value(m), digits_value(d)),
        ),
        date_days(y + seq!['-'] + m) is None,
        date_days(y) is None,
        date_days(date_text(y, m, d) + seq!['-'] + d) is None,
{
    lemma_date(y, m, d);
    lemma_count(y, '-');
    lemma_count(m, '-');
    lemma_count(d, '-');
    lemma_three_parts(y, m, m, '-');
    let four = seq![y, m, d, d];
    assert forall|i: int, j: int| 0 <= i < four.len() && 0 <= j < four[i].len() implies
        #[trigger] four[i][j] != '-' by {
        assert(four[0] == y && four[1] == m && four[2] == d && four[3] == d);
    }
    law_joined_pieces_come_apart(four, '-');
    let one = seq![d];
    let two = seq![d, d];
    let three = seq![m, d, d];
    assert(joined(one, '-') == d);
    assert(two.skip(1) =~= one);
    assert(joined(two, '-') == d + seq!['-'] + d);
    assert(three.skip(1) =~= two);
    assert(joined(three, '-') == m + seq!['-'] + joined(two, '-'));
    assert(four.skip(1) =~= three);
    assert(joined(four, '-') == y + seq!['-'] + joined(three, '-'));
    assert(joined(four, '-') =~= date_text(y, m, d) + seq!['-'] + d);
}

/// A date stands for its day.
proof fn lemma_date(y: Seq<char>, m: Seq<char>, d: Seq<char>)
    requires
        is_count(y),
        is_count(m),
        is_count(d),
    ensures
        date_days(date_text(y, m, d)) == Some(
            civil_days(digits_value(y), digits_value(m), digits_value(d)),
        ),
        find(date_text(y, m, d), 'T') == date_text(y, m, d).len(),
{
    lemma_count(y, '-');
    lemma_count(m, '-');
    lemma_count(d, '-');
    lemma_three_parts(y, m, d, '-');
    lemma_count(y, 'T');
    lemma_count(m, 'T');
    lemma_count(d, 'T');
    let s = date_text(y, m, d);
    lemma_find(s, 'T', s.len() as int);
}

/// A fraction of a second counts by its first three digits, as if zeros followed.
pub proof fn law_fraction_counts_in_milliseconds(a: char, b: char, c: char, rest: Seq<char>)
    requires
        '0' <= a <= '9',
        '0' <= b <= '9',
        '0' <= c <= '9',
    ensures
        fraction_millis(seq![a]) == Some(100 * (a as int - 48)),
        fraction_millis(seq![a, b]) == Some(100 * (a as int - 48) + 10 * (b as int - 48)),
        fraction_millis(seq![a, b, c] + rest) == Some(
            100 * (a as int - 48) + 10 * (b as int - 48) + (c as int - 48),
        ),
{
    let one = seq![a];
    let two = seq![a, b];
    let three = seq![a, b, c];
    assert(is_number(one));
    assert(is_number(two));
    assert(is_number(three));
    law_numbers_are_read_digit_by_digit(Seq::empty(), a);
    law_numbers_are_read_digit_by_digit(one, b);
    law_numbers_are_read_digit_by_digit(two, c);
    assert(one.push(b) =~= two);
    assert(two.push(c) =~= three);
    law_numbers_are_read_digit_by_digit(two, b);
    law_numbers_are_read_digit_by_digit(three, c);
    law_numbers_are_read_in_range(one);
    law_numbers_are_read_in_range(two);
    law_numbers_are_read_in_range(three);
    assert((three + rest).take(3) =~= three);
}

/// A time of day counts its milliseconds since midnight.
proof fn lemma_time(h: Seq<char>, m: Seq<char>, s: Seq<char>, fraction: Seq<char>)
    requires
        is_count(h),
        is_count(m),
        is_count(s),
        is_number(fraction),
    ensures
        day_millis(time_text(h, m, s)) == Some(
            1000 * (3600 * digits_value(h) + 60 * digits_value(m) + digits_value(s)),
        ),
        fraction_millis(fraction) is Some ==> day_millis(
            time_text(h, m, s + seq!['.'] + fraction),
        ) == Some(
            1000 * (3600 * digits_value(h) + 60 * digits_value(m) + digits_value(s))
                + fraction_millis(fraction)->0,
        ),
{
    lemma_count(h, ':');
    lemma_count(m, ':');
    lemma_count(s, ':');
    lemma_three_parts(h, m, s, ':');
    lemma_count(s, '.');
    assert forall|i: int| 0 <= i < fraction.len() implies #[trigger] fraction[i] != '.'
        && fraction[i] != ':' by {
        assert(is_digit(fraction[i]));
    }
    lemma_three_parts(s, fraction, fraction, '.');
    let long = s + seq!['.'] + fraction;
    assert forall|i: int| 0 <= i < long.len() implies #[trigger] long[i] != ':' by {
        if i < s.len() {
            assert(long[i] == s[i]);
        } else if i > s.len() {
            assert(long[i] == fraction[i - s.len() - 1]);
        }
    }
    lemma_three_parts(h, m, long, ':');
}

/// Where a character stands once, or nowhere, in a text.
proof fn lemma_last_place(s: Seq<char>, c: char, at: int)
    requires
        -1 <= at < s.len(),
        at >= 0 ==> s[at] == c,
        forall|i: int| at < i < s.len() ==> #[trigger] s[i] != c,
    ensures
        rfind(s, c) == at,
{
    law_places_are_the_first_and_the_last(s, c);
    let r = rfind(s, c);
    if r > at {
        assert(s[r] != c);
    } else if r < at {
        assert(s[at] != c);
    }
}

/// The clock reading `time`, which holds no sign and ends in a digit, in each way to
/// give a zone: none, `Z`, and an offset east or west of hours and minutes.
proof fn lemma_zones(time: Seq<char>, zh: Seq<char>, zm: Seq<char>)
    requires
        is_bare_clock(time),
        is_count(zh),
        is_count(zm),
    ensures
        time_and_offset(time) == Some((time, 0int)),
        time_and_offset(time.push('Z')) == Some((time, 0int)),
        time_and_offset(time + seq!['+'] + zh + seq![':'] + zm) == Some(
            (time, 60 * digits_value(zh) + digits_value(zm)),
        ),
        time_and_offset(time + seq!['-'] + zh + seq![':'] + zm) == Some(
            (time, -(60 * digits_value(zh) + digits_value(zm))),
        ),
        time_and_offset(time + seq!['+'] + zh) == Some((time, 60 * digits_value(zh))),
        time_and_offset(time + seq!['-'] + zh) == Some((time, -(60 * digits_value(zh)))),
{
    let n = time.len() as int;
    lemma_last_place(time, '+', -1);
    lemma_last_place(time, '-', -1);
    let zulu = time.push('Z');
    assert forall|i: int| 0 <= i < zulu.len() implies #[trigger] zulu[i] != '+' && zulu[i]
        != '-' by {
        if i < n {
            assert(zulu[i] == time[i]);
        }
    }
    lemma_last_place(zulu, '+', -1);
    lemma_last_place(zulu, '-', -1);
    assert(zulu.drop_last() =~= time);
    assert(without_trailing(zulu, 'Z') == without_trailing(time, 'Z'));
    lemma_offset(zh, zm);
    let offset = zh + seq![':'] + zm;
    assert(time + seq!['+'] + zh + seq![':'] + zm =~= time + seq!['+'] + offset);
    assert(time + seq!['-'] + zh + seq![':'] + zm =~= time + seq!['-'] + offset);
    lemma_zone(time, offset);
    lemma_zone(time, zh);
}

/// A zone offset, with or without minutes.
proof fn lemma_offset(zh: Seq<char>, zm: Seq<char>)
    requires
        is_count(zh),
        is_count(zm),
    ensures
        offset_minutes(zh + seq![':'] + zm) == Some(60 * digits_value(zh) + digits_value(zm)),
        offset_minutes(zh) == Some(60 * digits_value(zh)),
        forall|i: int|
            0 <= i < (zh + seq![':'] + zm).len() ==> #[trigger] (zh + seq![':'] + zm)[i] != '+' && (
            zh + seq![':'] + zm)[i] != '-',
        forall|i: int| 0 <= i < zh.len() ==> #[trigger] zh[i] != '+' && zh[i] != '-',
{
    lemma_count(zh, ':');
    lemma_count(zm, ':');
    lemma_three_parts(zh, zm, zm, ':');
    lemma_count(zh, '+');
    lemma_count(zm, '+');
    lemma_count(zh, '-');
    lemma_count(zm, '-');
}

/// A clock reading with an offset behind a sign.
proof fn lemma_zone(time: Seq<char>, offset: Seq<char>)
    requires
        time.len() > 6,
        forall|i: int| 0 <= i < time.len() ==> #[trigger] time[i] != '+' && time[i] != '-',
        forall|i: int| 0 <= i < offset.len() ==> #[trigger] offset[i] != '+' && offset[i] != '-',
        offset_minutes(offset) is Some,
    ensures
        time_and_offset(time + seq!['+'] + offset) == Some((time, offset_minutes(offset)->0)),
        time_and_offset(time + seq!['-'] + offset) == Some((time, -(offset_minutes(offset)->0))),
{
    let n = time.len() as int;
    let east = time + seq!['+'] + offset;
    let west = time + seq!['-'] + offset;
    assert forall|i: int| n < i < east.len() implies #[trigger] east[i] != '+' by {
        assert(east[i] == offset[i - n - 1]);
    }
    lemma_last_place(east, '+', n);
    assert(east.skip(n + 1) =~= offset);
    assert(east.take(n) =~= time);
    assert forall|i: int| -1 < i < west.len() implies #[trigger] west[i] != '+' by {
        if i < n {
            assert(west[i] == time[i]);
        } else if i > n {
            assert(west[i] == offset[i - n - 1]);
        }
    }
    lemma_last_place(west, '+', -1);
    assert forall|i: int| n < i < west.len() implies #[trigger] west[i] != '-' by {
        assert(west[i] == offset[i - n - 1]);
    }
    lemma_last_place(west, '-', n);
    assert(west.skip(n + 1) =~= offset);
    assert(west.take(n) =~= time);
}

/// A date and a clock reading, with `T` between them, stand for the day's milliseconds
/// and the clock's, less the zone's.
proof fn lemma_date_time(date: Seq<char>, clock: Seq<char>, time: Seq<char>, offset: int)
    requires
        find(date, 'T') == date.len(),
        date_days(date) is Some,
        time_and_offset(clock) == Some((time, offset)),
        day_millis(time) is Some,
    ensures
        epoch_millis(date + seq!['T'] + clock) == Some(
            86_400_000 * date_days(date)->0 + day_millis(time)->0 - 60_000 * offset,
        ),
{
    let s = date + seq!['T'] + clock;
    let n = date.len() as int;
    law_places_are_the_first_and_the_last(date, 'T');
    assert(s[n] == 'T');
    assert forall|j: int| 0 <= j < n implies s[j] != 'T' by {
        assert(s[j] == date[j]);
    }
    lemma_find(s, 'T', n);
    assert(s.take(n) =~= date);
    assert(s.skip(n + 1) =~= clock);
    assert(as_i64(s) is None) by {
        assert(!is_digit(s[n]));
        if n > 0 {
            assert(s.skip(1)[n - 1] == 'T');
        }
        assert(!is_number(s));
        assert(n > 0 ==> !is_number(s.skip(1)));
    }
}

/// Whether `clock` holds no sign, ends in a digit and is long enough for a zone to be
/// told from it.
pub open spec fn is_bare_clock(clock: Seq<char>) -> bool {
    &&& clock.len() > 6
    &&& '0' <= clock.last() <= '9'
    &&& forall|i: int| 0 <= i < clock.len() ==> #[trigger] clock[i] != '+' && clock[i] != '-'
}

/// A time of day is a clock reading without a zone.
proof fn lemma_bare_clock(h: Seq<char>, m: Seq<char>, s: Seq<char>)
    requires
        is_count(h),
        is_count(m),
        h.len() == 2,
        m.len() == 2,
        s.len() >= 2,
        '0' <= s.last() <= '9',
        forall|i: int| 0 <= i < s.len() ==> #[trigger] s[i] != '+' && s[i] != '-',
    ensures
        is_bare_clock(time_text(h, m, s)),
{
    lemma_count(h, '+');
    lemma_count(m, '+');
    lemma_count(h, '-');
    lemma_count(m, '-');
    let clock = time_text(h, m, s);
    assert forall|i: int| 0 <= i < clock.len() implies #[trigger] clock[i] != '+' && clock[i]
        != '-' by {
        if i < 2 {
            assert(clock[i] == h[i]);
        } else if 3 <= i < 5 {
            assert(clock[i] == m[i - 3]);
        } else if i >= 6 {
            assert(clock[i] == s[i - 6]);
        }
    }
    assert(clock.last() == s.last());
}

/// A date and a clock reading add up, in each way to give a zone: a zone east of
/// Greenwich takes its hours and minutes off, one to the west adds them, and no zone is
/// Greenwich's.
#[verifier::rlimit(60)]
#[verifier::spinoff_prover]
pub proof fn law_zone_shifts_the_clock(
    day: Seq<char>,
    clock: Seq<char>,
    zh: Seq<char>,
    zm: Seq<char>,
)
    requires
        find(day, 'T') == day.len(),
        date_days(day) is Some,
        is_bare_clock(clock),
        day_millis(clock) is Some,
        is_count(zh),
        is_count(zm),
    ensures
        ({
            let t = day + seq!['T'];
            let utc = 86_400_000 * date_days(day)->0 + day_millis(clock)->0;
            let off = 60_000 * (60 * digits_value(zh) + digits_value(zm));
            &&& epoch_millis(t + clock) == Some(utc)
            &&& epoch_millis(t + clock.push('Z')) == Some(utc)
            &&& epoch_millis(t + (clock + seq!['+'] + zh + seq![':'] + zm)) == Some(utc - off)
            &&& epoch_millis(t + (clock + seq!['-'] + zh + seq![':'] + zm)) == Some(utc + off)
        }),
{
    let t = day + seq!['T'];
    let utc = 86_400_000 * date_days(day)->0 + day_millis(clock)->0;
    let off = 60 * digits_value(zh) + digits_value(zm);
    lemma_zones(clock, zh, zm);
    assert(epoch_millis(t + clock) == Some(utc)) by {
        lemma_date_time(day, clock, clock, 0);
    }
    assert(epoch_millis(t + clock.push('Z')) == Some(utc)) by {
        lemma_date_time(day, clock.push('Z'), clock, 0);
    }
    let east = clock + seq!['+'] + zh + seq![':'] + zm;
    assert(epoch_millis(t + east) == Some(utc - 60_000 * off)) by {
        lemma_date_time(day, east, clock, off);
    }
    let west = clock + seq!['-'] + zh + seq![':'] + zm;
    assert(epoch_millis(t + west) == Some(utc + 60_000 * off)) by {
        lemma_date_time(day, west, clock, -off);
    }
}

/// A plain number is read as it is. A date and a clock reading stand for the days since
/// 1970 and the time since midnight, in milliseconds; a zone east of Greenwich takes its
/// hours and minutes off, one to the west adds them, and no zone is Greenwich's.
pub proof fn law_timestamp_is_the_time_it_writes(
    date: (Seq<char>, Seq<char>, Seq<char>),
    time: (Seq<char>, Seq<char>, Seq<char>),
    zone: (Seq<char>, Seq<char>),
)
    requires
        is_count(date.0),
        is_count(date.1),
        is_count(date.2),
        is_count(time.0),
        is_count(time.1),
        is_count(time.2),
        is_count(zone.0),
        is_count(zone.1),
        time.0.len() == 2,
        time.1.len() == 2,
        time.2.len() == 2,
    ensures
        ({
            let day = date_text(date.0, date.1, date.2);
            let clock = time_text(time.0, time.1, time.2);
            let t = day + seq!['T'];
            let utc = 86_400_000 * civil_days(
                digits_value(date.0),
                digits_value(date.1),
                digits_value(date.2),
            ) + 1000 * (3600 * digits_value(time.0) + 60 * digits_value(time.1) + digits_value(
                time.2,
            ));
            let off = 60_000 * (60 * digits_value(zone.0) + digits_value(zone.1));
            &&& epoch_millis(t + clock) == Some(utc)
            &&& epoch_millis(t + clock.push('Z')) == Some(utc)
            &&& epoch_millis(t + (clock + seq!['+'] + zone.0 + seq![':'] + zone.1)) == Some(
                utc - off,
            )
            &&& epoch_millis(t + (clock + seq!['-'] + zone.0 + seq![':'] + zone.1)) == Some(
                utc + off,
            )
            &&& epoch_millis(date.0) == Some(digits_value(date.0))
        }),
{
    let day = date_text(date.0, date.1, date.2);
    let clock = time_text(time.0, time.1, time.2);
    lemma_date(date.0, date.1, date.2);
    lemma_time(time.0, time.1, time.2, time.2);
    lemma_count(time.2, '+');
    lemma_count(time.2, '-');
    assert(is_digit(time.2[1]));
    lemma_bare_clock(time.0, time.1, time.2);
    law_zone_shifts_the_clock(day, clock, zone.0, zone.1);
    lemma_count(date.0, 'T');
}

/// A fraction of a second adds its milliseconds to the time of day, and takes nothing
/// away from its being one.
pub proof fn law_fraction_adds_to_the_time_of_day(
    h: Seq<char>,
    m: Seq<char>,
    s: Seq<char>,
    fraction: Seq<char>,
)
    requires
        is_count(h),
        is_count(m),
        is_count(s),
        is_number(fraction),
    ensures
        ({
            let clock = time_text(h, m, s);
            let long = time_text(h, m, s + seq!['.'] + fraction);
            let padded = h.len() == 2 && m.len() == 2 && s.len() == 2;
            &&& padded ==> is_bare_clock(clock) && is_bare_clock(long)
            &&& day_millis(h + seq![':'] + m) is None
            &&& day_millis(h) is None
            &&& day_millis(clock) == Some(
                1000 * (3600 * digits_value(h) + 60 * digits_value(m) + digits_value(s)),
            )
            &&& fraction_millis(fraction) is Some ==> day_millis(long) == Some(
                day_millis(clock)->0 + fraction_millis(fraction)->0,
            )
        }),
{
    let seconds = s + seq!['.'] + fraction;
    lemma_time(h, m, s, fraction);
    lemma_count(h, ':');
    lemma_count(m, ':');
    lemma_three_parts(h, m, m, ':');
    lemma_count(s, '+');
    lemma_count(s, '-');
    if h.len() == 2 && m.len() == 2 && s.len() == 2 {
        assert(is_digit(s[1]));
        lemma_bare_clock(h, m, s);
        assert forall|i: int| 0 <= i < seconds.len() implies #[trigger] seconds[i] != '+'
            && seconds[i] != '-' by {
            if i < 2 {
                assert(seconds[i] == s[i]);
            } else if i > 2 {
                assert(seconds[i] == fraction[i - 3]);
                assert(is_digit(fraction[i - 3]));
            }
        }
        assert(seconds.last() == fraction.last());
        assert(is_digit(fraction[fraction.len() - 1]));
        lemma_bare_clock(h, m, seconds);
    }
}

/// What is neither a number nor has a `T` in it stands for no time.
pub proof fn law_other_texts_are_no_timestamps(s: Seq<char>)
    requires
        as_i64(s) is None,
        forall|i: int| 0 <= i < s.len() ==> #[trigger] s[i] != 'T',
    ensures
        epoch_millis(s) is None,
{
    law_places_are_the_first_and_the_last(s, 'T');
}

/// A text is in range unless it stands for a time that no `i64` holds.
pub proof fn law_times_are_in_range_unless_too_far(s: Seq<char>)
    ensures
        epoch_millis(s) is None ==> time_in_range(s),
        epoch_millis(s) matches Some(ms) ==> (time_in_range(s) <==> -0x8000_0000_0000_0000 <= ms
            <= 0x7fff_ffff_ffff_ffff),
        as_i64(s) is Some ==> time_in_range(s),
{
}

} // verus!
