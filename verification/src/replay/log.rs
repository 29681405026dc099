//! The packet log: one payload to a line, with its time and its stream.

use vstd::prelude::*;
use vstd::slice::slice_subrange;

use crate::fields::{
    fields, find, find_char, law_places_are_the_first_and_the_last, lemma_find, split, trim_chars,
    trim_start_char, without_leading,
};
use crate::replay::timestamp::{epoch_millis, epoch_millis_wide, time_in_range};
use crate::text::{
    chars_of, is_white_space, law_trimming_takes_whitespace_off_the_ends, trimmed,
};

verus! {

/// Whether `c` is a hexadecimal digit.
pub open spec fn is_hex(c: char) -> bool {
    '0' <= c <= '9' || 'a' <= c <= 'f' || 'A' <= c <= 'F'
}

/// The number that a hexadecimal digit stands for.
pub open spec fn hex_value(c: char) -> int {
    if c <= '9' {
        c as int - '0' as int
    } else if c <= 'F' {
        c as int - 'A' as int + 10
    } else {
        c as int - 'a' as int + 10
    }
}

/// `s` with all whitespace taken out.
pub open spec fn without_white_space(s: Seq<char>) -> Seq<char> {
    s.filter(|c: char| !is_white_space(c))
}

/// The bytes that `s` writes as pairs of hexadecimal digits, whitespace aside.
pub open spec fn hex_bytes(s: Seq<char>) -> Option<Seq<u8>> {
    let digits = without_white_space(s);
    if digits.len() % 2 == 0 && forall|i: int|
        0 <= i < digits.len() ==> is_hex(#[trigger] digits[i]) {
        Some(
            Seq::new(
                digits.len() / 2,
                |i: int| (16 * hex_value(digits[2 * i]) + hex_value(digits[2 * i + 1])) as u8,
            ),
        )
    } else {
        None
    }
}

/// What one line of a log asks for.
#[derive(Debug)]
pub struct ReplayStep {
    /// The time to go by from here on, where the line gives one.
    pub timestamp: Option<i64>,
    /// The payload to process, where the line holds one.
    pub packet: Option<Vec<u8>>,
}

/// The mathematical reading of a [`ReplayStep`].
#[verifier::ext_equal]
pub struct StepState {
    pub timestamp: Option<int>,
    pub packet: Option<Seq<u8>>,
}

impl View for ReplayStep {
    type V = StepState;

    open spec fn view(&self) -> StepState {
        StepState {
            timestamp: match self.timestamp {
                Some(ms) => Some(ms as int),
                None => None,
            },
            packet: match self.packet {
                Some(bytes) => Some(bytes@),
                None => None,
            },
        }
    }
}

/// Whether a line holds a payload: not blank, no comment, and at least three
/// fields.
pub open spec fn is_row(line: Seq<char>) -> bool {
    let row = trimmed(line);
    row.len() > 0 && row[0] != '#' && fields(row, '|').len() >= 3
}

/// The first field of a row, which gives the time.
pub open spec fn row_time(line: Seq<char>) -> Seq<char> {
    trimmed(fields(trimmed(line), '|')[0])
}

/// What stands in a row after its second separator: the payload.
pub open spec fn row_payload(line: Seq<char>) -> Seq<char> {
    let row = trimmed(line);
    let rest = row.skip(find(row, '|') + 1);
    rest.skip(find(rest, '|') + 1)
}

/// What one line of a log asks for, if anything.
pub open spec fn line_step(line: Seq<char>) -> Option<StepState> {
    if is_row(line) {
        Some(
            StepState {
                timestamp: epoch_millis(row_time(line)),
                packet: hex_bytes(row_payload(line)),
            },
        )
    } else {
        None
    }
}

/// The lines of a log, without the byte-order mark in front.
pub open spec fn log_lines(text: Seq<char>) -> Seq<Seq<char>> {
    fields(without_leading(text, '\u{feff}'), '\n')
}

/// What a log asks for, step by step.
pub open spec fn log_steps(text: Seq<char>) -> Seq<StepState> {
    log_lines(text).filter_map(|line: Seq<char>| line_step(line))
}

/// Whether every time in a log is in the range of an `i64`.
pub open spec fn log_in_range(text: Seq<char>) -> bool {
    forall|i: int|
        #![trigger log_lines(text)[i]]
        0 <= i < log_lines(text).len() && is_row(log_lines(text)[i]) ==> time_in_range(
            row_time(log_lines(text)[i]),
        )
}

/// The number that a hexadecimal digit stands for, if `c` is one.
fn hex_digit(c: char) -> (value: Option<u8>)
    ensures
        match value {
            Some(v) => is_hex(c) && v == hex_value(c) && v < 16,
            None => !is_hex(c),
        },
{
    if '0' <= c && c <= '9' {
        Some((c as u32 - '0' as u32) as u8)
    } else if 'a' <= c && c <= 'f' {
        Some((c as u32 - 'a' as u32 + 10) as u8)
    } else if 'A' <= c && c <= 'F' {
        Some((c as u32 - 'A' as u32 + 10) as u8)
    } else {
        None
    }
}

/// `s` with all whitespace taken out.
fn drop_white_space(s: &[char]) -> (kept: Vec<char>)
    ensures
        kept@ == without_white_space(s@),
{
    let mut kept: Vec<char> = Vec::new();
    let mut i: usize = 0;
    reveal(Seq::filter);
    assert(s@.take(0) =~= Seq::<char>::empty());
    while i < s.len()
        invariant
            i <= s@.len(),
            kept@ == without_white_space(s@.take(i as int)),
        decreases s.len() - i,
    {
        let c: char = s[i];
        assert(s@.take(i + 1).drop_last() =~= s@.take(i as int));
        assert(s@.take(i + 1).last() == c);
        reveal(Seq::filter);
        if !c.is_whitespace() {
            kept.push(c);
        }
        i += 1;
    }
    assert(s@.take(i as int) =~= s@);
    kept
}

/// The bytes that `s` writes as pairs of hexadecimal digits.
fn read_hex(s: &[char]) -> (bytes: Option<Vec<u8>>)
    ensures
        match bytes {
            Some(bytes) => hex_bytes(s@) == Some(bytes@),
            None => hex_bytes(s@) is None,
        },
{
    let digits: Vec<char> = drop_white_space(s);
    if digits.len() % 2 != 0 {
        return None;
    }
    let mut bytes: Vec<u8> = Vec::new();
    let mut i: usize = 0;
    while i < digits.len()
        invariant
            i <= digits@.len(),
            i % 2 == 0,
            digits@.len() % 2 == 0,
            digits@ == without_white_space(s@),
            forall|j: int| 0 <= j < i ==> is_hex(#[trigger] digits@[j]),
            bytes@ == Seq::new(
                (i / 2) as nat,
                |j: int| (16 * hex_value(digits@[2 * j]) + hex_value(digits@[2 * j + 1])) as u8,
            ),
        decreases digits.len() - i,
    {
        match (hex_digit(digits[i]), hex_digit(digits[i + 1])) {
            (Some(high), Some(low)) => {
                bytes.push(16 * high + low);
            },
            _ => {
                return None;
            },
        }
        assert(bytes@ =~= Seq::new(
            ((i + 2) / 2) as nat,
            |j: int| (16 * hex_value(digits@[2 * j]) + hex_value(digits@[2 * j + 1])) as u8,
        ));
        i += 2;
    }
    Some(bytes)
}

/// Decodes a payload written in hexadecimal, whitespace aside.
pub fn decode_replay_hex(hex: &str) -> (bytes: Option<Vec<u8>>)
    ensures
        match bytes {
            Some(bytes) => hex_bytes(hex@) == Some(bytes@),
            None => hex_bytes(hex@) is None,
        },
{
    let chars: Vec<char> = chars_of(hex);
    read_hex(chars.as_slice())
}

/// Three fields are two separators.
proof fn lemma_three_fields(row: Seq<char>)
    ensures
        fields(row, '|').len() >= 3 <==> find(row, '|') < row.len() && find(
            row.skip(find(row, '|') + 1),
            '|',
        ) < row.skip(find(row, '|') + 1).len(),
        0 <= find(row, '|') < row.len() ==> fields(row, '|')[0] == row.take(find(row, '|')),
{
    lemma_find_is_natural(row, '|');
    let i = find(row, '|');
    if i < row.len() {
        let rest = row.skip(i + 1);
        lemma_find_is_natural(rest, '|');
        let j = find(rest, '|');
        if j < rest.len() {
            let tail = fields(rest.skip(j + 1), '|');
            assert(tail.len() >= 1);
            assert(fields(rest, '|') == seq![rest.take(j)] + tail);
        } else {
            assert(fields(rest, '|') == seq![rest]);
        }
        assert(fields(row, '|') == seq![row.take(i)] + fields(rest, '|'));
    } else {
        assert(fields(row, '|') == seq![row]);
    }
}

/// A place in a text is never before its start.
proof fn lemma_find_is_natural(s: Seq<char>, c: char)
    ensures
        0 <= find(s, c) <= s.len(),
    decreases s.len(),
{
    if s.len() > 0 && s[0] != c {
        lemma_find_is_natural(s.skip(1), c);
    }
}

/// What a line asks for. The outer `None` tells that its time is out of range.
fn read_line(line: &[char]) -> (step: Option<Option<ReplayStep>>)
    ensures
        match step {
            Some(Some(step)) => line_step(line@) == Some(step@),
            Some(None) => line_step(line@) is None,
            None => true,
        },
        step is None <==> is_row(line@) && !time_in_range(row_time(line@)),
{
    let row: &[char] = trim_chars(line);
    if row.len() == 0 || row[0] == '#' {
        return Some(None);
    }
    proof {
        lemma_three_fields(row@);
    }
    let i: usize = find_char(row, '|');
    if i == row.len() {
        return Some(None);
    }
    let rest: &[char] = slice_subrange(row, i + 1, row.len());
    assert(rest@ =~= row@.skip(i + 1));
    let j: usize = find_char(rest, '|');
    if j == rest.len() {
        return Some(None);
    }
    let payload: &[char] = slice_subrange(rest, j + 1, rest.len());
    assert(payload@ =~= row_payload(line@));
    assert(row@.subrange(0, i as int) =~= row@.take(i as int));
    let time: &[char] = trim_chars(slice_subrange(row, 0, i));
    assert(time@ == row_time(line@));
    let timestamp: Option<i64> = match epoch_millis_wide(time) {
        Some(ms) => {
            if ms < i64::MIN as i128 || ms > i64::MAX as i128 {
                return None;
            }
            Some(ms as i64)
        },
        None => None,
    };
    let step = ReplayStep { timestamp, packet: read_hex(payload) };
    assert(step@ =~= line_step(line@)->0);
    Some(Some(step))
}

/// Reads a log into the steps it asks for. `None` tells that it gives a time that
/// is out of range.
pub fn read_log(text: &str) -> (steps: Option<Vec<ReplayStep>>)
    ensures
        steps is Some <==> log_in_range(text@),
        steps matches Some(steps) ==> steps@.map_values(|step: ReplayStep| step@) == log_steps(
            text@,
        ),
{
    let all: Vec<char> = chars_of(text);
    let body: &[char] = trim_start_char(all.as_slice(), '\u{feff}');
    let lines: Vec<(usize, usize)> = split(body, '\n');
    let ghost log = log_lines(text@);
    let ghost ask = |line: Seq<char>| line_step(line);
    let mut steps: Vec<ReplayStep> = Vec::new();
    let mut i: usize = 0;
    assert(log.take(0) =~= Seq::<Seq<char>>::empty());
    assert(steps@.map_values(|step: ReplayStep| step@) =~= log.take(0).filter_map(ask));
    while i < lines.len()
        invariant
            i <= lines@.len(),
            lines@.len() == log.len(),
            log == log_lines(text@),
            ask == (|line: Seq<char>| line_step(line)),
            forall|k: int|
                #![trigger lines@[k]]
                0 <= k < lines@.len() ==> {
                    &&& lines@[k].0 <= lines@[k].1 <= body@.len()
                    &&& body@.subrange(lines@[k].0 as int, lines@[k].1 as int) == log[k]
                },
            forall|k: int|
                #![trigger log[k]]
                0 <= k < i && is_row(log[k]) ==> time_in_range(row_time(log[k])),
            steps@.map_values(|step: ReplayStep| step@) == log.take(i as int).filter_map(ask),
        decreases lines.len() - i,
    {
        let (from, to): (usize, usize) = lines[i];
        let line: &[char] = slice_subrange(body, from, to);
        assert(line@ == log[i as int]);
        proof {
            assert(log.take(i + 1).drop_last() =~= log.take(i as int));
            assert(log.take(i + 1).last() == log[i as int]);
        }
        match read_line(line) {
            Some(Some(step)) => {
                let ghost before = steps@;
                steps.push(step);
                proof {
                    assert(ask(log[i as int]) == Some(step@));
                    assert(steps@.map_values(|step: ReplayStep| step@) =~= before.map_values(
                        |step: ReplayStep| step@,
                    ) + seq![step@]);
                }
            },
            Some(None) => {
                assert(ask(log[i as int]) is None);
            },
            None => {
                assert(is_row(log[i as int]));
                return None;
            },
        }
        i += 1;
    }
    assert(log.take(log.len() as int) =~= log);
    Some(steps)
}

/// One more character stays unless it is whitespace.
proof fn lemma_white_space_step(s: Seq<char>, c: char)
    ensures
        without_white_space(s.push(c)) == if is_white_space(c) {
            without_white_space(s)
        } else {
            without_white_space(s).push(c)
        },
        without_white_space(Seq::empty()) == Seq::<char>::empty(),
{
    reveal(Seq::filter);
    assert(s.push(c).drop_last() =~= s);
}

/// Whitespace can be taken out part by part.
proof fn lemma_white_space_parts(a: Seq<char>, b: Seq<char>)
    ensures
        without_white_space(a + b) == without_white_space(a) + without_white_space(b),
    decreases b.len(),
{
    if b.len() == 0 {
        lemma_white_space_step(a, ' ');
        assert(a + b =~= a);
        assert(b =~= Seq::empty());
        assert(without_white_space(a) + without_white_space(b) =~= without_white_space(a));
    } else {
        let front = b.drop_last();
        let c = b.last();
        lemma_white_space_parts(a, front);
        assert(front.push(c) =~= b);
        assert((a + front).push(c) =~= a + b);
        lemma_white_space_step(front, c);
        lemma_white_space_step(a + front, c);
        assert(without_white_space(a + b) =~= without_white_space(a) + without_white_space(b));
    }
}

/// A text without whitespace stays as it is.
proof fn lemma_nothing_to_take_out(s: Seq<char>)
    requires
        forall|i: int| 0 <= i < s.len() ==> !is_white_space(#[trigger] s[i]),
    ensures
        without_white_space(s) == s,
    decreases s.len(),
{
    if s.len() > 0 {
        let front = s.drop_last();
        assert forall|i: int| 0 <= i < front.len() implies !is_white_space(#[trigger] front[i]) by {
            assert(front[i] == s[i]);
        }
        lemma_nothing_to_take_out(front);
        lemma_white_space_step(front, s.last());
        assert(!is_white_space(s[s.len() - 1]));
        assert(front.push(s.last()) =~= s);
    } else {
        lemma_white_space_step(s, ' ');
        assert(s =~= Seq::empty());
    }
}

/// Whether `c` writes the number `v`, below sixteen, as a digit: from zero to nine, then
/// from A to F or from a to f.
pub open spec fn writes_hex(c: char, v: int) -> bool {
    ||| 0 <= v <= 9 && c as int == 0x30 + v
    ||| 10 <= v <= 15 && (c as int == 0x41 + v - 10 || c as int == 0x61 + v - 10)
}

/// Bytes that are written as two digits each, the upper half first, in either case, are
/// read back.
pub proof fn law_written_bytes_are_read_back(bytes: Seq<u8>, text: Seq<char>)
    requires
        text.len() == 2 * bytes.len(),
        forall|i: int|
            0 <= i < bytes.len() ==> writes_hex(text[2 * i], #[trigger] bytes[i] as int / 16)
                && writes_hex(text[2 * i + 1], bytes[i] as int % 16),
    ensures
        hex_bytes(text) == Some(bytes),
{
    assert forall|j: int| 0 <= j < text.len() implies is_hex(#[trigger] text[j])
        && !is_white_space(text[j]) by {
        let i = j / 2;
        assert(writes_hex(text[2 * i], bytes[i] as int / 16));
        assert(j == 2 * i || j == 2 * i + 1);
    }
    lemma_nothing_to_take_out(text);
    let read = Seq::new(
        text.len() / 2,
        |i: int| (16 * hex_value(text[2 * i]) + hex_value(text[2 * i + 1])) as u8,
    );
    assert forall|i: int| 0 <= i < bytes.len() implies read[i] == bytes[i] by {
        assert(writes_hex(text[2 * i], bytes[i] as int / 16));
        assert(hex_value(text[2 * i]) == bytes[i] as int / 16);
        assert(hex_value(text[2 * i + 1]) == bytes[i] as int % 16);
    }
    assert(read =~= bytes);
}

/// Whitespace between the digits makes no difference, wherever it stands; half a byte,
/// and anything that is no digit, is refused.
pub proof fn law_hex_takes_digits_and_whitespace(a: Seq<char>, c: char, b: Seq<char>)
    ensures
        is_white_space(c) ==> hex_bytes(a.push(c) + b) == hex_bytes(a + b),
        !is_white_space(c) && (forall|v: int| !writes_hex(c, v)) ==> hex_bytes(a.push(c) + b)
            is None,
        (exists|v: int| writes_hex(c, v)) && hex_bytes(a) is Some ==> hex_bytes(a.push(c)) is None,
{
    lemma_white_space_parts(a.push(c), b);
    lemma_white_space_parts(a, b);
    lemma_white_space_step(a, c);
    if !is_white_space(c) && (forall|v: int| !writes_hex(c, v)) {
        if is_hex(c) {
            assert(writes_hex(c, hex_value(c)));
        }
        let digits = without_white_space(a.push(c) + b);
        let at = without_white_space(a).len() as int;
        assert(digits[at] == c);
    }
    if exists|v: int| writes_hex(c, v) {
        assert(!is_white_space(c));
        assert(without_white_space(a.push(c)).len() == without_white_space(a).len() + 1);
    }
}

/// Trimming what has been trimmed changes nothing.
proof fn lemma_trimmed_twice(s: Seq<char>)
    ensures
        trimmed(trimmed(s)) == trimmed(s),
{
    law_trimming_takes_whitespace_off_the_ends(s);
}

/// A line that gives a time, a stream and a payload, parted by bars, asks for that time
/// and that payload. Further bars belong to the payload. Blanks around the line, and
/// around the time, make no difference.
pub proof fn law_row_gives_time_and_payload(
    time: Seq<char>,
    stream: Seq<char>,
    payload: Seq<char>,
    line: Seq<char>,
)
    requires
        trimmed(line) == time + seq!['|'] + stream + seq!['|'] + payload,
        forall|i: int| 0 <= i < time.len() ==> #[trigger] time[i] != '|',
        forall|i: int| 0 <= i < stream.len() ==> #[trigger] stream[i] != '|',
        time.len() > 0 ==> time[0] != '#',
    ensures
        line_step(line) == Some(
            StepState { timestamp: epoch_millis(trimmed(time)), packet: hex_bytes(payload) },
        ),
{
    let row = trimmed(line);
    let n = time.len() as int;
    assert(row[n] == '|');
    assert forall|j: int| 0 <= j < n implies row[j] != '|' by {
        assert(row[j] == time[j]);
    }
    lemma_find(row, '|', n);
    assert(row.take(n) =~= time);
    let rest = row.skip(n + 1);
    assert(rest =~= stream + seq!['|'] + payload);
    let m = stream.len() as int;
    assert(rest[m] == '|');
    assert forall|j: int| 0 <= j < m implies rest[j] != '|' by {
        assert(rest[j] == stream[j]);
    }
    lemma_find(rest, '|', m);
    lemma_three_fields(row);
    assert(rest.skip(m + 1) =~= payload);
    if n > 0 {
        assert(row[0] == time[0]);
    }
}

/// A line that is blank, a comment, or has fewer than two bars asks for nothing.
pub proof fn law_other_lines_ask_for_nothing(line: Seq<char>, at: int)
    requires
        trimmed(line).len() == 0 || trimmed(line)[0] == '#' || forall|i: int|
            0 <= i < trimmed(line).len() && i != at ==> #[trigger] trimmed(line)[i] != '|',
    ensures
        line_step(line) is None,
        line_step(trimmed(line)) == line_step(line),
{
    lemma_trimmed_twice(line);
    let row = trimmed(line);
    lemma_three_fields(row);
    law_places_are_the_first_and_the_last(row, '|');
    let i = find(row, '|');
    if i < row.len() {
        let rest = row.skip(i + 1);
        law_places_are_the_first_and_the_last(rest, '|');
        let j = find(rest, '|');
        if j < rest.len() {
            assert(rest[j] == row[i + 1 + j]);
        }
    }
}

/// The pieces of two texts with a separator between them are those of the one and then
/// those of the other.
proof fn lemma_fields_of_two(a: Seq<char>, b: Seq<char>, sep: char)
    ensures
        fields(a.push(sep) + b, sep) == fields(a, sep) + fields(b, sep),
    decreases a.len(),
{
    let s = a.push(sep) + b;
    law_places_are_the_first_and_the_last(a, sep);
    let i = find(a, sep);
    assert(s[i] == sep);
    assert forall|j: int| 0 <= j < i implies s[j] != sep by {
        assert(s[j] == a[j]);
    }
    lemma_find(s, sep, i);
    if i < a.len() {
        let rest = a.skip(i + 1);
        lemma_fields_of_two(rest, b, sep);
        assert(s.take(i) =~= a.take(i));
        assert(s.skip(i + 1) =~= rest.push(sep) + b);
        assert(fields(s, sep) =~= fields(a, sep) + fields(b, sep));
    } else {
        assert(s.take(i) =~= a);
        assert(s.skip(i + 1) =~= b);
        assert(fields(s, sep) =~= fields(a, sep) + fields(b, sep));
    }
}

/// What a log asks for, line by line.
proof fn lemma_steps_of_two(a: Seq<Seq<char>>, b: Seq<Seq<char>>)
    ensures
        (a + b).filter_map(|line: Seq<char>| line_step(line)) == a.filter_map(
            |line: Seq<char>| line_step(line),
        ) + b.filter_map(|line: Seq<char>| line_step(line)),
    decreases b.len(),
{
    let ask = |line: Seq<char>| line_step(line);
    if b.len() == 0 {
        assert(a + b =~= a);
        assert(b.filter_map(ask) =~= Seq::empty());
        assert(a.filter_map(ask) + b.filter_map(ask) =~= a.filter_map(ask));
    } else {
        lemma_steps_of_two(a, b.drop_last());
        assert((a + b).drop_last() =~= a + b.drop_last());
        assert((a + b).last() == b.last());
        assert((a + b).filter_map(ask) =~= a.filter_map(ask) + b.filter_map(ask));
    }
}

/// A log is read line by line: what it asks for is what its lines ask for, one after the
/// other, and a byte-order mark in front makes no difference.
pub proof fn law_log_is_read_line_by_line(a: Seq<char>, b: Seq<char>)
    requires
        b.len() > 0 ==> b[0] != '\u{feff}',
    ensures
        log_steps(a.push('\n') + b) == log_steps(a) + log_steps(b),
        (forall|i: int| 0 <= i < b.len() ==> #[trigger] b[i] != '\n') ==> log_steps(b) == (
        match line_step(b) {
            Some(step) => seq![step],
            None => Seq::empty(),
        }),
        log_steps(seq!['\u{feff}'] + b) == log_steps(b),
    decreases a.len(),
{
    let mark = '\u{feff}';
    let ask = |line: Seq<char>| line_step(line);
    assert(without_leading(b, mark) == b);
    let marked = seq![mark] + b;
    assert(marked.skip(1) =~= b);
    assert(without_leading(marked, mark) == b);
    if a.len() > 0 && a[0] == mark {
        law_log_is_read_line_by_line(a.skip(1), b);
        assert((a.push('\n') + b).skip(1) =~= a.skip(1).push('\n') + b);
        assert((a.push('\n') + b)[0] == mark);
    } else {
        let s = a.push('\n') + b;
        assert(s[0] != mark) by {
            if a.len() > 0 {
                assert(s[0] == a[0]);
            }
        }
        lemma_fields_of_two(a, b, '\n');
        lemma_steps_of_two(fields(a, '\n'), fields(b, '\n'));
    }
    if forall|i: int| 0 <= i < b.len() ==> #[trigger] b[i] != '\n' {
        lemma_find(b, '\n', b.len() as int);
        assert(fields(b, '\n') == seq![b]);
        Seq::lemma_filter_map_singleton(b, ask);
    }
}

} // verus!
