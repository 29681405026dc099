//! Reading text character by character.

use vstd::prelude::*;

verus! {

/// The characters with the Unicode property `White_Space`.
pub open spec fn is_white_space(c: char) -> bool {
    ||| '\u{9}' <= c <= '\u{d}'
    ||| c == ' '
    ||| c == '\u{85}'
    ||| c == '\u{a0}'
    ||| c == '\u{1680}'
    ||| '\u{2000}' <= c <= '\u{200a}'
    ||| c == '\u{2028}'
    ||| c == '\u{2029}'
    ||| c == '\u{202f}'
    ||| c == '\u{205f}'
    ||| c == '\u{3000}'
}

/// `s` without the whitespace at its two ends.
pub open spec fn trimmed(s: Seq<char>) -> Seq<char>
    decreases s.len(),
{
    if s.len() == 0 {
        s
    } else if is_white_space(s.first()) {
        trimmed(s.drop_first())
    } else if is_white_space(s.last()) {
        trimmed(s.drop_last())
    } else {
        s
    }
}

/// `char::is_whitespace` of std tells whether a character has the Unicode
/// property `White_Space`; [`is_white_space`] lists the characters that have it.
pub assume_specification[ char::is_whitespace ](c: char) -> (r: bool)
    ensures
        r == is_white_space(c),
;

/// `str::trim` of std takes the whitespace, in the same sense, off both ends.
pub assume_specification[ str::trim ](s: &str) -> (r: &str)
    ensures
        r@ == trimmed(s@),
;

/// `String::push` of std appends one character.
pub assume_specification[ String::push ](s: &mut String, c: char)
    ensures
        final(s)@ == old(s)@.push(c),
;

/// The characters of a text, where there is one.
pub open spec fn optional_text(text: Option<String>) -> Option<Seq<char>> {
    match text {
        Some(text) => Some(text@),
        None => None,
    }
}

/// Whether two texts are the same.
pub fn same_text(a: &str, b: &str) -> (same: bool)
    ensures
        same == (a@ == b@),
{
    a.to_owned() == b.to_owned()
}

/// The characters of `s`, one after the other.
pub fn chars_of(s: &str) -> (chars: Vec<char>)
    ensures
        chars@ == s@,
{
    let mut chars: Vec<char> = Vec::new();
    for c in it: s.chars()
        invariant
            chars@ == it.seq().take(it.index() as int),
            it.index() == it.seq().len() ==> chars@ == it.seq(),
            it.seq() == s@,
    {
        chars.push(c);
        assert(chars@ =~= it.seq().take(it.index() + 1));
    }
    chars
}

/// The blocks that the meter takes for Chinese, Japanese-Han or Korean script.
pub open spec fn is_cjk(c: char) -> bool {
    ||| '\u{4e00}' <= c <= '\u{9fff}'
    ||| '\u{ac00}' <= c <= '\u{d7af}'
    ||| '\u{3400}' <= c <= '\u{4dbf}'
    ||| '\u{20000}' <= c <= '\u{2a6df}'
    ||| '\u{1100}' <= c <= '\u{11ff}'
}

/// Whether any character of `s` is Chinese, Japanese-Han or Korean script.
pub open spec fn some_cjk(s: Seq<char>) -> bool {
    exists|i: int| 0 <= i < s.len() && is_cjk(#[trigger] s[i])
}

/// Whether any character of `s` is Chinese, Japanese-Han or Korean script.
pub fn has_cjk(s: &str) -> (found: bool)
    ensures
        found == some_cjk(s@),
{
    let chars: Vec<char> = chars_of(s);
    let mut i: usize = 0;
    while i < chars.len()
        invariant
            i <= chars.len(),
            chars@ == s@,
            forall|j: int| 0 <= j < i ==> !is_cjk(#[trigger] s@[j]),
        decreases chars.len() - i,
    {
        let c: char = chars[i];
        if ('\u{4e00}' <= c && c <= '\u{9fff}') || ('\u{ac00}' <= c && c <= '\u{d7af}') || (
        '\u{3400}' <= c && c <= '\u{4dbf}') || ('\u{20000}' <= c && c <= '\u{2a6df}') || ('\u{1100}'
            <= c && c <= '\u{11ff}') {
            assert(is_cjk(s@[i as int]));
            return true;
        }
        i += 1;
    }
    false
}

/// Whether trimming `s` leaves what stands from `from` to before `to`, and takes nothing
/// but whitespace off.
pub open spec fn trims_to(s: Seq<char>, from: int, to: int) -> bool {
    &&& 0 <= from <= to <= s.len()
    &&& trimmed(s) == s.subrange(from, to)
    &&& forall|i: int| 0 <= i < from ==> is_white_space(#[trigger] s[i])
    &&& forall|i: int| to <= i < s.len() ==> is_white_space(#[trigger] s[i])
}

/// Trimming leaves a part of the text.
proof fn lemma_trims(s: Seq<char>) -> (range: (int, int))
    ensures
        trims_to(s, range.0, range.1),
        trimmed(s).len() > 0 ==> !is_white_space(trimmed(s).first()) && !is_white_space(
            trimmed(s).last(),
        ),
    decreases s.len(),
{
    if s.len() == 0 {
        assert(s.subrange(0, 0) =~= s);
        (0, 0)
    } else if is_white_space(s.first()) {
        let rest = s.drop_first();
        let (from, to) = lemma_trims(rest);
        assert(rest.subrange(from, to) =~= s.subrange(from + 1, to + 1));
        assert forall|i: int| 0 <= i < from + 1 implies is_white_space(#[trigger] s[i]) by {
            if i > 0 {
                assert(rest[i - 1] == s[i]);
            }
        }
        assert forall|i: int| to + 1 <= i < s.len() implies is_white_space(#[trigger] s[i]) by {
            assert(rest[i - 1] == s[i]);
        }
        (from + 1, to + 1)
    } else if is_white_space(s.last()) {
        let rest = s.drop_last();
        let (from, to) = lemma_trims(rest);
        assert(rest.subrange(from, to) =~= s.subrange(from, to));
        assert forall|i: int| 0 <= i < from implies is_white_space(#[trigger] s[i]) by {
            assert(rest[i] == s[i]);
        }
        assert forall|i: int| to <= i < s.len() implies is_white_space(#[trigger] s[i]) by {
            if i < rest.len() {
                assert(rest[i] == s[i]);
            }
        }
        (from, to)
    } else {
        assert(s.subrange(0, s.len() as int) =~= s);
        (0, s.len() as int)
    }
}

/// Trimming takes a run of whitespace off either end, and nothing else: what is left
/// begins and ends with something else, or is empty.
pub proof fn law_trimming_takes_whitespace_off_the_ends(s: Seq<char>)
    ensures
        exists|from: int, to: int| trims_to(s, from, to),
        trimmed(s).len() > 0 ==> !is_white_space(trimmed(s).first()) && !is_white_space(
            trimmed(s).last(),
        ),
{
    let (from, to) = lemma_trims(s);
    assert(trims_to(s, from, to));
}

/// Whether a text holds Chinese or Korean script is decided by its code points: unified
/// ideographs and their first two extensions, and Hangul syllables and letters.
pub proof fn law_scripts_are_told_by_code_point(s: Seq<char>, t: Seq<char>, c: char)
    ensures
        some_cjk(seq![c]) <==> {
            let n = c as int;
            ||| 0x1100 <= n <= 0x11ff
            ||| 0x3400 <= n <= 0x4dbf
            ||| 0x4e00 <= n <= 0x9fff
            ||| 0xac00 <= n <= 0xd7af
            ||| 0x20000 <= n <= 0x2a6df
        },
        some_cjk(s + t) <==> some_cjk(s) || some_cjk(t),
        !some_cjk(Seq::empty()),
{
    assert(seq![c][0] == c);
    if some_cjk(s) {
        let i = choose|i: int| 0 <= i < s.len() && is_cjk(#[trigger] s[i]);
        assert((s + t)[i] == s[i]);
    }
    if some_cjk(t) {
        let i = choose|i: int| 0 <= i < t.len() && is_cjk(#[trigger] t[i]);
        assert((s + t)[s.len() + i] == t[i]);
    }
}

} // verus!
