//! Taking text apart at separators.

use vstd::prelude::*;
use vstd::slice::slice_subrange;

use crate::text::{is_white_space, trimmed};

verus! {

/// Where `c` first stands in `s`, or the length of `s` where it does not.
pub open spec fn find(s: Seq<char>, c: char) -> int
    decreases s.len(),
{
    if s.len() == 0 || s[0] == c {
        0
    } else {
        1 + find(s.skip(1), c)
    }
}

/// Where `c` last stands in `s`, or -1 where it does not.
pub open spec fn rfind(s: Seq<char>, c: char) -> int
    decreases s.len(),
{
    if s.len() == 0 {
        -1
    } else if s.last() == c {
        s.len() - 1
    } else {
        rfind(s.drop_last(), c)
    }
}

/// The pieces of `s` between the places where `sep` stands: one more than there
/// are such places.
pub open spec fn fields(s: Seq<char>, sep: char) -> Seq<Seq<char>>
    decreases s.len(),
{
    let i = find(s, sep);
    if 0 <= i < s.len() {
        seq![s.take(i)] + fields(s.skip(i + 1), sep)
    } else {
        seq![s]
    }
}

/// `s` without the run of `c` at its end.
pub open spec fn without_trailing(s: Seq<char>, c: char) -> Seq<char>
    decreases s.len(),
{
    if s.len() > 0 && s.last() == c {
        without_trailing(s.drop_last(), c)
    } else {
        s
    }
}

/// `s` without the run of `c` at its start.
pub open spec fn without_leading(s: Seq<char>, c: char) -> Seq<char>
    decreases s.len(),
{
    if s.len() > 0 && s[0] == c {
        without_leading(s.skip(1), c)
    } else {
        s
    }
}

/// The first place is the one before which there is none.
pub proof fn lemma_find(s: Seq<char>, c: char, i: int)
    requires
        0 <= i <= s.len(),
        forall|j: int| 0 <= j < i ==> s[j] != c,
        i < s.len() ==> s[i] == c,
    ensures
        find(s, c) == i,
    decreases s.len(),
{
    if i > 0 {
        assert(s[0] != c);
        assert forall|j: int| 0 <= j < i - 1 implies s.skip(1)[j] != c by {
            assert(s.skip(1)[j] == s[j + 1]);
        }
        lemma_find(s.skip(1), c, i - 1);
    }
}

/// There is always at least one piece.
pub proof fn lemma_fields_not_empty(s: Seq<char>, sep: char)
    ensures
        fields(s, sep).len() >= 1,
{
}

/// Where `c` first stands in `s`, or its length.
pub fn find_char(s: &[char], c: char) -> (at: usize)
    ensures
        at == find(s@, c),
        at <= s@.len(),
{
    let mut i: usize = 0;
    while i < s.len()
        invariant
            i <= s@.len(),
            forall|j: int| 0 <= j < i ==> s@[j] != c,
        decreases s.len() - i,
    {
        if s[i] == c {
            proof {
                lemma_find(s@, c, i as int);
            }
            return i;
        }
        i += 1;
    }
    proof {
        lemma_find(s@, c, i as int);
    }
    i
}

/// Where `c` last stands in `s`, if it does.
pub fn rfind_char(s: &[char], c: char) -> (at: Option<usize>)
    ensures
        match at {
            Some(i) => i == rfind(s@, c) && i < s@.len(),
            None => rfind(s@, c) == -1,
        },
{
    let mut n: usize = s.len();
    assert(s@.take(n as int) =~= s@);
    while n > 0
        invariant
            n <= s@.len(),
            rfind(s@, c) == rfind(s@.take(n as int), c),
        decreases n,
    {
        assert(s@.take(n as int).last() == s@[n - 1]);
        if s[n - 1] == c {
            return Some(n - 1);
        }
        assert(s@.take(n as int).drop_last() =~= s@.take(n - 1));
        n -= 1;
    }
    None
}

/// The pieces of `s` between the places where `sep` stands, each by the range of
/// indices it takes up.
pub fn split(s: &[char], sep: char) -> (ranges: Vec<(usize, usize)>)
    ensures
        ranges@.len() == fields(s@, sep).len(),
        forall|i: int|
            #![trigger ranges@[i]]
            0 <= i < ranges@.len() ==> {
                &&& ranges@[i].0 <= ranges@[i].1 <= s@.len()
                &&& s@.subrange(ranges@[i].0 as int, ranges@[i].1 as int) == fields(s@, sep)[i]
            },
{
    let mut ranges: Vec<(usize, usize)> = Vec::new();
    let mut start: usize = 0;
    let mut i: usize = 0;
    assert(s@.skip(0) =~= s@);
    while i < s.len()
        invariant
            start <= i <= s@.len(),
            forall|j: int| start <= j < i ==> s@[j] != sep,
            fields(s@, sep).len() == ranges@.len() + fields(s@.skip(start as int), sep).len(),
            forall|k: int|
                #![trigger ranges@[k]]
                0 <= k < ranges@.len() ==> {
                    &&& ranges@[k].0 <= ranges@[k].1 <= s@.len()
                    &&& s@.subrange(ranges@[k].0 as int, ranges@[k].1 as int) == fields(
                        s@,
                        sep,
                    )[k]
                },
            forall|k: int|
                #![trigger fields(s@.skip(start as int), sep)[k]]
                0 <= k < fields(s@.skip(start as int), sep).len() ==> fields(
                    s@.skip(start as int),
                    sep,
                )[k] == fields(s@, sep)[ranges@.len() + k],
        decreases s.len() - i,
    {
        if s[i] == sep {
            proof {
                let rest = s@.skip(start as int);
                assert forall|j: int| 0 <= j < i - start implies rest[j] != sep by {
                    assert(rest[j] == s@[start + j]);
                }
                assert(rest[i - start] == sep);
                lemma_find(rest, sep, i - start);
                assert(rest.take(i - start) =~= s@.subrange(start as int, i as int));
                assert(rest.skip(i - start + 1) =~= s@.skip(i + 1));
                let tail = fields(s@.skip(i + 1), sep);
                assert(fields(rest, sep) == seq![rest.take(i - start)] + tail);
                assert(fields(rest, sep)[0] == rest.take(i - start));
                assert forall|k: int| 0 <= k < tail.len() implies tail[k] == fields(
                    s@,
                    sep,
                )[ranges@.len() + 1 + k] by {
                    assert(fields(rest, sep)[k + 1] == tail[k]);
                }
            }
            ranges.push((start, i));
            start = i + 1;
        }
        i += 1;
    }
    proof {
        let rest = s@.skip(start as int);
        assert forall|j: int| 0 <= j < rest.len() implies rest[j] != sep by {
            assert(rest[j] == s@[start + j]);
        }
        lemma_find(rest, sep, rest.len() as int);
        assert(fields(rest, sep)[0] == rest);
        assert(rest =~= s@.subrange(start as int, s@.len() as int));
    }
    ranges.push((start, s.len()));
    ranges
}

/// `s` without the run of `c` at its end.
pub fn trim_end_char(s: &[char], c: char) -> (r: &[char])
    ensures
        r@ == without_trailing(s@, c),
{
    let mut n: usize = s.len();
    assert(s@.take(n as int) =~= s@);
    while n > 0 && s[n - 1] == c
        invariant
            n <= s@.len(),
            without_trailing(s@, c) == without_trailing(s@.take(n as int), c),
        decreases n,
    {
        assert(s@.take(n as int).drop_last() =~= s@.take(n - 1));
        n -= 1;
    }
    assert(s@.subrange(0, n as int) =~= s@.take(n as int));
    slice_subrange(s, 0, n)
}

/// `s` without the run of `c` at its start.
pub fn trim_start_char(s: &[char], c: char) -> (r: &[char])
    ensures
        r@ == without_leading(s@, c),
{
    let mut n: usize = 0;
    assert(s@.skip(0) =~= s@);
    while n < s.len() && s[n] == c
        invariant
            n <= s@.len(),
            without_leading(s@, c) == without_leading(s@.skip(n as int), c),
        decreases s.len() - n,
    {
        assert(s@.skip(n as int).skip(1) =~= s@.skip(n + 1));
        n += 1;
    }
    assert(s@.subrange(n as int, s@.len() as int) =~= s@.skip(n as int));
    slice_subrange(s, n, s.len())
}

/// `s` without the whitespace at its two ends.
pub fn trim_chars(s: &[char]) -> (r: &[char])
    ensures
        r@ == trimmed(s@),
{
    let mut from: usize = 0;
    assert(s@.subrange(0, s@.len() as int) =~= s@);
    while from < s.len() && s[from].is_whitespace()
        invariant
            from <= s@.len(),
            trimmed(s@) == trimmed(s@.subrange(from as int, s@.len() as int)),
        decreases s.len() - from,
    {
        assert(s@.subrange(from as int, s@.len() as int).drop_first() =~= s@.subrange(
            from + 1,
            s@.len() as int,
        ));
        from += 1;
    }
    let mut to: usize = s.len();
    while from < to && s[to - 1].is_whitespace()
        invariant
            from <= to <= s@.len(),
            from < to ==> !is_white_space(s@[from as int]),
            trimmed(s@) == trimmed(s@.subrange(from as int, to as int)),
        decreases to - from,
    {
        assert(s@.subrange(from as int, to as int).drop_last() =~= s@.subrange(
            from as int,
            to - 1,
        ));
        to -= 1;
    }
    slice_subrange(s, from, to)
}

/// The first place of a character has it, and none before does; the last place has it,
/// and none behind does.
pub proof fn law_places_are_the_first_and_the_last(s: Seq<char>, c: char)
    ensures
        0 <= find(s, c) <= s.len(),
        find(s, c) < s.len() ==> s[find(s, c)] == c,
        forall|i: int| 0 <= i < find(s, c) ==> #[trigger] s[i] != c,
        -1 <= rfind(s, c) < s.len(),
        rfind(s, c) >= 0 ==> s[rfind(s, c)] == c,
        forall|i: int| rfind(s, c) < i < s.len() ==> #[trigger] s[i] != c,
    decreases s.len(),
{
    if s.len() > 0 {
        let rest = s.skip(1);
        law_places_are_the_first_and_the_last(rest, c);
        if s[0] != c {
            assert forall|i: int| 0 <= i < find(s, c) implies #[trigger] s[i] != c by {
                if i > 0 {
                    assert(rest[i - 1] == s[i]);
                }
            }
        }
        let front = s.drop_last();
        law_places_are_the_first_and_the_last(front, c);
        if s.last() != c {
            assert forall|i: int| rfind(s, c) < i < s.len() implies #[trigger] s[i] != c by {
                if i < front.len() {
                    assert(front[i] == s[i]);
                }
            }
        }
    }
}

/// The text that `pieces` make with `sep` between them.
pub open spec fn joined(pieces: Seq<Seq<char>>, sep: char) -> Seq<char>
    decreases pieces.len(),
{
    if pieces.len() == 0 {
        Seq::empty()
    } else if pieces.len() == 1 {
        pieces[0]
    } else {
        pieces[0] + seq![sep] + joined(pieces.skip(1), sep)
    }
}

/// A text is taken apart at every separator and nowhere else: no piece holds one, and
/// put together again with separators between them the pieces are the text.
pub proof fn law_pieces_make_up_the_text(s: Seq<char>, sep: char)
    ensures
        fields(s, sep).len() >= 1,
        joined(fields(s, sep), sep) == s,
        forall|i: int, j: int|
            0 <= i < fields(s, sep).len() && 0 <= j < fields(s, sep)[i].len()
                ==> #[trigger] fields(s, sep)[i][j] != sep,
    decreases s.len(),
{
    law_places_are_the_first_and_the_last(s, sep);
    let n = find(s, sep);
    let all = fields(s, sep);
    if n < s.len() {
        let rest = s.skip(n + 1);
        law_pieces_make_up_the_text(rest, sep);
        let tail = fields(rest, sep);
        assert(all == seq![s.take(n)] + tail);
        assert(all.skip(1) =~= tail);
        assert(s.take(n) + seq![sep] + rest =~= s);
        assert forall|i: int, j: int| 0 <= i < all.len() && 0 <= j < all[i].len() implies
            #[trigger] all[i][j] != sep by {
            if i > 0 {
                assert(all[i] == tail[i - 1]);
                assert(tail[i - 1][j] != sep);
            } else {
                assert(all[0][j] == s[j]);
            }
        }
    } else {
        assert(all == seq![s]);
        assert forall|i: int, j: int| 0 <= i < all.len() && 0 <= j < all[i].len() implies
            #[trigger] all[i][j] != sep by {
            assert(all[i][j] == s[j]);
        }
    }
}

/// What is joined with separators is taken apart into the same pieces, if none of them
/// holds the separator.
pub proof fn law_joined_pieces_come_apart(pieces: Seq<Seq<char>>, sep: char)
    requires
        pieces.len() >= 1,
        forall|i: int, j: int|
            0 <= i < pieces.len() && 0 <= j < pieces[i].len() ==> #[trigger] pieces[i][j] != sep,
    ensures
        fields(joined(pieces, sep), sep) == pieces,
    decreases pieces.len(),
{
    let first = pieces[0];
    let s = joined(pieces, sep);
    if pieces.len() == 1 {
        lemma_find(s, sep, s.len() as int);
        assert(fields(s, sep) =~= pieces);
    } else {
        let rest = pieces.skip(1);
        assert forall|i: int, j: int| 0 <= i < rest.len() && 0 <= j < rest[i].len() implies
            #[trigger] rest[i][j] != sep by {
            assert(pieces[i + 1][j] != sep);
        }
        law_joined_pieces_come_apart(rest, sep);
        let n = first.len() as int;
        assert(s[n] == sep);
        assert forall|j: int| 0 <= j < n implies s[j] != sep by {
            assert(s[j] == pieces[0][j]);
        }
        lemma_find(s, sep, n);
        assert(s.take(n) =~= first);
        assert(s.skip(n + 1) =~= joined(rest, sep));
        assert(fields(s, sep) =~= pieces);
    }
}

/// Stripping a character off the end, or off the start, takes the whole run of it and
/// nothing else.
pub proof fn law_stripping_takes_the_run(s: Seq<char>, c: char)
    ensures
        ({
            let r = without_trailing(s, c);
            &&& r.len() <= s.len()
            &&& r == s.take(r.len() as int)
            &&& r.len() > 0 ==> r.last() != c
            &&& forall|i: int| r.len() <= i < s.len() ==> #[trigger] s[i] == c
        }),
        ({
            let r = without_leading(s, c);
            &&& r.len() <= s.len()
            &&& r == s.skip(s.len() - r.len())
            &&& r.len() > 0 ==> r[0] != c
            &&& forall|i: int| 0 <= i < s.len() - r.len() ==> #[trigger] s[i] == c
        }),
    decreases s.len(),
{
    if s.len() > 0 {
        let front = s.drop_last();
        let back = s.skip(1);
        law_stripping_takes_the_run(front, c);
        law_stripping_takes_the_run(back, c);
        if s.last() == c {
            let r = without_trailing(s, c);
            assert(front.take(r.len() as int) =~= s.take(r.len() as int));
            assert forall|i: int| r.len() <= i < s.len() implies #[trigger] s[i] == c by {
                if i < front.len() {
                    assert(front[i] == s[i]);
                }
            }
        } else {
            assert(s.take(s.len() as int) =~= s);
        }
        if s[0] == c {
            let r = without_leading(s, c);
            assert(back.skip(back.len() - r.len()) =~= s.skip(s.len() - r.len()));
            assert forall|i: int| 0 <= i < s.len() - r.len() implies #[trigger] s[i] == c by {
                if i > 0 {
                    assert(back[i - 1] == s[i]);
                }
            }
        } else {
            assert(s.skip(0) =~= s);
        }
    } else {
        assert(s.take(0) =~= s);
        assert(s.skip(0) =~= s);
    }
}

} // verus!
