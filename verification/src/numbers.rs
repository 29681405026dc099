//! Whole numbers as decimal text.

use vstd::prelude::*;

verus! {

/// `a / b` with the remainder dropped, whatever the sign of `a`.
pub open spec fn quotient(a: int, b: int) -> int {
    if a >= 0 {
        a / b
    } else {
        -((-a) / b)
    }
}

/// Whether `c` is a decimal digit.
pub open spec fn is_digit(c: char) -> bool {
    '0' <= c <= '9'
}

/// The number that a decimal digit stands for.
pub open spec fn digit_value(c: char) -> int {
    c as int - '0' as int
}

/// The number that a run of decimal digits stands for.
pub open spec fn digits_value(s: Seq<char>) -> int
    decreases s.len(),
{
    if s.len() == 0 {
        0
    } else {
        10 * digits_value(s.drop_last()) + digit_value(s.last())
    }
}

/// Whether `s` is one or more decimal digits and nothing else.
pub open spec fn is_number(s: Seq<char>) -> bool {
    s.len() > 0 && forall|i: int| 0 <= i < s.len() ==> is_digit(#[trigger] s[i])
}

/// The number that `s` stands for: decimal digits, with or without a plus sign.
pub open spec fn unsigned_value(s: Seq<char>) -> Option<int> {
    let digits = if s.len() > 0 && s[0] == '+' {
        s.skip(1)
    } else {
        s
    };
    if is_number(digits) {
        Some(digits_value(digits))
    } else {
        None
    }
}

/// The number that `s` stands for: decimal digits, with or without a sign.
pub open spec fn signed_value(s: Seq<char>) -> Option<int> {
    if s.len() > 0 && s[0] == '-' {
        if is_number(s.skip(1)) {
            Some(-digits_value(s.skip(1)))
        } else {
            None
        }
    } else {
        unsigned_value(s)
    }
}

/// The `i64` that `s` stands for, if it is the text of one.
pub open spec fn as_i64(s: Seq<char>) -> Option<i64> {
    match signed_value(s) {
        Some(v) => if i64::MIN <= v <= i64::MAX {
            Some(v as i64)
        } else {
            None
        },
        None => None,
    }
}

/// The `i32` that `s` stands for, if it is the text of one.
pub open spec fn as_i32(s: Seq<char>) -> Option<i32> {
    match signed_value(s) {
        Some(v) => if i32::MIN <= v <= i32::MAX {
            Some(v as i32)
        } else {
            None
        },
        None => None,
    }
}

/// The `usize` that `s` stands for, if it is the text of one.
pub open spec fn as_usize(s: Seq<char>) -> Option<usize> {
    match unsigned_value(s) {
        Some(v) => if v <= usize::MAX {
            Some(v as usize)
        } else {
            None
        },
        None => None,
    }
}

/// Digits stand for no negative number, and more of them for no smaller one.
pub proof fn lemma_digits_grow(s: Seq<char>, n: int)
    requires
        0 <= n <= s.len(),
        forall|i: int| 0 <= i < s.len() ==> is_digit(#[trigger] s[i]),
    ensures
        0 <= digits_value(s.take(n)) <= digits_value(s),
    decreases s.len(),
{
    if s.len() == 0 {
        assert(s.take(n) =~= s);
    } else if n == s.len() {
        assert(s.take(n) =~= s);
        lemma_digits_grow(s.drop_last(), 0);
        assert(s.drop_last().take(0) =~= Seq::<char>::empty());
        assert(is_digit(s.last()));
    } else {
        lemma_digits_grow(s.drop_last(), n);
        assert(s.drop_last().take(n) =~= s.take(n));
        assert(is_digit(s.last()));
    }
}

/// The number that the digits of `s` from `from` on stand for, unless they are
/// not digits or it is too large.
fn digits_from(s: &[char], from: usize) -> (value: Option<u64>)
    requires
        from <= s@.len(),
    ensures
        match value {
            Some(v) => is_number(s@.skip(from as int)) && v == digits_value(s@.skip(from as int)),
            None => !is_number(s@.skip(from as int)) || digits_value(s@.skip(from as int))
                > u64::MAX,
        },
{
    let ghost digits = s@.skip(from as int);
    if from == s.len() {
        return None;
    }
    let mut value: u64 = 0;
    let mut large: bool = false;
    let mut i: usize = from;
    while i < s.len()
        invariant
            from <= i <= s@.len(),
            digits == s@.skip(from as int),
            forall|j: int| 0 <= j < i - from ==> is_digit(#[trigger] digits[j]),
            !large ==> value == digits_value(digits.take(i - from)),
            large ==> digits_value(digits.take(i - from)) > u64::MAX,
        decreases s.len() - i,
    {
        let c: char = s[i];
        assert(c == digits[i - from]);
        if !('0' <= c && c <= '9') {
            return None;
        }
        proof {
            let longer = digits.take(i - from + 1);
            assert(longer.drop_last() =~= digits.take(i - from));
            assert(longer.last() == c);
            lemma_digits_grow(longer, i - from);
            assert(longer.take(i - from) =~= digits.take(i - from));
        }
        let digit: u64 = (c as u32 - '0' as u32) as u64;
        if !large {
            if value > (u64::MAX - digit) / 10 {
                large = true;
            } else {
                value = 10 * value + digit;
            }
        }
        i += 1;
    }
    assert(digits.take(i - from) =~= digits);
    if large {
        None
    } else {
        Some(value)
    }
}

/// Reads an `i64`: decimal digits, with or without a sign.
pub fn parse_i64(s: &[char]) -> (value: Option<i64>)
    ensures
        value == as_i64(s@),
{
    if s.len() == 0 {
        return None;
    }
    let minus: bool = s[0] == '-';
    let from: usize = if minus || s[0] == '+' {
        1
    } else {
        0
    };
    assert(s@.skip(0) =~= s@);
    match digits_from(s, from) {
        Some(v) => {
            if minus {
                if v as i128 <= 0x8000_0000_0000_0000i128 {
                    Some((-(v as i128)) as i64)
                } else {
                    None
                }
            } else if v as i128 <= i64::MAX as i128 {
                Some(v as i64)
            } else {
                None
            }
        },
        None => None,
    }
}

/// Reads an `i32`: decimal digits, with or without a sign.
pub fn parse_i32(s: &[char]) -> (value: Option<i32>)
    ensures
        value == as_i32(s@),
{
    match parse_i64(s) {
        Some(v) => if i32::MIN as i64 <= v && v <= i32::MAX as i64 {
            Some(v as i32)
        } else {
            None
        },
        None => None,
    }
}

/// Reads a `usize`: decimal digits, with or without a plus sign.
pub fn parse_usize(s: &[char]) -> (value: Option<usize>)
    ensures
        value == as_usize(s@),
{
    if s.len() == 0 {
        return None;
    }
    let from: usize = if s[0] == '+' {
        1
    } else {
        0
    };
    assert(s@.skip(0) =~= s@);
    match digits_from(s, from) {
        Some(v) => if v <= usize::MAX as u64 {
            Some(v as usize)
        } else {
            None
        },
        None => None,
    }
}

/// The decimal digit for a number below ten.
pub open spec fn digit_char(d: int) -> char {
    ('0' as int + d) as char
}

/// The decimal text of a number, without leading zeros.
pub open spec fn decimal(n: nat) -> Seq<char>
    decreases n,
{
    if n < 10 {
        seq![digit_char(n as int)]
    } else {
        decimal(n / 10).push(digit_char((n % 10) as int))
    }
}

/// The decimal text of a number, with a minus sign if it is negative.
pub open spec fn signed_decimal(v: int) -> Seq<char> {
    if v < 0 {
        seq!['-'] + decimal((-v) as nat)
    } else {
        decimal(v as nat)
    }
}

/// Appends the decimal text of `n`.
pub fn push_decimal(text: &mut String, n: u64)
    ensures
        final(text)@ == old(text)@ + decimal(n as nat),
    decreases n,
{
    if n >= 10 {
        push_decimal(text, n / 10);
    }
    text.push((48 + (n % 10) as u8) as char);
    assert(text@ =~= old(text)@ + decimal(n as nat));
}

/// The decimal text of `v`.
pub fn decimal_text(v: i64) -> (text: String)
    ensures
        text@ == signed_decimal(v as int),
{
    let mut text: String = String::new();
    if v < 0 {
        text.push('-');
        push_decimal(&mut text, (-(v as i128)) as u64);
    } else {
        push_decimal(&mut text, v as u64);
    }
    assert(text@ =~= signed_decimal(v as int));
    text
}

/// A decimal text is made of digits and stands for its number.
pub proof fn lemma_decimal(n: nat)
    ensures
        is_number(decimal(n)),
        digits_value(decimal(n)) == n,
    decreases n,
{
    if n < 10 {
        let s = decimal(n);
        assert(s.drop_last() =~= Seq::<char>::empty());
        assert(digits_value(Seq::<char>::empty()) == 0);
        assert(is_digit(s[0]));
    } else {
        lemma_decimal(n / 10);
        let s = decimal(n);
        assert(s.drop_last() =~= decimal(n / 10));
        assert forall|i: int| 0 <= i < s.len() implies is_digit(#[trigger] s[i]) by {
            if i < s.len() - 1 {
                assert(s[i] == decimal(n / 10)[i]);
            }
        }
    }
}

/// Dividing drops the remainder, on both sides of zero alike.
pub proof fn law_quotient_drops_the_remainder(a: int, b: int)
    requires
        b > 0,
    ensures
        a >= 0 ==> b * quotient(a, b) <= a < b * quotient(a, b) + b,
        quotient(-a, b) == -quotient(a, b),
{
    let n = if a >= 0 {
        a
    } else {
        -a
    };
    vstd::arithmetic::div_mod::lemma_fundamental_div_mod(n, b);
    vstd::arithmetic::div_mod::lemma_mod_bound(n, b);
    if a == 0 {
        assert(0int / b == 0) by (nonlinear_arith)
            requires
                b > 0,
        ;
    }
}

/// A decimal text is as short as can be: it begins with zero only if it is that.
pub proof fn law_decimal_has_no_leading_zeros(n: nat)
    ensures
        n == 0 ==> decimal(n) == seq!['0'],
        n > 0 ==> decimal(n)[0] != '0',
        is_number(decimal(n)),
        digits_value(decimal(n)) == n,
    decreases n,
{
    lemma_decimal(n);
    if n >= 10 {
        law_decimal_has_no_leading_zeros(n / 10);
    } else {
        assert(('0' as int + n) as char as int == '0' as int + n);
    }
}

/// Zeros in front of a number do not count, nor does a plus sign, and a minus sign
/// negates it. A sign takes digits behind it, and nothing but digits makes a number.
pub proof fn law_numbers_are_read_digit_by_digit(s: Seq<char>, d: char)
    ensures
        is_number(s) && '0' <= d <= '9' ==> signed_value(s.push(d)) == Some(
            10 * signed_value(s)->0 + (d as int - 48),
        ),
        '0' <= d <= '9' ==> signed_value(seq![d]) == Some(d as int - 48),
        is_number(s) ==> signed_value(s) == Some(digits_value(s)) && unsigned_value(s) == Some(
            digits_value(s),
        ),
        is_number(s) ==> signed_value(seq!['+'] + s) == signed_value(s) && unsigned_value(
            seq!['+'] + s,
        ) == unsigned_value(s),
        is_number(s) ==> signed_value(seq!['-'] + s) == Some(-digits_value(s)) && unsigned_value(
            seq!['-'] + s,
        ) is None,
        !is_number(s) ==> signed_value(seq!['+'] + s) is None && signed_value(seq!['-'] + s)
            is None,
        signed_value(Seq::empty()) is None,
        !('0' <= d <= '9') ==> signed_value(s.push(d)) is None,
{
    assert((seq!['+'] + s).skip(1) =~= s);
    assert((seq!['-'] + s).skip(1) =~= s);
    let t = s.push(d);
    assert(t.drop_last() =~= s);
    assert(t.last() == d);
    let one = seq![d];
    assert(one.drop_last() =~= Seq::<char>::empty());
    assert(digits_value(Seq::<char>::empty()) == 0);
    if is_number(s) {
        assert(is_digit(s[0]));
        assert(t[0] == s[0]);
        if '0' <= d <= '9' {
            assert forall|i: int| 0 <= i < t.len() implies is_digit(#[trigger] t[i]) by {
                if i < s.len() {
                    assert(t[i] == s[i]);
                }
            }
        }
        assert((seq!['-'] + s)[0] == '-');
        assert(!is_digit('-'));
    }
    if !('0' <= d <= '9') {
        assert(!is_digit(t[t.len() - 1]));
        if s.len() > 0 {
            assert(t.skip(1)[t.len() - 2] == d);
        } else {
            assert(t.skip(1).len() == 0);
        }
    }
}

/// A number is read as an `i64`, an `i32` or a `usize` exactly when it is in range.
pub proof fn law_numbers_are_read_in_range(s: Seq<char>)
    ensures
        signed_value(s) is None ==> as_i64(s) is None && as_i32(s) is None,
        signed_value(s) matches Some(v) ==> {
            &&& as_i64(s) is Some <==> -0x8000_0000_0000_0000 <= v <= 0x7fff_ffff_ffff_ffff
            &&& as_i64(s) is Some ==> as_i64(s)->0 == v
            &&& as_i32(s) is Some <==> -0x8000_0000 <= v <= 0x7fff_ffff
            &&& as_i32(s) is Some ==> as_i32(s)->0 == v
        },
        unsigned_value(s) is None ==> as_usize(s) is None,
        unsigned_value(s) matches Some(v) ==> {
            &&& as_usize(s) is Some <==> v <= usize::MAX
            &&& as_usize(s) is Some ==> as_usize(s)->0 == v
        },
{
    let digits = if s.len() > 0 && s[0] == '+' {
        s.skip(1)
    } else {
        s
    };
    if is_number(digits) {
        lemma_digits_grow(digits, 0);
    }
}

/// Reading the decimal text of a number gives the number back.
pub proof fn law_number_survives_as_text(v: int)
    ensures
        signed_value(signed_decimal(v)) == Some(v),
        i32::MIN <= v <= i32::MAX ==> as_i32(signed_decimal(v)) == Some(v as i32),
        i64::MIN <= v <= i64::MAX ==> as_i64(signed_decimal(v)) == Some(v as i64),
{
    if v < 0 {
        lemma_decimal((-v) as nat);
        assert(signed_decimal(v).skip(1) =~= decimal((-v) as nat));
    } else {
        lemma_decimal(v as nat);
        let s = decimal(v as nat);
        assert(is_digit(s[0]));
    }
}

} // verus!
