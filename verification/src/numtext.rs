//! Decimal text for signed 32-bit numbers.
//!
//! The geometry codec writes every numeric field as base-10 text and reads it
//! back with the usual grammar of a signed integer: an optional `+` or `-`
//! sign, then one or more decimal digits, the whole value in range. Both
//! directions are implemented and verified here, together with the lemma that
//! reading back what was written returns the number written.

use vstd::prelude::*;

verus! {

/// The character that prints one decimal digit.
pub open spec fn digit_char(d: nat) -> char
    recommends
        d < 10,
{
    if d == 0 {
        '0'
    } else if d == 1 {
        '1'
    } else if d == 2 {
        '2'
    } else if d == 3 {
        '3'
    } else if d == 4 {
        '4'
    } else if d == 5 {
        '5'
    } else if d == 6 {
        '6'
    } else if d == 7 {
        '7'
    } else if d == 8 {
        '8'
    } else {
        '9'
    }
}

/// The decimal digits of `n`, most significant first, with no sign and no
/// leading zero (except for `n == 0` itself).
pub open spec fn dec_chars(n: nat) -> Seq<char>
    decreases n,
{
    if n < 10 {
        seq![digit_char(n)]
    } else {
        dec_chars(n / 10).push(digit_char(n % 10))
    }
}

/// The text written for a signed number: a minus sign for negative values,
/// then the decimal digits of the magnitude.
pub open spec fn int_chars(n: int) -> Seq<char> {
    if n < 0 {
        seq!['-'] + dec_chars((-n) as nat)
    } else {
        dec_chars(n as nat)
    }
}

pub open spec fn is_dec_digit(c: char) -> bool {
    48 <= c as u32 && c as u32 <= 57
}

pub open spec fn dec_digit_val(c: char) -> nat
    recommends
        is_dec_digit(c),
{
    (c as u32 - 48) as nat
}

pub open spec fn all_dec_digits(s: Seq<char>) -> bool {
    forall|i: int| 0 <= i < s.len() ==> is_dec_digit(#[trigger] s[i])
}

/// The number a digit string denotes, most significant digit first.
pub open spec fn dec_value(s: Seq<char>) -> nat
    decreases s.len(),
{
    if s.len() == 0 {
        0
    } else {
        dec_value(s.drop_last()) * 10 + dec_digit_val(s.last())
    }
}

/// The magnitude part of the integer grammar: one or more decimal digits,
/// negated when a minus sign preceded them, rejected when the value leaves
/// the 32-bit signed range.
pub open spec fn spec_parse_mag(t: Seq<char>, neg: bool) -> Option<i32> {
    if t.len() == 0 || !all_dec_digits(t) {
        None
    } else if neg {
        if dec_value(t) <= 2147483648 {
            Some((-(dec_value(t) as int)) as i32)
        } else {
            None
        }
    } else {
        if dec_value(t) <= 2147483647 {
            Some(dec_value(t) as i32)
        } else {
            None
        }
    }
}

/// What parsing a signed 32-bit number from text accepts: an optional sign,
/// then one or more decimal digits, the whole value in range.
pub open spec fn spec_parse_i32(s: Seq<char>) -> Option<i32> {
    if s.len() > 0 && s[0] == '-' {
        spec_parse_mag(s.drop_first(), true)
    } else if s.len() > 0 && s[0] == '+' {
        spec_parse_mag(s.drop_first(), false)
    } else {
        spec_parse_mag(s, false)
    }
}

/// Append the character of one decimal digit to `out`.
fn push_digit(out: &mut String, d: u32)
    requires
        d < 10,
    ensures
        final(out)@ == old(out)@ + seq![digit_char(d as nat)],
{
    proof {
        reveal_strlit("0");
        reveal_strlit("1");
        reveal_strlit("2");
        reveal_strlit("3");
        reveal_strlit("4");
        reveal_strlit("5");
        reveal_strlit("6");
        reveal_strlit("7");
        reveal_strlit("8");
        reveal_strlit("9");
    }
    let piece: &str = if d == 0 {
        "0"
    } else if d == 1 {
        "1"
    } else if d == 2 {
        "2"
    } else if d == 3 {
        "3"
    } else if d == 4 {
        "4"
    } else if d == 5 {
        "5"
    } else if d == 6 {
        "6"
    } else if d == 7 {
        "7"
    } else if d == 8 {
        "8"
    } else {
        "9"
    };
    assert(piece@ =~= seq![digit_char(d as nat)]);
    out.append(piece);
}

/// Append the decimal digits of `n` to `out`.
fn push_u32(out: &mut String, n: u32)
    ensures
        final(out)@ == old(out)@ + dec_chars(n as nat),
    decreases n,
{
    if n < 10 {
        push_digit(out, n);
    } else {
        push_u32(out, n / 10);
        push_digit(out, n % 10);
        assert(final(out)@ =~= old(out)@ + dec_chars(n as nat));
    }
}

/// Append the decimal text of a signed number to `out`.
pub fn push_i32(out: &mut String, n: i32)
    ensures
        final(out)@ == old(out)@ + int_chars(n as int),
{
    if n < 0 {
        proof {
            reveal_strlit("-");
        }
        out.append("-");
        let mag: u32 = (-(n as i64)) as u32;
        push_u32(out, mag);
        assert(final(out)@ =~= old(out)@ + int_chars(n as int));
    } else {
        push_u32(out, n as u32);
    }
}

/// A longer digit string never denotes a smaller number than its prefix.
proof fn lemma_dec_value_prefix(s: Seq<char>, i: int)
    requires
        0 <= i <= s.len(),
    ensures
        dec_value(s.take(i)) <= dec_value(s),
    decreases s.len(),
{
    if i < s.len() {
        lemma_dec_value_prefix(s.drop_last(), i);
        assert(s.drop_last().take(i) =~= s.take(i));
    } else {
        assert(s.take(i) =~= s);
    }
}

/// The character of a digit denotes that digit.
proof fn lemma_digit_char_val(d: nat)
    requires
        d < 10,
    ensures
        is_dec_digit(digit_char(d)),
        dec_digit_val(digit_char(d)) == d,
{
    assert('0' as u32 == 48);
    assert('1' as u32 == 49);
    assert('2' as u32 == 50);
    assert('3' as u32 == 51);
    assert('4' as u32 == 52);
    assert('5' as u32 == 53);
    assert('6' as u32 == 54);
    assert('7' as u32 == 55);
    assert('8' as u32 == 56);
    assert('9' as u32 == 57);
}

/// The digits of `n` are digits, start with a digit, and denote `n`.
proof fn lemma_dec_chars_value(n: nat)
    ensures
        dec_chars(n).len() >= 1,
        all_dec_digits(dec_chars(n)),
        dec_value(dec_chars(n)) == n,
    decreases n,
{
    if n < 10 {
        lemma_digit_char_val(n);
        let s = seq![digit_char(n)];
        assert(dec_chars(n) == s);
        assert(s.drop_last() =~= Seq::<char>::empty());
        assert(dec_value(Seq::<char>::empty()) == 0);
        assert(s.last() == digit_char(n));
        assert(dec_value(s) == dec_digit_val(digit_char(n)));
    } else {
        lemma_dec_chars_value(n / 10);
        lemma_digit_char_val(n % 10);
        let s = dec_chars(n / 10).push(digit_char(n % 10));
        assert(dec_chars(n) == s);
        assert(s.drop_last() =~= dec_chars(n / 10));
        assert(s.last() == digit_char(n % 10));
        assert(dec_value(s) == dec_value(dec_chars(n / 10)) * 10 + dec_digit_val(digit_char(n % 10)));
        assert(dec_value(s) == (n / 10) * 10 + n % 10);
        assert(forall|i: int| 0 <= i < s.len() ==> is_dec_digit(#[trigger] s[i]));
    }
}

/// Reading back the decimal text of a 32-bit number returns the number.
pub proof fn lemma_parse_int_chars(n: int)
    requires
        -2147483648 <= n <= 2147483647,
    ensures
        spec_parse_i32(int_chars(n)) == Some(n as i32),
{
    if n < 0 {
        let mag = (-n) as nat;
        lemma_dec_chars_value(mag);
        let s = int_chars(n);
        assert(s[0] == '-');
        assert(s.drop_first() =~= dec_chars(mag));
    } else {
        lemma_dec_chars_value(n as nat);
        let s = int_chars(n);
        assert(is_dec_digit(s[0]));
        assert(s[0] as u32 != '-' as u32 && s[0] as u32 != '+' as u32);
    }
}

/// The decimal text of a number consists of digits and at most a leading
/// minus sign, and is never empty.
pub proof fn lemma_int_chars_shape(n: int)
    ensures
        int_chars(n).len() >= 1,
        forall|i: int|
            0 <= i < int_chars(n).len() ==> (is_dec_digit(#[trigger] int_chars(n)[i]) || int_chars(
                n,
            )[i] == '-'),
        is_dec_digit(int_chars(n)[0]) || int_chars(n)[0] == '-',
        is_dec_digit(int_chars(n).last()),
{
    if n < 0 {
        let mag = (-n) as nat;
        lemma_dec_chars_value(mag);
        let s = int_chars(n);
        assert(s.len() == 1 + dec_chars(mag).len());
        assert(forall|i: int| 1 <= i < s.len() ==> s[i] == #[trigger] dec_chars(mag)[i - 1]);
        assert(s.last() == dec_chars(mag).last());
    } else {
        lemma_dec_chars_value(n as nat);
    }
}

/// Parse a signed 32-bit number from the characters of `s` at and after
/// `start`; `neg` records whether a minus sign preceded them.
fn parse_mag(s: &str, start: usize, neg: bool) -> (r: Option<i32>)
    requires
        start <= s@.len(),
    ensures
        r == spec_parse_mag(s@.skip(start as int), neg),
{
    let ghost t = s@.skip(start as int);
    let len: usize = s.unicode_len();
    if start == len {
        assert(t.len() == 0);
        return None;
    }
    let mut i: usize = start;
    let mut acc: u64 = 0;
    while i < len
        invariant
            start <= i <= len,
            len == s@.len(),
            t == s@.skip(start as int),
            all_dec_digits(s@.subrange(start as int, i as int)),
            acc == dec_value(s@.subrange(start as int, i as int)),
            acc <= 0xFFFF_FFFFu64,
        decreases len - i,
    {
        let c = s.get_char(i);
        let u: u32 = c as u32;
        if u < 48 || u > 57 {
            proof {
                assert(t[i - start] == s@[i as int]);
                assert(!is_dec_digit(t[i - start]));
            }
            return None;
        }
        let d: u64 = (u - 48) as u64;
        let next: u64 = acc * 10 + d;
        proof {
            let pre = s@.subrange(start as int, i as int);
            let ext = s@.subrange(start as int, i as int + 1);
            assert(ext.drop_last() =~= pre);
            assert(ext.last() == s@[i as int]);
            assert(dec_value(ext) == next);
            assert(ext =~= t.take(i - start + 1));
        }
        if next > 0xFFFF_FFFF {
            proof {
                lemma_dec_value_prefix(t, i - start + 1);
                assert(dec_value(t) >= next > 2147483648);
            }
            return None;
        }
        acc = next;
        i = i + 1;
    }
    proof {
        assert(s@.subrange(start as int, len as int) =~= t);
    }
    if neg {
        if acc <= 2147483648 {
            Some((-(acc as i64)) as i32)
        } else {
            None
        }
    } else {
        if acc <= 2147483647 {
            Some(acc as i32)
        } else {
            None
        }
    }
}

/// Parse a signed 32-bit number from the whole of `s`: an optional sign,
/// then one or more decimal digits, rejected on any other shape.
pub fn parse_i32(s: &str) -> (r: Option<i32>)
    ensures
        r == spec_parse_i32(s@),
{
    let len: usize = s.unicode_len();
    if len == 0 {
        return None;
    }
    let c0 = s.get_char(0);
    if c0 == '-' {
        parse_mag(s, 1, true)
    } else if c0 == '+' {
        parse_mag(s, 1, false)
    } else {
        let r = parse_mag(s, 0, false);
        proof {
            assert(s@.skip(0) =~= s@);
        }
        r
    }
}

} // verus!
