//! Decimal text for integers, as it appears in RESP length lines, integer
//! replies and command arguments.
use vstd::prelude::*;
use vstd::slice::slice_subrange;

verus! {

/// Byte code of the ASCII digit `0`.
pub const ZERO_DIGIT: u8 = 48;

/// Byte code of `+`.
pub const PLUS_SIGN: u8 = 43;

/// Byte code of `-`.
pub const MINUS_SIGN: u8 = 45;

/// `b` is the byte of an ASCII decimal digit.
pub open spec fn is_digit(b: u8) -> bool {
    48 <= b <= 57
}

/// Every byte of `s` is a decimal digit.
pub open spec fn all_digits(s: Seq<u8>) -> bool {
    forall|i: int| 0 <= i < s.len() ==> is_digit(#[trigger] s[i])
}

/// The number that a string of decimal digits denotes (most significant first).
pub open spec fn digits_value(s: Seq<u8>) -> nat
    decreases s.len(),
{
    if s.len() == 0 {
        0
    } else {
        digits_value(s.drop_last()) * 10 + (s.last() - 48) as nat
    }
}

/// The shortest decimal text of `n`.
pub open spec fn decimal(n: nat) -> Seq<u8>
    decreases n,
{
    if n < 10 {
        seq![(48 + n) as u8]
    } else {
        decimal(n / 10).push((48 + n % 10) as u8)
    }
}

/// The decimal text of a signed number: a `-` in front of a negative one.
pub open spec fn signed_decimal(n: int) -> Seq<u8> {
    if n < 0 {
        seq![MINUS_SIGN] + decimal((-n) as nat)
    } else {
        decimal(n as nat)
    }
}

/// What an unsigned integer text denotes: an optional `+`, then one or more
/// decimal digits (the grammar of std's `from_str` for unsigned integers).
pub open spec fn unsigned_text_value(s: Seq<u8>) -> Option<nat> {
    let d = if s.len() > 0 && s[0] == PLUS_SIGN { s.drop_first() } else { s };
    if d.len() > 0 && all_digits(d) {
        Some(digits_value(d))
    } else {
        None
    }
}

/// `usize::from_str` on the text `s`: its value, or `None` where it is no
/// unsigned integer text or the value exceeds `usize::MAX`.
pub open spec fn usize_of_text(s: Seq<u8>) -> Option<usize> {
    match unsigned_text_value(s) {
        Some(v) => if v <= usize::MAX { Some(v as usize) } else { None },
        None => None,
    }
}

/// `i64::from_str` on the text `s`: an optional sign (`+` or `-`) and one or
/// more decimal digits whose value lies in the range of `i64`.
pub open spec fn i64_of_text(s: Seq<u8>) -> Option<i64> {
    if s.len() > 0 && s[0] == MINUS_SIGN {
        let d = s.drop_first();
        if d.len() > 0 && all_digits(d) && digits_value(d) <= 0x8000_0000_0000_0000 {
            Some((-digits_value(d)) as i64)
        } else {
            None
        }
    } else {
        match unsigned_text_value(s) {
            Some(v) => if v <= i64::MAX { Some(v as i64) } else { None },
            None => None,
        }
    }
}

/// The decimal text of `n` is a non-empty string of digits that denotes `n`.
pub proof fn lemma_decimal_digits(n: nat)
    ensures
        decimal(n).len() >= 1,
        all_digits(decimal(n)),
        digits_value(decimal(n)) == n,
        is_digit(decimal(n)[0]),
    decreases n,
{
    if n >= 10 {
        lemma_decimal_digits(n / 10);
        let d = decimal(n);
        assert(d.drop_last() =~= decimal(n / 10));
        assert((n / 10) * 10 + n % 10 == n) by (nonlinear_arith);
        assert(d.last() == (48 + n % 10) as u8);
        assert(((48 + n % 10) as u8) as int == 48 + n % 10);
        assert(digits_value(d) == digits_value(d.drop_last()) * 10 + (d.last() - 48) as nat);
        assert forall|i: int| 0 <= i < d.len() implies is_digit(#[trigger] d[i]) by {
            if i < d.len() - 1 {
                assert(d[i] == decimal(n / 10)[i]);
            }
        }
    } else {
        let d = decimal(n);
        assert(d.drop_last() =~= Seq::<u8>::empty());
        assert(((48 + n) as u8) as int == 48 + n);
        assert(d.last() == (48 + n) as u8);
        assert(digits_value(d.drop_last()) == 0);
        assert(digits_value(d) == digits_value(d.drop_last()) * 10 + (d.last() - 48) as nat);
        assert(digits_value(d) == n);
    }
}

/// Reading the decimal text of `n` as a `usize` gives back `n`.
pub proof fn lemma_usize_of_decimal(n: nat)
    requires
        n <= usize::MAX,
    ensures
        usize_of_text(decimal(n)) == Some(n as usize),
{
    lemma_decimal_digits(n);
}

/// Reading the decimal text of `n` as an `i64` gives back `n`.
pub proof fn lemma_i64_of_signed_decimal(n: i64)
    ensures
        i64_of_text(signed_decimal(n as int)) == Some(n),
{
    if n < 0 {
        lemma_decimal_digits((-n) as nat);
        assert((seq![MINUS_SIGN] + decimal((-n) as nat)).drop_first() =~= decimal((-n) as nat));
    } else {
        lemma_decimal_digits(n as nat);
    }
}

/// A prefix of a digit string denotes no more than the whole string.
proof fn lemma_digits_value_prefix(s: Seq<u8>, k: int)
    requires
        0 <= k <= s.len(),
        all_digits(s),
    ensures
        digits_value(s.take(k)) <= digits_value(s),
    decreases s.len(),
{
    if k < s.len() {
        assert(s.drop_last().take(k) =~= s.take(k));
        lemma_digits_value_prefix(s.drop_last(), k);
    } else {
        assert(s.take(k) =~= s);
    }
}

/// Appends the decimal text of `n` to `out`.
pub fn write_decimal(out: &mut Vec<u8>, n: u64)
    ensures
        final(out)@ == old(out)@ + decimal(n as nat),
    decreases n,
{
    if n >= 10 {
        write_decimal(out, n / 10);
    }
    let digit: u8 = (n % 10) as u8;
    out.push(ZERO_DIGIT + digit);
    proof {
        if n >= 10 {
            assert(decimal(n as nat) == decimal((n / 10) as nat).push((48 + n % 10) as u8));
        }
        assert(final(out)@ =~= old(out)@ + decimal(n as nat));
    }
}

/// Appends the decimal text of the signed `n` to `out`.
pub fn write_signed_decimal(out: &mut Vec<u8>, n: i64)
    ensures
        final(out)@ == old(out)@ + signed_decimal(n as int),
{
    if n < 0 {
        out.push(MINUS_SIGN);
        let magnitude: u64 = (0i128 - n as i128) as u64;
        write_decimal(out, magnitude);
        assert(final(out)@ =~= old(out)@ + signed_decimal(n as int));
    } else {
        write_decimal(out, n as u64);
    }
}

/// Accumulates the digits of `digits` into a number no greater than `limit`,
/// or `None` where some byte is no digit or the value exceeds `limit`.
fn digits_to_number(digits: &[u8], limit: u64) -> (r: Option<u64>)
    requires
        limit >= 9,
    ensures
        match r {
            Some(v) => digits.len() > 0 && all_digits(digits@) && v == digits_value(digits@)
                && v <= limit,
            None => !(digits.len() > 0 && all_digits(digits@) && digits_value(digits@) <= limit),
        },
{
    if digits.len() == 0 {
        return None;
    }
    let mut value: u64 = 0;
    let mut i: usize = 0;
    while i < digits.len()
        invariant
            0 <= i <= digits.len(),
            all_digits(digits@.take(i as int)),
            value == digits_value(digits@.take(i as int)),
            value <= limit,
            limit >= 9,
        decreases digits.len() - i,
    {
        let b = digits[i];
        if b < 48 || b > 57 {
            return None;
        }
        let d: u64 = (b - 48) as u64;
        proof {
            assert(digits@.take(i + 1).drop_last() =~= digits@.take(i as int));
        }
        if value > (limit - d) / 10 {
            proof {
                assert(value * 10 + d > limit) by (nonlinear_arith)
                    requires value > (limit - d) / 10, d <= limit;
                if all_digits(digits@) {
                    lemma_digits_value_prefix(digits@, i + 1);
                }
            }
            return None;
        }
        proof {
            assert(value * 10 + d <= limit) by (nonlinear_arith)
                requires value <= (limit - d) / 10, d <= limit;
        }
        value = value * 10 + d;
        i = i + 1;
        proof {
            assert forall|j: int| 0 <= j < i implies is_digit(#[trigger] digits@.take(i as int)[j]) by {
                if j < i - 1 {
                    assert(digits@.take(i as int)[j] == digits@.take(i - 1)[j]);
                }
            }
        }
    }
    assert(digits@.take(i as int) =~= digits@);
    Some(value)
}

/// `usize::from_str` over the bytes of a text.
pub fn parse_usize_text(text: &[u8]) -> (r: Option<usize>)
    ensures
        r == usize_of_text(text@),
{
    let digits: &[u8] = if text.len() > 0 && text[0] == PLUS_SIGN {
        slice_subrange(text, 1, text.len())
    } else {
        text
    };
    assert(text.len() > 0 && text[0] == PLUS_SIGN ==> digits@ =~= text@.drop_first());
    match digits_to_number(digits, usize::MAX as u64) {
        Some(v) => Some(v as usize),
        None => None,
    }
}

/// `i64::from_str` over the bytes of a text.
pub fn parse_i64_text(text: &[u8]) -> (r: Option<i64>)
    ensures
        r == i64_of_text(text@),
{
    if text.len() > 0 && text[0] == MINUS_SIGN {
        let digits = slice_subrange(text, 1, text.len());
        assert(digits@ =~= text@.drop_first());
        match digits_to_number(digits, 0x8000_0000_0000_0000u64) {
            Some(v) => Some((0i128 - v as i128) as i64),
            None => None,
        }
    } else {
        let digits: &[u8] = if text.len() > 0 && text[0] == PLUS_SIGN {
            slice_subrange(text, 1, text.len())
        } else {
            text
        };
        assert(text.len() > 0 && text[0] == PLUS_SIGN ==> digits@ =~= text@.drop_first());
        match digits_to_number(digits, i64::MAX as u64) {
            Some(v) => Some(v as i64),
            None => None,
        }
    }
}

} // verus!
