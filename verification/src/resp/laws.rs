//! What the wire format guarantees as a whole: every value the encoder
//! writes is read back as the same value, and the parser's verdict on a
//! buffer does not depend on bytes that arrive after the value it reads.
use vstd::prelude::*;
use vstd::utf8::*;

use crate::number::{
    all_digits,
    decimal,
    lemma_decimal_digits,
    lemma_i64_of_signed_decimal,
    lemma_usize_of_decimal,
    signed_decimal,
};
use crate::resp::codec::{decoded, left_after_decode};
use crate::resp::types::{
    count_from_line,
    crlf,
    crlf_at,
    encode_elements,
    encode_value,
    first_crlf,
    header_line,
    integer_from_line,
    lemma_first_crlf_is,
    lemma_first_crlf_some,
    lemma_header_line,
    lemma_parse_value_bounds,
    parse_elements,
    parse_value,
    ParseOutcome,
    RespValue,
};
use crate::resp::RespErrorView;
use crate::text::lemma_ascii_chars_encode;

verus! {

broadcast use group_utf8_lib;

/// `s` holds no `\r\n`.
pub open spec fn free_of_crlf(s: Seq<u8>) -> bool {
    forall|i: int| !#[trigger] crlf_at(s, i)
}

/// `v` is written in a form that reads back as `v`: no simple string or
/// simple error holds `\r\n` in its bytes, and no length or count exceeds
/// `usize::MAX`.
pub open spec fn wire_safe(v: RespValue) -> bool
    decreases v,
{
    match v {
        RespValue::SimpleString(s) => free_of_crlf(encode_utf8(s)),
        RespValue::SimpleError(s) => free_of_crlf(encode_utf8(s)),
        RespValue::BulkString(s) => encode_utf8(s).len() <= usize::MAX,
        RespValue::Integer(_) => true,
        RespValue::Array(elements) => elements.len() <= usize::MAX && wire_safe_elements(elements),
        RespValue::NullBulkString => true,
    }
}

/// Every value of `elements` is `wire_safe`.
pub open spec fn wire_safe_elements(elements: Seq<RespValue>) -> bool
    decreases elements,
{
    if elements.len() == 0 {
        true
    } else {
        wire_safe(elements[0]) && wire_safe_elements(elements.subrange(1, elements.len() as int))
    }
}

// ---------------------------------------------------------------------------
// Lines.
// ---------------------------------------------------------------------------

/// Within `a`, `a + b` holds `\r\n` where `a` does.
proof fn lemma_crlf_at_concat(a: Seq<u8>, b: Seq<u8>)
    ensures
        forall|j: int| 0 <= j && j + 1 < a.len() ==> #[trigger] crlf_at(a + b, j) == crlf_at(a, j),
{
    assert forall|j: int| 0 <= j && j + 1 < a.len() implies #[trigger] crlf_at(a + b, j) == crlf_at(
        a,
        j,
    ) by {
        assert((a + b)[j] == a[j]);
        assert((a + b)[j + 1] == a[j + 1]);
    }
}

/// A line free of `\r\n`, then `\r\n`: the first `\r\n` ends the line.
proof fn lemma_first_crlf_after_line(line: Seq<u8>, rest: Seq<u8>)
    requires
        free_of_crlf(line),
    ensures
        first_crlf(line + crlf() + rest) == Some(line.len() as int),
{
    let s = line + crlf() + rest;
    lemma_crlf_at_concat(line, crlf() + rest);
    assert(s =~= line + (crlf() + rest));
    assert(s[line.len() as int] == 13);
    assert(s[line.len() + 1int] == 10);
    assert forall|j: int| 0 <= j < line.len() implies !#[trigger] crlf_at(s, j) by {
        if j + 1 < line.len() {
            assert(!crlf_at(line, j));
        } else {
            assert(s[j + 1] == 13);
        }
    }
    lemma_first_crlf_is(s, line.len() as int);
}

/// The header line of `[t] + line + \r\n + rest` is `line`.
proof fn lemma_header_of(t: u8, line: Seq<u8>, rest: Seq<u8>)
    requires
        free_of_crlf(line),
    ensures
        header_line(seq![t] + line + crlf() + rest) == Some((line, line.len() + 3int)),
        (seq![t] + line + crlf() + rest)[0] == t,
{
    let b = seq![t] + line + crlf() + rest;
    assert(b.drop_first() =~= line + crlf() + rest);
    lemma_first_crlf_after_line(line, rest);
    assert(b.subrange(1, line.len() + 1int) =~= line);
}

/// A string of digits holds no `\r\n` and only ASCII bytes.
proof fn lemma_digits_free_of_crlf(s: Seq<u8>)
    requires
        all_digits(s),
    ensures
        free_of_crlf(s),
        forall|i: int| 0 <= i < s.len() ==> #[trigger] s[i] < 128,
{
    assert forall|i: int| !#[trigger] crlf_at(s, i) by {
        if crlf_at(s, i) {
            assert(crate::number::is_digit(s[i]));
        }
    }
    assert forall|i: int| 0 <= i < s.len() implies #[trigger] s[i] < 128 by {
        assert(crate::number::is_digit(s[i]));
    }
}

/// The decimal text of `n` is a valid integer line that reads as `n`.
proof fn lemma_signed_decimal_line(n: i64)
    ensures
        free_of_crlf(signed_decimal(n as int)),
        valid_utf8(signed_decimal(n as int)),
        integer_from_line(signed_decimal(n as int)) == Ok::<i64, RespErrorView>(n),
{
    let s = signed_decimal(n as int);
    lemma_i64_of_signed_decimal(n);
    if n < 0 {
        let d = decimal((-n) as nat);
        lemma_decimal_digits((-n) as nat);
        lemma_digits_free_of_crlf(d);
        assert forall|i: int| !#[trigger] crlf_at(s, i) by {
            if crlf_at(s, i) {
                if i == 0 {
                    assert(s[0] == 45);
                } else {
                    assert(s[i] == d[i - 1]);
                    assert(crate::number::is_digit(d[i - 1]));
                }
            }
        }
        assert forall|i: int| 0 <= i < s.len() implies #[trigger] s[i] < 128 by {
            if i > 0 {
                assert(s[i] == d[i - 1]);
            }
        }
        lemma_ascii_chars_encode(s);
    } else {
        lemma_decimal_digits(n as nat);
        lemma_digits_free_of_crlf(s);
        lemma_ascii_chars_encode(s);
    }
}

/// The decimal text of `n` is a valid count line that reads as `n`, and is
/// not the `-1` of the null bulk string.
proof fn lemma_count_line(n: nat)
    requires
        n <= usize::MAX,
    ensures
        free_of_crlf(decimal(n)),
        count_from_line(decimal(n)) == Ok::<usize, RespErrorView>(n as usize),
        decimal(n) != seq![45u8, 49u8],
{
    lemma_decimal_digits(n);
    lemma_digits_free_of_crlf(decimal(n));
    lemma_ascii_chars_encode(decimal(n));
    lemma_usize_of_decimal(n);
    if decimal(n) == seq![45u8, 49u8] {
        assert(crate::number::is_digit(decimal(n)[0]));
    }
}

// ---------------------------------------------------------------------------
// Writing, then reading.
// ---------------------------------------------------------------------------

/// Whatever follows it, the encoding of a `wire_safe` value reads back as
/// that value and takes exactly its own bytes.
#[verifier::spinoff_prover]
#[verifier::rlimit(40)]
pub proof fn lemma_parse_encoded(v: RespValue, rest: Seq<u8>)
    requires
        wire_safe(v),
    ensures
        parse_value(encode_value(v) + rest) == ParseOutcome::Ok((v, encode_value(v).len() as int)),
    decreases v,
{
    let b = encode_value(v) + rest;
    match v {
        RespValue::SimpleString(s) => {
            let e = encode_utf8(s);
            assert(b =~= seq![43u8] + e + crlf() + rest);
            lemma_header_of(43u8, e, rest);
        },
        RespValue::SimpleError(s) => {
            let e = encode_utf8(s);
            assert(b =~= seq![45u8] + e + crlf() + rest);
            lemma_header_of(45u8, e, rest);
        },
        RespValue::Integer(n) => {
            let d = signed_decimal(n as int);
            lemma_signed_decimal_line(n);
            assert(b =~= seq![58u8] + d + crlf() + rest);
            lemma_header_of(58u8, d, rest);
        },
        RespValue::NullBulkString => {
            let line = seq![45u8, 49u8];
            assert(free_of_crlf(line));
            assert(b =~= seq![36u8] + line + crlf() + rest);
            lemma_header_of(36u8, line, rest);
        },
        RespValue::BulkString(s) => {
            let e = encode_utf8(s);
            let d = decimal(e.len());
            lemma_count_line(e.len());
            let tail = e + crlf() + rest;
            assert(b =~= seq![36u8] + d + crlf() + tail);
            lemma_header_of(36u8, d, tail);
            let start = d.len() + 3int;
            let end = start + e.len();
            assert(b.subrange(start, end) =~= e);
            assert(b.subrange(end, end + 2) =~= crlf());
        },
        RespValue::Array(elements) => {
            let d = decimal(elements.len());
            lemma_count_line(elements.len());
            let tail = encode_elements(elements) + rest;
            assert(b =~= seq![42u8] + d + crlf() + tail);
            lemma_header_of(42u8, d, tail);
            let start = d.len() + 3int;
            assert(b.skip(start) =~= tail);
            lemma_parse_encoded_elements(elements, rest);
        },
    }
}

/// The encodings of `wire_safe` values, one after another, read back as
/// those values.
pub proof fn lemma_parse_encoded_elements(elements: Seq<RespValue>, rest: Seq<u8>)
    requires
        wire_safe_elements(elements),
    ensures
        parse_elements(encode_elements(elements) + rest, elements.len()) == Ok::<
            (Seq<RespValue>, int),
            RespErrorView,
        >((elements, encode_elements(elements).len() as int)),
    decreases elements,
{
    if elements.len() == 0 {
        assert(encode_elements(elements) + rest =~= rest);
        assert(Seq::<RespValue>::empty() =~= elements);
    } else {
        let first = elements[0];
        let others = elements.subrange(1, elements.len() as int);
        let b = encode_elements(elements) + rest;
        let tail = encode_elements(others) + rest;
        assert(b =~= encode_value(first) + tail);
        lemma_parse_encoded(first, tail);
        lemma_parse_encoded_elements(others, rest);
        assert(b.skip(encode_value(first).len() as int) =~= tail);
        assert(seq![first] + others =~= elements);
    }
}

// ---------------------------------------------------------------------------
// Reading from a stream.
// ---------------------------------------------------------------------------

/// The number of bytes a parsed value takes (0 where there is none).
pub open spec fn taken(r: ParseOutcome) -> int {
    match r {
        Ok((_, n)) => n,
        Err(_) => 0,
    }
}

/// The number of bytes a run of parsed values takes (0 where there is none).
pub open spec fn taken_by_elements(r: Result<(Seq<RespValue>, int), RespErrorView>) -> int {
    match r {
        Ok((_, n)) => n,
        Err(_) => 0,
    }
}

/// Bytes behind a `\r\n` do not move the first one.
proof fn lemma_first_crlf_extend(s: Seq<u8>, x: Seq<u8>)
    requires
        first_crlf(s) is Some,
    ensures
        first_crlf(s + x) == first_crlf(s),
{
    lemma_first_crlf_some(s);
    let i = first_crlf(s)->0;
    lemma_crlf_at_concat(s, x);
    assert(crlf_at(s + x, i));
    assert forall|j: int| 0 <= j < i implies !#[trigger] crlf_at(s + x, j) by {
        assert(!crlf_at(s, j));
    }
    lemma_first_crlf_is(s + x, i);
}

/// A front part of `s` holds the first `\r\n` of `s` exactly when it holds
/// both of its bytes; otherwise it holds none.
proof fn lemma_first_crlf_take(s: Seq<u8>, m: int)
    requires
        first_crlf(s) is Some,
        0 <= m <= s.len(),
    ensures
        m >= first_crlf(s)->0 + 2 ==> first_crlf(s.take(m)) == first_crlf(s),
        m < first_crlf(s)->0 + 2 ==> first_crlf(s.take(m)) is None,
{
    lemma_first_crlf_some(s);
    let i = first_crlf(s)->0;
    let t = s.take(m);
    assert forall|j: int| 0 <= j && j + 1 < m implies #[trigger] crlf_at(t, j) == crlf_at(s, j) by {
        assert(t[j] == s[j]);
        assert(t[j + 1] == s[j + 1]);
    }
    if m >= i + 2 {
        assert(crlf_at(t, i));
        assert forall|j: int| 0 <= j < i implies !#[trigger] crlf_at(t, j) by {
            assert(!crlf_at(s, j));
        }
        lemma_first_crlf_is(t, i);
    } else {
        lemma_first_crlf_some(t);
        if first_crlf(t) is Some {
            let j = first_crlf(t)->0;
            assert(crlf_at(t, j));
            assert(crlf_at(s, j));
            assert(j >= i) by {
                if j < i {
                    assert(!crlf_at(s, j));
                }
            }
        }
    }
}

/// Bytes behind a complete header line do not change it.
proof fn lemma_header_extend(b: Seq<u8>, x: Seq<u8>)
    requires
        b.len() > 0,
        header_line(b) is Some,
    ensures
        header_line(b + x) == header_line(b),
        (b + x)[0] == b[0],
{
    assert((b + x).drop_first() =~= b.drop_first() + x);
    lemma_first_crlf_extend(b.drop_first(), x);
    lemma_header_line(b);
    let n = (header_line(b)->0).1;
    assert((b + x).subrange(1, n - 2) =~= b.subrange(1, n - 2));
}

/// A front part of `b` holds the header line of `b` exactly when it holds
/// all of it.
proof fn lemma_header_take(b: Seq<u8>, k: int)
    requires
        b.len() > 0,
        header_line(b) is Some,
        0 < k <= b.len(),
    ensures
        k >= (header_line(b)->0).1 ==> header_line(b.take(k)) == header_line(b),
        k < (header_line(b)->0).1 ==> header_line(b.take(k)) is None,
        b.take(k)[0] == b[0],
{
    assert(b.take(k).drop_first() =~= b.drop_first().take(k - 1));
    lemma_first_crlf_take(b.drop_first(), k - 1);
    lemma_header_line(b);
    let n = (header_line(b)->0).1;
    if k >= n {
        assert(b.take(k).subrange(1, n - 2) =~= b.subrange(1, n - 2));
    }
}

/// Where the front of `b` settles the parse (a value, or an error that is
/// not `Incomplete`), bytes that arrive behind `b` do not change it.
pub proof fn lemma_parse_value_extends(b: Seq<u8>, x: Seq<u8>)
    requires
        parse_value(b) != ParseOutcome::Err(RespErrorView::Incomplete),
    ensures
        parse_value(b + x) == parse_value(b),
    decreases b.len(), 0int, 0int,
{
    let bx = b + x;
    assert(bx[0] == b[0]);
    if header_line(b) is Some {
        lemma_header_extend(b, x);
        lemma_header_line(b);
        let (line, start) = header_line(b)->0;
        if b[0] == 36 && line != seq![45u8, 49u8] {
            if let Ok(len) = count_from_line(line) {
                let end = start + len;
                if b.len() >= end + 2 {
                    assert(bx.subrange(end, end + 2) =~= b.subrange(end, end + 2));
                    assert(bx.subrange(start, end) =~= b.subrange(start, end));
                }
            }
        }
        if b[0] == 42 {
            if let Ok(count) = count_from_line(line) {
                assert(bx.skip(start) =~= b.skip(start) + x);
                lemma_parse_elements_extends(b.skip(start), count as nat, x);
            }
        }
    }
}

/// `lemma_parse_value_extends` for a run of `count` values.
pub proof fn lemma_parse_elements_extends(c: Seq<u8>, count: nat, x: Seq<u8>)
    requires
        parse_elements(c, count) != Err::<(Seq<RespValue>, int), RespErrorView>(
            RespErrorView::Incomplete,
        ),
    ensures
        parse_elements(c + x, count) == parse_elements(c, count),
    decreases c.len(), 1int, count,
{
    if count > 0 {
        lemma_parse_value_extends(c, x);
        lemma_parse_value_bounds(c);
        if let Ok((v, n)) = parse_value(c) {
            assert((c + x).skip(n) =~= c.skip(n) + x);
            lemma_parse_elements_extends(c.skip(n), (count - 1) as nat, x);
        }
    }
}

/// A value at the front of `b` is read the same from any front part of `b`
/// that holds all of its bytes.
pub proof fn lemma_parse_value_truncates(b: Seq<u8>, k: int)
    requires
        parse_value(b) is Ok,
        taken(parse_value(b)) <= k <= b.len(),
    ensures
        parse_value(b.take(k)) == parse_value(b),
    decreases b.len(), 0int, 0int,
{
    lemma_parse_value_bounds(b);
    let t = b.take(k);
    lemma_header_line(b);
    if header_line(b) is Some {
        lemma_header_take(b, k);
        let (line, start) = header_line(b)->0;
        if b[0] == 36 && line != seq![45u8, 49u8] {
            if let Ok(len) = count_from_line(line) {
                let end = start + len;
                assert(t.subrange(end, end + 2) =~= b.subrange(end, end + 2));
                assert(t.subrange(start, end) =~= b.subrange(start, end));
            }
        }
        if b[0] == 42 {
            if let Ok(count) = count_from_line(line) {
                crate::resp::types::lemma_parse_elements_bounds(b.skip(start), count as nat);
                assert(t.skip(start) =~= b.skip(start).take(k - start));
                lemma_parse_elements_truncates(b.skip(start), count as nat, k - start);
            }
        }
    }
}

/// `lemma_parse_value_truncates` for a run of `count` values.
pub proof fn lemma_parse_elements_truncates(c: Seq<u8>, count: nat, j: int)
    requires
        parse_elements(c, count) is Ok,
        taken_by_elements(parse_elements(c, count)) <= j <= c.len(),
    ensures
        parse_elements(c.take(j), count) == parse_elements(c, count),
    decreases c.len(), 1int, count,
{
    if count > 0 {
        lemma_parse_value_bounds(c);
        let n = taken(parse_value(c));
        crate::resp::types::lemma_parse_elements_bounds(c.skip(n), (count - 1) as nat);
        lemma_parse_value_truncates(c, j);
        assert(c.take(j).skip(n) =~= c.skip(n).take(j - n));
        lemma_parse_elements_truncates(c.skip(n), (count - 1) as nat, j - n);
    }
}

/// Every front part of `b` that ends before the value at the front of `b`
/// does is `Incomplete`: a value is read only once all its bytes are there.
pub proof fn lemma_parse_value_prefix(b: Seq<u8>, k: int)
    requires
        parse_value(b) is Ok,
        0 <= k < taken(parse_value(b)),
    ensures
        parse_value(b.take(k)) == ParseOutcome::Err(RespErrorView::Incomplete),
    decreases b.len(), 0int, 0int,
{
    lemma_parse_value_bounds(b);
    let t = b.take(k);
    if k > 0 {
        lemma_header_line(b);
        if header_line(b) is Some {
            lemma_header_take(b, k);
            let (line, start) = header_line(b)->0;
            if b[0] == 42 && k >= start {
                if let Ok(count) = count_from_line(line) {
                    assert(t.skip(start) =~= b.skip(start).take(k - start));
                    lemma_parse_elements_prefix(b.skip(start), count as nat, k - start);
                }
            }
        }
    }
}

/// `lemma_parse_value_prefix` for a run of `count` values.
pub proof fn lemma_parse_elements_prefix(c: Seq<u8>, count: nat, j: int)
    requires
        parse_elements(c, count) is Ok,
        0 <= j < taken_by_elements(parse_elements(c, count)),
    ensures
        parse_elements(c.take(j), count) == Err::<(Seq<RespValue>, int), RespErrorView>(
            RespErrorView::Incomplete,
        ),
    decreases c.len(), 1int, count,
{
    if count > 0 {
        lemma_parse_value_bounds(c);
        let n = taken(parse_value(c));
        crate::resp::types::lemma_parse_elements_bounds(c.skip(n), (count - 1) as nat);
        if j < n {
            lemma_parse_value_prefix(c, j);
        } else {
            lemma_parse_value_truncates(c, j);
            assert(c.take(j).skip(n) =~= c.skip(n).take(j - n));
            lemma_parse_elements_prefix(c.skip(n), (count - 1) as nat, j - n);
        }
    }
}

// ---------------------------------------------------------------------------
// The codec.
// ---------------------------------------------------------------------------

/// What the codec writes for a `wire_safe` value it decodes back as that
/// value, leaving the bytes that follow in the buffer.
pub proof fn lemma_decode_encoded(v: RespValue, rest: Seq<u8>)
    requires
        wire_safe(v),
    ensures
        decoded(encode_value(v) + rest) == Ok::<Option<RespValue>, RespErrorView>(Some(v)),
        left_after_decode(encode_value(v) + rest) == rest,
{
    lemma_parse_encoded(v, rest);
    let b = encode_value(v) + rest;
    lemma_parse_value_bounds(b);
    assert(b.skip(encode_value(v).len() as int) =~= rest);
}

/// While only the beginning of a value has arrived, decoding yields nothing
/// and leaves the buffer as it is.
pub proof fn lemma_decode_partial(b: Seq<u8>, k: int)
    requires
        parse_value(b) is Ok,
        0 <= k < taken(parse_value(b)),
    ensures
        decoded(b.take(k)) == Ok::<Option<RespValue>, RespErrorView>(None),
        left_after_decode(b.take(k)) == b.take(k),
{
    lemma_parse_value_prefix(b, k);
}

/// Once the buffer holds a whole value, or bytes that no value can start
/// with, bytes arriving behind them change neither what is decoded nor the
/// bytes left in front of the newly arrived ones.
pub proof fn lemma_decode_extends(b: Seq<u8>, x: Seq<u8>)
    requires
        decoded(b) != Ok::<Option<RespValue>, RespErrorView>(None),
    ensures
        decoded(b + x) == decoded(b),
        left_after_decode(b + x) == left_after_decode(b) + x,
{
    lemma_parse_value_extends(b, x);
    lemma_parse_value_bounds(b);
    if let Ok((v, n)) = parse_value(b) {
        assert((b + x).skip(n) =~= b.skip(n) + x);
    }
}

} // verus!
