//! RESP values, the grammar of their wire format, and its parser and encoder.
use bytes::Bytes;
use vstd::prelude::*;
use vstd::slice::slice_subrange;
use vstd::string::*;
use vstd::utf8::*;

use crate::buffer::{bytes_contents, bytes_from_vec};
use crate::number::{decimal, i64_of_text, signed_decimal, usize_of_text};
use crate::resp::{RespError, RespErrorView};
use crate::text::ascii_chars;

verus! {

broadcast use group_utf8_lib;

/// A RESP2 value.
#[derive(Debug, PartialEq, Eq)]
pub enum RespType {
    SimpleString(String),
    BulkString(String),
    SimpleError(String),
    Integer(i64),
    Array(Vec<RespType>),
    /// The RESP encoding of "no value" (e.g. `GET` on a missing key):
    /// a bulk string with length `-1` and no payload, `$-1\r\n`.
    NullBulkString,
}

/// The mathematical content of a `RespType`: texts as character sequences.
pub enum RespValue {
    SimpleString(Seq<char>),
    BulkString(Seq<char>),
    SimpleError(Seq<char>),
    Integer(i64),
    Array(Seq<RespValue>),
    NullBulkString,
}

impl View for RespType {
    type V = RespValue;

    open spec fn view(&self) -> RespValue
        decreases self,
    {
        match self {
            RespType::SimpleString(s) => RespValue::SimpleString(s@),
            RespType::BulkString(s) => RespValue::BulkString(s@),
            RespType::SimpleError(s) => RespValue::SimpleError(s@),
            RespType::Integer(n) => RespValue::Integer(*n),
            RespType::Array(elements) => RespValue::Array(view_elements(elements@)),
            RespType::NullBulkString => RespValue::NullBulkString,
        }
    }
}

/// The views of a sequence of values, element by element.
pub open spec fn view_elements(elements: Seq<RespType>) -> Seq<RespValue>
    decreases elements,
{
    if elements.len() == 0 {
        Seq::empty()
    } else {
        seq![elements[0].view()] + view_elements(elements.subrange(1, elements.len() as int))
    }
}

/// `view_elements` views each element in place.
pub proof fn lemma_view_elements(elements: Seq<RespType>)
    ensures
        view_elements(elements).len() == elements.len(),
        forall|i: int|
            0 <= i < elements.len() ==> #[trigger] view_elements(elements)[i] == elements[i]@,
    decreases elements.len(),
{
    if elements.len() > 0 {
        let rest = elements.subrange(1, elements.len() as int);
        lemma_view_elements(rest);
        assert(view_elements(elements) == seq![elements[0].view()] + view_elements(rest));
        assert forall|i: int| 0 <= i < elements.len() implies #[trigger] view_elements(elements)[i]
            == elements[i]@ by {
            if i > 0 {
                assert(view_elements(elements)[i] == view_elements(rest)[i - 1]);
                assert(rest[i - 1] == elements[i]);
            }
        }
    }
}

// ---------------------------------------------------------------------------
// The wire format.
// ---------------------------------------------------------------------------

/// What the front of a buffer holds: a value and the number of bytes it
/// takes, or why it holds none.
pub type ParseOutcome = Result<(RespValue, int), RespErrorView>;

/// `\r\n`, the line terminator of RESP.
pub open spec fn crlf() -> Seq<u8> {
    seq![13u8, 10u8]
}

/// `s` holds `\r\n` at index `i`.
pub open spec fn crlf_at(s: Seq<u8>, i: int) -> bool {
    0 <= i && i + 1 < s.len() && s[i] == 13 && s[i + 1] == 10
}

/// Index `i` holds the first `\r\n` of `s`.
pub open spec fn is_first_crlf(s: Seq<u8>, i: int) -> bool {
    crlf_at(s, i) && forall|j: int| 0 <= j < i ==> !#[trigger] crlf_at(s, j)
}

/// Where the first `\r\n` of `s` starts, if it holds one.
pub open spec fn first_crlf(s: Seq<u8>) -> Option<int> {
    if exists|i: int| is_first_crlf(s, i) {
        Some(choose|i: int| is_first_crlf(s, i))
    } else {
        None
    }
}

/// The line that follows the type byte of `b`: its bytes before the first
/// `\r\n`, and the number of bytes that the type byte, the line and its
/// `\r\n` take together. `None` while no `\r\n` follows the type byte.
pub open spec fn header_line(b: Seq<u8>) -> Option<(Seq<u8>, int)> {
    match first_crlf(b.drop_first()) {
        Some(i) => Some((b.subrange(1, i + 1), i + 3)),
        None => None,
    }
}

/// A length or element count line: an unsigned decimal that fits `usize`.
pub open spec fn count_from_line(line: Seq<u8>) -> Result<usize, RespErrorView> {
    if !valid_utf8(line) {
        Err(
            RespErrorView::Other(
                "Length configuration prefix line contains invalid non-UTF-8 characters"@,
            ),
        )
    } else {
        match usize_of_text(line) {
            Some(n) => Ok(n),
            None => Err(
                RespErrorView::Other(
                    "Failed to convert numerical field to an unsigned integer: '"@ + decode_utf8(
                        line,
                    ) + "'"@,
                ),
            ),
        }
    }
}

/// The line of an integer value: a signed decimal that fits `i64`.
pub open spec fn integer_from_line(line: Seq<u8>) -> Result<i64, RespErrorView> {
    if !valid_utf8(line) {
        Err(RespErrorView::Other("Integer line contains invalid non-UTF-8 characters"@))
    } else {
        match i64_of_text(line) {
            Some(n) => Ok(n),
            None => Err(
                RespErrorView::Other(
                    "Failed to convert numerical field to a signed integer: '"@ + decode_utf8(line)
                        + "'"@,
                ),
            ),
        }
    }
}

/// `+<text>\r\n`
pub open spec fn parse_simple_string_spec(b: Seq<u8>) -> Result<(RespValue, int), RespErrorView> {
    match header_line(b) {
        None => Err(RespErrorView::Incomplete),
        Some((line, n)) => if valid_utf8(line) {
            Ok((RespValue::SimpleString(decode_utf8(line)), n))
        } else {
            Err(
                RespErrorView::InvalidSimpleString(
                    "SimpleString payload contains invalid UTF-8 sequences"@,
                ),
            )
        },
    }
}

/// `-<text>\r\n`
pub open spec fn parse_simple_error_spec(b: Seq<u8>) -> Result<(RespValue, int), RespErrorView> {
    match header_line(b) {
        None => Err(RespErrorView::Incomplete),
        Some((line, n)) => if valid_utf8(line) {
            Ok((RespValue::SimpleError(decode_utf8(line)), n))
        } else {
            Err(
                RespErrorView::InvalidSimpleError(
                    "SimpleError payload contains invalid UTF-8 sequences"@,
                ),
            )
        },
    }
}

/// `:<integer>\r\n`
pub open spec fn parse_integer_spec(b: Seq<u8>) -> Result<(RespValue, int), RespErrorView> {
    match header_line(b) {
        None => Err(RespErrorView::Incomplete),
        Some((line, n)) => match integer_from_line(line) {
            Ok(v) => Ok((RespValue::Integer(v), n)),
            Err(e) => Err(e),
        },
    }
}

/// `$<length>\r\n<payload>\r\n`, or `$-1\r\n` for the null bulk string.
pub open spec fn parse_bulk_string_spec(b: Seq<u8>) -> Result<(RespValue, int), RespErrorView> {
    match header_line(b) {
        None => Err(RespErrorView::Incomplete),
        Some((line, start)) => if line == seq![45u8, 49u8] {
            Ok((RespValue::NullBulkString, start))
        } else {
            match count_from_line(line) {
                Err(e) => Err(e),
                Ok(len) => {
                    let end = start + len;
                    if b.len() < end + 2 {
                        Err(RespErrorView::Incomplete)
                    } else if b.subrange(end, end + 2) != crlf() {
                        Err(
                            RespErrorView::InvalidBulkString(
                                "Malformed bulk string framework: Missing expected trailing CRLF (\\r\\n) directly after string data"@,
                            ),
                        )
                    } else if !valid_utf8(b.subrange(start, end)) {
                        Err(
                            RespErrorView::InvalidBulkString(
                                "Bulk string payload contains invalid UTF-8 string data"@,
                            ),
                        )
                    } else {
                        Ok((RespValue::BulkString(decode_utf8(b.subrange(start, end))), end + 2))
                    }
                },
            }
        },
    }
}

/// The error for a buffer whose first byte names no RESP type.
pub open spec fn invalid_type_byte_error(byte: u8) -> RespErrorView {
    RespErrorView::Other(
        "Invalid RESP data type identifier byte: '"@ + ascii_chars(decimal(byte as nat)) + "'"@,
    )
}

/// What the RESP value at the front of `b` is, with the number of bytes it
/// takes; or why there is none: `Incomplete` where more bytes could still
/// complete it, another error where no bytes that follow can.
pub open spec fn parse_value(b: Seq<u8>) -> Result<(RespValue, int), RespErrorView>
    decreases b.len(), 0int, 0int,
{
    if b.len() == 0 {
        Err(RespErrorView::Incomplete)
    } else if b[0] == 43 {
        parse_simple_string_spec(b)
    } else if b[0] == 45 {
        parse_simple_error_spec(b)
    } else if b[0] == 58 {
        parse_integer_spec(b)
    } else if b[0] == 36 {
        parse_bulk_string_spec(b)
    } else if b[0] == 42 {
        match header_line(b) {
            None => Err(RespErrorView::Incomplete),
            Some((line, start)) => match count_from_line(line) {
                Err(e) => Err(e),
                Ok(count) => if 0 < start <= b.len() {
                    match parse_elements(b.skip(start), count as nat) {
                        Ok((elements, n)) => Ok((RespValue::Array(elements), start + n)),
                        Err(e) => Err(e),
                    }
                } else {
                    Err(RespErrorView::Incomplete)
                },
            },
        }
    } else {
        Err(invalid_type_byte_error(b[0]))
    }
}

/// `count` RESP values one after another at the front of `b`, with the
/// number of bytes they take together.
pub open spec fn parse_elements(b: Seq<u8>, count: nat) -> Result<(Seq<RespValue>, int), RespErrorView>
    decreases b.len(), 1int, count,
{
    if count == 0 {
        Ok((Seq::empty(), 0))
    } else {
        match parse_value(b) {
            Err(e) => Err(e),
            Ok((v, n)) => if 0 <= n <= b.len() {
                match parse_elements(b.skip(n), (count - 1) as nat) {
                    Ok((vs, m)) => Ok((seq![v] + vs, n + m)),
                    Err(e) => Err(e),
                }
            } else {
                Err(RespErrorView::Incomplete)
            },
        }
    }
}

/// The bytes of the value `v` on the wire. A bulk string's length prefix
/// counts the bytes of its UTF-8 payload.
pub open spec fn encode_value(v: RespValue) -> Seq<u8>
    decreases v,
{
    match v {
        RespValue::SimpleString(s) => seq![43u8] + encode_utf8(s) + crlf(),
        RespValue::BulkString(s) => seq![36u8] + decimal(encode_utf8(s).len()) + crlf() + encode_utf8(s) + crlf(),
        RespValue::SimpleError(s) => seq![45u8] + encode_utf8(s) + crlf(),
        RespValue::Integer(n) => seq![58u8] + signed_decimal(n as int) + crlf(),
        RespValue::Array(elements) => seq![42u8] + decimal(elements.len()) + crlf()
            + encode_elements(elements),
        RespValue::NullBulkString => seq![36u8, 45u8, 49u8, 13u8, 10u8],
    }
}

/// The bytes of the values `elements`, one after another.
pub open spec fn encode_elements(elements: Seq<RespValue>) -> Seq<u8>
    decreases elements,
{
    if elements.len() == 0 {
        Seq::empty()
    } else {
        encode_value(elements[0]) + encode_elements(elements.subrange(1, elements.len() as int))
    }
}

// ---------------------------------------------------------------------------
// Facts about the grammar.
// ---------------------------------------------------------------------------

/// The first `\r\n` is the one that no other precedes.
pub proof fn lemma_first_crlf_is(s: Seq<u8>, i: int)
    requires
        is_first_crlf(s, i),
    ensures
        first_crlf(s) == Some(i),
{
    let k = choose|k: int| is_first_crlf(s, k);
    assert(is_first_crlf(s, k));
    if k < i {
        assert(!crlf_at(s, k));
    } else if i < k {
        assert(!crlf_at(s, i));
    }
}

/// `first_crlf` names the first `\r\n` where there is one, and there is
/// none where it names none.
pub proof fn lemma_first_crlf_some(s: Seq<u8>)
    ensures
        first_crlf(s) matches Some(i) ==> is_first_crlf(s, i),
        first_crlf(s) is None ==> forall|j: int| !#[trigger] crlf_at(s, j),
{
    if first_crlf(s) is None {
        assert forall|j: int| !#[trigger] crlf_at(s, j) by {
            if crlf_at(s, j) {
                lemma_crlf_has_first(s, j);
            }
        }
    }
}

/// Where `s` holds a `\r\n` at `k`, it holds a first one.
proof fn lemma_crlf_has_first(s: Seq<u8>, k: int)
    requires
        crlf_at(s, k),
    ensures
        exists|i: int| is_first_crlf(s, i),
    decreases k,
{
    if forall|j: int| 0 <= j < k ==> !#[trigger] crlf_at(s, j) {
        assert(is_first_crlf(s, k));
    } else {
        let j = choose|j: int| 0 <= j < k && #[trigger] crlf_at(s, j);
        lemma_crlf_has_first(s, j);
    }
}

/// The header line, when there is one, lies within `b` behind its type byte.
pub proof fn lemma_header_line(b: Seq<u8>)
    requires
        b.len() > 0,
    ensures
        header_line(b) matches Some((line, n)) ==> {
            &&& 3 <= n <= b.len()
            &&& line == b.subrange(1, n - 2)
            &&& b[n - 2] == 13 && b[n - 1] == 10
            &&& forall|j: int| 0 <= j < n - 3 ==> !#[trigger] crlf_at(b.drop_first(), j)
        },
{
    lemma_first_crlf_some(b.drop_first());
}

/// The elements that `front` stands for, ahead of those of `r`.
pub open spec fn prepend_elements(
    front: Seq<RespValue>,
    n: int,
    r: Result<(Seq<RespValue>, int), RespErrorView>,
) -> Result<(Seq<RespValue>, int), RespErrorView> {
    match r {
        Ok((vs, m)) => Ok((front + vs, n + m)),
        Err(e) => Err(e),
    }
}

/// A value, when the front of `b` holds one, takes at least one byte and no
/// more than `b` holds.
pub proof fn lemma_parse_value_bounds(b: Seq<u8>)
    ensures
        parse_value(b) matches Ok((v, n)) ==> 0 < n <= b.len(),
    decreases b.len(), 0int, 0int,
{
    if b.len() > 0 {
        lemma_header_line(b);
        if b[0] == 42 {
            if let Some((line, start)) = header_line(b) {
                if let Ok(count) = count_from_line(line) {
                    lemma_parse_elements_bounds(b.skip(start), count as nat);
                }
            }
        }
    }
}

/// `count` values, when the front of `b` holds them, take no more than `b`
/// holds, and they are `count` values.
pub proof fn lemma_parse_elements_bounds(b: Seq<u8>, count: nat)
    ensures
        parse_elements(b, count) matches Ok((vs, n)) ==> 0 <= n <= b.len() && vs.len() == count,
    decreases b.len(), 1int, count,
{
    if count > 0 {
        lemma_parse_value_bounds(b);
        if let Ok((v, n)) = parse_value(b) {
            lemma_parse_elements_bounds(b.skip(n), (count - 1) as nat);
        }
    }
}

/// Encoding one more value appends its encoding.
pub proof fn lemma_encode_elements_push(s: Seq<RespValue>, v: RespValue)
    ensures
        encode_elements(s.push(v)) == encode_elements(s) + encode_value(v),
    decreases s.len(),
{
    if s.len() == 0 {
        assert(s.push(v).subrange(1, 1) =~= Seq::<RespValue>::empty());
        assert(encode_elements(Seq::<RespValue>::empty()) == Seq::<u8>::empty());
        assert(encode_elements(s.push(v)) =~= encode_value(v));
    } else {
        let rest = s.subrange(1, s.len() as int);
        assert(s.push(v).subrange(1, s.len() + 1 as int) =~= rest.push(v));
        lemma_encode_elements_push(rest, v);
        assert(encode_elements(s.push(v)) =~= encode_elements(s) + encode_value(v));
    }
}

/// Viewing one more element appends its view.
pub proof fn lemma_view_elements_push(s: Seq<RespType>, v: RespType)
    ensures
        view_elements(s.push(v)) == view_elements(s).push(v@),
{
    lemma_view_elements(s);
    lemma_view_elements(s.push(v));
    assert(view_elements(s.push(v)) =~= view_elements(s).push(v@));
}

// ---------------------------------------------------------------------------
// The parser and the encoder.
// ---------------------------------------------------------------------------

/// Appends the bytes of `bytes` to `out`.
fn append_bytes(out: &mut Vec<u8>, bytes: &[u8])
    ensures
        final(out)@ == old(out)@ + bytes@,
{
    let mut i: usize = 0;
    while i < bytes.len()
        invariant
            i <= bytes.len(),
            out@ == old(out)@ + bytes@.take(i as int),
        decreases bytes.len() - i,
    {
        out.push(bytes[i]);
        i = i + 1;
        assert(out@ =~= old(out)@ + bytes@.take(i as int));
    }
    assert(bytes@.take(i as int) =~= bytes@);
}

impl RespType {
    /// Parse the given bytes into its respective RESP type.
    pub fn parse(buffer: &[u8]) -> (r: Result<(RespType, usize), RespError>)
        ensures
            r matches Ok((v, n)) ==> parse_value(buffer@) == ParseOutcome::Ok((v@, n as int)) && 0 < n
                <= buffer.len(),
            r matches Err(e) ==> parse_value(buffer@) == ParseOutcome::Err(e@),
        decreases buffer.len(), 1int,
    {
        if buffer.len() == 0 {
            return Err(RespError::Incomplete);
        }
        let r = match buffer[0] {
            43u8 => Self::parse_simple_string(buffer),
            45u8 => Self::parse_simple_error(buffer),
            58u8 => Self::parse_integer(buffer),
            36u8 => Self::parse_bulk_string(buffer),
            42u8 => Self::parse_array(buffer),
            invalid_byte => {
                let digits = crate::text::decimal_string(invalid_byte as u64);
                Err(
                    RespError::Other(
                        crate::text::concat3(
                            "Invalid RESP data type identifier byte: '",
                            digits.as_str(),
                            "'",
                        ),
                    ),
                )
            },
        };
        proof {
            lemma_parse_value_bounds(buffer@);
        }
        r
    }

    /// The header line of `buffer`, behind its type byte.
    fn read_header_line(buffer: &[u8]) -> (r: Option<(&[u8], usize)>)
        requires
            buffer.len() > 0,
        ensures
            match r {
                Some((line, n)) => header_line(buffer@) == Some((line@, n as int)),
                None => header_line(buffer@) is None,
            },
    {
        let rest = slice_subrange(buffer, 1, buffer.len());
        assert(rest@ =~= buffer@.drop_first());
        match Self::read_till_crlf(rest) {
            Some((line, consumed)) => {
                assert(line@ =~= buffer@.subrange(1, consumed - 1));
                Some((line, consumed + 1))
            },
            None => None,
        }
    }

    /// Parse a SimpleString RESP value. Example: `+OK\r\n`
    fn parse_simple_string(buffer: &[u8]) -> (r: Result<(RespType, usize), RespError>)
        requires
            buffer.len() > 0,
        ensures
            r matches Ok((v, n)) ==> parse_simple_string_spec(buffer@) == ParseOutcome::Ok((v@, n as int)),
            r matches Err(e) ==> parse_simple_string_spec(buffer@) == ParseOutcome::Err(e@),
    {
        match Self::read_header_line(buffer) {
            Some((text_bytes, bytes_consumed)) => match crate::text::string_from_utf8(text_bytes) {
                Some(text) => Ok((RespType::SimpleString(text), bytes_consumed)),
                None => Err(
                    RespError::InvalidSimpleString(
                        String::from_str("SimpleString payload contains invalid UTF-8 sequences"),
                    ),
                ),
            },
            None => Err(RespError::Incomplete),
        }
    }

    /// Parse a SimpleError RESP value. Example: `-ERR unknown command\r\n`
    fn parse_simple_error(buffer: &[u8]) -> (r: Result<(RespType, usize), RespError>)
        requires
            buffer.len() > 0,
        ensures
            r matches Ok((v, n)) ==> parse_simple_error_spec(buffer@) == ParseOutcome::Ok((v@, n as int)),
            r matches Err(e) ==> parse_simple_error_spec(buffer@) == ParseOutcome::Err(e@),
    {
        match Self::read_header_line(buffer) {
            Some((message_bytes, bytes_consumed)) => match crate::text::string_from_utf8(
                message_bytes,
            ) {
                Some(error_message) => Ok((RespType::SimpleError(error_message), bytes_consumed)),
                None => Err(
                    RespError::InvalidSimpleError(
                        String::from_str("SimpleError payload contains invalid UTF-8 sequences"),
                    ),
                ),
            },
            None => Err(RespError::Incomplete),
        }
    }

    /// Parse an Integer RESP value. Example: `:42\r\n`
    fn parse_integer(buffer: &[u8]) -> (r: Result<(RespType, usize), RespError>)
        requires
            buffer.len() > 0,
        ensures
            r matches Ok((v, n)) ==> parse_integer_spec(buffer@) == ParseOutcome::Ok((v@, n as int)),
            r matches Err(e) ==> parse_integer_spec(buffer@) == ParseOutcome::Err(e@),
    {
        match Self::read_header_line(buffer) {
            Some((digit_bytes, bytes_consumed)) => match Self::parse_i64_from_bytes(digit_bytes) {
                Ok(value) => Ok((RespType::Integer(value), bytes_consumed)),
                Err(e) => Err(e),
            },
            None => Err(RespError::Incomplete),
        }
    }

    /// Parse a BulkString RESP value. Example: `$5\r\nhello\r\n`
    pub fn parse_bulk_string(buffer: &[u8]) -> (r: Result<(RespType, usize), RespError>)
        requires
            buffer.len() > 0,
        ensures
            r matches Ok((v, n)) ==> parse_bulk_string_spec(buffer@) == ParseOutcome::Ok((v@, n as int)),
            r matches Err(e) ==> parse_bulk_string_spec(buffer@) == ParseOutcome::Err(e@),
    {
        // 1. The length line, behind the '$' byte.
        let (length_line_bytes, payload_start) = match Self::read_header_line(buffer) {
            Some(result) => result,
            None => return Err(RespError::Incomplete),
        };
        proof {
            lemma_header_line(buffer@);
        }
        // A length of -1 denotes a null bulk string ("$-1\r\n"): it has no
        // payload or trailing CRLF of its own.
        if length_line_bytes.len() == 2 && length_line_bytes[0] == 45 && length_line_bytes[1]
            == 49 {
            assert(length_line_bytes@ =~= seq![45u8, 49u8]);
            return Ok((RespType::NullBulkString, payload_start));
        }
        assert(length_line_bytes@ != seq![45u8, 49u8]) by {
            if length_line_bytes@ == seq![45u8, 49u8] {
                assert(length_line_bytes@[0] == 45u8);
            }
        }
        // 2. The payload length.
        let bulk_string_length = match Self::parse_usize_from_bytes(length_line_bytes) {
            Ok(n) => n,
            Err(e) => return Err(e),
        };
        // 3. The buffer must hold the full payload and its trailing CRLF.
        if bulk_string_length > buffer.len() - payload_start || buffer.len() - payload_start
            - bulk_string_length < 2 {
            return Err(RespError::Incomplete);
        }
        let payload_end = payload_start + bulk_string_length;
        let total_expected_bytes = payload_end + 2;
        // 4. The payload must be followed by CRLF.
        if buffer[payload_end] != 13 || buffer[payload_end + 1] != 10 {
            assert(buffer@.subrange(payload_end as int, total_expected_bytes as int) != crlf())
                by {
                if buffer@.subrange(payload_end as int, total_expected_bytes as int) == crlf() {
                    assert(buffer@.subrange(payload_end as int, total_expected_bytes as int)[0]
                        == buffer@[payload_end as int]);
                    assert(buffer@.subrange(payload_end as int, total_expected_bytes as int)[1]
                        == buffer@[payload_end + 1]);
                }
            }
            return Err(
                RespError::InvalidBulkString(
                    String::from_str(
                        "Malformed bulk string framework: Missing expected trailing CRLF (\\r\\n) directly after string data",
                    ),
                ),
            );
        }
        assert(buffer@.subrange(payload_end as int, total_expected_bytes as int) =~= crlf());
        // 5. The payload must be UTF-8.
        let payload_bytes = slice_subrange(buffer, payload_start, payload_end);
        match crate::text::string_from_utf8(payload_bytes) {
            Some(bulk_string_text) => Ok(
                (RespType::BulkString(bulk_string_text), total_expected_bytes),
            ),
            None => Err(
                RespError::InvalidBulkString(
                    String::from_str("Bulk string payload contains invalid UTF-8 string data"),
                ),
            ),
        }
    }

    /// Parse an Array RESP value. Example: `*2\r\n$4\r\nPING\r\n$4\r\npong\r\n`
    ///
    /// Each element may be of any RESP type, so this parses each one with
    /// `parse`. The array is complete only once every element is.
    fn parse_array(buffer: &[u8]) -> (r: Result<(RespType, usize), RespError>)
        requires
            buffer.len() > 0,
            buffer[0] == 42,
        ensures
            r matches Ok((v, n)) ==> parse_value(buffer@) == ParseOutcome::Ok((v@, n as int)),
            r matches Err(e) ==> parse_value(buffer@) == ParseOutcome::Err(e@),
        decreases buffer.len(), 0int,
    {
        // 1. The element-count line.
        let (length_line_bytes, elements_start) = match Self::read_header_line(buffer) {
            Some(result) => result,
            None => return Err(RespError::Incomplete),
        };
        proof {
            lemma_header_line(buffer@);
        }
        // 2. The number of elements.
        let element_count = match Self::parse_usize_from_bytes(length_line_bytes) {
            Ok(n) => n,
            Err(e) => return Err(e),
        };
        let ghost start = elements_start as int;
        let ghost all = parse_elements(buffer@.skip(start), element_count as nat);
        let mut bytes_consumed: usize = elements_start;
        let mut elements: Vec<RespType> = Vec::new();
        let mut parsed: usize = 0;
        proof {
            match parse_elements(buffer@.skip(start), element_count as nat) {
                Ok((vs, m)) => {
                    assert(Seq::<RespValue>::empty() + vs =~= vs);
                },
                Err(e) => {},
            }
        }
        // 3. Each element in turn, advancing past the bytes it took.
        while parsed < element_count
            invariant
                0 < start <= bytes_consumed <= buffer.len(),
                parsed <= element_count,
                all == parse_elements(buffer@.skip(start), element_count as nat),
                buffer.len() > 0,
                buffer@[0] == 42,
                header_line(buffer@) == Some((length_line_bytes@, start)),
                count_from_line(length_line_bytes@) == Ok::<usize, RespErrorView>(element_count),
                all == prepend_elements(
                    view_elements(elements@),
                    bytes_consumed - start,
                    parse_elements(
                        buffer@.skip(bytes_consumed as int),
                        (element_count - parsed) as nat,
                    ),
                ),
            decreases element_count - parsed,
        {
            let rest = slice_subrange(buffer, bytes_consumed, buffer.len());
            assert(rest@ =~= buffer@.skip(bytes_consumed as int));
            let (element, element_byte_count) = match Self::parse(rest) {
                Ok(result) => result,
                Err(e) => {
                    proof {
                        assert(parse_elements(rest@, (element_count - parsed) as nat) == Err::<
                            (Seq<RespValue>, int),
                            RespErrorView,
                        >(e@));
                    }
                    return Err(e);
                },
            };
            let ghost prev = elements@;
            let ghost prev_consumed = bytes_consumed as int;
            elements.push(element);
            bytes_consumed = bytes_consumed + element_byte_count;
            parsed = parsed + 1;
            proof {
                lemma_view_elements_push(prev, element);
                assert(rest@.skip(element_byte_count as int) =~= buffer@.skip(
                    bytes_consumed as int,
                ));
                match parse_elements(
                    buffer@.skip(bytes_consumed as int),
                    (element_count - parsed) as nat,
                ) {
                    Ok((vs, m)) => {
                        assert(view_elements(prev) + (seq![element@] + vs) =~= view_elements(
                            elements@,
                        ) + vs);
                    },
                    Err(e) => {},
                }
            }
        }
        proof {
            assert(view_elements(elements@) + Seq::<RespValue>::empty() =~= view_elements(
                elements@,
            ));
        }
        Ok((RespType::Array(elements), bytes_consumed))
    }

    /// Finds the index of the first CRLF ("\r\n"). Returns the bytes before
    /// it, and the number of bytes up to and including it.
    fn read_till_crlf(bytes: &[u8]) -> (r: Option<(&[u8], usize)>)
        ensures
            match r {
                Some((line, n)) => n >= 2 && first_crlf(bytes@) == Some(n - 2) && line@
                    == bytes@.take(n - 2),
                None => first_crlf(bytes@) is None,
            },
    {
        if bytes.len() < 2 {
            proof {
                lemma_first_crlf_some(bytes@);
            }
            return None;
        }
        let mut index: usize = 0;
        while index < bytes.len() - 1
            invariant
                bytes.len() >= 2,
                index <= bytes.len() - 1,
                forall|j: int| 0 <= j < index ==> !#[trigger] crlf_at(bytes@, j),
            decreases bytes.len() - index,
        {
            if bytes[index] == 13 && bytes[index + 1] == 10 {
                proof {
                    lemma_first_crlf_is(bytes@, index as int);
                }
                let line = slice_subrange(bytes, 0, index);
                assert(line@ =~= bytes@.take(index as int));
                return Some((line, index + 2));
            }
            index = index + 1;
        }
        proof {
            lemma_first_crlf_some(bytes@);
            assert forall|j: int| !#[trigger] crlf_at(bytes@, j) by {
                if 0 <= j < index {
                }
            }
        }
        None
    }

    /// Converts raw ASCII digit bytes into a `usize`.
    fn parse_usize_from_bytes(digit_bytes: &[u8]) -> (r: Result<usize, RespError>)
        ensures
            r matches Ok(n) ==> count_from_line(digit_bytes@) == Ok::<usize, RespErrorView>(n),
            r matches Err(e) ==> count_from_line(digit_bytes@) == Err::<usize, RespErrorView>(e@),
    {
        match crate::text::string_from_utf8(digit_bytes) {
            Some(digits) => match crate::number::parse_usize_text(digit_bytes) {
                Some(parsed_value) => Ok(parsed_value),
                None => Err(
                    RespError::Other(
                        crate::text::concat3(
                            "Failed to convert numerical field to an unsigned integer: '",
                            digits.as_str(),
                            "'",
                        ),
                    ),
                ),
            },
            None => Err(
                RespError::Other(
                    String::from_str(
                        "Length configuration prefix line contains invalid non-UTF-8 characters",
                    ),
                ),
            ),
        }
    }

    /// Converts raw ASCII digit bytes, with an optional sign, into an `i64`.
    fn parse_i64_from_bytes(digit_bytes: &[u8]) -> (r: Result<i64, RespError>)
        ensures
            r matches Ok(n) ==> integer_from_line(digit_bytes@) == Ok::<i64, RespErrorView>(n),
            r matches Err(e) ==> integer_from_line(digit_bytes@) == Err::<i64, RespErrorView>(e@),
    {
        match crate::text::string_from_utf8(digit_bytes) {
            Some(digits) => match crate::number::parse_i64_text(digit_bytes) {
                Some(parsed_value) => Ok(parsed_value),
                None => Err(
                    RespError::Other(
                        crate::text::concat3(
                            "Failed to convert numerical field to a signed integer: '",
                            digits.as_str(),
                            "'",
                        ),
                    ),
                ),
            },
            None => Err(
                RespError::Other(
                    String::from_str("Integer line contains invalid non-UTF-8 characters"),
                ),
            ),
        }
    }

    /// Convert the RESP value into its byte values.
    pub fn to_bytes(&self) -> (r: Bytes)
        ensures
            bytes_contents(r) == encode_value(self@),
    {
        let mut out: Vec<u8> = Vec::new();
        self.write_to(&mut out);
        assert(out@ =~= encode_value(self@));
        bytes_from_vec(out)
    }

    /// Appends the wire bytes of this value to `out`.
    fn write_to(&self, out: &mut Vec<u8>)
        ensures
            final(out)@ == old(out)@ + encode_value(self@),
        decreases self,
    {
        match self {
            RespType::SimpleString(text) => {
                out.push(43);
                append_bytes(out, text.as_str().as_bytes());
                out.push(13);
                out.push(10);
            },
            RespType::BulkString(payload) => {
                out.push(36);
                let payload_bytes = payload.as_str().as_bytes();
                crate::number::write_decimal(out, payload_bytes.len() as u64);
                out.push(13);
                out.push(10);
                append_bytes(out, payload.as_str().as_bytes());
                out.push(13);
                out.push(10);
            },
            RespType::SimpleError(error_message) => {
                out.push(45);
                append_bytes(out, error_message.as_str().as_bytes());
                out.push(13);
                out.push(10);
            },
            RespType::Integer(value) => {
                out.push(58);
                crate::number::write_signed_decimal(out, *value);
                out.push(13);
                out.push(10);
            },
            RespType::Array(elements) => {
                out.push(42);
                crate::number::write_decimal(out, elements.len() as u64);
                out.push(13);
                out.push(10);
                let ghost header = out@;
                let mut i: usize = 0;
                proof {
                    lemma_view_elements(elements@);
                    assert(view_elements(elements@).take(0) =~= Seq::<RespValue>::empty());
                }
                while i < elements.len()
                    invariant
                        i <= elements.len(),
                        *self == RespType::Array(*elements),
                        view_elements(elements@).len() == elements.len(),
                        forall|j: int|
                            0 <= j < elements.len() ==> #[trigger] view_elements(elements@)[j]
                                == elements@[j]@,
                        out@ == header + encode_elements(view_elements(elements@).take(i as int)),
                    decreases elements.len() - i,
                {
                    proof {
                        assert((*self)->Array_0 == *elements);
                        assert(decreases_to!(*self => (*self)->Array_0));
                        assert(decreases_to!(elements => elements@));
                        assert(decreases_to!(elements@ => elements@[i as int]));
                    }
                    elements[i].write_to(out);
                    proof {
                        let vs = view_elements(elements@);
                        assert(vs.take(i + 1) =~= vs.take(i as int).push(vs[i as int]));
                        lemma_encode_elements_push(vs.take(i as int), vs[i as int]);
                    }
                    i = i + 1;
                }
                proof {
                    assert(view_elements(elements@).take(i as int) =~= view_elements(elements@));
                }
            },
            RespType::NullBulkString => {
                out.push(36);
                out.push(45);
                out.push(49);
                out.push(13);
                out.push(10);
            },
        }
        assert(final(out)@ =~= old(out)@ + encode_value(self@));
    }
}

} // verus!
