//! Text helpers: UTF-8 decoding of byte strings, case folding of command
//! names, and the assembly of reply and error messages.
use vstd::prelude::*;
use vstd::string::*;
use vstd::utf8::*;

use crate::number::{all_digits, decimal, write_decimal};

verus! {

broadcast use group_utf8_lib;

/// What std's `str::to_lowercase` makes of the text `s`: the Unicode
/// lowercase mapping of each character.
pub uninterp spec fn lowercase(s: Seq<char>) -> Seq<char>;

/// The characters of an ASCII byte string, one per byte.
pub open spec fn ascii_chars(bytes: Seq<u8>) -> Seq<char> {
    bytes.map_values(|b: u8| b as char)
}

/// `String::from_utf8`: the text the bytes encode, or `None` where they are
/// no valid UTF-8. The contract restates std's documentation over vstd's
/// model of UTF-8 (`valid_utf8`, `decode_utf8`).
#[verifier::external_body]
pub(crate) fn string_from_utf8(bytes: &[u8]) -> (r: Option<String>)
    ensures
        r is Some <==> valid_utf8(bytes@),
        r matches Some(s) ==> s@ == decode_utf8(bytes@),
{
    String::from_utf8(bytes.to_vec()).ok()
}

/// `str::to_lowercase`: the lowercase form of `s`, named by `lowercase`.
#[verifier::external_body]
pub(crate) fn to_lowercase(s: &str) -> (r: String)
    ensures
        r@ == lowercase(s@),
{
    s.to_lowercase()
}

/// The text `a`, then `b`, then `c`.
pub fn concat3(a: &str, b: &str, c: &str) -> (r: String)
    ensures
        r@ == a@ + b@ + c@,
{
    let mut r = String::from_str(a);
    r.append(b);
    r.append(c);
    r
}

/// ASCII bytes are valid UTF-8, and encode the characters they stand for.
pub proof fn lemma_ascii_chars_encode(bytes: Seq<u8>)
    requires
        forall|i: int| 0 <= i < bytes.len() ==> #[trigger] bytes[i] < 128,
    ensures
        encode_utf8(ascii_chars(bytes)) == bytes,
        valid_utf8(bytes),
        decode_utf8(bytes) == ascii_chars(bytes),
{
    let chars = ascii_chars(bytes);
    assert(is_ascii_chars(chars)) by {
        assert forall|i| 0 <= i < chars.len() implies '\0' <= #[trigger] chars[i] <= '\u{7f}' by {
            assert(bytes[i] < 128);
        }
    }
    is_ascii_chars_encode_utf8(chars);
    assert forall|i| 0 <= i < bytes.len() implies encode_utf8(chars)[i] == bytes[i] by {
        assert(chars[i] as u8 == encode_utf8(chars)[i]);
        assert(chars[i] == bytes[i] as char);
    }
    assert(encode_utf8(chars) =~= bytes);
}

/// A `String` holding the ASCII text in `bytes`.
pub fn ascii_string(bytes: &[u8]) -> (r: String)
    requires
        forall|i: int| 0 <= i < bytes@.len() ==> #[trigger] bytes@[i] < 128,
    ensures
        r@ == ascii_chars(bytes@),
{
    proof {
        lemma_ascii_chars_encode(bytes@);
    }
    match string_from_utf8(bytes) {
        Some(s) => s,
        None => {
            proof {
                assert(false);
            }
            String::new()
        },
    }
}

/// The decimal text of `n` as a `String`.
pub fn decimal_string(n: u64) -> (r: String)
    ensures
        r@ == ascii_chars(decimal(n as nat)),
{
    let mut digits: Vec<u8> = Vec::new();
    write_decimal(&mut digits, n);
    proof {
        crate::number::lemma_decimal_digits(n as nat);
        assert(digits@ =~= decimal(n as nat));
        assert forall|i: int| 0 <= i < digits@.len() implies #[trigger] digits@[i] < 128 by {
            assert(all_digits(decimal(n as nat)));
        }
    }
    ascii_string(digits.as_slice())
}

} // verus!
