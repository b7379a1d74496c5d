use nimblecache::number::{parse_i64_text, parse_usize_text, write_decimal, write_signed_decimal};
use nimblecache::text::{concat3, decimal_string};

#[test]
fn usize_text_follows_from_str() {
    assert_eq!(parse_usize_text(b"0"), Some(0));
    assert_eq!(parse_usize_text(b"+17"), Some(17));
    assert_eq!(parse_usize_text(b"007"), Some(7));
    assert_eq!(parse_usize_text(b""), None);
    assert_eq!(parse_usize_text(b"+"), None);
    assert_eq!(parse_usize_text(b"-0"), None);
    assert_eq!(parse_usize_text(b"1 "), None);
    assert_eq!(parse_usize_text(b"18446744073709551615"), Some(usize::MAX));
    assert_eq!(parse_usize_text(b"18446744073709551616"), None);
    for text in ["0", "+5", "-1", "", "12a", "99999999999999999999"] {
        assert_eq!(parse_usize_text(text.as_bytes()), text.parse::<usize>().ok());
    }
}

#[test]
fn i64_text_follows_from_str() {
    for text in [
        "0", "-0", "+0", "42", "-42", "+42", "-", "+", "", "9223372036854775807",
        "9223372036854775808", "-9223372036854775808", "-9223372036854775809", "1-2", " 1",
    ] {
        assert_eq!(parse_i64_text(text.as_bytes()), text.parse::<i64>().ok(), "{text}");
    }
}

#[test]
fn decimal_text() {
    let mut out = Vec::new();
    write_decimal(&mut out, 0);
    out.push(b' ');
    write_decimal(&mut out, 1203);
    out.push(b' ');
    write_signed_decimal(&mut out, -45);
    out.push(b' ');
    write_signed_decimal(&mut out, i64::MAX);
    assert_eq!(out, b"0 1203 -45 9223372036854775807".to_vec());
    assert_eq!(decimal_string(u64::MAX), u64::MAX.to_string());
}

#[test]
fn text_assembly() {
    assert_eq!(concat3("x'", "é", "'"), "x'é'");
}
