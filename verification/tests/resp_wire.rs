use bytes::BytesMut;
use nimblecache::resp::codec::RespCodec;
use nimblecache::resp::types::RespType;
use nimblecache::resp::RespError;

fn bulk(text: &str) -> RespType {
    RespType::BulkString(text.to_string())
}

#[test]
fn parse_array_walkthrough() {
    let buffer = b"*2\r\n$4\r\nECHO\r\n$5\r\nhello\r\n";
    let (value, consumed) = RespType::parse(buffer).unwrap();
    assert_eq!(value, RespType::Array(vec![bulk("ECHO"), bulk("hello")]));
    assert_eq!(consumed, 25);
}

#[test]
fn parse_simple_string_and_error() {
    assert_eq!(
        RespType::parse(b"+OK\r\n").unwrap(),
        (RespType::SimpleString("OK".to_string()), 5)
    );
    assert_eq!(
        RespType::parse(b"-ERR unknown command\r\nrest").unwrap(),
        (RespType::SimpleError("ERR unknown command".to_string()), 22)
    );
}

#[test]
fn parse_integer_lines() {
    assert_eq!(RespType::parse(b":42\r\n").unwrap(), (RespType::Integer(42), 5));
    assert_eq!(RespType::parse(b":-7\r\n").unwrap(), (RespType::Integer(-7), 5));
    assert_eq!(
        RespType::parse(b":-9223372036854775808\r\n").unwrap(),
        (RespType::Integer(i64::MIN), 23)
    );
    assert_eq!(
        RespType::parse(b":12x\r\n").unwrap_err(),
        RespError::Other("Failed to convert numerical field to a signed integer: '12x'".to_string())
    );
    assert_eq!(
        RespType::parse(b":9223372036854775808\r\n").unwrap_err(),
        RespError::Other(
            "Failed to convert numerical field to a signed integer: '9223372036854775808'".to_string()
        )
    );
}

#[test]
fn parse_bulk_strings() {
    assert_eq!(RespType::parse_bulk_string(b"$5\r\nhello\r\n").unwrap(), (bulk("hello"), 11));
    assert_eq!(RespType::parse(b"$0\r\n\r\n").unwrap(), (bulk(""), 6));
    assert_eq!(RespType::parse(b"$-1\r\n").unwrap(), (RespType::NullBulkString, 5));
    assert_eq!(RespType::parse(b"$+3\r\nabc\r\n").unwrap(), (bulk("abc"), 10));
    // A payload may itself hold CRLF: the length, not the line, delimits it.
    assert_eq!(RespType::parse(b"$4\r\na\r\nb\r\n").unwrap(), (bulk("a\r\nb"), 10));
}

#[test]
fn parse_incomplete_inputs() {
    for partial in [
        &b""[..],
        b"+OK",
        b"+OK\r",
        b"$5\r\nhel",
        b"$5\r\nhello\r",
        b"$5",
        b"*2\r\n$4\r\nECHO\r\n",
        b"*2\r\n$4\r\nECHO\r\n$5\r\nhel",
        b":12",
    ] {
        assert_eq!(RespType::parse(partial).unwrap_err(), RespError::Incomplete);
    }
}

#[test]
fn parse_protocol_errors() {
    assert_eq!(
        RespType::parse(b"!oops\r\n").unwrap_err(),
        RespError::Other("Invalid RESP data type identifier byte: '33'".to_string())
    );
    assert_eq!(
        RespType::parse(b"*abc\r\n").unwrap_err(),
        RespError::Other("Failed to convert numerical field to an unsigned integer: 'abc'".to_string())
    );
    assert_eq!(
        RespType::parse(b"$-0\r\n").unwrap_err(),
        RespError::Other("Failed to convert numerical field to an unsigned integer: '-0'".to_string())
    );
    assert_eq!(
        RespType::parse(b"$\xff\r\n").unwrap_err(),
        RespError::Other(
            "Length configuration prefix line contains invalid non-UTF-8 characters".to_string()
        )
    );
    assert_eq!(
        RespType::parse(b"$3\r\nabcd\r\n").unwrap_err(),
        RespError::InvalidBulkString(
            "Malformed bulk string framework: Missing expected trailing CRLF (\\r\\n) directly after string data"
                .to_string()
        )
    );
    assert_eq!(
        RespType::parse(b"$2\r\n\xc3\x28\r\n").unwrap_err(),
        RespError::InvalidBulkString("Bulk string payload contains invalid UTF-8 string data".to_string())
    );
    assert_eq!(
        RespType::parse(b"+\xff\r\n").unwrap_err(),
        RespError::InvalidSimpleString("SimpleString payload contains invalid UTF-8 sequences".to_string())
    );
    assert_eq!(
        RespType::parse(b"-\xff\r\n").unwrap_err(),
        RespError::InvalidSimpleError("SimpleError payload contains invalid UTF-8 sequences".to_string())
    );
    assert_eq!(
        RespType::parse(b":\xff\r\n").unwrap_err(),
        RespError::Other("Integer line contains invalid non-UTF-8 characters".to_string())
    );
}

#[test]
fn parse_utf8_payloads() {
    assert_eq!(
        RespType::parse("+héllo\r\n".as_bytes()).unwrap(),
        (RespType::SimpleString("héllo".to_string()), 9)
    );
}

#[test]
fn parse_nested_arrays() {
    let buffer = b"*2\r\n*1\r\n:1\r\n$-1\r\n";
    assert_eq!(
        RespType::parse(buffer).unwrap(),
        (
            RespType::Array(vec![
                RespType::Array(vec![RespType::Integer(1)]),
                RespType::NullBulkString
            ]),
            buffer.len()
        )
    );
    assert_eq!(RespType::parse(b"*0\r\n").unwrap(), (RespType::Array(vec![]), 4));
}

#[test]
fn error_replies() {
    assert_eq!(
        RespError::Other("boom".to_string()).to_reply(),
        RespType::SimpleError("boom".to_string())
    );
    assert_eq!(
        RespError::Incomplete.to_reply(),
        RespType::SimpleError("Incomplete RESP data: waiting for more bytes".to_string())
    );
}

#[test]
fn error_messages() {
    assert_eq!(
        RespError::Incomplete.message(),
        "Incomplete RESP data: waiting for more bytes"
    );
    assert_eq!(RespError::Other("boom".to_string()).message(), "boom");
}

#[test]
fn encode_each_type() {
    assert_eq!(&RespType::SimpleString("OK".to_string()).to_bytes()[..], b"+OK\r\n");
    assert_eq!(&bulk("hello").to_bytes()[..], b"$5\r\nhello\r\n");
    assert_eq!(&bulk("").to_bytes()[..], b"$0\r\n\r\n");
    assert_eq!(&RespType::SimpleError("ERR x".to_string()).to_bytes()[..], b"-ERR x\r\n");
    assert_eq!(&RespType::Integer(-12).to_bytes()[..], b":-12\r\n");
    assert_eq!(&RespType::Integer(i64::MIN).to_bytes()[..], b":-9223372036854775808\r\n");
    assert_eq!(&RespType::NullBulkString.to_bytes()[..], b"$-1\r\n");
    assert_eq!(
        &RespType::Array(vec![bulk("a"), RespType::Integer(3)]).to_bytes()[..],
        b"*2\r\n$1\r\na\r\n:3\r\n"
    );
}

#[test]
fn encode_bulk_length_counts_bytes() {
    // The length prefix counts the payload's UTF-8 bytes, as RESP2 requires.
    assert_eq!(&bulk("é").to_bytes()[..], b"$2\r\n\xc3\xa9\r\n");
    let encoded = bulk("héllo wörld").to_bytes();
    assert_eq!(&encoded[..], "$13\r\nhéllo wörld\r\n".as_bytes());
    let (parsed, consumed) = RespType::parse(&encoded).unwrap();
    assert_eq!(parsed, bulk("héllo wörld"));
    assert_eq!(consumed, 20);
}

#[test]
fn encode_then_parse_roundtrip() {
    let value = RespType::Array(vec![
        bulk("SET"),
        RespType::SimpleString("fine".to_string()),
        RespType::SimpleError("ERR no".to_string()),
        RespType::Integer(1234567890123),
        bulk("ünïcödé ✓"),
        RespType::NullBulkString,
        RespType::Array(vec![]),
    ]);
    let mut bytes = value.to_bytes().to_vec();
    let length = bytes.len();
    bytes.extend_from_slice(b"+next\r\n");
    let (parsed, consumed) = RespType::parse(&bytes).unwrap();
    assert_eq!(parsed, value);
    assert_eq!(consumed, length);
}

#[test]
fn every_strict_prefix_is_incomplete() {
    let buffer = b"*3\r\n$3\r\nSET\r\n$3\r\nkey\r\n$5\r\nvalue\r\n";
    for cut in 0..buffer.len() {
        assert_eq!(RespType::parse(&buffer[..cut]).unwrap_err(), RespError::Incomplete);
    }
    assert!(RespType::parse(buffer).is_ok());
}

#[test]
fn trailing_bytes_do_not_change_errors() {
    assert_eq!(
        RespType::parse(b"*abc\r\n").unwrap_err(),
        RespType::parse(b"*abc\r\n$3\r\nmore\r\n").unwrap_err()
    );
}

#[test]
fn codec_waits_for_a_whole_value() {
    let mut codec = RespCodec::default();
    let mut buffer = BytesMut::new();
    assert_eq!(codec.decode(&mut buffer).unwrap(), None);
    buffer.extend_from_slice(b"$5\r\nhel");
    assert_eq!(codec.decode(&mut buffer).unwrap(), None);
    assert_eq!(&buffer[..], b"$5\r\nhel");
    buffer.extend_from_slice(b"lo\r\n+PING\r\n");
    assert_eq!(codec.decode(&mut buffer).unwrap(), Some(bulk("hello")));
    assert_eq!(&buffer[..], b"+PING\r\n");
    assert_eq!(
        codec.decode(&mut buffer).unwrap(),
        Some(RespType::SimpleString("PING".to_string()))
    );
    assert!(buffer.is_empty());
}

#[test]
fn codec_reports_protocol_errors() {
    let mut codec = RespCodec::default();
    let mut buffer = BytesMut::from(&b"?bad\r\n"[..]);
    assert_eq!(
        codec.decode(&mut buffer).unwrap_err(),
        RespError::Other("Invalid RESP data type identifier byte: '63'".to_string())
    );
    assert_eq!(&buffer[..], b"?bad\r\n");
}

#[test]
fn codec_encode_appends() {
    let mut codec = RespCodec::default();
    let mut buffer = BytesMut::from(&b"+A\r\n"[..]);
    codec.encode(RespType::Integer(7), &mut buffer);
    assert_eq!(&buffer[..], b"+A\r\n:7\r\n");
    assert_eq!(codec.decode(&mut buffer).unwrap(), Some(RespType::SimpleString("A".to_string())));
    assert_eq!(codec.decode(&mut buffer).unwrap(), Some(RespType::Integer(7)));
}
