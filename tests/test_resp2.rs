use redis_starter_rust::error::MiniRedisError;
use redis_starter_rust::resp2::Message;

fn decode(input: &[u8]) -> Message {
    Message::read(input).unwrap().0
}

fn decode_err(input: &[u8]) -> MiniRedisError {
    Message::read(input).unwrap_err()
}

fn eof_err() -> MiniRedisError {
    MiniRedisError::Io("unexpected end of file".to_string())
}

fn check(msg: Message, expected: &str) {
    let mut buf: Vec<u8> = Vec::new();
    msg.write(&mut buf);
    assert_eq!(buf, expected.as_bytes());
}

#[test]
fn test_resp2_test_debug() {
    assert_eq!(format!("{:?}", Message::text("hello")), "Text(\"hello\")");
}

#[test]
fn test_empty() {
    assert_eq!(decode_err(b""), eof_err());
}

#[test]
fn test_invalid_message_type() {
    assert_eq!(decode_err(b"!e"), MiniRedisError::InvalidMessageType('!'));
}

#[test]
fn test_text() {
    // Valid
    assert_eq!(decode(b"+\r\n"), Message::text(""));
    assert_eq!(decode(b"+\r\nHello"), Message::text(""));
    assert_eq!(decode(b"+Hello\r\n"), Message::text("Hello"));
    assert_eq!(decode(b"+Hello\r\nworld"), Message::text("Hello"));

    // Invalid
    assert_eq!(decode_err(b"+Hell"), eof_err());
}

#[test]
fn test_error() {
    // Valid
    assert_eq!(decode(b"-\r\n"), Message::error(""));
    assert_eq!(decode(b"-\r\nHello"), Message::error(""));
    assert_eq!(decode(b"-Hello\r\n"), Message::error("Hello"));
    assert_eq!(decode(b"-Hello\r\nworld"), Message::error("Hello"));

    // Invalid
    assert_eq!(decode_err(b"-Hell"), eof_err());
}

#[test]
fn test_integer() {
    // Valid
    assert_eq!(decode(b":0\r\n"), Message::Integer(0));
    assert_eq!(decode(b":42\r\n"), Message::Integer(42));
    assert_eq!(decode(b":+42\r\n"), Message::Integer(42));
    assert_eq!(decode(b":-42\r\n"), Message::Integer(-42));

    // Invalid
    assert_eq!(decode_err(b":Hell"), eof_err());
    assert_eq!(
        decode_err(b":\r\n"),
        MiniRedisError::InvalidNumber("cannot parse integer from empty string".to_string())
    );
    assert_eq!(
        decode_err(b":\r\nHello"),
        MiniRedisError::InvalidNumber("cannot parse integer from empty string".to_string())
    );
    assert_eq!(
        decode_err(b":Hello\r\n"),
        MiniRedisError::InvalidNumber("invalid digit found in string".to_string())
    );
    assert_eq!(
        decode_err(b":Hello\r\nworld"),
        MiniRedisError::InvalidNumber("invalid digit found in string".to_string())
    );
}

#[test]
fn test_binary() {
    // Valid null
    assert_eq!(decode(b"$-1\r\n"), Message::Null);
    assert_eq!(decode(b"$0\r\n\r\n"), Message::bin(&[]));
    assert_eq!(decode(b"$5\r\nhello\r\n"), Message::bin(b"hello"));

    // Invalid size
    assert_eq!(decode_err(b"$Hell"), eof_err());
    assert_eq!(
        decode_err(b"$foo\r\n"),
        MiniRedisError::InvalidNumber("invalid digit found in string".to_string())
    );
    assert_eq!(
        decode_err(b"$5\r\nhel"),
        MiniRedisError::Io("early eof".to_string())
    );

    // Invalid end
    assert_eq!(decode_err(b"$5\r\nhelloxx"), MiniRedisError::InvalidMessageEnd);
    assert_eq!(decode_err(b"$5\r\nhello\rx"), MiniRedisError::InvalidMessageEnd);
}

#[test]
fn test_array() {
    // Valid empty / null
    assert_eq!(decode(b"*-1\r\n"), Message::Null);
    assert_eq!(decode(b"*0\r\n"), Message::Array(vec![]));

    // Valid
    assert_eq!(
        decode(b"*2\r\n$5\r\nhello\r\n$5\r\nworld\r\n"),
        Message::Array(vec![Message::bin(b"hello"), Message::bin(b"world")])
    );
    assert_eq!(
        decode(b"*3\r\n:1\r\n:2\r\n:3\r\n"),
        Message::Array(vec![
            Message::Integer(1),
            Message::Integer(2),
            Message::Integer(3),
        ])
    );
    assert_eq!(
        decode(b"*5\r\n:1\r\n:2\r\n:3\r\n:-4\r\n$5\r\nhello\r\n"),
        Message::Array(vec![
            Message::Integer(1),
            Message::Integer(2),
            Message::Integer(3),
            Message::Integer(-4),
            Message::bin(b"hello"),
        ])
    );
}

#[test]
fn test_write() {
    // Text
    check(Message::text(""), "+\r\n");
    check(Message::text("Hello"), "+Hello\r\n");

    // Error
    check(Message::error(""), "-\r\n");
    check(Message::error("Hello"), "-Hello\r\n");

    // Integer
    check(Message::Integer(0), ":0\r\n");
    check(Message::Integer(42), ":42\r\n");
    check(Message::Integer(-42), ":-42\r\n");

    // Binary
    check(Message::bin(b""), "$0\r\n\r\n");
    check(Message::bin(b"heLLo"), "$5\r\nheLLo\r\n");

    // Null
    check(Message::Null, "$-1\r\n");

    // Array
    check(Message::Array(vec![]), "*0\r\n");
    check(
        Message::Array(vec![Message::Integer(42), Message::Integer(-50)]),
        "*2\r\n:42\r\n:-50\r\n",
    );
}

#[test]
fn read_reports_consumed_length() {
    let (msg, n) = Message::read(b"+Hello\r\nworld").unwrap();
    assert_eq!(msg, Message::text("Hello"));
    assert_eq!(n, 8);
    let (msg, n) = Message::read(b"*1\r\n$2\r\nab\r\n:1\r\n").unwrap();
    assert_eq!(msg, Message::Array(vec![Message::bin(b"ab")]));
    assert_eq!(n, 12);
}

#[test]
fn negative_lengths_are_null() {
    assert_eq!(decode(b"$-5\r\n"), Message::Null);
    assert_eq!(decode(b"*-2\r\n"), Message::Null);
}

#[test]
fn bulk_payload_may_hold_crlf() {
    assert_eq!(decode(b"$4\r\na\r\nb\r\n"), Message::bin(b"a\r\nb"));
}

#[test]
fn bulk_terminator_missing_is_eof() {
    assert_eq!(decode_err(b"$5\r\nhello"), eof_err());
    assert_eq!(decode_err(b"$5\r\nhello\r"), eof_err());
}

#[test]
fn invalid_utf8_line_is_invalid_text() {
    let err = decode_err(b"+\xff\r\n");
    assert!(matches!(err, MiniRedisError::InvalidText(_)));
    assert_eq!(
        err,
        MiniRedisError::InvalidText("invalid utf-8 sequence of 1 bytes from index 0".to_string())
    );
}

#[test]
fn integer_out_of_range_is_invalid_number() {
    assert_eq!(
        decode_err(b":9223372036854775808\r\n"),
        MiniRedisError::InvalidNumber("number too large to fit in target type".to_string())
    );
    assert_eq!(decode(b":-9223372036854775808\r\n"), Message::Integer(i64::MIN));
}

#[test]
fn error_in_nested_item_propagates() {
    assert_eq!(decode_err(b"*2\r\n:1\r\n?x\r\n"), MiniRedisError::InvalidMessageType('?'));
    assert_eq!(decode_err(b"*3\r\n:1\r\n"), eof_err());
}

#[test]
fn malformed_frame_names_the_tag() {
    assert_eq!(decode_err(b"!e\r\n"), MiniRedisError::InvalidMessageType('!'));
}

#[test]
fn round_trip_of_nested_frames() {
    let msg = Message::Array(vec![
        Message::text("OK"),
        Message::error("ERR bad"),
        Message::Integer(i64::MIN),
        Message::bin(b"\x00\r\n\xff"),
        Message::Null,
        Message::Array(vec![Message::Integer(7), Message::Array(vec![])]),
    ]);
    let mut buf: Vec<u8> = Vec::new();
    msg.write(&mut buf);
    let n = buf.len();
    buf.extend_from_slice(b"trailing");
    let (back, used) = Message::read(&buf).unwrap();
    assert_eq!(back, msg);
    assert_eq!(used, n);
}

#[test]
fn write_appends_to_existing_output() {
    let mut buf: Vec<u8> = b"xy".to_vec();
    Message::Integer(12345).write(&mut buf);
    assert_eq!(buf, b"xy:12345\r\n".to_vec());
}
