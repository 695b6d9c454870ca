use bytes::Bytes;
use my_redis::connection::{write_decimal, write_frame, write_value};
use my_redis::frame::{get_decimal, get_line, get_u8, skip, Error, Frame};
use std::io::Cursor;

fn encode(frame: &Frame) -> Vec<u8> {
    let mut out = Vec::new();
    write_frame(&mut out, frame);
    out
}

fn parse_all(data: &[u8]) -> Result<Frame, Error> {
    let mut cursor = Cursor::new(data);
    Frame::parse(&mut cursor)
}

fn check_end(data: &[u8]) -> Result<u64, Error> {
    let mut cursor = Cursor::new(data);
    Frame::check(&mut cursor).map(|_| cursor.position())
}

fn is_protocol_error<T>(r: &Result<T, Error>) -> bool {
    matches!(r, Err(Error::Other(_)))
}

fn is_incomplete<T>(r: &Result<T, Error>) -> bool {
    matches!(r, Err(Error::Incomplete))
}

#[test]
fn encodes_simple_frame() {
    assert_eq!(encode(&Frame::Simple("OK".to_string())), b"+OK\r\n".to_vec());
}

#[test]
fn encodes_error_frame() {
    assert_eq!(
        encode(&Frame::Error("bad thing".to_string())),
        b"-bad thing\r\n".to_vec()
    );
}

#[test]
fn encodes_integer_frames() {
    assert_eq!(encode(&Frame::Integer(0)), b":0\r\n".to_vec());
    assert_eq!(encode(&Frame::Integer(1024)), b":1024\r\n".to_vec());
    assert_eq!(
        encode(&Frame::Integer(u64::MAX)),
        b":18446744073709551615\r\n".to_vec()
    );
}

#[test]
fn encodes_bulk_frame() {
    assert_eq!(
        encode(&Frame::Bulk(Bytes::from("hello"))),
        b"$5\r\nhello\r\n".to_vec()
    );
    assert_eq!(encode(&Frame::Bulk(Bytes::new())), b"$0\r\n\r\n".to_vec());
}

#[test]
fn encodes_null_frame() {
    assert_eq!(encode(&Frame::Null), b"_\r\n".to_vec());
}

#[test]
fn encodes_array_frame() {
    let frame = Frame::Array(vec![
        Frame::Bulk(Bytes::from("message")),
        Frame::Bulk(Bytes::from("ch")),
        Frame::Bulk(Bytes::from("hello")),
    ]);
    assert_eq!(
        encode(&frame),
        b"*3\r\n$7\r\nmessage\r\n$2\r\nch\r\n$5\r\nhello\r\n".to_vec()
    );
    assert_eq!(encode(&Frame::Array(vec![])), b"*0\r\n".to_vec());
}

#[test]
fn encodes_nested_array_frame() {
    let frame = Frame::Array(vec![
        Frame::Integer(1),
        Frame::Array(vec![Frame::Null, Frame::Simple("x".to_string())]),
    ]);
    assert_eq!(encode(&frame), b"*2\r\n:1\r\n*2\r\n_\r\n+x\r\n".to_vec());
}

#[test]
fn write_value_appends_to_what_is_there() {
    let mut out = b"abc".to_vec();
    write_value(&mut out, &Frame::Integer(7));
    assert_eq!(out, b"abc:7\r\n".to_vec());
}

#[test]
fn write_decimal_ends_the_line() {
    let mut out = Vec::new();
    write_decimal(&mut out, 250);
    assert_eq!(out, b"250\r\n".to_vec());
}

#[test]
fn parses_simple_frame() {
    assert!(matches!(parse_all(b"+OK\r\n"), Ok(Frame::Simple(s)) if s == "OK"));
}

#[test]
fn parses_error_frame() {
    assert!(matches!(parse_all(b"-oops\r\n"), Ok(Frame::Error(s)) if s == "oops"));
}

#[test]
fn parses_integer_frame() {
    assert!(matches!(parse_all(b":1024\r\n"), Ok(Frame::Integer(1024))));
    assert!(matches!(
        parse_all(b":18446744073709551615\r\n"),
        Ok(Frame::Integer(u64::MAX))
    ));
}

#[test]
fn parses_integer_with_leading_zeros() {
    assert!(matches!(parse_all(b":007\r\n"), Ok(Frame::Integer(7))));
}

#[test]
fn parses_bulk_frame() {
    assert!(matches!(parse_all(b"$5\r\nhello\r\n"), Ok(Frame::Bulk(b)) if &b[..] == b"hello"));
    assert!(matches!(parse_all(b"$0\r\n\r\n"), Ok(Frame::Bulk(b)) if b.is_empty()));
}

#[test]
fn bulk_payload_may_hold_line_ends() {
    let data = b"$4\r\na\r\nb\r\n";
    assert_eq!(check_end(data).unwrap(), data.len() as u64);
    assert!(matches!(parse_all(data), Ok(Frame::Bulk(b)) if &b[..] == b"a\r\nb"));
}

#[test]
fn parses_null_frame() {
    assert!(matches!(parse_all(b"_\r\n"), Ok(Frame::Null)));
}

#[test]
fn parses_array_of_bulk_frames() {
    let data = b"*2\r\n$3\r\nGET\r\n$3\r\nfoo\r\n";
    assert_eq!(check_end(data).unwrap(), data.len() as u64);
    match parse_all(data) {
        Ok(Frame::Array(items)) => {
            assert_eq!(items.len(), 2);
            assert!(matches!(&items[0], Frame::Bulk(b) if &b[..] == b"GET"));
            assert!(matches!(&items[1], Frame::Bulk(b) if &b[..] == b"foo"));
        }
        other => panic!("unexpected result: {:?}", other),
    }
}

#[test]
fn parses_nested_arrays() {
    let data = b"*2\r\n:1\r\n*2\r\n_\r\n+x\r\n";
    assert_eq!(check_end(data).unwrap(), data.len() as u64);
    let frame = parse_all(data).unwrap();
    assert_eq!(encode(&frame), data.to_vec());
}

#[test]
fn parse_moves_the_cursor_behind_the_frame() {
    let data = b"+a\r\n+b\r\n";
    let mut cursor = Cursor::new(&data[..]);
    assert!(matches!(Frame::parse(&mut cursor), Ok(Frame::Simple(s)) if s == "a"));
    assert_eq!(cursor.position(), 4);
    assert!(matches!(Frame::parse(&mut cursor), Ok(Frame::Simple(s)) if s == "b"));
    assert_eq!(cursor.position(), 8);
    assert!(is_incomplete(&Frame::parse(&mut cursor)));
}

#[test]
fn check_and_parse_end_at_the_same_place() {
    let data = b"*3\r\n$3\r\nSET\r\n$3\r\nfoo\r\n$3\r\nbar\r\n+next\r\n";
    let mut cursor = Cursor::new(&data[..]);
    Frame::check(&mut cursor).unwrap();
    let after_check = cursor.position();
    cursor.set_position(0);
    Frame::parse(&mut cursor).unwrap();
    assert_eq!(cursor.position(), after_check);
    assert_eq!(after_check, 31);
}

#[test]
fn empty_buffer_is_incomplete() {
    assert!(is_incomplete(&check_end(b"")));
    assert!(is_incomplete(&parse_all(b"")));
}

#[test]
fn short_buffer_is_incomplete() {
    assert!(is_incomplete(&check_end(b"$5\r\nhel")));
    assert!(is_incomplete(&check_end(b"$5\r\nhello")));
    assert!(is_incomplete(&check_end(b"$5\r\nhello\r")));
    assert!(is_incomplete(&check_end(b"+OK")));
    assert!(is_incomplete(&check_end(b"+OK\r")));
    assert!(is_incomplete(&check_end(b":12")));
    assert!(is_incomplete(&check_end(b"*2\r\n:1\r\n")));
    assert!(is_incomplete(&check_end(b"_")));
    assert!(is_incomplete(&parse_all(b"$5\r\nhel")));
    assert!(is_incomplete(&parse_all(b"*2\r\n:1\r\n")));
}

#[test]
fn huge_bulk_length_is_incomplete() {
    assert!(is_incomplete(&check_end(b"$18446744073709551615\r\nabc\r\n")));
    assert!(is_incomplete(&parse_all(b"$18446744073709551615\r\nabc\r\n")));
}

#[test]
fn unknown_tag_is_a_protocol_error() {
    assert!(is_protocol_error(&check_end(b"?what\r\n")));
    assert!(is_protocol_error(&parse_all(b"?what\r\n")));
}

#[test]
fn malformed_decimal_is_a_protocol_error() {
    assert!(is_protocol_error(&check_end(b":12a\r\n")));
    assert!(is_protocol_error(&check_end(b":\r\n")));
    assert!(is_protocol_error(&check_end(b":-1\r\n")));
    assert!(is_protocol_error(&check_end(b":+1\r\n")));
    assert!(is_protocol_error(&check_end(b": 1\r\n")));
    assert!(is_protocol_error(&check_end(b"$x\r\nabc\r\n")));
    assert!(is_protocol_error(&check_end(b"*x\r\n")));
    assert!(is_protocol_error(&parse_all(b":12a\r\n")));
}

#[test]
fn decimal_overflow_is_a_protocol_error() {
    assert!(is_protocol_error(&check_end(b":18446744073709551616\r\n")));
    assert!(is_protocol_error(&parse_all(b":18446744073709551616\r\n")));
    assert!(is_protocol_error(&parse_all(b":99999999999999999999999\r\n")));
}

#[test]
fn invalid_utf8_text_is_a_protocol_error_on_parse() {
    let data = b"+\xff\xfe\r\n";
    assert_eq!(check_end(data).unwrap(), 5);
    assert!(is_protocol_error(&parse_all(data)));
    assert!(is_protocol_error(&parse_all(b"-\xc3\r\n")));
}

#[test]
fn bulk_without_line_end_is_a_protocol_error_on_parse() {
    assert!(is_protocol_error(&parse_all(b"$5\r\nhelloXY")));
    assert!(is_protocol_error(&parse_all(b"$5\r\nhello\rY")));
    assert!(is_protocol_error(&parse_all(b"$5\r\nhelloX\n")));
    assert_eq!(check_end(b"$5\r\nhelloXY").unwrap(), 11);
}

#[test]
fn null_frame_with_content_is_a_protocol_error_on_parse() {
    assert_eq!(check_end(b"_abc\r\n").unwrap(), 6);
    assert!(is_protocol_error(&parse_all(b"_abc\r\n")));
}

#[test]
fn carriage_return_without_line_feed_is_a_protocol_error() {
    assert!(is_protocol_error(&check_end(b"+a\rb\r\n")));
    assert!(is_protocol_error(&parse_all(b"+a\rb\r\n")));
    assert!(is_protocol_error(&check_end(b"+a\r\r\n")));
    assert!(is_protocol_error(&check_end(b"-a\rb\r\n")));
    assert!(is_protocol_error(&check_end(b":1\r2\r\n")));
    assert!(is_protocol_error(&check_end(b"$3\rx\nabc\r\n")));
    assert!(is_protocol_error(&check_end(b"*1\rx")));
    assert!(is_protocol_error(&check_end(b"_\rx")));
    assert!(is_protocol_error(&check_end(b"*2\r\n+ok\r\n+a\rb")));
}

#[test]
fn carriage_return_at_the_end_of_the_buffer_is_incomplete() {
    assert!(is_incomplete(&check_end(b"+a\r")));
    assert!(is_incomplete(&parse_all(b"+a\r")));
    assert!(is_incomplete(&check_end(b":12\r")));
    assert!(is_incomplete(&check_end(b"_\r")));
}

#[test]
fn text_may_hold_lone_line_feeds() {
    let data = b"+a\nb\r\n";
    assert_eq!(check_end(data).unwrap(), 6);
    assert!(matches!(parse_all(data), Ok(Frame::Simple(s)) if s == "a\nb"));
}

#[test]
fn get_line_rejects_a_carriage_return_without_line_feed() {
    let data = b"ab\rcd\r\n";
    let mut cursor = Cursor::new(&data[..]);
    assert!(is_protocol_error(&get_line(&mut cursor)));
    assert_eq!(cursor.position(), 0);
    let mut cursor = Cursor::new(&data[..]);
    cursor.set_position(3);
    assert_eq!(get_line(&mut cursor).unwrap(), b"cd");
    assert_eq!(cursor.position(), 7);
}

#[test]
fn get_u8_takes_one_byte() {
    let data = b"ab";
    let mut cursor = Cursor::new(&data[..]);
    assert!(matches!(get_u8(&mut cursor), Ok(b'a')));
    assert!(matches!(get_u8(&mut cursor), Ok(b'b')));
    assert_eq!(cursor.position(), 2);
    assert!(is_incomplete(&get_u8(&mut cursor)));
    assert_eq!(cursor.position(), 2);
}

#[test]
fn get_u8_past_the_end_is_incomplete() {
    let data = b"ab";
    let mut cursor = Cursor::new(&data[..]);
    cursor.set_position(10);
    assert!(is_incomplete(&get_u8(&mut cursor)));
    assert_eq!(cursor.position(), 10);
}

#[test]
fn skip_moves_forward_or_fails() {
    let data = b"abcdef";
    let mut cursor = Cursor::new(&data[..]);
    assert!(skip(&mut cursor, 4).is_ok());
    assert_eq!(cursor.position(), 4);
    assert!(is_incomplete(&skip(&mut cursor, 3)));
    assert_eq!(cursor.position(), 4);
    assert!(skip(&mut cursor, 2).is_ok());
    assert_eq!(cursor.position(), 6);
    assert!(skip(&mut cursor, 0).is_ok());
}

#[test]
fn get_line_takes_up_to_the_first_line_end() {
    let data = b"data1\r\ndata2\r\n";
    let mut cursor = Cursor::new(&data[..]);
    assert_eq!(get_line(&mut cursor).unwrap(), b"data1");
    assert_eq!(cursor.position(), 7);
    assert_eq!(get_line(&mut cursor).unwrap(), b"data2");
    assert_eq!(cursor.position(), 14);
    assert!(is_incomplete(&get_line(&mut cursor)));
    assert_eq!(cursor.position(), 14);
}

#[test]
fn get_line_on_empty_buffer_is_incomplete() {
    let data = b"";
    let mut cursor = Cursor::new(&data[..]);
    assert!(is_incomplete(&get_line(&mut cursor)));
    let one = b"\r";
    let mut cursor = Cursor::new(&one[..]);
    assert!(is_incomplete(&get_line(&mut cursor)));
    let mut cursor = Cursor::new(&data[..]);
    cursor.set_position(5);
    assert!(is_incomplete(&get_line(&mut cursor)));
}

#[test]
fn get_decimal_reads_a_number_line() {
    let data = b"250\r\nrest";
    let mut cursor = Cursor::new(&data[..]);
    assert!(matches!(get_decimal(&mut cursor), Ok(250)));
    assert_eq!(cursor.position(), 5);
}

#[test]
fn get_decimal_rejects_what_is_no_number() {
    let data = b"2x\r\nrest";
    let mut cursor = Cursor::new(&data[..]);
    assert!(is_protocol_error(&get_decimal(&mut cursor)));
    assert_eq!(cursor.position(), 4);
    let data = b"25";
    let mut cursor = Cursor::new(&data[..]);
    assert!(is_incomplete(&get_decimal(&mut cursor)));
    assert_eq!(cursor.position(), 0);
}

#[test]
fn frame_round_trip_on_every_variant() {
    let frames = vec![
        Frame::Simple("hello world".to_string()),
        Frame::Simple("".to_string()),
        Frame::Simple("caf\u{e9} \u{1f600}".to_string()),
        Frame::Error("ERR unknown".to_string()),
        Frame::Integer(0),
        Frame::Integer(u64::MAX),
        Frame::Bulk(Bytes::from_static(b"\x00\xff\r\n binary")),
        Frame::Bulk(Bytes::new()),
        Frame::Null,
        Frame::Array(vec![]),
        Frame::Array(vec![
            Frame::Bulk(Bytes::from("set")),
            Frame::Bulk(Bytes::from("k")),
            Frame::Integer(5),
            Frame::Array(vec![Frame::Null]),
        ]),
    ];
    for frame in frames.iter() {
        let bytes = encode(frame);
        assert_eq!(check_end(&bytes).unwrap(), bytes.len() as u64);
        let back = parse_all(&bytes).unwrap();
        assert_eq!(encode(&back), bytes);
        assert_eq!(format!("{:?}", back), format!("{:?}", frame));
    }
}

#[test]
fn every_proper_prefix_of_an_encoding_is_incomplete() {
    let frame = Frame::Array(vec![
        Frame::Bulk(Bytes::from("subscribe")),
        Frame::Simple("a\nb".to_string()),
        Frame::Integer(12),
        Frame::Null,
        Frame::Array(vec![Frame::Error("e".to_string())]),
    ]);
    let bytes = encode(&frame);
    for k in 0..bytes.len() {
        assert!(is_incomplete(&check_end(&bytes[..k])), "prefix of length {}", k);
    }
    assert_eq!(check_end(&bytes).unwrap(), bytes.len() as u64);
}

#[test]
fn array_builders_append_items() {
    let mut frame = Frame::array();
    frame.push_bulk(Bytes::from("get"));
    frame.push_int(9);
    assert_eq!(encode(&frame), b"*2\r\n$3\r\nget\r\n:9\r\n".to_vec());
}

#[test]
fn frame_shows_as_text() {
    assert_eq!(Frame::Simple("OK".to_string()).to_string(), "OK");
    assert_eq!(Frame::Error("bad".to_string()).to_string(), "error: bad");
    assert_eq!(Frame::Integer(1234567890).to_string(), "1234567890");
    assert_eq!(Frame::Integer(0).to_string(), "0");
    assert_eq!(Frame::Bulk(Bytes::from("hello")).to_string(), "hello");
    assert_eq!(Frame::Null.to_string(), "(nil)");
    assert_eq!(Frame::Array(vec![]).to_string(), "");
    let array = Frame::Array(vec![
        Frame::Bulk(Bytes::from("message")),
        Frame::Simple("ch".to_string()),
        Frame::Integer(3),
    ]);
    assert_eq!(array.to_string(), "message ch 3");
}

#[test]
fn payload_that_is_no_text_shows_escaped() {
    let frame = Frame::Bulk(Bytes::from_static(b"a\xff\n\"z"));
    assert_eq!(frame.to_string(), "b\"a\\xff\\n\\\"z\"");
    let frame = Frame::Bulk(Bytes::from_static(b"\xfe\r\t\\\0 ~\x7f\x01\x1f\xa0"));
    assert_eq!(
        frame.to_string(),
        "b\"\\xfe\\r\\t\\\\\\0 ~\\x7f\\x01\\x1f\\xa0\""
    );
}

#[test]
fn to_error_tells_of_the_frame() {
    assert_eq!(Frame::Integer(5).to_error(), "unexpected frame: 5");
    assert_eq!(Frame::Null.to_error(), "unexpected frame: (nil)");
}

#[test]
fn frame_compares_with_text() {
    assert!(Frame::Simple("subscribe".to_string()).eq_str("subscribe"));
    assert!(Frame::Bulk(Bytes::from("subscribe")).eq_str("subscribe"));
    assert!(!Frame::Bulk(Bytes::from("subscribe")).eq_str("subscribed"));
    assert!(!Frame::Simple("a".to_string()).eq_str("b"));
    assert!(!Frame::Error("a".to_string()).eq_str("a"));
    assert!(!Frame::Integer(1).eq_str("1"));
    assert!(!Frame::Null.eq_str(""));
}

#[test]
fn clone_gives_the_same_frame() {
    let frame = Frame::Array(vec![
        Frame::Bulk(Bytes::from("x")),
        Frame::Array(vec![Frame::Integer(1), Frame::Null]),
        Frame::Simple("s".to_string()),
        Frame::Error("e".to_string()),
    ]);
    let copy = frame.clone();
    assert_eq!(encode(&copy), encode(&frame));
}

#[test]
fn codec_errors_show_as_text() {
    assert_eq!(Error::Incomplete.to_string(), "stream ended early");
    assert_eq!(Error::Other("why".to_string()).to_string(), "why");
}
