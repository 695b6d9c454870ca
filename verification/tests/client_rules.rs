use bytes::Bytes;
use my_redis::cli::{bytes_from_str, duration_from_ms_str};
use my_redis::client::{
    ctrlc_frame, get_reply, message_of, ping_reply, publish_reply, read_response, set_reply,
    subscribe_reply, ClientError,
};
use my_redis::connection::write_frame;
use my_redis::frame::Frame;
use std::time::Duration;

fn unexpected_text<T>(r: Result<T, ClientError>) -> String {
    match r {
        Err(ClientError::Unexpected(text)) => text,
        Err(other) => panic!("another error: {:?}", other),
        Ok(_) => panic!("no error"),
    }
}

fn bulk(text: &str) -> Frame {
    Frame::Bulk(Bytes::copy_from_slice(text.as_bytes()))
}

#[test]
fn error_frame_is_the_servers_error() {
    match read_response(Some(Frame::Error("no such thing".to_string()))) {
        Err(ClientError::Server(text)) => assert_eq!(text, "no such thing"),
        other => panic!("unexpected result: {:?}", other),
    }
}

#[test]
fn closed_socket_is_a_connection_reset() {
    assert!(matches!(read_response(None), Err(ClientError::ConnectionReset)));
}

#[test]
fn other_frames_are_the_reply() {
    assert!(matches!(read_response(Some(Frame::Null)), Ok(Frame::Null)));
    assert!(matches!(
        read_response(Some(Frame::Integer(3))),
        Ok(Frame::Integer(3))
    ));
}

#[test]
fn get_reply_reads_value_or_none() {
    assert_eq!(get_reply(bulk("bar")).unwrap(), Some(Bytes::from("bar")));
    assert_eq!(
        get_reply(Frame::Simple("bar".to_string())).unwrap(),
        Some(Bytes::from("bar"))
    );
    assert_eq!(get_reply(Frame::Null).unwrap(), None);
    assert_eq!(
        unexpected_text(get_reply(Frame::Integer(5))),
        "unexpected frame: 5"
    );
    assert_eq!(
        unexpected_text(get_reply(Frame::Array(vec![bulk("a"), Frame::Null]))),
        "unexpected frame: a (nil)"
    );
}

#[test]
fn set_reply_wants_ok() {
    assert!(set_reply(Frame::Simple("OK".to_string())).is_ok());
    assert_eq!(
        unexpected_text(set_reply(Frame::Simple("ok".to_string()))),
        "unexpected frame: ok"
    );
    assert_eq!(unexpected_text(set_reply(bulk("OK"))), "unexpected frame: OK");
    assert_eq!(
        unexpected_text(set_reply(Frame::Null)),
        "unexpected frame: (nil)"
    );
}

#[test]
fn publish_reply_reads_the_count() {
    assert_eq!(publish_reply(Frame::Integer(3)).unwrap(), 3);
    assert_eq!(
        unexpected_text(publish_reply(Frame::Simple("3".to_string()))),
        "unexpected frame: 3"
    );
}

#[test]
fn ping_reply_reads_the_payload() {
    assert_eq!(
        ping_reply(Frame::Simple("PONG".to_string())).unwrap(),
        Bytes::from("PONG")
    );
    assert_eq!(ping_reply(bulk("hi")).unwrap(), Bytes::from("hi"));
    assert_eq!(
        unexpected_text(ping_reply(Frame::Null)),
        "unexpected frame: (nil)"
    );
}

#[test]
fn subscribe_reply_wants_the_word_and_the_channel() {
    let ack = Frame::Array(vec![bulk("subscribe"), bulk("ch"), Frame::Integer(1)]);
    assert!(subscribe_reply(&ack, "ch").is_ok());
    assert_eq!(
        unexpected_text(subscribe_reply(&ack, "other")),
        "unexpected frame: subscribe ch 1"
    );
    let short = Frame::Array(vec![bulk("subscribe"), bulk("ch")]);
    assert!(subscribe_reply(&short, "ch").is_ok());
    let simple = Frame::Array(vec![
        Frame::Simple("subscribe".to_string()),
        Frame::Simple("ch".to_string()),
    ]);
    assert!(subscribe_reply(&simple, "ch").is_ok());
    let wrong = Frame::Array(vec![bulk("message"), bulk("ch"), Frame::Integer(1)]);
    assert!(matches!(
        subscribe_reply(&wrong, "ch"),
        Err(ClientError::Unexpected(_))
    ));
    let one = Frame::Array(vec![bulk("subscribe")]);
    assert!(matches!(
        subscribe_reply(&one, "ch"),
        Err(ClientError::Unexpected(_))
    ));
    assert!(matches!(
        subscribe_reply(&Frame::Null, "ch"),
        Err(ClientError::Unexpected(_))
    ));
}

#[test]
fn message_of_reads_channel_and_content() {
    let frame = Frame::Array(vec![bulk("message"), bulk("ch"), bulk("hello")]);
    let message = message_of(frame).unwrap();
    assert_eq!(message.channel, "ch");
    assert_eq!(message.content, Bytes::from("hello"));
    let frame = Frame::Array(vec![
        Frame::Simple("message".to_string()),
        Frame::Simple("ch".to_string()),
        Frame::Integer(12),
    ]);
    let message = message_of(frame).unwrap();
    assert_eq!(message.channel, "ch");
    assert_eq!(message.content, Bytes::from("12"));
}

#[test]
fn message_content_is_the_payload_byte_for_byte() {
    let frame = Frame::Array(vec![
        bulk("message"),
        bulk("ch"),
        Frame::Bulk(Bytes::from_static(b"\xff")),
    ]);
    let message = message_of(frame).unwrap();
    assert_eq!(message.channel, "ch");
    assert_eq!(message.content, Bytes::from_static(b"\xff"));
    let frame = Frame::Array(vec![
        bulk("message"),
        bulk("ch"),
        Frame::Bulk(Bytes::from_static(b"\xff\x00\r\n")),
    ]);
    assert_eq!(
        message_of(frame).unwrap().content,
        Bytes::from_static(b"\xff\x00\r\n")
    );
}

#[test]
fn message_of_rejects_other_shapes() {
    let four = Frame::Array(vec![bulk("message"), bulk("ch"), bulk("a"), bulk("b")]);
    assert_eq!(
        unexpected_text(message_of(four)),
        "unexpected frame: message ch a b"
    );
    let two = Frame::Array(vec![bulk("message"), bulk("ch")]);
    assert!(matches!(message_of(two), Err(ClientError::Unexpected(_))));
    let other = Frame::Array(vec![bulk("subscribe"), bulk("ch"), Frame::Integer(1)]);
    assert!(matches!(message_of(other), Err(ClientError::Unexpected(_))));
    assert!(matches!(
        message_of(Frame::Simple("message".to_string())),
        Err(ClientError::Unexpected(_))
    ));
}

#[test]
fn ctrlc_frame_is_the_shutdown_word() {
    let mut out = Vec::new();
    write_frame(&mut out, &ctrlc_frame());
    assert_eq!(out, b"+shutdown\r\n".to_vec());
}

#[test]
fn duration_from_ms_str_reads_milliseconds() {
    assert_eq!(duration_from_ms_str("1500"), Some(Duration::from_millis(1500)));
    assert_eq!(duration_from_ms_str("0"), Some(Duration::from_millis(0)));
    assert_eq!(
        duration_from_ms_str("18446744073709551615"),
        Some(Duration::from_millis(u64::MAX))
    );
    assert_eq!(duration_from_ms_str("+25"), Some(Duration::from_millis(25)));
    assert_eq!(duration_from_ms_str("+0"), Some(Duration::from_millis(0)));
    assert_eq!(duration_from_ms_str("+"), None);
    assert_eq!(duration_from_ms_str("++1"), None);
    assert_eq!(duration_from_ms_str("1+"), None);
    assert_eq!(duration_from_ms_str(""), None);
    assert_eq!(duration_from_ms_str("1.5"), None);
    assert_eq!(duration_from_ms_str("-1"), None);
    assert_eq!(duration_from_ms_str("18446744073709551616"), None);
}

#[test]
fn bytes_from_str_keeps_the_text() {
    assert_eq!(bytes_from_str("caf\u{e9}"), Bytes::from("caf\u{e9}"));
    assert_eq!(bytes_from_str(""), Bytes::new());
}
