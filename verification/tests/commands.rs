use bytes::Bytes;
use my_redis::cmd::subscribe::{
    make_message_frame, make_subscribe_frame, on_received, subscribe_to_channel, Received,
    SessionAction, SessionEvent, StreamAction, Subscriptions,
};
use my_redis::cmd::{Applied, Get, Ping, Publish, SetCommand, Subscribe, Unknown};
use my_redis::connection::write_frame;
use my_redis::db::State;
use my_redis::frame::Frame;
use my_redis::parse::{Parse, ParseError};
use my_redis::Command;
use std::time::Duration;

fn wire(frame: &Frame) -> Vec<u8> {
    let mut out = Vec::new();
    write_frame(&mut out, frame);
    out
}

fn request(parts: &[&str]) -> Frame {
    Frame::Array(
        parts
            .iter()
            .map(|p| Frame::Bulk(Bytes::copy_from_slice(p.as_bytes())))
            .collect(),
    )
}

fn reply(applied: Applied) -> (Vec<u8>, bool) {
    match applied {
        Applied::Reply { response, notify } => (wire(&response), notify),
        Applied::Session { .. } => panic!("a session where a reply was expected"),
    }
}

#[test]
fn get_holds_its_key() {
    let get = Get::new("foo");
    assert_eq!(get.key(), "foo");
    assert_eq!(wire(&get.into_frame()), b"*2\r\n$3\r\nget\r\n$3\r\nfoo\r\n".to_vec());
}

#[test]
fn set_holds_its_fields() {
    let set = SetCommand::new("k", Bytes::from("v"), Some(Duration::from_millis(1500)));
    assert_eq!(set.key(), "k");
    assert_eq!(set.value(), &Bytes::from("v"));
    assert_eq!(set.expire(), Some(Duration::from_millis(1500)));
    assert_eq!(
        wire(&set.into_frame()),
        b"*5\r\n$3\r\nset\r\n$1\r\nk\r\n$1\r\nv\r\n$2\r\npx\r\n:1500\r\n".to_vec()
    );
    let set = SetCommand::new("k", Bytes::from("v"), None);
    assert_eq!(set.expire(), None);
    assert_eq!(
        wire(&set.into_frame()),
        b"*3\r\n$3\r\nset\r\n$1\r\nk\r\n$1\r\nv\r\n".to_vec()
    );
}

#[test]
fn set_request_sends_whole_milliseconds() {
    let set = SetCommand::new("k", Bytes::from("v"), Some(Duration::from_micros(2999)));
    assert_eq!(
        wire(&set.into_frame()),
        b"*5\r\n$3\r\nset\r\n$1\r\nk\r\n$1\r\nv\r\n$2\r\npx\r\n:2\r\n".to_vec()
    );
}

#[test]
fn set_request_sends_the_low_64_bits_of_the_milliseconds() {
    let set = SetCommand::new("k", Bytes::from("v"), Some(Duration::new(u64::MAX, 0)));
    assert_eq!(
        wire(&set.into_frame()),
        b"*5\r\n$3\r\nset\r\n$1\r\nk\r\n$1\r\nv\r\n$2\r\npx\r\n:18446744073709550616\r\n"
            .to_vec()
    );
}

#[test]
fn publish_and_ping_and_subscribe_requests() {
    assert_eq!(
        wire(&Publish::new("ch", Bytes::from("hello")).into_frame()),
        b"*3\r\n$7\r\npublish\r\n$2\r\nch\r\n$5\r\nhello\r\n".to_vec()
    );
    assert_eq!(wire(&Ping::new(None).into_frame()), b"*1\r\n$4\r\nping\r\n".to_vec());
    assert_eq!(
        wire(&Ping::new(Some(Bytes::from("hi"))).into_frame()),
        b"*2\r\n$4\r\nping\r\n$2\r\nhi\r\n".to_vec()
    );
    assert_eq!(
        wire(&Subscribe::new(vec!["a".to_string(), "bc".to_string()]).into_frame()),
        b"*3\r\n$9\r\nsubscribe\r\n$1\r\na\r\n$2\r\nbc\r\n".to_vec()
    );
}

#[test]
fn requests_of_the_client_are_read_by_the_server() {
    let frame = SetCommand::new("k", Bytes::from("v"), Some(Duration::from_millis(50))).into_frame();
    match Command::from_frame(frame).unwrap() {
        Command::SetCommand(s) => {
            assert_eq!(s.key(), "k");
            assert_eq!(s.value(), &Bytes::from("v"));
            assert_eq!(s.expire(), Some(Duration::from_millis(50)));
        }
        other => panic!("unexpected command: {:?}", other),
    }
    let frame = SetCommand::new("k", Bytes::from_static(b"\xff"), None).into_frame();
    assert!(matches!(Command::from_frame(frame).unwrap(), Command::SetCommand(s)
        if s.key() == "k" && s.value() == &Bytes::from_static(b"\xff") && s.expire().is_none()));
    let frame = SetCommand::new("k", Bytes::from("v"), Some(Duration::from_micros(2999))).into_frame();
    assert!(matches!(Command::from_frame(frame).unwrap(), Command::SetCommand(s)
        if s.expire() == Some(Duration::from_millis(2))));
    let frame = Get::new("foo").into_frame();
    assert!(matches!(Command::from_frame(frame).unwrap(), Command::Get(g) if g.key() == "foo"));
    let frame = Publish::new("ch", Bytes::from("m")).into_frame();
    assert!(matches!(Command::from_frame(frame).unwrap(), Command::Publish(_)));
    let frame = Ping::new(Some(Bytes::from("hi"))).into_frame();
    assert!(matches!(Command::from_frame(frame).unwrap(), Command::Ping(_)));
    let frame = Subscribe::new(vec!["a".to_string(), "b".to_string()]).into_frame();
    match Command::from_frame(frame).unwrap() {
        Command::Subscribe(s) => {
            assert_eq!(s.into_channels(), vec!["a".to_string(), "b".to_string()])
        }
        other => panic!("unexpected command: {:?}", other),
    }
}

#[test]
fn command_names_are_taken_without_regard_to_case() {
    for name in ["get", "GET", "Get", "gEt"] {
        let cmd = Command::from_frame(request(&[name, "foo"])).unwrap();
        assert!(matches!(&cmd, Command::Get(g) if g.key() == "foo"));
        assert_eq!(cmd.get_name(), "get");
    }
}

#[test]
fn from_frame_reads_every_command() {
    let cmd = Command::from_frame(request(&["SET", "k", "v"])).unwrap();
    assert!(matches!(&cmd, Command::SetCommand(s)
        if s.key() == "k" && s.value() == &Bytes::from("v") && s.expire().is_none()));
    assert_eq!(cmd.get_name(), "set");
    let cmd = Command::from_frame(request(&["publish", "ch", "msg"])).unwrap();
    assert!(matches!(&cmd, Command::Publish(_)));
    assert_eq!(cmd.get_name(), "publish");
    let cmd = Command::from_frame(request(&["subscribe", "a", "b"])).unwrap();
    assert_eq!(cmd.get_name(), "subscribe");
    match cmd {
        Command::Subscribe(s) => {
            assert_eq!(s.into_channels(), vec!["a".to_string(), "b".to_string()])
        }
        other => panic!("unexpected command: {:?}", other),
    }
    let cmd = Command::from_frame(request(&["PING"])).unwrap();
    assert!(matches!(&cmd, Command::Ping(_)));
    assert_eq!(cmd.get_name(), "ping");
    let cmd = Command::from_frame(request(&["ping", "hi"])).unwrap();
    assert!(matches!(&cmd, Command::Ping(_)));
}

#[test]
fn set_with_expiry_has_an_option_word_before_the_milliseconds() {
    let frame = Frame::Array(vec![
        Frame::Bulk(Bytes::from("set")),
        Frame::Bulk(Bytes::from("k")),
        Frame::Bulk(Bytes::from("v")),
        Frame::Bulk(Bytes::from("px")),
        Frame::Integer(50),
    ]);
    let cmd = Command::from_frame(frame).unwrap();
    assert!(matches!(&cmd, Command::SetCommand(s)
        if s.expire() == Some(Duration::from_millis(50))));
    let cmd = Command::from_frame(request(&["set", "k", "v", "anything", "75"])).unwrap();
    assert!(matches!(&cmd, Command::SetCommand(s)
        if s.expire() == Some(Duration::from_millis(75))));
}

#[test]
fn set_with_faulty_expiry_fails() {
    assert!(matches!(
        Command::from_frame(request(&["set", "k", "v", "px"])),
        Err(ParseError::EndOfStream)
    ));
    assert!(matches!(
        Command::from_frame(request(&["set", "k", "v", "px", "soon"])),
        Err(ParseError::Other(_))
    ));
    assert!(matches!(
        Command::from_frame(request(&["set", "k", "v", "px", "5", "more"])),
        Err(ParseError::Other(_))
    ));
    let frame = Frame::Array(vec![
        Frame::Bulk(Bytes::from("set")),
        Frame::Bulk(Bytes::from("k")),
        Frame::Bulk(Bytes::from("v")),
        Frame::Integer(50),
    ]);
    assert!(matches!(Command::from_frame(frame), Err(ParseError::Other(_))));
}

#[test]
fn missing_fields_end_the_stream() {
    assert!(matches!(
        Command::from_frame(request(&["get"])),
        Err(ParseError::EndOfStream)
    ));
    assert!(matches!(
        Command::from_frame(request(&["set", "k"])),
        Err(ParseError::EndOfStream)
    ));
    assert!(matches!(
        Command::from_frame(request(&["publish", "ch"])),
        Err(ParseError::EndOfStream)
    ));
    assert!(matches!(
        Command::from_frame(request(&["subscribe"])),
        Err(ParseError::EndOfStream)
    ));
    assert!(matches!(
        Command::from_frame(Frame::Array(vec![])),
        Err(ParseError::EndOfStream)
    ));
}

#[test]
fn fields_of_the_wrong_kind_or_too_many_fail() {
    assert!(matches!(
        Command::from_frame(request(&["get", "a", "b"])),
        Err(ParseError::Other(_))
    ));
    assert!(matches!(
        Command::from_frame(request(&["ping", "a", "b"])),
        Err(ParseError::Other(_))
    ));
    assert!(matches!(
        Command::from_frame(Frame::Array(vec![
            Frame::Bulk(Bytes::from("get")),
            Frame::Integer(1)
        ])),
        Err(ParseError::Other(_))
    ));
    assert!(matches!(
        Command::from_frame(Frame::Array(vec![
            Frame::Bulk(Bytes::from("subscribe")),
            Frame::Bulk(Bytes::from("a")),
            Frame::Null
        ])),
        Err(ParseError::Other(_))
    ));
    assert!(matches!(
        Command::from_frame(Frame::Array(vec![Frame::Integer(1)])),
        Err(ParseError::Other(_))
    ));
    assert!(matches!(
        Command::from_frame(Frame::Simple("get".to_string())),
        Err(ParseError::Other(_))
    ));
}

#[test]
fn other_names_give_the_unknown_command() {
    let cmd = Command::from_frame(request(&["FROBNIC", "x"])).unwrap();
    assert!(matches!(&cmd, Command::Unknown(u) if u.get_name() == "frobnic"));
    assert_eq!(cmd.get_name(), "frobnic");
    let mut db = State::new();
    let (bytes, notify) = reply(cmd.apply(&mut db, 0));
    assert_eq!(bytes, b"-unknown command: 'frobnic'\r\n".to_vec());
    assert!(!notify);
}

#[test]
fn from_name_reads_the_fields_of_the_named_command() {
    let mut parse = Parse::new(request(&["foo"])).unwrap();
    let cmd = Command::from_name("get".to_string(), &mut parse).unwrap();
    assert!(matches!(&cmd, Command::Get(g) if g.key() == "foo"));
    let mut parse = Parse::new(request(&["foo"])).unwrap();
    let cmd = Command::from_name("GET".to_string(), &mut parse).unwrap();
    assert!(matches!(&cmd, Command::Unknown(u) if u.get_name() == "GET"));
    let mut parse = Parse::new(request(&[])).unwrap();
    assert!(matches!(
        Command::from_name("get".to_string(), &mut parse),
        Err(ParseError::EndOfStream)
    ));
}

#[test]
fn unknown_holds_its_name() {
    let unknown = Unknown::new("what");
    assert_eq!(unknown.get_name(), "what");
    assert_eq!(wire(&unknown.apply()), b"-unknown command: 'what'\r\n".to_vec());
}

#[test]
fn ping_answers_pong_or_the_message() {
    let mut db = State::new();
    let cmd = Command::from_frame(request(&["PING"])).unwrap();
    assert_eq!(reply(cmd.apply(&mut db, 0)), (b"+PONG\r\n".to_vec(), false));
    let cmd = Command::from_frame(request(&["PING", "hello"])).unwrap();
    assert_eq!(
        reply(cmd.apply(&mut db, 0)),
        (b"$5\r\nhello\r\n".to_vec(), false)
    );
}

#[test]
fn set_then_get_gives_the_value() {
    let mut db = State::new();
    let cmd = Command::from_frame(request(&["SET", "foo", "bar"])).unwrap();
    assert_eq!(reply(cmd.apply(&mut db, 10)), (b"+OK\r\n".to_vec(), false));
    let cmd = Command::from_frame(request(&["GET", "foo"])).unwrap();
    assert_eq!(
        reply(cmd.apply(&mut db, 20)),
        (b"$3\r\nbar\r\n".to_vec(), false)
    );
    let cmd = Command::from_frame(request(&["GET", "other"])).unwrap();
    assert_eq!(reply(cmd.apply(&mut db, 30)), (b"_\r\n".to_vec(), false));
}

#[test]
fn set_with_expiry_is_gone_after_the_purge() {
    let ms: u128 = 1_000_000;
    let mut db = State::new();
    let cmd = Command::from_frame(request(&["SET", "foo", "bar", "px", "50"])).unwrap();
    assert_eq!(reply(cmd.apply(&mut db, 0)), (b"+OK\r\n".to_vec(), true));
    assert_eq!(db.purge_expired_keys(49 * ms), Some(50 * ms));
    let cmd = Command::from_frame(request(&["GET", "foo"])).unwrap();
    assert_eq!(
        reply(cmd.apply(&mut db, 49 * ms)),
        (b"$3\r\nbar\r\n".to_vec(), false)
    );
    assert_eq!(db.purge_expired_keys(200 * ms), None);
    let cmd = Command::from_frame(request(&["GET", "foo"])).unwrap();
    assert_eq!(reply(cmd.apply(&mut db, 200 * ms)), (b"_\r\n".to_vec(), false));
}

#[test]
fn publish_reports_the_receivers() {
    let mut db = State::new();
    let cmd = Command::from_frame(request(&["PUBLISH", "ch", "hello"])).unwrap();
    assert_eq!(reply(cmd.apply(&mut db, 0)), (b":0\r\n".to_vec(), false));
    let mut subscriptions = Subscriptions::new();
    let (mut rx, ack) = subscribe_to_channel("ch".to_string(), &mut subscriptions, &mut db);
    assert_eq!(
        wire(&ack),
        b"*3\r\n$9\r\nsubscribe\r\n$2\r\nch\r\n:1\r\n".to_vec()
    );
    let cmd = Command::from_frame(request(&["PUBLISH", "ch", "hello"])).unwrap();
    assert_eq!(reply(cmd.apply(&mut db, 0)), (b":1\r\n".to_vec(), false));
    let payload = rx.try_recv().unwrap();
    let action = Subscribe::on_event(SessionEvent::Message {
        channel: "ch".to_string(),
        payload,
    });
    match action {
        SessionAction::Send(frame) => assert_eq!(
            wire(&frame),
            b"*3\r\n$7\r\nmessage\r\n$2\r\nch\r\n$5\r\nhello\r\n".to_vec()
        ),
        _ => panic!("a message must be sent on"),
    }
    drop(rx);
    let cmd = Command::from_frame(request(&["PUBLISH", "ch", "again"])).unwrap();
    assert_eq!(reply(cmd.apply(&mut db, 0)), (b":0\r\n".to_vec(), false));
}

#[test]
fn publish_response_is_the_count_as_an_integer() {
    assert_eq!(wire(&Publish::response(0)), b":0\r\n".to_vec());
    assert_eq!(wire(&Publish::response(3)), b":3\r\n".to_vec());
    assert_eq!(wire(&Publish::response(250)), b":250\r\n".to_vec());
}

#[test]
fn subscribe_opens_a_session() {
    let mut db = State::new();
    let cmd = Command::from_frame(request(&["SUBSCRIBE", "a", "b"])).unwrap();
    match cmd.apply(&mut db, 0) {
        Applied::Session { channels } => {
            assert_eq!(channels, vec!["a".to_string(), "b".to_string()])
        }
        Applied::Reply { .. } => panic!("a reply where a session was expected"),
    }
}

#[test]
fn acknowledgements_count_the_channels_once_each() {
    let mut db = State::new();
    let mut subscriptions = Subscriptions::new();
    assert_eq!(subscriptions.len(), 0);
    let (_rx1, ack) = subscribe_to_channel("a".to_string(), &mut subscriptions, &mut db);
    assert_eq!(wire(&ack), b"*3\r\n$9\r\nsubscribe\r\n$1\r\na\r\n:1\r\n".to_vec());
    let (_rx2, ack) = subscribe_to_channel("b".to_string(), &mut subscriptions, &mut db);
    assert_eq!(wire(&ack), b"*3\r\n$9\r\nsubscribe\r\n$1\r\nb\r\n:2\r\n".to_vec());
    let (_rx3, ack) = subscribe_to_channel("a".to_string(), &mut subscriptions, &mut db);
    assert_eq!(wire(&ack), b"*3\r\n$9\r\nsubscribe\r\n$1\r\na\r\n:2\r\n".to_vec());
    assert_eq!(subscriptions.len(), 2);
    assert_eq!(db.publish("a", Bytes::from("x")), 2);
    assert_eq!(db.publish("b", Bytes::from("x")), 1);
}

#[test]
fn session_frames_are_built_from_their_parts() {
    assert_eq!(
        wire(&make_subscribe_frame("news".to_string(), 3)),
        b"*3\r\n$9\r\nsubscribe\r\n$4\r\nnews\r\n:3\r\n".to_vec()
    );
    assert_eq!(
        wire(&make_message_frame("news".to_string(), Bytes::from_static(b"\x00\x01"))),
        b"*3\r\n$7\r\nmessage\r\n$4\r\nnews\r\n$2\r\n\x00\x01\r\n".to_vec()
    );
}

#[test]
fn session_ends_on_shutdown_frame_and_signals() {
    assert!(matches!(
        Subscribe::on_event(SessionEvent::Frame(Frame::Simple("shutdown".to_string()))),
        SessionAction::Finish
    ));
    assert!(matches!(
        Subscribe::on_event(SessionEvent::Closed),
        SessionAction::Finish
    ));
    assert!(matches!(
        Subscribe::on_event(SessionEvent::Shutdown),
        SessionAction::Finish
    ));
    assert!(matches!(
        Subscribe::on_event(SessionEvent::ReadError),
        SessionAction::Fail
    ));
}

#[test]
fn stream_goes_on_after_a_lag_and_ends_on_close() {
    assert!(matches!(
        on_received(Received::Message(Bytes::from("m"))),
        StreamAction::Yield(m) if m == Bytes::from("m")
    ));
    assert!(matches!(on_received(Received::Lagged(7)), StreamAction::Continue));
    assert!(matches!(on_received(Received::Lagged(0)), StreamAction::Continue));
    assert!(matches!(on_received(Received::Closed), StreamAction::End));
}

#[test]
fn session_passes_over_other_frames() {
    assert!(matches!(
        Subscribe::on_event(SessionEvent::Frame(Frame::Simple("Shutdown".to_string()))),
        SessionAction::Continue
    ));
    assert!(matches!(
        Subscribe::on_event(SessionEvent::Frame(Frame::Bulk(Bytes::from("shutdown")))),
        SessionAction::Continue
    ));
    assert!(matches!(
        Subscribe::on_event(SessionEvent::Frame(request(&["ping"]))),
        SessionAction::Continue
    ));
    assert!(matches!(
        Subscribe::on_event(SessionEvent::Frame(Frame::Null)),
        SessionAction::Continue
    ));
}
