use bytes::Bytes;
use my_redis::connection::{write_frame, ReadBuffer};
use my_redis::frame::{Error, Frame};

fn encoded(frames: &[Frame]) -> Vec<u8> {
    let mut out = Vec::new();
    for frame in frames {
        write_frame(&mut out, frame);
    }
    out
}

fn one(frame: &Frame) -> Vec<u8> {
    encoded(std::slice::from_ref(frame))
}

#[test]
fn read_buffer_waits_for_whole_frame() {
    let mut buffer = ReadBuffer::new();
    let bytes = b":42\r\n";
    for (i, b) in bytes.iter().enumerate() {
        buffer.extend(&[*b]);
        let got = buffer.parse_frame().unwrap();
        if i + 1 < bytes.len() {
            assert!(got.is_none());
        } else {
            assert!(matches!(got, Some(Frame::Integer(42))));
        }
    }
    assert!(buffer.is_empty());
}

#[test]
fn bytes_fed_one_at_a_time_give_the_frames_in_order() {
    let frames = vec![
        Frame::Array(vec![
            Frame::Bulk(Bytes::from("SET")),
            Frame::Bulk(Bytes::from("foo")),
            Frame::Bulk(Bytes::from("bar\r\nbaz")),
        ]),
        Frame::Simple("OK".to_string()),
        Frame::Null,
        Frame::Integer(7),
        Frame::Array(vec![Frame::Array(vec![Frame::Error("deep".to_string())])]),
        Frame::Bulk(Bytes::new()),
    ];
    let stream = encoded(&frames);
    let mut buffer = ReadBuffer::new();
    let mut seen: Vec<Frame> = Vec::new();
    for b in stream.iter() {
        buffer.extend(&[*b]);
        match buffer.parse_frame() {
            Ok(Some(frame)) => {
                assert!(buffer.is_empty());
                seen.push(frame);
            }
            Ok(None) => {}
            Err(e) => panic!("a short state was reported as an error: {:?}", e),
        }
    }
    assert_eq!(seen.len(), frames.len());
    for (got, want) in seen.iter().zip(frames.iter()) {
        assert_eq!(one(got), one(want));
    }
    assert!(buffer.is_empty());
    assert!(buffer.end_of_stream().is_ok());
}

#[test]
fn several_frames_in_one_chunk_come_out_one_by_one() {
    let mut buffer = ReadBuffer::new();
    buffer.extend(b"+a\r\n:2\r\n$1\r\nc");
    assert!(matches!(buffer.parse_frame(), Ok(Some(Frame::Simple(s))) if s == "a"));
    assert!(matches!(buffer.parse_frame(), Ok(Some(Frame::Integer(2)))));
    assert!(matches!(buffer.parse_frame(), Ok(None)));
    assert!(!buffer.is_empty());
    buffer.extend(b"\r\n");
    assert!(matches!(buffer.parse_frame(), Ok(Some(Frame::Bulk(b))) if &b[..] == b"c"));
    assert!(buffer.is_empty());
}

#[test]
fn faulty_bytes_are_an_error_and_stay_buffered() {
    let mut buffer = ReadBuffer::new();
    buffer.extend(b"?nonsense\r\n");
    assert!(matches!(buffer.parse_frame(), Err(Error::Other(_))));
    assert!(!buffer.is_empty());
    let mut buffer = ReadBuffer::new();
    buffer.extend(b"+\xff\r\n");
    assert!(matches!(buffer.parse_frame(), Err(Error::Other(_))));
    assert!(!buffer.is_empty());
}

#[test]
fn end_of_stream_in_mid_frame_is_an_error() {
    let mut buffer = ReadBuffer::new();
    assert!(buffer.end_of_stream().is_ok());
    buffer.extend(b"$5\r\nhel");
    assert!(matches!(buffer.parse_frame(), Ok(None)));
    assert!(matches!(buffer.end_of_stream(), Err(Error::Other(_))));
}
