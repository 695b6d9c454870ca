//! The rules of the client: what a reply from the server means for the call
//! that awaits it.

use crate::buf::{bytes_contents, bytes_from_string};
use crate::frame::{display_text, Frame, FrameView};
use bytes::Bytes;
use vstd::prelude::*;
use vstd::utf8::encode_utf8;

verus! {

/// A message that was published on a channel.
#[derive(Debug, Clone)]
pub struct Message {
    pub channel: String,
    pub content: Bytes,
}

/// Why a call of the client failed.
#[derive(Debug)]
pub enum ClientError {
    /// The server replied with an error frame; this is its text.
    Server(String),
    /// The server replied with a frame that is no reply to the call; the
    /// text tells of it.
    Unexpected(String),
    /// The server closed the connection.
    ConnectionReset,
}

impl ClientError {
    /// The error as a line of text.
    pub fn to_string(&self) -> (r: String)
        ensures
            r@ == match *self {
                ClientError::Server(text) => text@,
                ClientError::Unexpected(text) => text@,
                ClientError::ConnectionReset => "connection reset by server"@,
            },
    {
        match self {
            ClientError::Server(text) => text.clone(),
            ClientError::Unexpected(text) => text.clone(),
            ClientError::ConnectionReset => "connection reset by server".to_owned(),
        }
    }
}

/// Whether `r` fails for an unexpected `frame`.
pub open spec fn is_unexpected<T>(r: Result<T, ClientError>, frame: FrameView) -> bool {
    r is Err && r->Err_0 is Unexpected && r->Err_0->Unexpected_0@ == "unexpected frame: "@
        + display_text(frame)
}

fn unexpected(frame: &Frame) -> (e: ClientError)
    ensures
        e is Unexpected,
        e->Unexpected_0@ == "unexpected frame: "@ + display_text(frame@),
{
    ClientError::Unexpected(frame.to_error())
}

/// Judges what was read where a reply is awaited: a frame is the reply,
/// unless it is an error frame, which is the server's error; the end of the
/// stream is the loss of the connection.
pub fn read_response(response: Option<Frame>) -> (r: Result<Frame, ClientError>)
    ensures
        match response {
            Some(Frame::Error(text)) => r is Err && r->Err_0 is Server && r->Err_0->Server_0@
                == text@,
            Some(frame) => r is Ok && r->Ok_0@ == frame@,
            None => r is Err && r->Err_0 is ConnectionReset,
        },
{
    match response {
        Some(Frame::Error(text)) => Err(ClientError::Server(text)),
        Some(frame) => Ok(frame),
        None => Err(ClientError::ConnectionReset),
    }
}

/// The value that the reply to `GET` holds: the text or payload of the
/// frame, or none for the null frame.
pub fn get_reply(frame: Frame) -> (r: Result<Option<Bytes>, ClientError>)
    ensures
        match frame@ {
            FrameView::Simple(text) => r is Ok && r->Ok_0 is Some && bytes_contents(r->Ok_0->0)
                == encode_utf8(text),
            FrameView::Bulk(data) => r is Ok && r->Ok_0 is Some && bytes_contents(r->Ok_0->0)
                == data,
            FrameView::Null => r is Ok && r->Ok_0 is None,
            _ => is_unexpected(r, frame@),
        },
{
    match frame {
        Frame::Simple(value) => Ok(Some(bytes_from_string(value))),
        Frame::Bulk(value) => Ok(Some(value)),
        Frame::Null => Ok(None),
        frame => Err(unexpected(&frame)),
    }
}

/// Judges the reply to `SET`, which must be the simple frame `OK`.
pub fn set_reply(frame: Frame) -> (r: Result<(), ClientError>)
    ensures
        frame@ == FrameView::Simple("OK"@) ==> r is Ok,
        frame@ != FrameView::Simple("OK"@) ==> is_unexpected(r, frame@),
{
    if frame.eq_str("OK") {
        match frame {
            Frame::Simple(_) => {
                return Ok(());
            },
            _ => {},
        }
    }
    Err(unexpected(&frame))
}

/// The number of receivers that the reply to `PUBLISH` holds.
pub fn publish_reply(frame: Frame) -> (r: Result<u64, ClientError>)
    ensures
        match frame@ {
            FrameView::Integer(n) => r == Ok::<u64, ClientError>(n),
            _ => is_unexpected(r, frame@),
        },
{
    match frame {
        Frame::Integer(response) => Ok(response),
        frame => Err(unexpected(&frame)),
    }
}

/// The payload that the reply to `PING` holds.
pub fn ping_reply(frame: Frame) -> (r: Result<Bytes, ClientError>)
    ensures
        match frame@ {
            FrameView::Simple(text) => r is Ok && bytes_contents(r->Ok_0) == encode_utf8(text),
            FrameView::Bulk(data) => r is Ok && bytes_contents(r->Ok_0) == data,
            _ => is_unexpected(r, frame@),
        },
{
    match frame {
        Frame::Simple(value) => Ok(bytes_from_string(value)),
        Frame::Bulk(value) => Ok(value),
        frame => Err(unexpected(&frame)),
    }
}

/// Whether `frame`, as a text or a payload, reads `text`.
pub open spec fn reads(frame: FrameView, text: Seq<char>) -> bool {
    match frame {
        FrameView::Simple(held) => held == text,
        FrameView::Bulk(data) => data == encode_utf8(text),
        _ => false,
    }
}

/// Whether `frame` acknowledges the subscription to `channel`: an array
/// whose first two items read `subscribe` and the channel.
pub open spec fn acknowledges(frame: FrameView, channel: Seq<char>) -> bool {
    &&& frame is Array
    &&& frame->Array_0.len() >= 2
    &&& reads(frame->Array_0[0], "subscribe"@)
    &&& reads(frame->Array_0[1], channel)
}

/// Judges the reply to the subscription to `channel`.
pub fn subscribe_reply(response: &Frame, channel: &str) -> (r: Result<(), ClientError>)
    ensures
        acknowledges(response@, channel@) ==> r is Ok,
        !acknowledges(response@, channel@) ==> is_unexpected(r, response@),
{
    match response {
        Frame::Array(items) => {
            proof {
                crate::frame::lemma_array_view(*items);
            }
            if items.len() >= 2 && items[0].eq_str("subscribe") && items[1].eq_str(channel) {
                return Ok(());
            }
        },
        _ => {},
    }
    Err(unexpected(response))
}

/// Whether `frame` hands over a message: an array of three items, the first
/// of which reads `message`.
pub open spec fn is_message(frame: FrameView) -> bool {
    &&& frame is Array
    &&& frame->Array_0.len() == 3
    &&& reads(frame->Array_0[0], "message"@)
}

/// The content that an item of a message frame holds: the payload of a bulk
/// frame, byte for byte, and of any other frame the line of text that it
/// shows as.
pub open spec fn content_of(item: FrameView) -> Seq<u8> {
    match item {
        FrameView::Bulk(data) => data,
        _ => encode_utf8(display_text(item)),
    }
}

/// The message that `frame` hands over to a subscriber: the channel is the
/// second item as the line of text that it shows as, the content is what the
/// third item holds.
pub fn message_of(frame: Frame) -> (r: Result<Message, ClientError>)
    ensures
        is_message(frame@) ==> r is Ok && r->Ok_0.channel@ == display_text(frame@->Array_0[1])
            && bytes_contents(r->Ok_0.content) == content_of(frame@->Array_0[2]),
        !is_message(frame@) ==> is_unexpected(r, frame@),
{
    match &frame {
        Frame::Array(items) => {
            proof {
                crate::frame::lemma_array_view(*items);
            }
            if items.len() == 3 && items[0].eq_str("message") {
                let content = match &items[2] {
                    Frame::Bulk(data) => data.clone(),
                    other => bytes_from_string(other.to_string()),
                };
                return Ok(Message { channel: items[1].to_string(), content });
            }
        },
        _ => {},
    }
    Err(unexpected(&frame))
}

/// The frame by which a subscriber tells the server that it leaves.
pub fn ctrlc_frame() -> (frame: Frame)
    ensures
        frame@ == FrameView::Simple("shutdown"@),
{
    Frame::Simple("shutdown".to_owned())
}

} // verus!
