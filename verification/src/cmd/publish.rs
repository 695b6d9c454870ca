//! `PUBLISH channel message`: a message for the subscribers of a channel.

use crate::buf::{bytes_contents, bytes_from_string};
use crate::db::State;
use crate::frame::{Frame, FrameView};
use crate::parse::{bytes_of, reports, text_of, Parse, ParseError, Parsed};
use bytes::Bytes;
use vstd::prelude::*;
use vstd::utf8::{encode_utf8, encode_utf8_decode_utf8, encode_utf8_valid_utf8};

verus! {

/// The command that publishes a message on a channel.
#[derive(Debug)]
pub struct Publish {
    channel: String,
    message: Bytes,
}

/// What a `Publish` command is: the channel and the message.
pub struct PublishView {
    pub channel: Seq<char>,
    pub message: Seq<u8>,
}

impl View for Publish {
    type V = PublishView;

    closed spec fn view(&self) -> PublishView {
        PublishView { channel: self.channel@, message: bytes_contents(self.message) }
    }
}

/// The fields of a `PUBLISH` command: a text, the channel, and bytes, the
/// message.
pub open spec fn publish_fields(args: Seq<FrameView>) -> Parsed<PublishView> {
    if args.len() == 0 {
        Parsed::EndOfStream
    } else if text_of(args[0]) is None {
        Parsed::Invalid
    } else if args.len() == 1 {
        Parsed::EndOfStream
    } else if bytes_of(args[1]) is None {
        Parsed::Invalid
    } else {
        Parsed::Done {
            value: PublishView { channel: text_of(args[0])->0, message: bytes_of(args[1])->0 },
            rest: args.skip(2),
        }
    }
}

/// The request that carries a `PUBLISH` command.
pub open spec fn publish_request(cmd: PublishView) -> FrameView {
    FrameView::Array(
        seq![
            FrameView::Bulk(encode_utf8("publish"@)),
            FrameView::Bulk(encode_utf8(cmd.channel)),
            FrameView::Bulk(cmd.message),
        ],
    )
}

/// The fields of the request that carries a `PUBLISH` command are read as
/// that command, and nothing is left behind them.
pub proof fn lemma_publish_request_is_read(cmd: PublishView)
    ensures
        publish_fields(publish_request(cmd)->Array_0.skip(1)) == (Parsed::Done {
            value: cmd,
            rest: Seq::<FrameView>::empty(),
        }),
{
    let args = publish_request(cmd)->Array_0.skip(1);
    encode_utf8_valid_utf8(cmd.channel);
    encode_utf8_decode_utf8(cmd.channel);
    assert(args[0] == FrameView::Bulk(encode_utf8(cmd.channel)));
    assert(args[1] == FrameView::Bulk(cmd.message));
    assert(args.skip(2) =~= Seq::<FrameView>::empty());
}

impl Publish {
    /// The command that publishes `message` on `channel`.
    pub fn new(channel: &str, message: Bytes) -> (r: Publish)
        ensures
            r@ == (PublishView { channel: channel@, message: bytes_contents(message) }),
    {
        Publish { channel: channel.to_owned(), message }
    }

    /// Reads the fields of a `PUBLISH` command, whose name was read already.
    pub fn parse_frames(parse: &mut Parse) -> (r: Result<Publish, ParseError>)
        ensures
            reports(r, publish_fields(old(parse).remaining())),
            r is Ok ==> final(parse).remaining() == publish_fields(old(parse).remaining())->rest,
    {
        let channel = match parse.next_string() {
            Ok(channel) => channel,
            Err(e) => {
                return Err(e);
            },
        };
        let message = match parse.next_bytes() {
            Ok(message) => message,
            Err(e) => {
                return Err(e);
            },
        };
        assert(old(parse).remaining().skip(1).skip(1) =~= old(parse).remaining().skip(2));
        Ok(Publish { channel, message })
    }

    /// The reply to a message that reached `num_subscribers` receivers: that
    /// number as an integer frame.
    pub fn response(num_subscribers: usize) -> (response: Frame)
        ensures
            response@ == FrameView::Integer(num_subscribers as u64),
    {
        Frame::Integer(num_subscribers as u64)
    }

    /// Publishes the message in `db` and returns the reply: the number of
    /// receivers that the message reached, as the channel reports it, which
    /// is zero where the channel does not exist.
    pub fn apply(self, db: &State) -> (response: Frame)
        ensures
            response@ is Integer,
            !db@.channels().contains(self@.channel) ==> response@ == FrameView::Integer(0),
    {
        let num_subscribers = db.publish(self.channel.as_str(), self.message);
        Publish::response(num_subscribers)
    }

    /// The request that carries this command.
    pub fn into_frame(self) -> (frame: Frame)
        ensures
            frame@ == publish_request(self@),
    {
        let mut frame = Frame::array();
        frame.push_bulk(Bytes::copy_from_slice("publish".as_bytes()));
        frame.push_bulk(bytes_from_string(self.channel));
        frame.push_bulk(self.message);
        assert(frame@->Array_0 =~= publish_request(self@)->Array_0);
        frame
    }
}

} // verus!
