//! `PING [message]`: a test of the connection.

use crate::buf::bytes_contents;
use crate::frame::{Frame, FrameView};
use crate::parse::{bytes_of, reports, Parse, ParseError, Parsed};
use bytes::Bytes;
use vstd::prelude::*;
use vstd::utf8::encode_utf8;

verus! {

/// The command that tests the connection.
#[derive(Debug)]
pub struct Ping {
    msg: Option<Bytes>,
}

/// What a `Ping` command is: the message to send back, if there is one.
pub struct PingView {
    pub msg: Option<Seq<u8>>,
}

impl View for Ping {
    type V = PingView;

    closed spec fn view(&self) -> PingView {
        PingView {
            msg: match self.msg {
                Some(msg) => Some(bytes_contents(msg)),
                None => None,
            },
        }
    }
}

/// The fields of a `PING` command: nothing, or the message.
pub open spec fn ping_fields(args: Seq<FrameView>) -> Parsed<PingView> {
    if args.len() == 0 {
        Parsed::Done { value: PingView { msg: None }, rest: args }
    } else {
        match bytes_of(args[0]) {
            Some(msg) => Parsed::Done { value: PingView { msg: Some(msg) }, rest: args.skip(1) },
            None => Parsed::Invalid,
        }
    }
}

/// The reply to `PING`: `PONG` without a message, and the message as a bulk
/// frame with one.
pub open spec fn ping_response(cmd: PingView) -> FrameView {
    match cmd.msg {
        Some(msg) => FrameView::Bulk(msg),
        None => FrameView::Simple("PONG"@),
    }
}

/// The request that carries a `PING` command.
pub open spec fn ping_request(cmd: PingView) -> FrameView {
    match cmd.msg {
        Some(msg) => FrameView::Array(
            seq![FrameView::Bulk(encode_utf8("ping"@)), FrameView::Bulk(msg)],
        ),
        None => FrameView::Array(seq![FrameView::Bulk(encode_utf8("ping"@))]),
    }
}

/// The fields of the request that carries a `PING` command are read as that
/// command, and nothing is left behind them.
pub proof fn lemma_ping_request_is_read(cmd: PingView)
    ensures
        ping_fields(ping_request(cmd)->Array_0.skip(1)) == (Parsed::Done {
            value: cmd,
            rest: Seq::<FrameView>::empty(),
        }),
{
    let args = ping_request(cmd)->Array_0.skip(1);
    match cmd.msg {
        Some(msg) => {
            assert(args[0] == FrameView::Bulk(msg));
            assert(args.skip(1) =~= Seq::<FrameView>::empty());
        },
        None => {
            assert(args =~= Seq::<FrameView>::empty());
        },
    }
}

impl Ping {
    /// The command that sends `msg`, or none, to be sent back.
    pub fn new(msg: Option<Bytes>) -> (r: Ping)
        ensures
            r@.msg == match msg {
                Some(msg) => Some(bytes_contents(msg)),
                None => None,
            },
    {
        Ping { msg }
    }

    /// Reads the fields of a `PING` command, whose name was read already.
    pub fn parse_frames(parse: &mut Parse) -> (r: Result<Ping, ParseError>)
        ensures
            reports(r, ping_fields(old(parse).remaining())),
            r is Ok ==> final(parse).remaining() == ping_fields(old(parse).remaining())->rest,
    {
        match parse.next_bytes() {
            Ok(msg) => Ok(Ping { msg: Some(msg) }),
            Err(ParseError::EndOfStream) => Ok(Ping { msg: None }),
            Err(e) => Err(e),
        }
    }

    /// Returns the reply.
    pub fn apply(self) -> (response: Frame)
        ensures
            response@ == ping_response(self@),
    {
        match self.msg {
            None => Frame::Simple("PONG".to_owned()),
            Some(msg) => Frame::Bulk(msg),
        }
    }

    /// The request that carries this command.
    pub fn into_frame(self) -> (frame: Frame)
        ensures
            frame@ == ping_request(self@),
    {
        let mut frame = Frame::array();
        frame.push_bulk(Bytes::copy_from_slice("ping".as_bytes()));
        match self.msg {
            Some(msg) => {
                frame.push_bulk(msg);
            },
            None => {},
        }
        assert(frame@->Array_0 =~= ping_request(self@)->Array_0);
        frame
    }
}

} // verus!
