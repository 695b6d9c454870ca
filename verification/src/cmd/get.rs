//! `GET key`: the value stored under a key.

use crate::buf::bytes_from_string;
use crate::db::{State, StateView};
use crate::frame::{Frame, FrameView};
use crate::parse::{reports, text_of, Parse, ParseError, Parsed};
use bytes::Bytes;
use vstd::prelude::*;
use vstd::utf8::{encode_utf8, encode_utf8_decode_utf8, encode_utf8_valid_utf8};

verus! {

/// The command that asks for the value stored under a key.
#[derive(Debug)]
pub struct Get {
    key: String,
}

/// What a `Get` command is: the key it asks for.
pub struct GetView {
    pub key: Seq<char>,
}

impl View for Get {
    type V = GetView;

    closed spec fn view(&self) -> GetView {
        GetView { key: self.key@ }
    }
}

/// The fields of a `GET` command: one text, the key.
pub open spec fn get_fields(args: Seq<FrameView>) -> Parsed<GetView> {
    if args.len() == 0 {
        Parsed::EndOfStream
    } else {
        match text_of(args[0]) {
            Some(key) => Parsed::Done { value: GetView { key }, rest: args.skip(1) },
            None => Parsed::Invalid,
        }
    }
}

/// The reply to `GET key`: the stored value as a bulk frame, or the null
/// frame where nothing is stored under the key.
pub open spec fn get_response(db: StateView, key: Seq<char>) -> FrameView {
    if db.entries.contains_key(key) {
        FrameView::Bulk(db.entries[key].data)
    } else {
        FrameView::Null
    }
}

/// The request that carries a `GET` command.
pub open spec fn get_request(cmd: GetView) -> FrameView {
    FrameView::Array(
        seq![FrameView::Bulk(encode_utf8("get"@)), FrameView::Bulk(encode_utf8(cmd.key))],
    )
}

/// The fields of the request that carries a `GET` command are read as that
/// command, and nothing is left behind them.
pub proof fn lemma_get_request_is_read(cmd: GetView)
    ensures
        get_fields(get_request(cmd)->Array_0.skip(1)) == (Parsed::Done {
            value: cmd,
            rest: Seq::<FrameView>::empty(),
        }),
{
    let args = get_request(cmd)->Array_0.skip(1);
    encode_utf8_valid_utf8(cmd.key);
    encode_utf8_decode_utf8(cmd.key);
    assert(args[0] == FrameView::Bulk(encode_utf8(cmd.key)));
    assert(args.skip(1) =~= Seq::<FrameView>::empty());
}

impl Get {
    /// The command that asks for the value under `key`.
    pub fn new(key: &str) -> (r: Get)
        ensures
            r@.key == key@,
    {
        Get { key: key.to_owned() }
    }

    /// The key that the command asks for.
    pub fn key(&self) -> (r: &str)
        ensures
            r@ == self@.key,
    {
        self.key.as_str()
    }

    /// Looks the key up in `db` and returns the reply.
    pub fn apply(self, db: &State) -> (response: Frame)
        ensures
            response@ == get_response(db@, self@.key),
    {
        match db.get(self.key.as_str()) {
            Some(value) => Frame::Bulk(value),
            None => Frame::Null,
        }
    }

    /// Reads the fields of a `GET` command, whose name was read already.
    pub fn parse_frame(parse: &mut Parse) -> (r: Result<Get, ParseError>)
        ensures
            reports(r, get_fields(old(parse).remaining())),
            r is Ok ==> final(parse).remaining() == get_fields(old(parse).remaining())->rest,
    {
        match parse.next_string() {
            Ok(key) => Ok(Get { key }),
            Err(e) => Err(e),
        }
    }

    /// The request that carries this command.
    pub fn into_frame(self) -> (frame: Frame)
        ensures
            frame@ == get_request(self@),
    {
        let mut frame = Frame::array();
        frame.push_bulk(Bytes::copy_from_slice("get".as_bytes()));
        frame.push_bulk(bytes_from_string(self.key));
        assert(frame@->Array_0 =~= get_request(self@)->Array_0);
        frame
    }
}

} // verus!
