//! `SET key value [option milliseconds]`: a value to store under a key, with
//! an optional expiry.

use crate::buf::{bytes_contents, bytes_from_string};
use crate::db::{is_set, State};
use crate::frame::{Frame, FrameView};
use crate::parse::{bytes_of, int_of, reports, text_of, Parse, ParseError, Parsed};
use crate::time::{duration_nanos, NANOS_PER_MILLI};
use bytes::Bytes;
use std::time::Duration;
use vstd::prelude::*;
use vstd::utf8::{encode_utf8, encode_utf8_decode_utf8, encode_utf8_valid_utf8};

verus! {

/// The command that stores a value under a key.
#[derive(Debug)]
pub struct SetCommand {
    key: String,
    value: Bytes,
    expire: Option<Duration>,
}

/// What a `SET` command is: the key, the value, and the span after which
/// the value expires, in nanoseconds, if it does.
pub struct SetView {
    pub key: Seq<char>,
    pub value: Seq<u8>,
    pub expire: Option<nat>,
}

/// The length of an optional span in nanoseconds.
pub open spec fn span_nanos(expire: Option<Duration>) -> Option<nat> {
    match expire {
        Some(span) => Some(duration_nanos(span)),
        None => None,
    }
}

impl View for SetCommand {
    type V = SetView;

    closed spec fn view(&self) -> SetView {
        SetView {
            key: self.key@,
            value: bytes_contents(self.value),
            expire: span_nanos(self.expire),
        }
    }
}

/// The fields of a `SET` command: a text, the key; bytes, the value; and
/// then either nothing, or an option word and the expiry in milliseconds.
/// The option word may be any text: it is read and not looked at.
pub open spec fn set_fields(args: Seq<FrameView>) -> Parsed<SetView> {
    if args.len() == 0 {
        Parsed::EndOfStream
    } else if text_of(args[0]) is None {
        Parsed::Invalid
    } else if args.len() == 1 {
        Parsed::EndOfStream
    } else if bytes_of(args[1]) is None {
        Parsed::Invalid
    } else if args.len() == 2 {
        Parsed::Done {
            value: SetView { key: text_of(args[0])->0, value: bytes_of(args[1])->0, expire: None },
            rest: args.skip(2),
        }
    } else if text_of(args[2]) is None {
        Parsed::Invalid
    } else if args.len() == 3 {
        Parsed::EndOfStream
    } else if int_of(args[3]) is None {
        Parsed::Invalid
    } else {
        Parsed::Done {
            value: SetView {
                key: text_of(args[0])->0,
                value: bytes_of(args[1])->0,
                expire: Some((int_of(args[3])->0 * NANOS_PER_MILLI) as nat),
            },
            rest: args.skip(4),
        }
    }
}

/// The expiry as it goes into a request: whole milliseconds, of which the
/// low 64 bits are sent.
pub open spec fn wire_millis(nanos: nat) -> u64 {
    ((nanos / (NANOS_PER_MILLI as nat)) % 0x1_0000_0000_0000_0000) as u64
}

/// The request that carries a `SET` command: the name, the key, the value
/// and, where the value expires, the option word `px` and the expiry in
/// milliseconds.
pub open spec fn set_request(cmd: SetView) -> FrameView {
    let fields = seq![
        FrameView::Bulk(encode_utf8("set"@)),
        FrameView::Bulk(encode_utf8(cmd.key)),
        FrameView::Bulk(cmd.value),
    ];
    match cmd.expire {
        Some(nanos) => FrameView::Array(
            fields.push(FrameView::Bulk(encode_utf8("px"@))).push(
                FrameView::Integer(wire_millis(nanos)),
            ),
        ),
        None => FrameView::Array(fields),
    }
}

/// A `SET` command as the server reads it from the request that carries it:
/// the same key and value, and the expiry cut down to what the request
/// holds of it, whole milliseconds.
pub open spec fn set_as_sent(cmd: SetView) -> SetView {
    SetView {
        key: cmd.key,
        value: cmd.value,
        expire: match cmd.expire {
            Some(nanos) => Some((wire_millis(nanos) * NANOS_PER_MILLI) as nat),
            None => None,
        },
    }
}

/// The fields of the request that carries a `SET` command are read as that
/// command, with and without an expiry, and nothing is left behind them.
pub proof fn lemma_set_request_is_read(cmd: SetView)
    ensures
        set_fields(set_request(cmd)->Array_0.skip(1)) == (Parsed::Done {
            value: set_as_sent(cmd),
            rest: Seq::<FrameView>::empty(),
        }),
{
    let args = set_request(cmd)->Array_0.skip(1);
    encode_utf8_valid_utf8(cmd.key);
    encode_utf8_decode_utf8(cmd.key);
    encode_utf8_valid_utf8("px"@);
    assert(args[0] == FrameView::Bulk(encode_utf8(cmd.key)));
    assert(args[1] == FrameView::Bulk(cmd.value));
    match cmd.expire {
        Some(nanos) => {
            assert(args.len() == 4);
            assert(args[2] == FrameView::Bulk(encode_utf8("px"@)));
            assert(args[3] == FrameView::Integer(wire_millis(nanos)));
            assert(args.skip(4) =~= Seq::<FrameView>::empty());
        },
        None => {
            assert(args.len() == 2);
            assert(args.skip(2) =~= Seq::<FrameView>::empty());
        },
    }
}

/// An expiry of whole milliseconds goes into the request as it is.
pub proof fn lemma_whole_millis_are_sent(millis: u64)
    ensures
        wire_millis((millis * NANOS_PER_MILLI) as nat) == millis,
{
    assert((millis * 1_000_000) / 1_000_000 == millis) by (nonlinear_arith);
}

/// The instant at which a value expires that is stored at `now` to expire
/// after `expire` nanoseconds.
pub open spec fn deadline(now: u128, expire: Option<nat>) -> Option<u128> {
    match expire {
        Some(nanos) => Some((now + nanos) as u128),
        None => None,
    }
}

impl SetCommand {
    /// The command that stores `value` under `key`, to expire after `expire`
    /// if that is a span.
    pub fn new(key: &str, value: Bytes, expire: Option<Duration>) -> (r: SetCommand)
        ensures
            r@ == (SetView {
                key: key@,
                value: bytes_contents(value),
                expire: span_nanos(expire),
            }),
    {
        SetCommand { key: key.to_owned(), value, expire }
    }

    /// The key.
    pub fn key(&self) -> (r: &str)
        ensures
            r@ == self@.key,
    {
        self.key.as_str()
    }

    /// The value.
    pub fn value(&self) -> (r: &Bytes)
        ensures
            bytes_contents(*r) == self@.value,
    {
        &self.value
    }

    /// The span after which the value expires, if it does.
    pub fn expire(&self) -> (r: Option<Duration>)
        ensures
            span_nanos(r) == self@.expire,
    {
        self.expire
    }

    /// Stores the value in `db` at the instant `now` and returns the reply,
    /// `OK`, with the word of whether the purger must be woken.
    pub fn apply(self, db: &mut State, now: u128) -> (r: (Frame, bool))
        requires
            old(db).wf(),
            self@.expire is Some ==> now + self@.expire->0 <= u128::MAX,
        ensures
            final(db).wf(),
            is_set(old(db)@, final(db)@, self@.key, self@.value, deadline(now, self@.expire)),
            r.0@ == FrameView::Simple("OK"@),
            r.1 == (self@.expire is Some && match old(db)@.next_expiration() {
                Some(earliest) => now + self@.expire->0 < earliest,
                None => true,
            }),
    {
        let notify = db.set(self.key, self.value, self.expire, now);
        (Frame::Simple("OK".to_owned()), notify)
    }

    /// Reads the fields of a `SET` command, whose name was read already.
    pub fn parse_frame(parse: &mut Parse) -> (r: Result<SetCommand, ParseError>)
        ensures
            reports(r, set_fields(old(parse).remaining())),
            r is Ok ==> final(parse).remaining() == set_fields(old(parse).remaining())->rest,
    {
        let ghost args = parse.remaining();
        let key = match parse.next_string() {
            Ok(key) => key,
            Err(e) => {
                return Err(e);
            },
        };
        let value = match parse.next_bytes() {
            Ok(value) => value,
            Err(e) => {
                return Err(e);
            },
        };
        assert(args.skip(1).skip(1) =~= args.skip(2));
        let mut expire: Option<Duration> = None;
        match parse.next_string() {
            Ok(_) => {
                assert(args.skip(2).skip(1) =~= args.skip(3));
                let ms = match parse.next_int() {
                    Ok(ms) => ms,
                    Err(e) => {
                        return Err(e);
                    },
                };
                assert(args.skip(3).skip(1) =~= args.skip(4));
                expire = Some(Duration::from_millis(ms));
            },
            Err(ParseError::EndOfStream) => {},
            Err(e) => {
                return Err(e);
            },
        }
        Ok(SetCommand { key, value, expire })
    }

    /// The request that carries this command.
    pub fn into_frame(self) -> (frame: Frame)
        ensures
            frame@ == set_request(self@),
    {
        let mut frame = Frame::array();
        frame.push_bulk(Bytes::copy_from_slice("set".as_bytes()));
        frame.push_bulk(bytes_from_string(self.key));
        frame.push_bulk(self.value);
        match self.expire {
            Some(span) => {
                let millis: u128 = span.as_millis() % 0x1_0000_0000_0000_0000;
                frame.push_bulk(Bytes::copy_from_slice("px".as_bytes()));
                frame.push_int(millis as u64);
            },
            None => {},
        }
        assert(frame@->Array_0 =~= set_request(self@)->Array_0);
        frame
    }
}

} // verus!
