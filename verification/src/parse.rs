//! Reading the fields of a command, one after the other, out of the array
//! frame that carries it.

use crate::buf::{bytes_as_slice, bytes_contents, bytes_from_string};
use crate::decimal::{decimal_value, parse_decimal};
use crate::frame::{frame_views, lemma_array_view, Frame, FrameView};
use crate::text::str_from_utf8;
use bytes::Bytes;
use vstd::prelude::*;
use vstd::utf8::{decode_utf8, encode_utf8, valid_utf8};

verus! {

/// A reader over the items of an array frame.
///
/// The items are kept last first, so that the next one is taken off the end.
#[derive(Debug)]
pub struct Parse {
    parts: Vec<Frame>,
}

/// Why a field could not be read.
#[derive(Debug)]
pub enum ParseError {
    /// No item is left.
    EndOfStream,
    /// The item is not what was asked for; the text says why.
    Other(String),
}

/// The text that a frame stands for as a field: a simple frame's text, or a
/// bulk frame's payload where it is valid UTF-8.
pub open spec fn text_of(frame: FrameView) -> Option<Seq<char>> {
    match frame {
        FrameView::Simple(text) => Some(text),
        FrameView::Bulk(data) => if valid_utf8(data) {
            Some(decode_utf8(data))
        } else {
            None
        },
        _ => None,
    }
}

/// The bytes that a frame stands for as a field: a simple frame's text in
/// UTF-8, or a bulk frame's payload.
pub open spec fn bytes_of(frame: FrameView) -> Option<Seq<u8>> {
    match frame {
        FrameView::Simple(text) => Some(encode_utf8(text)),
        FrameView::Bulk(data) => Some(data),
        _ => None,
    }
}

/// The number that a frame stands for as a field: an integer frame's value,
/// or the unsigned 64-bit decimal number that a simple or bulk frame spells.
pub open spec fn int_of(frame: FrameView) -> Option<u64> {
    match frame {
        FrameView::Integer(n) => Some(n),
        FrameView::Simple(text) => decimal_value(encode_utf8(text)),
        FrameView::Bulk(data) => decimal_value(data),
        _ => None,
    }
}

/// What reading the fields of a command from the items that are left comes
/// to.
pub enum Parsed<T> {
    /// The fields are there: they make up `value`, and `rest` is what is
    /// left behind them.
    Done { value: T, rest: Seq<FrameView> },
    /// The items end before the fields do.
    EndOfStream,
    /// An item is not the field that has its place.
    Invalid,
}

/// Whether `r` is what reading comes to under `outcome`: the value on
/// success, and the matching error otherwise.
pub open spec fn reports<C: View>(r: Result<C, ParseError>, outcome: Parsed<C::V>) -> bool {
    match outcome {
        Parsed::Done { value, rest } => r is Ok && r->Ok_0@ == value,
        Parsed::EndOfStream => r is Err && r->Err_0 is EndOfStream,
        Parsed::Invalid => r is Err && r->Err_0 is Other,
    }
}

/// `outcome`, which fails where items are left behind the fields.
pub open spec fn finished<T>(outcome: Parsed<T>) -> Parsed<T> {
    match outcome {
        Parsed::Done { value, rest } => if rest.len() == 0 {
            outcome
        } else {
            Parsed::Invalid
        },
        _ => outcome,
    }
}

/// The items of `items`, last first.
fn reversed(items: Vec<Frame>) -> (r: Vec<Frame>)
    ensures
        r@ == items@.reverse(),
{
    let mut items = items;
    let ghost all = items@;
    let mut out: Vec<Frame> = Vec::new();
    while items.len() > 0
        invariant
            items@.len() + out@.len() == all.len(),
            items@ == all.take(items@.len() as int),
            forall|j: int| 0 <= j < out@.len() ==> out@[j] == all[all.len() - 1 - j],
        decreases items.len(),
    {
        let last = items.pop().unwrap();
        out.push(last);
    }
    assert(out@ =~= all.reverse());
    out
}

impl Parse {
    /// The items that are still to be read, next one first.
    pub closed spec fn remaining(&self) -> Seq<FrameView> {
        frame_views(self.parts@.reverse())
    }

    /// Starts reading the items of `frame`, which must be an array.
    pub fn new(frame: Frame) -> (r: Result<Parse, ParseError>)
        ensures
            frame is Array ==> r is Ok && r->Ok_0.remaining() == frame@->Array_0,
            !(frame is Array) ==> r is Err && r->Err_0 is Other,
    {
        match frame {
            Frame::Array(items) => {
                proof {
                    lemma_array_view(items);
                }
                let parts = reversed(items);
                assert(parts@.reverse() =~= items@);
                Ok(Parse { parts })
            },
            _ => Err(ParseError::Other("protocol error; expected array".to_owned())),
        }
    }

    /// Takes the next item.
    fn next(&mut self) -> (r: Result<Frame, ParseError>)
        ensures
            old(self).remaining().len() == 0 ==> r is Err && r->Err_0 is EndOfStream
                && final(self).remaining() == old(self).remaining(),
            old(self).remaining().len() > 0 ==> r is Ok && r->Ok_0@ == old(self).remaining()[0]
                && final(self).remaining() == old(self).remaining().skip(1),
    {
        match self.parts.pop() {
            Some(frame) => {
                assert(self.remaining() =~= old(self).remaining().skip(1));
                Ok(frame)
            },
            None => Err(ParseError::EndOfStream),
        }
    }

    /// Takes the next item as a text.
    ///
    /// Fails with `EndOfStream` when no item is left, and with another error
    /// when the item is neither a simple frame nor a bulk frame of valid
    /// UTF-8. The item is taken in either case.
    pub fn next_string(&mut self) -> (r: Result<String, ParseError>)
        ensures
            old(self).remaining().len() == 0 ==> r is Err && r->Err_0 is EndOfStream
                && final(self).remaining() == old(self).remaining(),
            old(self).remaining().len() > 0 ==> final(self).remaining() == old(
                self,
            ).remaining().skip(1) && match text_of(old(self).remaining()[0]) {
                Some(text) => r is Ok && r->Ok_0@ == text,
                None => r is Err && r->Err_0 is Other,
            },
    {
        let frame = match self.next() {
            Ok(frame) => frame,
            Err(e) => {
                return Err(e);
            },
        };
        match frame {
            Frame::Simple(text) => Ok(text),
            Frame::Bulk(data) => match str_from_utf8(bytes_as_slice(&data)) {
                Some(text) => Ok(text.to_owned()),
                None => Err(ParseError::Other("protocol error; invalid string".to_owned())),
            },
            _ => Err(
                ParseError::Other(
                    "protocol error; expected simple frame or bulk frame".to_owned(),
                ),
            ),
        }
    }

    /// Takes the next item as bytes.
    ///
    /// Fails with `EndOfStream` when no item is left, and with another error
    /// when the item is neither a simple nor a bulk frame. The item is taken
    /// in either case.
    pub fn next_bytes(&mut self) -> (r: Result<Bytes, ParseError>)
        ensures
            old(self).remaining().len() == 0 ==> r is Err && r->Err_0 is EndOfStream
                && final(self).remaining() == old(self).remaining(),
            old(self).remaining().len() > 0 ==> final(self).remaining() == old(
                self,
            ).remaining().skip(1) && match bytes_of(old(self).remaining()[0]) {
                Some(data) => r is Ok && bytes_contents(r->Ok_0) == data,
                None => r is Err && r->Err_0 is Other,
            },
    {
        let frame = match self.next() {
            Ok(frame) => frame,
            Err(e) => {
                return Err(e);
            },
        };
        match frame {
            Frame::Simple(text) => Ok(bytes_from_string(text)),
            Frame::Bulk(data) => Ok(data),
            _ => Err(
                ParseError::Other(
                    "protocol error; expected simple frame or bulk frame".to_owned(),
                ),
            ),
        }
    }

    /// Takes the next item as an unsigned 64-bit number.
    ///
    /// Fails with `EndOfStream` when no item is left, and with another error
    /// when the item is neither an integer frame nor a simple or bulk frame
    /// that spells a decimal number. The item is taken in either case.
    pub fn next_int(&mut self) -> (r: Result<u64, ParseError>)
        ensures
            old(self).remaining().len() == 0 ==> r is Err && r->Err_0 is EndOfStream
                && final(self).remaining() == old(self).remaining(),
            old(self).remaining().len() > 0 ==> final(self).remaining() == old(
                self,
            ).remaining().skip(1) && match int_of(old(self).remaining()[0]) {
                Some(n) => r is Ok && r->Ok_0 == n,
                None => r is Err && r->Err_0 is Other,
            },
    {
        let frame = match self.next() {
            Ok(frame) => frame,
            Err(e) => {
                return Err(e);
            },
        };
        let number = match frame {
            Frame::Integer(n) => Some(n),
            Frame::Simple(text) => parse_decimal(text.as_str().as_bytes()),
            Frame::Bulk(data) => parse_decimal(bytes_as_slice(&data)),
            _ => None,
        };
        match number {
            Some(n) => Ok(n),
            None => Err(ParseError::Other("protocol error; invalid number".to_owned())),
        }
    }

    /// Makes sure that every item was read.
    ///
    /// Fails when an item is left, and takes that item.
    pub fn finish(&mut self) -> (r: Result<(), ParseError>)
        ensures
            r is Ok <==> old(self).remaining().len() == 0,
            r is Err ==> r->Err_0 is Other && final(self).remaining() == old(
                self,
            ).remaining().skip(1),
            r is Ok ==> final(self).remaining() == old(self).remaining(),
    {
        match self.next() {
            Ok(_) => Err(
                ParseError::Other(
                    "protocol error; expected end of frame, but there was more".to_owned(),
                ),
            ),
            Err(_) => Ok(()),
        }
    }
}

impl ParseError {
    /// The error as a line of text.
    pub fn to_string(&self) -> (r: String)
        ensures
            self is EndOfStream ==> r@ == "protocol error; unexpected end of stream"@,
            self is Other ==> r@ == self->Other_0@,
    {
        match self {
            ParseError::EndOfStream => "protocol error; unexpected end of stream".to_owned(),
            ParseError::Other(text) => text.clone(),
        }
    }
}

} // verus!
