//! Protocol frames: the typed values that travel on the wire, what their
//! encoding is, and how a buffer is checked for one and read into one.

use crate::buf::{
    bytes_as_slice, bytes_contents, bytes_debug, bytes_debug_text, cursor_advance, cursor_chunk,
    cursor_contents, cursor_get_ref, cursor_get_u8, cursor_has_remaining, cursor_offset,
    cursor_position, cursor_remaining, cursor_remaining_bytes, cursor_set_position,
};
use crate::decimal::{decimal_digits, parse_decimal};
use crate::text::{bytes_eq, decimal_string, decimal_text, str_from_utf8, text_eq};
use crate::wire::{
    crlf, lemma_find_cr_absent, lemma_find_cr_first, lemma_scan_decimal_bounds,
    lemma_scan_line_bounds, scan_decimal, scan_line, Scan, CR, LF,
};
use bytes::Bytes;
use std::io::Cursor;
use vstd::prelude::*;
use vstd::slice::slice_subrange;
use vstd::string::StringExecFns;
use vstd::utf8::{decode_utf8, encode_utf8, valid_utf8};

verus! {

/// The byte that opens a simple text frame: `+`.
pub const TAG_SIMPLE: u8 = 43;

/// The byte that opens an error frame: `-`.
pub const TAG_ERROR: u8 = 45;

/// The byte that opens an integer frame: `:`.
pub const TAG_INTEGER: u8 = 58;

/// The byte that opens a bulk frame: `$`.
pub const TAG_BULK: u8 = 36;

/// The byte that opens an array frame: `*`.
pub const TAG_ARRAY: u8 = 42;

/// The byte that opens the null frame: `_`.
pub const TAG_NULL: u8 = 95;

/// A frame of the protocol.
#[derive(Debug)]
pub enum Frame {
    /// A short text without a carriage return, such as `OK`.
    Simple(String),
    /// An error message.
    Error(String),
    /// An unsigned 64-bit number.
    Integer(u64),
    /// A byte string of known length.
    Bulk(Bytes),
    /// The absence of a value.
    Null,
    /// A sequence of frames.
    Array(Vec<Frame>),
}

/// What a frame means: its variant, with texts as characters and payloads as
/// bytes.
pub enum FrameView {
    Simple(Seq<char>),
    Error(Seq<char>),
    Integer(u64),
    Bulk(Seq<u8>),
    Null,
    Array(Seq<FrameView>),
}

/// What `frame` means.
pub open spec fn frame_view(frame: Frame) -> FrameView
    decreases frame,
{
    match frame {
        Frame::Simple(text) => FrameView::Simple(text@),
        Frame::Error(text) => FrameView::Error(text@),
        Frame::Integer(n) => FrameView::Integer(n),
        Frame::Bulk(data) => FrameView::Bulk(bytes_contents(data)),
        Frame::Null => FrameView::Null,
        Frame::Array(items) => FrameView::Array(
            Seq::new(
                items@.len(),
                |i: int|
                    if 0 <= i < items@.len() {
                        frame_view(items@[i])
                    } else {
                        FrameView::Null
                    },
            ),
        ),
    }
}

impl View for Frame {
    type V = FrameView;

    open spec fn view(&self) -> FrameView {
        frame_view(*self)
    }
}

/// The views of the frames of a vector, in order.
pub open spec fn frame_views(items: Seq<Frame>) -> Seq<FrameView> {
    Seq::new(items.len(), |i: int| items[i]@)
}

/// An array frame means the sequence of what its items mean.
pub proof fn lemma_array_view(items: Vec<Frame>)
    ensures
        Frame::Array(items)@ == FrameView::Array(frame_views(items@)),
{
    assert(Frame::Array(items)@->Array_0 =~= frame_views(items@));
}

/// Why a buffer could not be read as a frame.
#[derive(Debug)]
pub enum Error {
    /// The buffer ends before the frame does.
    Incomplete,
    /// The bytes are not a frame; the text says why.
    Other(String),
}

/// The bytes that encode a frame.
pub open spec fn encode_frame(frame: FrameView) -> Seq<u8>
    decreases frame,
{
    match frame {
        FrameView::Simple(text) => seq![TAG_SIMPLE] + encode_utf8(text) + crlf(),
        FrameView::Error(text) => seq![TAG_ERROR] + encode_utf8(text) + crlf(),
        FrameView::Integer(n) => seq![TAG_INTEGER] + decimal_digits(n as nat) + crlf(),
        FrameView::Bulk(data) => seq![TAG_BULK] + decimal_digits(data.len()) + crlf() + data + crlf(),
        FrameView::Null => seq![TAG_NULL] + crlf(),
        FrameView::Array(items) => seq![TAG_ARRAY] + decimal_digits(items.len()) + crlf()
            + encode_frames(items),
    }
}

/// The encodings of several frames, one behind the other.
pub open spec fn encode_frames(items: Seq<FrameView>) -> Seq<u8>
    decreases items,
{
    if items.len() == 0 {
        Seq::<u8>::empty()
    } else {
        encode_frame(items[0]) + encode_frames(items.skip(1))
    }
}

/// The frame that `data` holds from `pos` on.
///
/// The first byte selects the variant. A text frame is a line of valid
/// UTF-8; an integer is a decimal field; a bulk frame is a decimal length, a
/// payload of that length and a CRLF pair; an array is a decimal count and
/// that many frames; the null frame is an empty line.
pub open spec fn scan_frame(data: Seq<u8>, pos: int) -> Scan<FrameView>
    decreases data.len() - pos, 0nat,
{
    if pos < 0 || pos >= data.len() {
        Scan::Incomplete
    } else if data[pos] == TAG_SIMPLE || data[pos] == TAG_ERROR {
        match scan_line(data, pos + 1) {
            Scan::Complete { value, end } => if !valid_utf8(value) {
                Scan::Malformed
            } else if data[pos] == TAG_SIMPLE {
                Scan::Complete { value: FrameView::Simple(decode_utf8(value)), end }
            } else {
                Scan::Complete { value: FrameView::Error(decode_utf8(value)), end }
            },
            Scan::Incomplete => Scan::Incomplete,
            Scan::Malformed => Scan::Malformed,
        }
    } else if data[pos] == TAG_INTEGER {
        match scan_decimal(data, pos + 1) {
            Scan::Complete { value, end } => Scan::Complete {
                value: FrameView::Integer(value),
                end,
            },
            Scan::Incomplete => Scan::Incomplete,
            Scan::Malformed => Scan::Malformed,
        }
    } else if data[pos] == TAG_BULK {
        match scan_decimal(data, pos + 1) {
            Scan::Complete { value: len, end: body } => if body + len + 2 > data.len() {
                Scan::Incomplete
            } else if data[body + len] == CR && data[body + len + 1] == LF {
                Scan::Complete {
                    value: FrameView::Bulk(data.subrange(body, body + len)),
                    end: body + len + 2,
                }
            } else {
                Scan::Malformed
            },
            Scan::Incomplete => Scan::Incomplete,
            Scan::Malformed => Scan::Malformed,
        }
    } else if data[pos] == TAG_ARRAY {
        match scan_decimal(data, pos + 1) {
            Scan::Complete { value: count, end: body } => {
                proof {
                    lemma_scan_decimal_bounds(data, pos + 1);
                }
                match scan_frames(data, body, count as nat) {
                    Scan::Complete { value, end } => Scan::Complete {
                        value: FrameView::Array(value),
                        end,
                    },
                    Scan::Incomplete => Scan::Incomplete,
                    Scan::Malformed => Scan::Malformed,
                }
            },
            Scan::Incomplete => Scan::Incomplete,
            Scan::Malformed => Scan::Malformed,
        }
    } else if data[pos] == TAG_NULL {
        match scan_line(data, pos + 1) {
            Scan::Complete { value, end } => if value.len() == 0 {
                Scan::Complete { value: FrameView::Null, end }
            } else {
                Scan::Malformed
            },
            Scan::Incomplete => Scan::Incomplete,
            Scan::Malformed => Scan::Malformed,
        }
    } else {
        Scan::Malformed
    }
}

/// The `count` frames that `data` holds one behind the other from `pos` on.
///
/// A frame spans at least its first byte, so each frame ends behind where it
/// began; the definition spells this out for its own termination.
pub open spec fn scan_frames(data: Seq<u8>, pos: int, count: nat) -> Scan<Seq<FrameView>>
    decreases data.len() - pos, count,
{
    if count == 0 {
        Scan::Complete { value: Seq::empty(), end: pos }
    } else {
        match scan_frame(data, pos) {
            Scan::Complete { value: head, end: mid } => if pos < mid <= data.len() {
                match scan_frames(data, mid, (count - 1) as nat) {
                    Scan::Complete { value: tail, end } => Scan::Complete {
                        value: seq![head] + tail,
                        end,
                    },
                    Scan::Incomplete => Scan::Incomplete,
                    Scan::Malformed => Scan::Malformed,
                }
            } else {
                Scan::Malformed
            },
            Scan::Incomplete => Scan::Incomplete,
            Scan::Malformed => Scan::Malformed,
        }
    }
}

/// Where the frame that `data` holds from `pos` on ends, going by its
/// structure alone: lines, lengths and counts. Texts are not decoded and
/// payloads are not looked at.
pub open spec fn scan_extent(data: Seq<u8>, pos: int) -> Scan<()>
    decreases data.len() - pos, 0nat,
{
    if pos < 0 || pos >= data.len() {
        Scan::Incomplete
    } else if data[pos] == TAG_SIMPLE || data[pos] == TAG_ERROR || data[pos] == TAG_NULL {
        match scan_line(data, pos + 1) {
            Scan::Complete { value, end } => Scan::Complete { value: (), end },
            Scan::Incomplete => Scan::Incomplete,
            Scan::Malformed => Scan::Malformed,
        }
    } else if data[pos] == TAG_INTEGER {
        match scan_decimal(data, pos + 1) {
            Scan::Complete { value, end } => Scan::Complete { value: (), end },
            Scan::Incomplete => Scan::Incomplete,
            Scan::Malformed => Scan::Malformed,
        }
    } else if data[pos] == TAG_BULK {
        match scan_decimal(data, pos + 1) {
            Scan::Complete { value: len, end: body } => if body + len + 2 > data.len() {
                Scan::Incomplete
            } else {
                Scan::Complete { value: (), end: body + len + 2 }
            },
            Scan::Incomplete => Scan::Incomplete,
            Scan::Malformed => Scan::Malformed,
        }
    } else if data[pos] == TAG_ARRAY {
        match scan_decimal(data, pos + 1) {
            Scan::Complete { value: count, end: body } => {
                proof {
                    lemma_scan_decimal_bounds(data, pos + 1);
                }
                scan_extents(data, body, count as nat)
            },
            Scan::Incomplete => Scan::Incomplete,
            Scan::Malformed => Scan::Malformed,
        }
    } else {
        Scan::Malformed
    }
}

/// Where `count` frames that follow one another from `pos` on end, going by
/// their structure alone.
pub open spec fn scan_extents(data: Seq<u8>, pos: int, count: nat) -> Scan<()>
    decreases data.len() - pos, count,
{
    if count == 0 {
        Scan::Complete { value: (), end: pos }
    } else {
        match scan_extent(data, pos) {
            Scan::Complete { value, end: mid } => if pos < mid <= data.len() {
                scan_extents(data, mid, (count - 1) as nat)
            } else {
                Scan::Malformed
            },
            Scan::Incomplete => Scan::Incomplete,
            Scan::Malformed => Scan::Malformed,
        }
    }
}

/// `rest` with `prefix` put in front of the frames it holds.
pub open spec fn scan_prepend(prefix: Seq<FrameView>, rest: Scan<Seq<FrameView>>) -> Scan<
    Seq<FrameView>,
> {
    match rest {
        Scan::Complete { value, end } => Scan::Complete { value: prefix + value, end },
        Scan::Incomplete => Scan::Incomplete,
        Scan::Malformed => Scan::Malformed,
    }
}

/// The error for bytes that are no frame.
fn malformed() -> (e: Error)
    ensures
        e is Other,
        e->Other_0@ == "protocol error; invalid frame format"@,
{
    Error::Other("protocol error; invalid frame format".to_owned())
}

/// Takes the next byte from `src`.
///
/// Fails with `Incomplete`, leaving the cursor where it is, when no byte
/// remains.
pub fn get_u8(src: &mut Cursor<&[u8]>) -> (r: Result<u8, Error>)
    ensures
        cursor_contents(*final(src)) == cursor_contents(*old(src)),
        cursor_remaining(*old(src)) > 0 ==> r is Ok && r->Ok_0 == cursor_contents(
            *old(src),
        )[cursor_offset(*old(src)) as int] && cursor_offset(*final(src)) == cursor_offset(
            *old(src),
        ) + 1,
        cursor_remaining(*old(src)) == 0 ==> r is Err && r->Err_0 is Incomplete && cursor_offset(
            *final(src),
        ) == cursor_offset(*old(src)),
{
    if !cursor_has_remaining(src) {
        return Err(Error::Incomplete);
    }
    Ok(cursor_get_u8(src))
}

/// Moves `src` forward by `n` bytes.
///
/// Fails with `Incomplete`, leaving the cursor where it is, when fewer than
/// `n` bytes remain.
pub fn skip(src: &mut Cursor<&[u8]>, n: usize) -> (r: Result<(), Error>)
    ensures
        cursor_contents(*final(src)) == cursor_contents(*old(src)),
        cursor_remaining(*old(src)) >= n ==> r is Ok && cursor_offset(*final(src))
            == cursor_offset(*old(src)) + n,
        cursor_remaining(*old(src)) < n ==> r is Err && r->Err_0 is Incomplete && cursor_offset(
            *final(src),
        ) == cursor_offset(*old(src)),
{
    if cursor_remaining_bytes(src) < n {
        return Err(Error::Incomplete);
    }
    cursor_advance(src, n);
    Ok(())
}

/// Takes the line that starts at the cursor: the bytes up to the first
/// carriage return, which a line feed must follow, and which the cursor then
/// stands behind.
///
/// Fails with `Incomplete` when the buffer holds no carriage return or ends
/// on it, and with a protocol error when another byte than a line feed
/// follows the carriage return. The cursor stays where it is in both cases.
pub fn get_line<'a>(src: &mut Cursor<&'a [u8]>) -> (r: Result<&'a [u8], Error>)
    ensures
        cursor_contents(*final(src)) == cursor_contents(*old(src)),
        match scan_line(cursor_contents(*old(src)), cursor_offset(*old(src)) as int) {
            Scan::Complete { value, end } => r is Ok && r->Ok_0@ == value && cursor_offset(
                *final(src),
            ) == end,
            Scan::Incomplete => r is Err && r->Err_0 is Incomplete && cursor_offset(*final(src))
                == cursor_offset(*old(src)),
            Scan::Malformed => r is Err && r->Err_0 is Other && cursor_offset(*final(src))
                == cursor_offset(*old(src)),
        },
{
    let data: &'a [u8] = cursor_get_ref(src);
    let pos: u64 = cursor_position(src);
    if pos >= data.len() as u64 {
        return Err(Error::Incomplete);
    }
    let start: usize = pos as usize;
    let mut i: usize = start;
    while i < data.len()
        invariant
            start <= i <= data.len(),
            start == pos,
            data@ == cursor_contents(*src),
            cursor_contents(*src) == cursor_contents(*old(src)),
            cursor_offset(*src) == cursor_offset(*old(src)),
            cursor_offset(*src) == pos,
            forall|j: int| start <= j < i ==> data@[j] != CR,
        decreases data.len() - i,
    {
        if data[i] == CR {
            proof {
                lemma_find_cr_first(data@, start as int, i as int);
            }
            if i + 1 >= data.len() {
                return Err(Error::Incomplete);
            }
            if data[i + 1] != LF {
                return Err(malformed());
            }
            cursor_set_position(src, (i + 2) as u64);
            return Ok(slice_subrange(data, start, i));
        }
        i += 1;
    }
    proof {
        lemma_find_cr_absent(data@, start as int);
    }
    Err(Error::Incomplete)
}

/// Takes the decimal field that starts at the cursor: a line that holds an
/// unsigned 64-bit decimal number.
///
/// Fails with `Incomplete`, leaving the cursor where it is, when the line is
/// not complete, and with a protocol error when the line is malformed, the
/// cursor where it is, or is not such a number, the cursor behind the line.
pub fn get_decimal(src: &mut Cursor<&[u8]>) -> (r: Result<u64, Error>)
    ensures
        cursor_contents(*final(src)) == cursor_contents(*old(src)),
        match scan_decimal(cursor_contents(*old(src)), cursor_offset(*old(src)) as int) {
            Scan::Complete { value, end } => r is Ok && r->Ok_0 == value && cursor_offset(
                *final(src),
            ) == end,
            Scan::Incomplete => r is Err && r->Err_0 is Incomplete && cursor_offset(*final(src))
                == cursor_offset(*old(src)),
            Scan::Malformed => r is Err && r->Err_0 is Other && cursor_offset(*final(src)) == (
            match scan_line(cursor_contents(*old(src)), cursor_offset(*old(src)) as int) {
                Scan::Complete { value, end } => end,
                _ => cursor_offset(*old(src)) as int,
            }),
        },
{
    let line = match get_line(src) {
        Ok(line) => line,
        Err(e) => {
            return Err(e);
        },
    };
    match parse_decimal(line) {
        Some(n) => Ok(n),
        None => Err(malformed()),
    }
}

impl Frame {
    /// Checks that the buffer holds one complete frame from the cursor on,
    /// and moves the cursor behind it.
    ///
    /// Only the structure is looked at: lines, lengths and counts. Fails
    /// with `Incomplete` when the buffer ends before the frame does, and
    /// with a protocol error on a byte that opens no frame, a carriage
    /// return in a line that no line feed follows, and a length or count
    /// that is no decimal number.
    pub fn check(src: &mut Cursor<&[u8]>) -> (r: Result<(), Error>)
        ensures
            cursor_contents(*final(src)) == cursor_contents(*old(src)),
            match scan_extent(cursor_contents(*old(src)), cursor_offset(*old(src)) as int) {
                Scan::Complete { value, end } => r is Ok && cursor_offset(*final(src)) == end,
                Scan::Incomplete => r is Err && r->Err_0 is Incomplete,
                Scan::Malformed => r is Err && r->Err_0 is Other,
            },
            r is Ok ==> cursor_offset(*old(src)) < cursor_offset(*final(src)) <= cursor_contents(
                *old(src),
            ).len(),
        decreases cursor_remaining(*old(src)),
    {
        let ghost data = cursor_contents(*src);
        let ghost start = cursor_offset(*src) as int;
        let tag = match get_u8(src) {
            Ok(tag) => tag,
            Err(e) => {
                return Err(e);
            },
        };
        if tag == TAG_SIMPLE || tag == TAG_ERROR || tag == TAG_NULL {
            match get_line(src) {
                Ok(_) => {
                    proof {
                        lemma_scan_line_bounds(data, start + 1);
                    }
                    Ok(())
                },
                Err(e) => Err(e),
            }
        } else if tag == TAG_INTEGER {
            match get_decimal(src) {
                Ok(_) => {
                    proof {
                        lemma_scan_decimal_bounds(data, start + 1);
                    }
                    Ok(())
                },
                Err(e) => Err(e),
            }
        } else if tag == TAG_BULK {
            let len = match get_decimal(src) {
                Ok(len) => len,
                Err(e) => {
                    return Err(e);
                },
            };
            proof {
                lemma_scan_decimal_bounds(data, start + 1);
            }
            let remaining = cursor_remaining_bytes(src);
            if remaining < 2 || len > (remaining - 2) as u64 {
                return Err(Error::Incomplete);
            }
            skip(src, len as usize + 2)
        } else if tag == TAG_ARRAY {
            let count = match get_decimal(src) {
                Ok(count) => count,
                Err(e) => {
                    return Err(e);
                },
            };
            proof {
                lemma_scan_decimal_bounds(data, start + 1);
            }
            let ghost body = cursor_offset(*src) as int;
            let mut i: u64 = 0;
            while i < count
                invariant
                    i <= count,
                    cursor_contents(*src) == data,
                    0 <= start < cursor_offset(*src) <= data.len(),
                    start == cursor_offset(*old(src)),
                    data == cursor_contents(*old(src)),
                    data[start] == TAG_ARRAY,
                    scan_decimal(data, start + 1) == (Scan::Complete { value: count, end: body }),
                    scan_extents(data, body, count as nat) == scan_extents(
                        data,
                        cursor_offset(*src) as int,
                        (count - i) as nat,
                    ),
                decreases count - i,
            {
                match Frame::check(src) {
                    Ok(_) => {},
                    Err(e) => {
                        return Err(e);
                    },
                }
                i += 1;
            }
            Ok(())
        } else {
            Err(malformed())
        }
    }

    /// Reads the frame that the buffer holds from the cursor on, and moves
    /// the cursor behind it.
    ///
    /// Fails with `Incomplete` when the buffer ends before the frame does.
    /// Fails with a protocol error on a byte that opens no frame, a carriage
    /// return in a line that no line feed follows, a length or count that is
    /// no decimal number, a text that is not valid UTF-8, a bulk payload
    /// that no CRLF pair follows, and a null frame with anything before its
    /// line end.
    pub fn parse(src: &mut Cursor<&[u8]>) -> (r: Result<Frame, Error>)
        ensures
            cursor_contents(*final(src)) == cursor_contents(*old(src)),
            match scan_frame(cursor_contents(*old(src)), cursor_offset(*old(src)) as int) {
                Scan::Complete { value, end } => r is Ok && r->Ok_0@ == value && cursor_offset(
                    *final(src),
                ) == end,
                Scan::Incomplete => r is Err && r->Err_0 is Incomplete,
                Scan::Malformed => r is Err && r->Err_0 is Other,
            },
            r is Ok ==> cursor_offset(*old(src)) < cursor_offset(*final(src)) <= cursor_contents(
                *old(src),
            ).len(),
        decreases cursor_remaining(*old(src)),
    {
        let ghost data = cursor_contents(*src);
        let ghost start = cursor_offset(*src) as int;
        let tag = match get_u8(src) {
            Ok(tag) => tag,
            Err(e) => {
                return Err(e);
            },
        };
        if tag == TAG_SIMPLE || tag == TAG_ERROR {
            let line = match get_line(src) {
                Ok(line) => line,
                Err(e) => {
                    return Err(e);
                },
            };
            proof {
                lemma_scan_line_bounds(data, start + 1);
            }
            match str_from_utf8(line) {
                Some(text) => if tag == TAG_SIMPLE {
                    Ok(Frame::Simple(text.to_owned()))
                } else {
                    Ok(Frame::Error(text.to_owned()))
                },
                None => Err(malformed()),
            }
        } else if tag == TAG_INTEGER {
            match get_decimal(src) {
                Ok(value) => {
                    proof {
                        lemma_scan_decimal_bounds(data, start + 1);
                    }
                    Ok(Frame::Integer(value))
                },
                Err(e) => Err(e),
            }
        } else if tag == TAG_BULK {
            let len = match get_decimal(src) {
                Ok(len) => len,
                Err(e) => {
                    return Err(e);
                },
            };
            proof {
                lemma_scan_decimal_bounds(data, start + 1);
            }
            let remaining = cursor_remaining_bytes(src);
            if remaining < 2 || len > (remaining - 2) as u64 {
                return Err(Error::Incomplete);
            }
            let n: usize = len as usize;
            let chunk = cursor_chunk(src);
            if chunk[n] != CR || chunk[n + 1] != LF {
                return Err(malformed());
            }
            let payload = Bytes::copy_from_slice(slice_subrange(chunk, 0, n));
            assert(bytes_contents(payload) =~= data.subrange(
                cursor_offset(*src) as int,
                cursor_offset(*src) + n,
            ));
            match skip(src, n + 2) {
                Ok(_) => Ok(Frame::Bulk(payload)),
                Err(e) => Err(e),
            }
        } else if tag == TAG_ARRAY {
            let count = match get_decimal(src) {
                Ok(count) => count,
                Err(e) => {
                    return Err(e);
                },
            };
            proof {
                lemma_scan_decimal_bounds(data, start + 1);
            }
            let ghost body = cursor_offset(*src) as int;
            let mut items: Vec<Frame> = Vec::new();
            let mut i: u64 = 0;
            assert(frame_views(items@) + scan_frames(data, body, count as nat)->value
                =~= scan_frames(data, body, count as nat)->value);
            while i < count
                invariant
                    i <= count,
                    items@.len() == i,
                    cursor_contents(*src) == data,
                    0 <= start < cursor_offset(*src) <= data.len(),
                    start == cursor_offset(*old(src)),
                    data == cursor_contents(*old(src)),
                    data[start] == TAG_ARRAY,
                    scan_decimal(data, start + 1) == (Scan::Complete { value: count, end: body }),
                    scan_frames(data, body, count as nat) == scan_prepend(
                        frame_views(items@),
                        scan_frames(data, cursor_offset(*src) as int, (count - i) as nat),
                    ),
                decreases count - i,
            {
                let ghost at = cursor_offset(*src) as int;
                let ghost before = frame_views(items@);
                let item = match Frame::parse(src) {
                    Ok(item) => item,
                    Err(e) => {
                        return Err(e);
                    },
                };
                items.push(item);
                i += 1;
                proof {
                    let head = item@;
                    let rest = scan_frames(data, cursor_offset(*src) as int, (count - i) as nat);
                    assert(frame_views(items@) =~= before.push(head));
                    if rest is Complete {
                        assert(before + (seq![head] + rest->value) =~= before.push(head)
                            + rest->value);
                    }
                }
            }
            proof {
                assert(frame_views(items@) + Seq::<FrameView>::empty() =~= frame_views(items@));
                lemma_array_view(items);
            }
            Ok(Frame::Array(items))
        } else if tag == TAG_NULL {
            let line = match get_line(src) {
                Ok(line) => line,
                Err(e) => {
                    return Err(e);
                },
            };
            proof {
                lemma_scan_line_bounds(data, start + 1);
            }
            if line.len() == 0 {
                Ok(Frame::Null)
            } else {
                Err(malformed())
            }
        } else {
            Err(malformed())
        }
    }
}

impl Frame {
    /// An empty array frame.
    pub fn array() -> (r: Frame)
        ensures
            r@ == FrameView::Array(Seq::empty()),
    {
        let items: Vec<Frame> = Vec::new();
        proof {
            lemma_array_view(items);
            assert(frame_views(items@) =~= Seq::<FrameView>::empty());
        }
        Frame::Array(items)
    }

    /// Appends a bulk frame that holds `bytes` to this array frame.
    pub fn push_bulk(&mut self, bytes: Bytes)
        requires
            *old(self) is Array,
        ensures
            final(self)@ == FrameView::Array(
                old(self)@->Array_0.push(FrameView::Bulk(bytes_contents(bytes))),
            ),
    {
        self.push_item(Frame::Bulk(bytes));
    }

    /// Appends an integer frame that holds `value` to this array frame.
    pub fn push_int(&mut self, value: u64)
        requires
            *old(self) is Array,
        ensures
            final(self)@ == FrameView::Array(old(self)@->Array_0.push(FrameView::Integer(value))),
    {
        self.push_item(Frame::Integer(value));
    }

    /// Appends `item` to this array frame.
    fn push_item(&mut self, item: Frame)
        requires
            *old(self) is Array,
        ensures
            final(self)@ == FrameView::Array(old(self)@->Array_0.push(item@)),
    {
        match self {
            Frame::Array(items) => {
                proof {
                    lemma_array_view(*items);
                }
                items.push(item);
                proof {
                    lemma_array_view(*items);
                    assert(frame_views(items@) =~= frame_views(old(self)->Array_0@).push(item@));
                }
            },
            _ => {},
        }
    }
}

/// A frame as a line of text for people: texts as they are, an error behind
/// `error: `, a number in decimal, a payload as the text it encodes or else
/// as an escaped byte string, `(nil)` for the null frame, and the items of an
/// array one after the other with a space between them.
pub open spec fn display_text(frame: FrameView) -> Seq<char>
    decreases frame,
{
    match frame {
        FrameView::Simple(text) => text,
        FrameView::Error(text) => "error: "@ + text,
        FrameView::Integer(n) => decimal_text(n as nat),
        FrameView::Bulk(data) => if valid_utf8(data) {
            decode_utf8(data)
        } else {
            bytes_debug_text(data)
        },
        FrameView::Null => "(nil)"@,
        FrameView::Array(items) => display_items(items),
    }
}

/// The texts of `items` with a space between each two.
pub open spec fn display_items(items: Seq<FrameView>) -> Seq<char>
    decreases items,
{
    if items.len() == 0 {
        Seq::<char>::empty()
    } else if items.len() == 1 {
        display_text(items[0])
    } else {
        display_text(items[0]) + " "@ + display_items(items.skip(1))
    }
}

/// The text of items and one more is the text of the items, a space where
/// there are any, and the text of the one more.
pub proof fn lemma_display_items_push(items: Seq<FrameView>, last: FrameView)
    ensures
        display_items(items.push(last)) == if items.len() == 0 {
            display_text(last)
        } else {
            display_items(items) + " "@ + display_text(last)
        },
    decreases items.len(),
{
    let all = items.push(last);
    if items.len() == 0 {
        assert(all[0] == last);
    } else {
        let tail = items.skip(1);
        assert(all.skip(1) =~= tail.push(last));
        assert(all[0] == items[0]);
        lemma_display_items_push(tail, last);
        if tail.len() == 0 {
            assert(display_items(items) == display_text(items[0]));
        } else {
            assert(display_items(all) =~= display_text(items[0]) + " "@ + (display_items(tail)
                + " "@ + display_text(last)));
            assert(display_items(items) + " "@ + display_text(last) =~= display_text(items[0])
                + " "@ + (display_items(tail) + " "@ + display_text(last)));
        }
    }
}

impl Frame {
    /// A copy of the frame.
    pub fn duplicate(&self) -> (r: Frame)
        ensures
            r@ == self@,
        decreases self,
    {
        match self {
            Frame::Simple(text) => Frame::Simple(text.clone()),
            Frame::Error(text) => Frame::Error(text.clone()),
            Frame::Integer(n) => Frame::Integer(*n),
            Frame::Bulk(data) => Frame::Bulk(data.clone()),
            Frame::Null => Frame::Null,
            Frame::Array(items) => {
                let mut out: Vec<Frame> = Vec::new();
                let mut i: usize = 0;
                while i < items.len()
                    invariant
                        i <= items.len(),
                        *self == Frame::Array(*items),
                        out@.len() == i,
                        forall|j: int| 0 <= j < i ==> out@[j]@ == items@[j]@,
                    decreases items.len() - i,
                {
                    assert(decreases_to!(self => self->Array_0));
                    assert(decreases_to!(self => items[i as int]));
                    let item = items[i].duplicate();
                    out.push(item);
                    i += 1;
                }
                proof {
                    lemma_array_view(out);
                    lemma_array_view(*items);
                    assert(frame_views(out@) =~= frame_views(items@));
                }
                Frame::Array(out)
            },
        }
    }

    /// Whether the frame is a text or a payload that reads `other`.
    pub fn eq_str(&self, other: &str) -> (r: bool)
        ensures
            r == match self@ {
                FrameView::Simple(text) => text == other@,
                FrameView::Bulk(data) => data == encode_utf8(other@),
                _ => false,
            },
    {
        match self {
            Frame::Simple(text) => text_eq(text.as_str(), other),
            Frame::Bulk(data) => bytes_eq(bytes_as_slice(data), other.as_bytes()),
            _ => false,
        }
    }

    /// The frame as a line of text for people.
    pub fn to_string(&self) -> (r: String)
        ensures
            r@ == display_text(self@),
        decreases self,
    {
        match self {
            Frame::Simple(text) => text.clone(),
            Frame::Error(text) => {
                let mut out = "error: ".to_owned();
                out.append(text.as_str());
                out
            },
            Frame::Integer(n) => decimal_string(*n),
            Frame::Bulk(data) => match str_from_utf8(bytes_as_slice(data)) {
                Some(text) => text.to_owned(),
                None => bytes_debug(data),
            },
            Frame::Null => "(nil)".to_owned(),
            Frame::Array(items) => {
                let mut out = String::new();
                let ghost views = frame_views(items@);
                let mut i: usize = 0;
                assert(views.take(0) =~= Seq::<FrameView>::empty());
                while i < items.len()
                    invariant
                        i <= items.len(),
                        *self == Frame::Array(*items),
                        views == frame_views(items@),
                        out@ == display_items(views.take(i as int)),
                    decreases items.len() - i,
                {
                    if i > 0 {
                        out.append(" ");
                    }
                    assert(decreases_to!(self => self->Array_0));
                    assert(decreases_to!(self => items[i as int]));
                    let part = items[i].to_string();
                    out.append(part.as_str());
                    proof {
                        lemma_display_items_push(views.take(i as int), views[i as int]);
                        assert(views.take(i + 1) =~= views.take(i as int).push(views[i as int]));
                        if i == 0 {
                            assert(out@ =~= display_text(views[0]));
                        }
                    }
                    i += 1;
                }
                proof {
                    assert(views.take(items.len() as int) =~= views);
                    lemma_array_view(*items);
                }
                out
            },
        }
    }

    /// The message that tells of this frame where another was expected.
    pub fn to_error(&self) -> (r: String)
        ensures
            r@ == "unexpected frame: "@ + display_text(self@),
    {
        let mut out = "unexpected frame: ".to_owned();
        out.append(self.to_string().as_str());
        out
    }
}

impl Clone for Frame {
    fn clone(&self) -> (r: Frame)
        ensures
            r@ == self@,
    {
        self.duplicate()
    }
}

impl Error {
    /// The error as a line of text.
    pub fn to_string(&self) -> (r: String)
        ensures
            self is Incomplete ==> r@ == "stream ended early"@,
            self is Other ==> r@ == self->Other_0@,
    {
        match self {
            Error::Incomplete => "stream ended early".to_owned(),
            Error::Other(text) => text.clone(),
        }
    }
}

} // verus!
