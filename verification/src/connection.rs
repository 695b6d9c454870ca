//! The byte level of a connection: frames written out as bytes, and incoming
//! bytes gathered until they make up a frame.

use crate::buf::{
    bytes_as_slice, bytes_mut_advance, bytes_mut_as_slice, bytes_mut_contents, cursor_new,
    cursor_position, cursor_set_position,
};
use crate::decimal::{decimal_digits, push_decimal};
use crate::frame::{
    encode_frame, encode_frames, frame_views, lemma_array_view, scan_extent, scan_frame, Error,
    Frame, FrameView, TAG_ARRAY, TAG_BULK, TAG_ERROR, TAG_INTEGER, TAG_NULL, TAG_SIMPLE,
};
use crate::incremental::lemma_scanned_of_extent;
use crate::wire::{crlf, Scan, CR, LF};
use bytes::BytesMut;
use vstd::prelude::*;

verus! {

/// The bytes that have arrived on a connection and were not yet read as
/// frames.
#[derive(Debug)]
pub struct ReadBuffer {
    buffer: BytesMut,
}

impl View for ReadBuffer {
    type V = Seq<u8>;

    closed spec fn view(&self) -> Seq<u8> {
        bytes_mut_contents(self.buffer)
    }
}

/// What asking a buffer for its next frame comes to.
pub enum Step {
    /// The buffer starts with a frame, which takes up its first `consumed`
    /// bytes.
    Frame { frame: FrameView, consumed: int },
    /// The buffer holds no complete frame yet.
    Wait,
    /// The buffer does not start with a frame and never will.
    Fail,
}

/// What the next frame of `buffer` is: the structural check decides whether
/// a frame is there in full, and the full read then gives the frame or
/// finds it faulty.
pub open spec fn decode_step(buffer: Seq<u8>) -> Step {
    match scan_extent(buffer, 0) {
        Scan::Complete { value, end } => match scan_frame(buffer, 0) {
            Scan::Complete { value: frame, end: _ } => Step::Frame { frame, consumed: end },
            _ => Step::Fail,
        },
        Scan::Incomplete => Step::Wait,
        Scan::Malformed => Step::Fail,
    }
}

impl ReadBuffer {
    /// An empty buffer.
    pub fn new() -> (r: ReadBuffer)
        ensures
            r@ == Seq::<u8>::empty(),
    {
        ReadBuffer { buffer: BytesMut::with_capacity(4096) }
    }

    /// Whether nothing is buffered.
    pub fn is_empty(&self) -> (r: bool)
        ensures
            r == (self@.len() == 0),
    {
        self.buffer.is_empty()
    }

    /// Takes in the bytes that arrived.
    pub fn extend(&mut self, data: &[u8])
        ensures
            final(self)@ == old(self)@ + data@,
    {
        self.buffer.extend_from_slice(data);
    }

    /// Takes the next frame out of the buffer, if it is there in full.
    ///
    /// Returns `Ok(None)` and leaves the buffer as it is when more bytes are
    /// needed. Fails with a protocol error, again leaving the buffer as it
    /// is, when the buffered bytes are no frame.
    pub fn parse_frame(&mut self) -> (r: Result<Option<Frame>, Error>)
        ensures
            match decode_step(old(self)@) {
                Step::Frame { frame, consumed } => r is Ok && r->Ok_0 is Some && r->Ok_0->0@
                    == frame && final(self)@ == old(self)@.skip(consumed),
                Step::Wait => r is Ok && r->Ok_0 is None && final(self)@ == old(self)@,
                Step::Fail => r is Err && r->Err_0 is Other && final(self)@ == old(self)@,
            },
    {
        let data = bytes_mut_as_slice(&self.buffer);
        let mut cursor = cursor_new(data);
        match Frame::check(&mut cursor) {
            Ok(_) => {
                proof {
                    lemma_scanned_of_extent(data@, 0);
                }
                let buffered = data.len();
                let end = cursor_position(&cursor);
                assert(end <= buffered);
                let len = end as usize;
                cursor_set_position(&mut cursor, 0);
                let frame = match Frame::parse(&mut cursor) {
                    Ok(frame) => frame,
                    Err(e) => {
                        return Err(e);
                    },
                };
                bytes_mut_advance(&mut self.buffer, len);
                Ok(Some(frame))
            },
            Err(Error::Incomplete) => Ok(None),
            Err(e) => Err(e),
        }
    }

    /// Judges the end of the stream: the peer closed cleanly when nothing is
    /// buffered, and in the middle of a frame otherwise, which is an error.
    pub fn end_of_stream(&self) -> (r: Result<(), Error>)
        ensures
            r is Ok <==> self@.len() == 0,
            r is Err ==> r->Err_0 is Other,
    {
        if self.buffer.is_empty() {
            Ok(())
        } else {
            Err(Error::Other("connection reset by peer".to_owned()))
        }
    }
}

/// Appends the bytes of `part` to `dst`.
fn write_all(dst: &mut Vec<u8>, part: &[u8])
    ensures
        final(dst)@ == old(dst)@ + part@,
{
    dst.extend_from_slice(part);
    assert(dst@ =~= old(dst)@ + part@);
}

/// Appends a line end to `dst`.
fn write_crlf(dst: &mut Vec<u8>)
    ensures
        final(dst)@ == old(dst)@ + crlf(),
{
    dst.push(CR);
    dst.push(LF);
    assert(dst@ =~= old(dst)@ + crlf());
}

/// Appends the decimal digits of `val` and a line end to `dst`.
pub fn write_decimal(dst: &mut Vec<u8>, val: u64)
    ensures
        final(dst)@ == old(dst)@ + decimal_digits(val as nat) + crlf(),
{
    push_decimal(dst, val);
    write_crlf(dst);
}

/// Appends the encoding of a frame that is no array to `dst`.
pub fn write_value(dst: &mut Vec<u8>, frame: &Frame)
    requires
        !(frame is Array),
    ensures
        final(dst)@ == old(dst)@ + encode_frame(frame@),
{
    match frame {
        Frame::Simple(text) => {
            dst.push(TAG_SIMPLE);
            write_all(dst, text.as_str().as_bytes());
            write_crlf(dst);
            assert(dst@ =~= old(dst)@ + encode_frame(frame@));
        },
        Frame::Error(text) => {
            dst.push(TAG_ERROR);
            write_all(dst, text.as_str().as_bytes());
            write_crlf(dst);
            assert(dst@ =~= old(dst)@ + encode_frame(frame@));
        },
        Frame::Integer(val) => {
            dst.push(TAG_INTEGER);
            write_decimal(dst, *val);
            assert(dst@ =~= old(dst)@ + encode_frame(frame@));
        },
        Frame::Null => {
            dst.push(TAG_NULL);
            write_crlf(dst);
            assert(dst@ =~= old(dst)@ + encode_frame(frame@));
        },
        Frame::Bulk(data) => {
            let payload = bytes_as_slice(data);
            dst.push(TAG_BULK);
            write_decimal(dst, payload.len() as u64);
            write_all(dst, payload);
            write_crlf(dst);
            assert(dst@ =~= old(dst)@ + encode_frame(frame@));
        },
        Frame::Array(_) => {},
    }
}

/// The encodings of frames that follow one another are the encoding of the
/// frames before the last and then the encoding of the last.
pub proof fn lemma_encode_frames_push(items: Seq<FrameView>, last: FrameView)
    ensures
        encode_frames(items.push(last)) == encode_frames(items) + encode_frame(last),
    decreases items.len(),
{
    let all = items.push(last);
    if items.len() == 0 {
        assert(all.skip(1) =~= Seq::<FrameView>::empty());
        assert(encode_frames(all.skip(1)) =~= Seq::<u8>::empty());
        assert(encode_frames(all) =~= encode_frame(last));
        assert(encode_frames(items) + encode_frame(last) =~= encode_frame(last));
    } else {
        lemma_encode_frames_push(items.skip(1), last);
        assert(all.skip(1) =~= items.skip(1).push(last));
        assert(encode_frames(all) =~= encode_frame(items[0]) + (encode_frames(items.skip(1))
            + encode_frame(last)));
        assert(encode_frames(items) + encode_frame(last) =~= encode_frame(items[0]) + (
        encode_frames(items.skip(1)) + encode_frame(last)));
    }
}

/// Appends the encoding of `frame` to `dst`: the tag byte, then what the
/// variant holds, each line ended by CRLF. An array is its count and then
/// its items, each encoded in turn, arrays among them too.
pub fn write_frame(dst: &mut Vec<u8>, frame: &Frame)
    ensures
        final(dst)@ == old(dst)@ + encode_frame(frame@),
    decreases frame,
{
    match frame {
        Frame::Array(items) => {
            dst.push(TAG_ARRAY);
            write_decimal(dst, items.len() as u64);
            let ghost head = dst@;
            let ghost views = frame_views(items@);
            let mut i: usize = 0;
            assert(views.take(0) =~= Seq::<FrameView>::empty());
            assert(dst@ =~= head + encode_frames(views.take(0)));
            while i < items.len()
                invariant
                    i <= items.len(),
                    *frame == Frame::Array(*items),
                    views == frame_views(items@),
                    dst@ == head + encode_frames(views.take(i as int)),
                decreases items.len() - i,
            {
                assert(decreases_to!(frame => frame->Array_0));
                assert(decreases_to!(frame => items[i as int]));
                write_frame(dst, &items[i]);
                proof {
                    lemma_encode_frames_push(views.take(i as int), views[i as int]);
                    assert(views.take(i + 1) =~= views.take(i as int).push(views[i as int]));
                    assert(dst@ =~= head + encode_frames(views.take(i + 1)));
                }
                i += 1;
            }
            proof {
                assert(views.take(items.len() as int) =~= views);
                lemma_array_view(*items);
                assert(dst@ =~= old(dst)@ + encode_frame(frame@));
            }
        },
        _ => write_value(dst, frame),
    }
}

} // verus!
