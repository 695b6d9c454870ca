//! Frames arrive in pieces. This module shows that the structural check
//! and the full read agree on where a frame ends, that a buffer which stops
//! in the middle of an encoding is reported as incomplete and never as an
//! error, and that bytes fed one at a time come out as the frames they
//! encode, in order.

use crate::connection::{decode_step, Step};
use crate::decimal::{decimal_digits, lemma_decimal_digits_shape};
use crate::frame::{
    encode_frame, encode_frames, scan_extent, scan_extents, scan_frame, scan_frames, FrameView,
    TAG_ARRAY, TAG_BULK, TAG_ERROR, TAG_INTEGER, TAG_NULL, TAG_SIMPLE,
};
use crate::round_trip::{
    lemma_encoding_starts_with_tag, lemma_scan_decimal_of_number, lemma_scan_encoded,
    lemma_scanned_frame, wire_safe,
};
use crate::wire::{
    crlf, has_cr, holds_at, lemma_digits_have_no_cr, lemma_find_cr_absent, lemma_find_cr_first,
    lemma_holds_at_concat, lemma_scan_decimal_bounds, lemma_scan_line_bounds, scan_decimal,
    scan_line, Scan, CR,
};
use vstd::prelude::*;
use vstd::utf8::encode_utf8;

verus! {

/// Where a frame reads in full, the structural check passes and ends at the
/// same place.
pub proof fn lemma_extent_of_scanned(data: Seq<u8>, pos: int)
    requires
        scan_frame(data, pos) is Complete,
    ensures
        scan_extent(data, pos) == (Scan::Complete { value: (), end: scan_frame(data, pos)->end }),
    decreases data.len() - pos, 0nat,
{
    if data[pos] == TAG_ARRAY {
        lemma_scan_decimal_bounds(data, pos + 1);
        lemma_extents_of_scanned(
            data,
            scan_decimal(data, pos + 1)->end,
            scan_decimal(data, pos + 1)->value as nat,
        );
    }
}

/// Where frames read in full one behind the other, the structural check
/// passes over all of them and ends at the same place.
pub proof fn lemma_extents_of_scanned(data: Seq<u8>, pos: int, count: nat)
    requires
        0 <= pos <= data.len(),
        scan_frames(data, pos, count) is Complete,
    ensures
        scan_extents(data, pos, count) == (Scan::Complete {
            value: (),
            end: scan_frames(data, pos, count)->end,
        }),
    decreases data.len() - pos, count,
{
    if count > 0 {
        lemma_extent_of_scanned(data, pos);
        lemma_scanned_frame(data, pos);
        lemma_extents_of_scanned(data, scan_frame(data, pos)->end, (count - 1) as nat);
    }
}

/// Where the structural check passes, the full read never asks for more
/// bytes: it either fails or ends where the check ended, inside the buffer
/// and behind where it began.
pub proof fn lemma_scanned_of_extent(data: Seq<u8>, pos: int)
    requires
        scan_extent(data, pos) is Complete,
    ensures
        0 <= pos < scan_extent(data, pos)->end <= data.len(),
        !(scan_frame(data, pos) is Incomplete),
        scan_frame(data, pos) is Complete ==> scan_frame(data, pos)->end == scan_extent(
            data,
            pos,
        )->end,
    decreases data.len() - pos, 0nat,
{
    let tag = data[pos];
    if tag == TAG_SIMPLE || tag == TAG_ERROR || tag == TAG_NULL {
        lemma_scan_line_bounds(data, pos + 1);
    } else if tag == TAG_INTEGER {
        lemma_scan_decimal_bounds(data, pos + 1);
    } else if tag == TAG_BULK {
        lemma_scan_decimal_bounds(data, pos + 1);
    } else {
        lemma_scan_decimal_bounds(data, pos + 1);
        lemma_scanned_of_extents(
            data,
            scan_decimal(data, pos + 1)->end,
            scan_decimal(data, pos + 1)->value as nat,
        );
    }
}

/// The same for frames that follow one another.
pub proof fn lemma_scanned_of_extents(data: Seq<u8>, pos: int, count: nat)
    requires
        0 <= pos <= data.len(),
        scan_extents(data, pos, count) is Complete,
    ensures
        pos <= scan_extents(data, pos, count)->end <= data.len(),
        !(scan_frames(data, pos, count) is Incomplete),
        scan_frames(data, pos, count) is Complete ==> scan_frames(data, pos, count)->end
            == scan_extents(data, pos, count)->end,
    decreases data.len() - pos, count,
{
    if count > 0 {
        lemma_scanned_of_extent(data, pos);
        lemma_scanned_of_extents(data, scan_extent(data, pos)->end, (count - 1) as nat);
    }
}

/// A buffer that ends inside a line, or inside the line end, holds no
/// complete line there and no malformed one.
pub proof fn lemma_line_prefix_incomplete(data: Seq<u8>, pos: int, text: Seq<u8>, held: int)
    requires
        !has_cr(text),
        0 <= held < text.len() + 2,
        data.len() == pos + held,
        holds_at(data, pos, (text + crlf()).take(held)),
    ensures
        scan_line(data, pos) is Incomplete,
{
    let line = text + crlf();
    assert forall|j: int| pos <= j < data.len() && j < pos + text.len() implies data[j]
        != CR by {
        let i = j - pos;
        assert(line.take(held)[i] == text[i]);
        assert(data[pos + i] == line.take(held)[i]);
    }
    if held <= text.len() {
        lemma_find_cr_absent(data, pos);
    } else {
        let at = pos + text.len();
        assert(line.take(held)[text.len() as int] == CR);
        assert(data[pos + text.len()] == line.take(held)[text.len() as int]);
        lemma_find_cr_first(data, pos, at);
    }
}

/// A buffer that ends inside a tagged line holds neither that line nor a
/// decimal field behind the tag.
proof fn lemma_tagged_line_prefix(data: Seq<u8>, pos: int, tag: u8, text: Seq<u8>, held: int)
    requires
        !has_cr(text),
        1 <= held < text.len() + 3,
        data.len() == pos + held,
        holds_at(data, pos, (seq![tag] + text + crlf()).take(held)),
    ensures
        data[pos] == tag,
        scan_line(data, pos + 1) is Incomplete,
        scan_decimal(data, pos + 1) is Incomplete,
{
    let whole = seq![tag] + text + crlf();
    let line = text + crlf();
    assert(whole.take(held)[0] == tag);
    assert(data[pos + 0] == whole.take(held)[0]);
    assert forall|i: int| 0 <= i < held - 1 implies data[pos + 1 + i] == #[trigger] line.take(
        held - 1,
    )[i] by {
        assert(whole.take(held)[i + 1] == line[i]);
        assert(data[pos + (i + 1)] == whole.take(held)[i + 1]);
    }
    lemma_line_prefix_incomplete(data, pos + 1, text, held - 1);
}

/// What a buffer holds of a longer sequence, it holds of any part of that
/// sequence that reaches as far.
proof fn lemma_holds_front(data: Seq<u8>, pos: int, front: Seq<u8>, back: Seq<u8>, held: int)
    requires
        0 <= held,
        holds_at(data, pos, (front + back).take(held)),
    ensures
        held <= front.len() ==> holds_at(data, pos, front.take(held)),
        held >= front.len() && held <= front.len() + back.len() ==> holds_at(data, pos, front)
            && holds_at(data, pos + front.len(), back.take(held - front.len())),
{
    let whole = front + back;
    if held <= front.len() {
        assert(whole.take(held) =~= front.take(held));
        if held == front.len() {
            assert(front.take(held) =~= front);
        }
    } else if held <= front.len() + back.len() {
        assert(whole.take(held) =~= front + back.take(held - front.len()));
        lemma_holds_at_concat(data, pos, front, back.take(held - front.len()));
    }
}

/// A buffer that ends inside the encoding of a wire-safe frame is
/// incomplete at the place where that encoding begins: the structural check
/// asks for more bytes and reports no error.
pub proof fn lemma_prefix_incomplete(frame: FrameView, data: Seq<u8>, pos: int, held: int)
    requires
        wire_safe(frame),
        0 <= held < encode_frame(frame).len(),
        data.len() == pos + held,
        holds_at(data, pos, encode_frame(frame).take(held)),
    ensures
        scan_extent(data, pos) is Incomplete,
    decreases frame,
{
    if held > 0 {
        match frame {
            FrameView::Simple(text) => {
                lemma_tagged_line_prefix(data, pos, TAG_SIMPLE, encode_utf8(text), held);
            },
            FrameView::Error(text) => {
                lemma_tagged_line_prefix(data, pos, TAG_ERROR, encode_utf8(text), held);
            },
            FrameView::Integer(n) => {
                let digits = decimal_digits(n as nat);
                lemma_decimal_digits_shape(n as nat);
                lemma_digits_have_no_cr(digits);
                lemma_tagged_line_prefix(data, pos, TAG_INTEGER, digits, held);
            },
            FrameView::Null => {
                let nothing = Seq::<u8>::empty();
                assert(seq![TAG_NULL] + nothing + crlf() =~= seq![TAG_NULL] + crlf());
                lemma_tagged_line_prefix(data, pos, TAG_NULL, nothing, held);
            },
            FrameView::Bulk(payload) => {
                let n = payload.len() as u64;
                let digits = decimal_digits(n as nat);
                let header = seq![TAG_BULK] + digits + crlf();
                let body = payload + crlf();
                lemma_decimal_digits_shape(n as nat);
                lemma_digits_have_no_cr(digits);
                assert(encode_frame(frame) =~= header + body);
                lemma_holds_front(data, pos, header, body, held);
                if held < header.len() {
                    lemma_tagged_line_prefix(data, pos, TAG_BULK, digits, held);
                } else {
                    lemma_holds_at_concat(data, pos, seq![TAG_BULK] + digits, crlf());
                    lemma_holds_at_concat(data, pos, seq![TAG_BULK], digits);
                    lemma_holds_at_concat(data, pos + 1, digits, crlf());
                    assert(data[pos + 0] == seq![TAG_BULK][0]);
                    lemma_scan_decimal_of_number(data, pos + 1, n);
                }
            },
            FrameView::Array(items) => {
                let n = items.len() as u64;
                let digits = decimal_digits(n as nat);
                let header = seq![TAG_ARRAY] + digits + crlf();
                let body = encode_frames(items);
                lemma_decimal_digits_shape(n as nat);
                lemma_digits_have_no_cr(digits);
                lemma_holds_front(data, pos, header, body, held);
                if held < header.len() {
                    lemma_tagged_line_prefix(data, pos, TAG_ARRAY, digits, held);
                } else {
                    lemma_holds_at_concat(data, pos, seq![TAG_ARRAY] + digits, crlf());
                    lemma_holds_at_concat(data, pos, seq![TAG_ARRAY], digits);
                    lemma_holds_at_concat(data, pos + 1, digits, crlf());
                    assert(data[pos + 0] == seq![TAG_ARRAY][0]);
                    lemma_scan_decimal_of_number(data, pos + 1, n);
                    lemma_prefix_incomplete_frames(
                        items,
                        data,
                        pos + header.len(),
                        held - header.len(),
                    );
                }
            },
        }
    }
}

/// A buffer that ends inside the encodings of wire-safe frames that follow
/// one another is incomplete at the place where they begin.
pub proof fn lemma_prefix_incomplete_frames(
    items: Seq<FrameView>,
    data: Seq<u8>,
    pos: int,
    held: int,
)
    requires
        forall|i: int| 0 <= i < items.len() ==> wire_safe(#[trigger] items[i]),
        0 <= held < encode_frames(items).len(),
        data.len() == pos + held,
        holds_at(data, pos, encode_frames(items).take(held)),
    ensures
        scan_extents(data, pos, items.len()) is Incomplete,
    decreases items,
{
    let head = items[0];
    let tail = items.skip(1);
    let first = encode_frame(head);
    lemma_holds_front(data, pos, first, encode_frames(tail), held);
    if held < first.len() {
        lemma_prefix_incomplete(head, data, pos, held);
    } else {
        lemma_encoding_starts_with_tag(head);
        lemma_scan_encoded(head, data, pos);
        lemma_extent_of_scanned(data, pos);
        assert forall|i: int| 0 <= i < tail.len() implies wire_safe(#[trigger] tail[i]) by {
            assert(tail[i] == items[i + 1]);
        }
        lemma_prefix_incomplete_frames(tail, data, pos + first.len(), held - first.len());
    }
}

/// What a reader gives out that is handed `input` one byte at a time and is
/// asked for a frame after every byte: the frames, in order, and the bytes
/// that stay buffered. Nothing where the reader reports an error.
pub open spec fn feed_bytes(buffer: Seq<u8>, input: Seq<u8>) -> Option<(Seq<FrameView>, Seq<u8>)>
    decreases input.len(),
{
    if input.len() == 0 {
        Some((Seq::empty(), buffer))
    } else {
        let grown = buffer.push(input[0]);
        match decode_step(grown) {
            Step::Frame { frame, consumed } => match feed_bytes(
                grown.skip(consumed),
                input.skip(1),
            ) {
                Some((frames, rest)) => Some((seq![frame] + frames, rest)),
                None => None,
            },
            Step::Wait => feed_bytes(grown, input.skip(1)),
            Step::Fail => None,
        }
    }
}

/// A reader that holds the first `held` bytes of a frame's encoding and is
/// fed the others byte by byte waits until the last byte, gives out the
/// frame then, and goes on with an empty buffer.
pub proof fn lemma_feed_one_frame(frame: FrameView, held: int, tail: Seq<u8>)
    requires
        wire_safe(frame),
        0 <= held < encode_frame(frame).len(),
    ensures
        feed_bytes(encode_frame(frame).take(held), encode_frame(frame).skip(held) + tail) == (
        match feed_bytes(Seq::empty(), tail) {
            Some((frames, rest)) => Some((seq![frame] + frames, rest)),
            None => None,
        }),
    decreases encode_frame(frame).len() - held,
{
    let whole = encode_frame(frame);
    let input = whole.skip(held) + tail;
    let grown = whole.take(held).push(input[0]);
    assert(input[0] == whole[held]);
    assert(grown =~= whole.take(held + 1));
    assert(input.skip(1) =~= whole.skip(held + 1) + tail);
    if held + 1 < whole.len() {
        lemma_prefix_incomplete(frame, grown, 0, held + 1);
        lemma_feed_one_frame(frame, held + 1, tail);
    } else {
        assert(grown =~= whole);
        lemma_scan_encoded(frame, whole, 0);
        lemma_extent_of_scanned(whole, 0);
        assert(grown.skip(whole.len() as int) =~= Seq::<u8>::empty());
        assert(whole.skip(held + 1) + tail =~= tail);
    }
}

/// Incremental decoding: the encodings of wire-safe frames, fed to an empty
/// reader one byte at a time, come out as exactly those frames, in order,
/// with nothing left in the buffer. Every state in between is a wait, none
/// an error.
pub proof fn lemma_feed_bytes_decodes(frames: Seq<FrameView>)
    requires
        forall|i: int| 0 <= i < frames.len() ==> wire_safe(#[trigger] frames[i]),
    ensures
        feed_bytes(Seq::empty(), encode_frames(frames)) == Some((frames, Seq::<u8>::empty())),
    decreases frames.len(),
{
    if frames.len() == 0 {
        assert(frames =~= Seq::<FrameView>::empty());
    } else {
        let head = frames[0];
        let tail = frames.skip(1);
        let first = encode_frame(head);
        lemma_encoding_starts_with_tag(head);
        assert forall|i: int| 0 <= i < tail.len() implies wire_safe(#[trigger] tail[i]) by {
            assert(tail[i] == frames[i + 1]);
        }
        lemma_feed_bytes_decodes(tail);
        lemma_feed_one_frame(head, 0, encode_frames(tail));
        assert(first.take(0) =~= Seq::<u8>::empty());
        assert(first.skip(0) =~= first);
        assert(seq![head] + tail =~= frames);
    }
}

} // verus!
