//! Reading is the inverse of writing: a buffer that holds the encoding of a
//! frame reads back as that frame, and every frame that can be read is one
//! whose encoding reads back as itself.

use crate::decimal::{
    decimal_digits, lemma_decimal_digits_shape, lemma_decimal_round_trip,
};
use crate::frame::{
    encode_frame, encode_frames, scan_frame, scan_frames, FrameView, TAG_ARRAY, TAG_BULK,
    TAG_ERROR, TAG_INTEGER, TAG_NULL, TAG_SIMPLE,
};
use crate::wire::{
    crlf, has_cr, holds_at, lemma_digits_have_no_cr, lemma_holds_at_concat,
    lemma_holds_at_subrange, lemma_scan_decimal_bounds, lemma_scan_line_bounds,
    lemma_scan_line_of_text, scan_decimal, scan_line, Scan, CR, LF,
};
use vstd::prelude::*;
use vstd::utf8::{
    decode_utf8_encode_utf8, encode_utf8, encode_utf8_decode_utf8, encode_utf8_valid_utf8,
};

verus! {

/// Whether a frame survives the wire: its texts hold no carriage return,
/// which belongs to the line end alone, and its lengths and counts fit the
/// 64-bit decimal fields that announce them.
pub open spec fn wire_safe(frame: FrameView) -> bool
    decreases frame,
{
    match frame {
        FrameView::Simple(text) => !has_cr(encode_utf8(text)),
        FrameView::Error(text) => !has_cr(encode_utf8(text)),
        FrameView::Integer(_) => true,
        FrameView::Bulk(data) => data.len() <= u64::MAX,
        FrameView::Null => true,
        FrameView::Array(items) => items.len() <= u64::MAX && forall|i: int|
            0 <= i < items.len() ==> wire_safe(#[trigger] items[i]),
    }
}

/// An encoding starts with its tag byte, so it is never empty.
pub proof fn lemma_encoding_starts_with_tag(frame: FrameView)
    ensures
        encode_frame(frame).len() >= 1,
{
}

/// A buffer that holds the digits of `n` and a line end at `pos` holds the
/// decimal field `n` there.
pub proof fn lemma_scan_decimal_of_number(data: Seq<u8>, pos: int, n: u64)
    requires
        holds_at(data, pos, decimal_digits(n as nat) + crlf()),
    ensures
        scan_decimal(data, pos) == (Scan::Complete {
            value: n,
            end: pos + decimal_digits(n as nat).len() + 2,
        }),
{
    let digits = decimal_digits(n as nat);
    lemma_decimal_digits_shape(n as nat);
    lemma_digits_have_no_cr(digits);
    lemma_scan_line_of_text(data, pos, digits);
    lemma_decimal_round_trip(n);
}

/// A buffer that holds a tag, a text and a line end at `pos` holds the line
/// `text` behind the tag.
proof fn lemma_tagged_line(data: Seq<u8>, pos: int, tag: u8, text: Seq<u8>)
    requires
        !has_cr(text),
        holds_at(data, pos, seq![tag] + text + crlf()),
    ensures
        0 <= pos < data.len(),
        data[pos] == tag,
        scan_line(data, pos + 1) == (Scan::Complete { value: text, end: pos + text.len() + 3 }),
{
    lemma_holds_at_concat(data, pos, seq![tag] + text, crlf());
    lemma_holds_at_concat(data, pos, seq![tag], text);
    lemma_holds_at_concat(data, pos + 1, text, crlf());
    assert(data[pos + 0] == seq![tag][0]);
    lemma_scan_line_of_text(data, pos + 1, text);
}

/// A buffer that holds the encoding of a wire-safe frame at `pos` reads as
/// that frame there, whatever comes before and behind.
pub proof fn lemma_scan_encoded(frame: FrameView, data: Seq<u8>, pos: int)
    requires
        wire_safe(frame),
        holds_at(data, pos, encode_frame(frame)),
    ensures
        scan_frame(data, pos) == (Scan::Complete {
            value: frame,
            end: pos + encode_frame(frame).len(),
        }),
    decreases frame,
{
    match frame {
        FrameView::Simple(text) => {
            let bytes = encode_utf8(text);
            lemma_tagged_line(data, pos, TAG_SIMPLE, bytes);
            encode_utf8_valid_utf8(text);
            encode_utf8_decode_utf8(text);
        },
        FrameView::Error(text) => {
            let bytes = encode_utf8(text);
            lemma_tagged_line(data, pos, TAG_ERROR, bytes);
            encode_utf8_valid_utf8(text);
            encode_utf8_decode_utf8(text);
        },
        FrameView::Integer(n) => {
            let digits = decimal_digits(n as nat);
            lemma_decimal_digits_shape(n as nat);
            lemma_digits_have_no_cr(digits);
            lemma_tagged_line(data, pos, TAG_INTEGER, digits);
            lemma_decimal_round_trip(n);
        },
        FrameView::Bulk(payload) => {
            let n = payload.len() as u64;
            let digits = decimal_digits(n as nat);
            let header = seq![TAG_BULK] + digits + crlf();
            lemma_holds_at_concat(data, pos, header + payload, crlf());
            lemma_holds_at_concat(data, pos, header, payload);
            lemma_decimal_digits_shape(n as nat);
            lemma_digits_have_no_cr(digits);
            lemma_tagged_line(data, pos, TAG_BULK, digits);
            lemma_decimal_round_trip(n);
            let body = pos + header.len();
            assert(crlf()[0] == CR && crlf()[1] == LF);
            assert(data[body + payload.len() + 0] == crlf()[0]);
            assert(data[body + payload.len() + 1] == crlf()[1]);
            lemma_holds_at_subrange(data, body, payload);
        },
        FrameView::Null => {
            let nothing = Seq::<u8>::empty();
            assert(seq![TAG_NULL] + nothing + crlf() =~= seq![TAG_NULL] + crlf());
            lemma_tagged_line(data, pos, TAG_NULL, nothing);
        },
        FrameView::Array(items) => {
            let n = items.len() as u64;
            let digits = decimal_digits(n as nat);
            let header = seq![TAG_ARRAY] + digits + crlf();
            lemma_holds_at_concat(data, pos, header, encode_frames(items));
            lemma_decimal_digits_shape(n as nat);
            lemma_digits_have_no_cr(digits);
            lemma_tagged_line(data, pos, TAG_ARRAY, digits);
            lemma_decimal_round_trip(n);
            lemma_scan_encoded_frames(items, data, pos + header.len());
        },
    }
}

/// A buffer that holds the encodings of wire-safe frames one behind the
/// other at `pos` reads as those frames there.
pub proof fn lemma_scan_encoded_frames(items: Seq<FrameView>, data: Seq<u8>, pos: int)
    requires
        forall|i: int| 0 <= i < items.len() ==> wire_safe(#[trigger] items[i]),
        holds_at(data, pos, encode_frames(items)),
    ensures
        scan_frames(data, pos, items.len()) == (Scan::Complete {
            value: items,
            end: pos + encode_frames(items).len(),
        }),
    decreases items,
{
    if items.len() == 0 {
        assert(items =~= Seq::<FrameView>::empty());
    } else {
        let head = items[0];
        let tail = items.skip(1);
        lemma_holds_at_concat(data, pos, encode_frame(head), encode_frames(tail));
        lemma_encoding_starts_with_tag(head);
        lemma_scan_encoded(head, data, pos);
        assert forall|i: int| 0 <= i < tail.len() implies wire_safe(#[trigger] tail[i]) by {
            assert(tail[i] == items[i + 1]);
        }
        lemma_scan_encoded_frames(tail, data, pos + encode_frame(head).len());
        assert(seq![head] + tail =~= items);
    }
}

/// A frame that was read ends inside the buffer, behind where it began, and
/// is wire-safe.
pub proof fn lemma_scanned_frame(data: Seq<u8>, pos: int)
    requires
        scan_frame(data, pos) is Complete,
    ensures
        0 <= pos < scan_frame(data, pos)->end <= data.len(),
        wire_safe(scan_frame(data, pos)->value),
    decreases data.len() - pos, 0nat,
{
    let tag = data[pos];
    if tag == TAG_SIMPLE || tag == TAG_ERROR {
        lemma_scan_line_bounds(data, pos + 1);
        decode_utf8_encode_utf8(scan_line(data, pos + 1)->value);
    } else if tag == TAG_INTEGER {
        lemma_scan_decimal_bounds(data, pos + 1);
    } else if tag == TAG_BULK {
        lemma_scan_decimal_bounds(data, pos + 1);
    } else if tag == TAG_ARRAY {
        lemma_scan_decimal_bounds(data, pos + 1);
        lemma_scanned_frames(
            data,
            scan_decimal(data, pos + 1)->end,
            scan_decimal(data, pos + 1)->value as nat,
        );
    } else {
        lemma_scan_line_bounds(data, pos + 1);
    }
}

/// Frames that were read one behind the other are as many as were asked for,
/// end inside the buffer, and are wire-safe.
pub proof fn lemma_scanned_frames(data: Seq<u8>, pos: int, count: nat)
    requires
        0 <= pos <= data.len(),
        scan_frames(data, pos, count) is Complete,
    ensures
        pos <= scan_frames(data, pos, count)->end <= data.len(),
        scan_frames(data, pos, count)->value.len() == count,
        forall|i: int|
            0 <= i < count ==> wire_safe(#[trigger] scan_frames(data, pos, count)->value[i]),
    decreases data.len() - pos, count,
{
    if count > 0 {
        lemma_scanned_frame(data, pos);
        let head = scan_frame(data, pos)->value;
        let mid = scan_frame(data, pos)->end;
        lemma_scanned_frames(data, mid, (count - 1) as nat);
        let tail = scan_frames(data, mid, (count - 1) as nat)->value;
        let all = scan_frames(data, pos, count)->value;
        assert(all == seq![head] + tail);
        assert forall|i: int| 0 <= i < count implies wire_safe(#[trigger] all[i]) by {
            if i > 0 {
                assert(all[i] == tail[i - 1]);
            }
        }
    }
}

/// Every frame that can be read from some buffer is read back from its own
/// encoding: reading undoes writing on all that reading can produce.
pub proof fn lemma_frame_round_trip(data: Seq<u8>, pos: int)
    requires
        scan_frame(data, pos) is Complete,
    ensures
        scan_frame(encode_frame(scan_frame(data, pos)->value), 0) == (Scan::Complete {
            value: scan_frame(data, pos)->value,
            end: encode_frame(scan_frame(data, pos)->value).len() as int,
        }),
{
    let frame = scan_frame(data, pos)->value;
    lemma_scanned_frame(data, pos);
    lemma_scan_encoded(frame, encode_frame(frame), 0);
}

} // verus!
