//! Byte containers used on the wire.
//!
//! The codec reads from a `std::io::Cursor` over a byte slice through the
//! `bytes::Buf` trait, carries payloads as `bytes::Bytes` and buffers incoming
//! data in a `bytes::BytesMut`. None of these types is verified here: this
//! module declares them, names what they hold, and states what each call the
//! library makes does to those contents.

use bytes::{Buf, Bytes, BytesMut};
use std::io::Cursor;
use vstd::prelude::*;

verus! {

/// `bytes::Bytes`, taken as it is: a value of it is opaque here.
#[verifier::external_type_specification]
#[verifier::external_body]
pub struct ExBytes(Bytes);

/// `bytes::BytesMut`, taken as it is: a value of it is opaque here.
#[verifier::external_type_specification]
#[verifier::external_body]
pub struct ExBytesMut(BytesMut);

/// `std::io::Cursor`, taken as it is: a value of it is opaque here.
#[verifier::external_type_specification]
#[verifier::external_body]
#[verifier::reject_recursive_types(T)]
pub struct ExCursor<T>(Cursor<T>);

/// The bytes held by a `Bytes` value, in order.
pub uninterp spec fn bytes_contents(b: Bytes) -> Seq<u8>;

/// The lowercase hexadecimal digit of a number below sixteen.
pub open spec fn hex_digit(n: u8) -> char {
    if n < 10 {
        (48 + n) as char
    } else {
        (87 + n) as char
    }
}

/// One byte as it stands in a byte string literal: line feed, carriage
/// return, tab, backslash, double quote and zero by their escapes, other
/// printable ASCII as the character, and every other byte as `\x` and two
/// hexadecimal digits.
pub open spec fn escaped_byte(b: u8) -> Seq<char> {
    if b == 10 {
        seq!['\\', 'n']
    } else if b == 13 {
        seq!['\\', 'r']
    } else if b == 9 {
        seq!['\\', 't']
    } else if b == 92 || b == 34 {
        seq!['\\', b as char]
    } else if b == 0 {
        seq!['\\', '0']
    } else if 32 <= b < 127 {
        seq![b as char]
    } else {
        seq!['\\', 'x', hex_digit(b / 16), hex_digit(b % 16)]
    }
}

/// The bytes of `data` as they stand in a byte string literal.
pub open spec fn escaped_bytes(data: Seq<u8>) -> Seq<char>
    decreases data.len(),
{
    if data.len() == 0 {
        Seq::<char>::empty()
    } else {
        escaped_byte(data[0]) + escaped_bytes(data.skip(1))
    }
}

/// The text that the `Debug` form of a `Bytes` holding `data` comes to: a
/// byte string literal, `b"..."`, with the bytes escaped.
pub open spec fn bytes_debug_text(data: Seq<u8>) -> Seq<char> {
    seq!['b', '"'] + escaped_bytes(data) + seq!['"']
}

/// The bytes held by a `BytesMut` buffer, in order.
pub uninterp spec fn bytes_mut_contents(b: BytesMut) -> Seq<u8>;

/// The whole slice a cursor was created over, regardless of its position.
pub uninterp spec fn cursor_contents(c: Cursor<&[u8]>) -> Seq<u8>;

/// The position of a cursor: the index of the next byte to read.
pub uninterp spec fn cursor_offset(c: Cursor<&[u8]>) -> nat;

/// The number of bytes between the cursor's position and the end of its
/// slice; zero when the position lies past the end.
pub open spec fn cursor_remaining(c: Cursor<&[u8]>) -> nat {
    if cursor_offset(c) <= cursor_contents(c).len() {
        (cursor_contents(c).len() - cursor_offset(c)) as nat
    } else {
        0
    }
}

/// `Bytes::clone`: the clone shares the buffer, so it holds the same bytes.
pub assume_specification[ <Bytes as Clone>::clone ](b: &Bytes) -> (r: Bytes)
    ensures
        bytes_contents(r) == bytes_contents(*b),
;

/// `Bytes::copy_from_slice`: a new `Bytes` holding a copy of `data`.
pub assume_specification[ Bytes::copy_from_slice ](data: &[u8]) -> (b: Bytes)
    ensures
        bytes_contents(b) == data@,
;

/// `Bytes::from(String)`: takes over the string's UTF-8 bytes unchanged.
#[verifier::external_body]
pub(crate) fn bytes_from_string(text: String) -> (b: Bytes)
    ensures
        bytes_contents(b) == vstd::utf8::encode_utf8(text@),
{
    Bytes::from(text)
}

/// `Deref` of `Bytes`: the held bytes as a slice.
#[verifier::external_body]
pub(crate) fn bytes_as_slice(b: &Bytes) -> (s: &[u8])
    ensures
        s@ == bytes_contents(*b),
{
    &b[..]
}

/// The `Debug` form of `Bytes`: the held bytes as a byte string literal,
/// escaped byte by byte as the implementation in the crate writes them.
#[verifier::external_body]
pub(crate) fn bytes_debug(b: &Bytes) -> (text: String)
    ensures
        text@ == bytes_debug_text(bytes_contents(*b)),
{
    format!("{:?}", b)
}

/// `BytesMut::with_capacity`: an empty buffer; the capacity is only a hint.
pub assume_specification[ BytesMut::with_capacity ](capacity: usize) -> (b: BytesMut)
    ensures
        bytes_mut_contents(b) == Seq::<u8>::empty(),
;

/// `BytesMut::is_empty`: whether the buffer holds no byte.
pub assume_specification[ BytesMut::is_empty ](b: &BytesMut) -> (r: bool)
    ensures
        r == (bytes_mut_contents(*b).len() == 0),
;

/// `BytesMut::extend_from_slice`: appends `extend` to the buffer.
pub assume_specification[ BytesMut::extend_from_slice ](b: &mut BytesMut, extend: &[u8])
    ensures
        bytes_mut_contents(*final(b)) == bytes_mut_contents(*old(b)) + extend@,
;

/// `Deref` of `BytesMut`: the buffered bytes as a slice.
#[verifier::external_body]
pub(crate) fn bytes_mut_as_slice(b: &BytesMut) -> (s: &[u8])
    ensures
        s@ == bytes_mut_contents(*b),
{
    &b[..]
}

/// `Buf::advance` on `BytesMut`: drops the first `cnt` bytes. The call panics
/// when `cnt` exceeds the buffered length, which the precondition excludes.
#[verifier::external_body]
pub(crate) fn bytes_mut_advance(b: &mut BytesMut, cnt: usize)
    requires
        cnt <= bytes_mut_contents(*old(b)).len(),
    ensures
        bytes_mut_contents(*final(b)) == bytes_mut_contents(*old(b)).skip(cnt as int),
{
    b.advance(cnt)
}

/// `Cursor::new`: a cursor over `data`, positioned at its start.
#[verifier::external_body]
pub(crate) fn cursor_new<'a>(data: &'a [u8]) -> (c: Cursor<&'a [u8]>)
    ensures
        cursor_contents(c) == data@,
        cursor_offset(c) == 0,
{
    Cursor::new(data)
}

/// `Cursor::position`: the current position.
#[verifier::external_body]
pub(crate) fn cursor_position(src: &Cursor<&[u8]>) -> (pos: u64)
    ensures
        pos == cursor_offset(*src),
{
    src.position()
}

/// `Cursor::set_position`: moves the cursor; any position is accepted, also
/// one past the end of the slice.
#[verifier::external_body]
pub(crate) fn cursor_set_position(src: &mut Cursor<&[u8]>, pos: u64)
    ensures
        cursor_offset(*final(src)) == pos,
        cursor_contents(*final(src)) == cursor_contents(*old(src)),
{
    src.set_position(pos)
}

/// `Cursor::get_ref`: the slice the cursor was created over.
#[verifier::external_body]
pub(crate) fn cursor_get_ref<'a>(src: &Cursor<&'a [u8]>) -> (data: &'a [u8])
    ensures
        data@ == cursor_contents(*src),
{
    *src.get_ref()
}

/// `Buf::remaining` on a cursor: the length of the slice minus the position,
/// saturating at zero.
#[verifier::external_body]
pub(crate) fn cursor_remaining_bytes(src: &Cursor<&[u8]>) -> (n: usize)
    ensures
        n == cursor_remaining(*src),
{
    src.remaining()
}

/// `Buf::has_remaining` on a cursor: whether at least one byte is left.
#[verifier::external_body]
pub(crate) fn cursor_has_remaining(src: &Cursor<&[u8]>) -> (r: bool)
    ensures
        r == (cursor_remaining(*src) > 0),
{
    src.has_remaining()
}

/// `Buf::chunk` on a cursor: the part of the slice from the position on,
/// empty when the position lies past the end.
#[verifier::external_body]
pub(crate) fn cursor_chunk<'a>(src: &'a Cursor<&[u8]>) -> (rest: &'a [u8])
    ensures
        rest@ == cursor_contents(*src).subrange(
            cursor_contents(*src).len() - cursor_remaining(*src),
            cursor_contents(*src).len() as int,
        ),
{
    src.chunk()
}

/// `Buf::advance` on a cursor: moves the position forward by `cnt`. The call
/// panics when `cnt` exceeds what remains, which the precondition excludes.
#[verifier::external_body]
pub(crate) fn cursor_advance(src: &mut Cursor<&[u8]>, cnt: usize)
    requires
        cnt <= cursor_remaining(*old(src)),
    ensures
        cursor_offset(*final(src)) == cursor_offset(*old(src)) + cnt,
        cursor_contents(*final(src)) == cursor_contents(*old(src)),
{
    src.advance(cnt)
}

/// `Buf::get_u8` on a cursor: the byte at the position, which then moves one
/// forward. The call panics when nothing remains, which the precondition
/// excludes.
#[verifier::external_body]
pub(crate) fn cursor_get_u8(src: &mut Cursor<&[u8]>) -> (byte: u8)
    requires
        cursor_remaining(*old(src)) > 0,
    ensures
        byte == cursor_contents(*old(src))[cursor_offset(*old(src)) as int],
        cursor_offset(*final(src)) == cursor_offset(*old(src)) + 1,
        cursor_contents(*final(src)) == cursor_contents(*old(src)),
{
    src.get_u8()
}

} // verus!
