//! Arguments of the command line as the values they stand for.

use crate::buf::bytes_contents;
use crate::decimal::{decimal_value, parse_decimal};
use crate::time::{duration_nanos, NANOS_PER_MILLI};
use bytes::Bytes;
use std::time::Duration;
use vstd::prelude::*;
use vstd::slice::slice_subrange;
use vstd::utf8::encode_utf8;

verus! {

/// The byte `+`, which may stand before a number on the command line.
pub const PLUS: u8 = 43;

/// The number that an argument of the command line spells: an unsigned
/// 64-bit decimal number, which a single `+` may stand before.
pub open spec fn argument_value(bytes: Seq<u8>) -> Option<u64> {
    if bytes.len() > 0 && bytes[0] == PLUS {
        decimal_value(bytes.skip(1))
    } else {
        decimal_value(bytes)
    }
}

/// The span of the number of milliseconds that `src` spells, and nothing
/// where `src` spells no number.
pub fn duration_from_ms_str(src: &str) -> (r: Option<Duration>)
    ensures
        match argument_value(encode_utf8(src@)) {
            Some(ms) => r is Some && duration_nanos(r->0) == ms * NANOS_PER_MILLI,
            None => r is None,
        },
{
    let bytes = src.as_bytes();
    let digits = if bytes.len() > 0 && bytes[0] == PLUS {
        slice_subrange(bytes, 1, bytes.len())
    } else {
        bytes
    };
    match parse_decimal(digits) {
        Some(ms) => Some(Duration::from_millis(ms)),
        None => None,
    }
}

/// The bytes of `src` in UTF-8.
pub fn bytes_from_str(src: &str) -> (r: Bytes)
    ensures
        bytes_contents(r) == encode_utf8(src@),
{
    Bytes::copy_from_slice(src.as_bytes())
}

} // verus!
