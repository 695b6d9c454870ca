//! Spans of time. `std::time::Duration` is carried as it is; this module
//! names what a span amounts to and states what its conversions give.

use std::time::Duration;
use vstd::prelude::*;

verus! {

/// The number of nanoseconds in a millisecond.
pub const NANOS_PER_MILLI: u128 = 1_000_000;

/// The length of a span in whole nanoseconds.
pub uninterp spec fn duration_nanos(d: Duration) -> nat;

/// `Duration::from_millis`: the span of `millis` milliseconds.
pub assume_specification[ Duration::from_millis ](millis: u64) -> (d: Duration)
    ensures
        duration_nanos(d) == millis * NANOS_PER_MILLI,
;

/// `Duration::as_millis`: the whole milliseconds that the span holds.
pub assume_specification[ Duration::as_millis ](d: &Duration) -> (millis: u128)
    ensures
        millis == duration_nanos(*d) / (NANOS_PER_MILLI as nat),
;

/// `Duration::as_nanos`: the nanoseconds that the span holds.
pub assume_specification[ Duration::as_nanos ](d: &Duration) -> (nanos: u128)
    ensures
        nanos == duration_nanos(*d),
;

} // verus!
