//! Time: readings of the monotonic clock, spans, and wall-clock moments.
//!
//! A reading of the monotonic clock is a number of nanoseconds from an origin
//! that stays the same while the program runs; a span is a number of
//! nanoseconds.
use vstd::prelude::*;

verus! {

/// One millisecond as a span.
pub const MILLISECOND: i64 = 1_000_000;

/// One second as a span.
pub const SECOND: i64 = 1_000_000_000;

/// A moment of the wall clock: `secs` whole seconds from the Unix epoch,
/// negative before it, and `nanos` nanoseconds after that second.
#[derive(Debug, Clone, Copy, PartialEq, Eq, Structural)]
pub struct UnixTime {
    pub secs: i64,
    pub nanos: u32,
}

/// Whether more than `span` has passed from `then` to `now`.
pub fn longer_than(then: i64, now: i64, span: i64) -> (r: bool)
    ensures
        r == (now - then > span),
{
    now as i128 - then as i128 > span as i128
}

} // verus!
