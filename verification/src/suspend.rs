//! Suspend/resume awareness: what logind's `PrepareForSleep` signal means, and
//! how long to wait before connecting to the system bus again.
use crate::clock::SECOND;
use vstd::prelude::*;

verus! {

/// Reconnect backoff for the system-bus connection: 5 s doubling to 60 s.
/// Without the system bus the daemon goes on, unaware of resumes.
pub const RECONNECT_BASE: i64 = 5 * SECOND;

pub const RECONNECT_CAP: i64 = 60 * SECOND;

/// The delay that follows `delay`.
pub open spec fn following(delay: int) -> int {
    if 2 * delay < RECONNECT_CAP {
        2 * delay
    } else {
        RECONNECT_CAP as int
    }
}

/// The delay before the connection is tried for the `n`th time again.
pub open spec fn reconnect_delay(n: nat) -> int
    decreases n,
{
    if n == 0 {
        RECONNECT_BASE as int
    } else {
        following(reconnect_delay((n - 1) as nat))
    }
}

/// The delay that follows `delay`: twice as long, up to `RECONNECT_CAP`.
pub fn next_delay(delay: i64) -> (r: i64)
    requires
        0 <= delay <= RECONNECT_CAP,
    ensures
        r == following(delay as int),
        0 <= r <= RECONNECT_CAP,
{
    let doubled: i64 = delay * 2;
    if doubled < RECONNECT_CAP {
        doubled
    } else {
        RECONNECT_CAP
    }
}

/// Whether a `PrepareForSleep` signal says that the machine woke up: its
/// argument is true just before the machine sleeps, false on resume. A signal
/// whose argument could not be read says nothing.
pub fn is_resume(start: Option<bool>) -> (r: bool)
    ensures
        r == (start == Some(false)),
{
    match start {
        Some(start) => !start,
        None => false,
    }
}

/// The delay starts at `RECONNECT_BASE`, never shrinks, and stays at
/// `RECONNECT_CAP` once it is there.
pub proof fn reconnect_delay_grows_to_the_cap(n: nat)
    ensures
        reconnect_delay(0) == RECONNECT_BASE,
        RECONNECT_BASE <= reconnect_delay(n) <= reconnect_delay(n + 1) <= RECONNECT_CAP,
        reconnect_delay(n) == RECONNECT_CAP ==> reconnect_delay(n + 1) == RECONNECT_CAP,
        n >= 4 ==> reconnect_delay(n) == RECONNECT_CAP,
    decreases n,
{
    if n > 0 {
        reconnect_delay_grows_to_the_cap((n - 1) as nat);
        reveal_with_fuel(reconnect_delay, 6);
    }
}

/// A delay is followed by one twice as long, or by a minute where that would be
/// longer; so the delays are 5, 10, 20, 40 and from then on 60 seconds.
pub proof fn delays_double_up_to_a_minute(delay: int, n: nat)
    ensures
        2 * delay <= 60_000_000_000 ==> following(delay) == 2 * delay,
        2 * delay > 60_000_000_000 ==> following(delay) == 60_000_000_000,
        reconnect_delay(0) == 5_000_000_000,
        n < 3 ==> reconnect_delay(n + 1) == 2 * reconnect_delay(n),
        n >= 4 ==> reconnect_delay(n) == 60_000_000_000,
{
    reveal_with_fuel(reconnect_delay, 6);
    reconnect_delay_grows_to_the_cap(n);
}

} // verus!
