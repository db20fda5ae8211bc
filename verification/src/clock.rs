//! Readings of the driver's clock.
//!
//! The state machines never read a clock themselves. The driver hands them
//! the reading of a monotonic clock, in milliseconds since a start that it
//! chose once, with every event.

use vstd::prelude::*;

verus! {

/// Milliseconds in a second.
pub const MILLIS_PER_SEC: u64 = 1000;

/// The time that has passed at `now` since `since`. A clock that reads
/// earlier than `since` counts as no time passed.
#[verifier::allow_in_spec]
pub fn elapsed(since: u64, now: u64) -> u64
    returns
        (if now >= since {
            (now - since) as u64
        } else {
            0u64
        }),
{
    if now >= since {
        now - since
    } else {
        0
    }
}

/// The part of `timeout` that is still to run at `now`, counted from `since`.
#[verifier::allow_in_spec]
pub fn remaining(timeout: u64, since: u64, now: u64) -> u64
    returns
        (if elapsed(since, now) >= timeout {
            0u64
        } else {
            (timeout - elapsed(since, now)) as u64
        }),
{
    let passed = elapsed(since, now);
    if passed >= timeout {
        0
    } else {
        timeout - passed
    }
}

/// A duration given in whole seconds, in milliseconds. One too long for the
/// clock becomes the longest that the clock can tell.
pub fn millis_from_secs(secs: u64) -> (millis: u64)
    ensures
        millis == if secs * MILLIS_PER_SEC <= u64::MAX {
            secs * MILLIS_PER_SEC
        } else {
            u64::MAX as int
        },
{
    if secs <= u64::MAX / MILLIS_PER_SEC {
        secs * MILLIS_PER_SEC
    } else {
        u64::MAX
    }
}

} // verus!
