//! The wall clock, the one thing this library takes from outside.

use vstd::prelude::*;
use crate::types::Timestamp;

verus! {

/// Reads the current time with `time::now()` and converts it with
/// `Tm::to_timespec`. Trusted: the time crate builds the value through
/// `Timespec::new`, which admits only nanoseconds within one second, and
/// that is all this contract claims. Nothing is said of the seconds.
#[verifier::external_body]
pub(crate) fn wall_clock() -> (now: Timestamp)
    ensures
        now.within_second(),
{
    let t = time::now().to_timespec();
    Timestamp { sec: t.sec, nsec: t.nsec }
}

} // verus!
