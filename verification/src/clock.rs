//! The wall clock.

use vstd::prelude::*;

verus! {

/// `time::get_time` of the `time` crate: the seconds of the system's
/// real-time clock, counted from 1970-01-01T00:00:00Z. Nothing is claimed of
/// the value: two calls may give any two numbers.
#[verifier::external_body]
pub(crate) fn unix_seconds() -> (seconds: i64) {
    time::get_time().sec
}

} // verus!
