//! The wall clock.

use vstd::prelude::*;

verus! {

/// Reads the system clock with `chrono::Utc::now` and returns the time as
/// microseconds since the Unix epoch, which `DateTime::timestamp_micros`
/// computes. Nothing is claimed about the value: the clock may stand still
/// or step back between two readings. `Utc::now` panics on a machine whose
/// clock is set before 1970 or beyond the years that `chrono` can hold.
#[verifier::external_body]
pub(crate) fn utc_now_micros() -> (now: i64) {
    chrono::Utc::now().timestamp_micros()
}

} // verus!
