//! The wall clock, behind a single trusted call.

use vstd::prelude::*;

verus! {

/// Relies on chrono::Local::now: reads the current wall-clock instant from
/// the system clock as a millisecond timestamp. The value depends on the
/// moment of the call, so nothing is promised of it.
#[verifier::external_body]
pub(crate) fn now_timestamp_millis() -> i64 {
    chrono::Local::now().timestamp_millis()
}

} // verus!
