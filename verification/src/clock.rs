//! The wall clock.

use vstd::prelude::*;

verus! {

/// `chrono::Utc::now` followed by `DateTime::timestamp_micros`: the current
/// time in microseconds since the Unix epoch. Nothing is claimed of the
/// value, which differs from call to call. `Utc::now` does not return where
/// the system clock stands before the epoch.
#[verifier::external_body]
pub(crate) fn now_micros() -> (now: i64) {
    chrono::Utc::now().timestamp_micros()
}

} // verus!
