//! The wall clock, behind one trusted call. Nothing is promised of the value
//! it returns: every caller states what holds of its own result whatever the
//! time was.

use vstd::prelude::*;

verus! {

/// Relies on `chrono::Utc::now`: the current time as milliseconds since the
/// epoch. The value depends on the clock, so nothing is promised of it.
#[verifier::external_body]
pub fn now_millis() -> i64 {
    chrono::Utc::now().timestamp_millis()
}

} // verus!
