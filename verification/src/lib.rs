//! Core logic of a CI job-execution runner: reconnect backoff, session state,
//! the sequenced log pipeline, executor result handling, job admission and
//! step sequencing, with machine-checked contracts.

use vstd::prelude::*;

pub mod artifact;
pub mod backoff;
pub mod clock;
pub mod config;
pub mod docker;
pub mod executor;
pub mod job;
pub mod kvmap;
pub mod log;
pub mod messages;
pub mod outputs;
pub mod secrets;
pub mod session;
pub mod strutil;

verus! {

/// Integer percentage of `used` out of `total`, as reported in heartbeats;
/// zero when the total is zero, saturated if it cannot be represented.
pub fn memory_percent(used_mb: u64, total_mb: u64) -> (r: u64)
    ensures
        total_mb > 0 ==> r == if (used_mb as int * 100) / (total_mb as int) <= u64::MAX {
            (used_mb as int * 100) / (total_mb as int)
        } else {
            u64::MAX as int
        },
        total_mb == 0 ==> r == 0,
{
    if total_mb == 0 {
        0
    } else {
        let q: u128 = ((used_mb as u128) * 100) / (total_mb as u128);
        if q > u64::MAX as u128 {
            u64::MAX
        } else {
            q as u64
        }
    }
}

} // verus!
