//! The wall clock, as a trusted reading. Mutating operations that stamp
//! timestamps take the reading as an argument, so everything after the
//! reading is verified for every value of it.

use vstd::prelude::*;
use crate::types::Timestamp;

verus! {

/// Relies on std::time::SystemTime::now, read as a duration since the Unix
/// epoch: a clock before the epoch reads as zero, and the second count is
/// clamped into the stored range.
#[verifier::external_body]
pub fn now_timestamp() -> (t: Timestamp)
    ensures
        0 <= t.seconds,
        0 <= t.nanos < 1_000_000_000,
{
    let d = std::time::SystemTime::now()
        .duration_since(std::time::UNIX_EPOCH)
        .unwrap_or(std::time::Duration::ZERO);
    let secs = d.as_secs();
    let seconds = if secs > i64::MAX as u64 { i64::MAX } else { secs as i64 };
    Timestamp { seconds, nanos: d.subsec_nanos() as i32 }
}

} // verus!
