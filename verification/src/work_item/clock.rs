//! The wall clock.

use vstd::prelude::*;

verus! {

/// Reads the wall clock through `chrono::Utc::now()` and hands back
/// `DateTime::timestamp_millis()` of it. Nothing is claimed of the number:
/// it is whatever the machine's clock says. Where the clock is set before
/// 1970 or beyond the dates that `chrono` knows, `chrono` stops the program.
#[verifier::external_body]
fn utc_now_millis() -> (millis: i64) {
    chrono::Utc::now().timestamp_millis()
}

/// Get the current UTC+0 timestamp in milliseconds since the epoch.
/// A clock that is set before the epoch reads as the epoch.
pub fn get_current_timestamp() -> (now: i64)
    ensures
        now >= 0,
{
    timestamp_of_reading(utc_now_millis())
}

/// The timestamp that a reading of the clock stands for: the reading itself,
/// and the epoch for a reading that lies before the epoch.
pub open spec fn reading_since_epoch(millis: i64) -> i64 {
    if millis < 0 {
        0
    } else {
        millis
    }
}

/// The timestamp that a reading of the clock stands for: the reading itself,
/// and the epoch for a reading that lies before the epoch.
pub fn timestamp_of_reading(millis: i64) -> (timestamp: i64)
    ensures
        timestamp == reading_since_epoch(millis),
{
    if millis < 0 {
        0
    } else {
        millis
    }
}

} // verus!
