//! Points in time: seconds since the UNIX epoch, checked against the range
//! of the calendar.
use vstd::prelude::*;

verus! {

/// The seconds between the UNIX epoch and the epoch of the format,
/// 1989-12-31 00:00:00 UTC.
pub const EPOCH_OFFSET: i64 = 631_065_600;

/// Makes a point in time of seconds since the UNIX epoch with
/// `chrono::DateTime::from_timestamp`, and reads its seconds back with
/// `timestamp`.
///
/// Trusted: the seconds come back unchanged, since the two round-trip, and
/// every second of the years 1970 to 2242 is within the calendar's range,
/// which ends with the year 262142.
#[verifier::external_body]
pub(crate) fn utc_timestamp(secs: i64) -> (r: Option<i64>)
    ensures
        r matches Some(t) ==> t == secs,
        0 <= secs <= 0x2_0000_0000 ==> r is Some,
{
    match chrono::DateTime::from_timestamp(secs, 0) {
        Some(point) => Some(point.timestamp()),
        None => None,
    }
}

/// The point in time of a count of seconds since the epoch of the format,
/// in seconds since the UNIX epoch.
pub open spec fn unix_seconds(timestamp: u32) -> i64 {
    (timestamp + EPOCH_OFFSET) as i64
}

/// The point in time of a count of seconds since the epoch of the format,
/// in seconds since the UNIX epoch; `None` where the calendar does not reach
/// it, which is the case of no count.
pub fn date_time_of(timestamp: u32) -> (r: Option<i64>)
    ensures
        r == Some(unix_seconds(timestamp)),
{
    utc_timestamp(timestamp as i64 + EPOCH_OFFSET)
}

} // verus!
