//! Points in time, and the wall clock read through chrono.

use vstd::prelude::*;

verus! {

/// The earliest second that chrono's `DateTime<Utc>` can represent
/// (1 January of year -262143, 00:00:00), in seconds since the Unix epoch.
pub const MIN_UNIX_SECONDS: i64 = -8334601228800i64;

/// The last second that chrono's `DateTime<Utc>` can represent
/// (31 December of year 262142, 23:59:59), in seconds since the Unix epoch.
pub const MAX_UNIX_SECONDS: i64 = 8210266876799i64;

/// A point in time: whole seconds since the Unix epoch and the nanoseconds
/// past that second (at or above one second only within a leap second).
#[derive(Clone, Copy, Debug, PartialEq, Eq, Structural)]
pub struct Timestamp {
    pub seconds: i64,
    pub nanos: u32,
}

/// A timestamp that chrono can hold as a `DateTime<Utc>`.
pub open spec fn representable(t: Timestamp) -> bool {
    &&& MIN_UNIX_SECONDS <= t.seconds <= MAX_UNIX_SECONDS
    &&& t.nanos < 2_000_000_000
}

/// `chrono::Utc::now`, taken apart into seconds (`DateTime::timestamp`) and
/// nanoseconds (`DateTime::timestamp_subsec_nanos`). The value depends on the
/// machine's clock, so only its range is stated: chrono builds it from the
/// system time since the Unix epoch (panicking when the clock is set before
/// the epoch), so the seconds are not negative and the nanoseconds are below
/// one second.
#[verifier::external_body]
pub(crate) fn now_utc() -> (res: Timestamp)
    ensures
        representable(res),
        0 <= res.seconds,
        res.nanos < 1_000_000_000,
{
    let now = chrono::Utc::now();
    Timestamp { seconds: now.timestamp(), nanos: now.timestamp_subsec_nanos() }
}

} // verus!
