//! Points in time.
use vstd::prelude::*;

verus! {

/// The last second that a calendar date of the `chrono` crate can name.
pub const LAST_SECOND: i64 = 8_210_266_876_799;

/// A point in time in UTC: seconds since the start of 1970, and the nanoseconds
/// within that second.
#[derive(Clone, Copy, Debug, PartialEq, Eq, Structural)]
pub struct Timestamp {
    pub secs: i64,
    pub nanos: u32,
}

/// What `chrono` writes for the second `secs` under the format `%Y%m%d_%H%M%S`.
pub uninterp spec fn compact_stamp(secs: i64) -> Seq<char>;

/// `chrono::Utc::now`. The system clock decides which point in time comes back;
/// it is never before 1970 (the call panics on such a clock) and never past what
/// the crate can represent.
#[verifier::external_body]
pub(crate) fn utc_now() -> (r: Timestamp)
    ensures
        0 <= r.secs <= LAST_SECOND,
{
    let t = chrono::Utc::now();
    Timestamp { secs: t.timestamp(), nanos: t.timestamp_subsec_nanos() }
}

/// `chrono::DateTime::format` with `%Y%m%d_%H%M%S`, on the second `secs` in UTC.
/// The text depends on the second alone.
#[verifier::external_body]
pub(crate) fn format_compact(secs: i64) -> (r: String)
    requires
        0 <= secs <= LAST_SECOND,
    ensures
        r@ == compact_stamp(secs),
{
    let t = chrono::DateTime::from_timestamp(secs, 0).unwrap();
    t.format("%Y%m%d_%H%M%S").to_string()
}

} // verus!
