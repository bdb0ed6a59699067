use vstd::prelude::*;

use crate::error::describe;
use crate::error::ShevError;

verus! {

/// Milliseconds in one day: the period of a daily schedule.
pub const DAY_MILLIS: i64 = 86_400_000;

/// Relies on chrono::Utc::now and DateTime::timestamp_millis: the current
/// time as milliseconds since the Unix epoch. `Utc::now` reads the system
/// clock and expects it to be after the epoch, so the result is not negative.
#[verifier::external_body]
pub(crate) fn now_millis() -> (r: i64)
    ensures
        r >= 0,
{
    chrono::Utc::now().timestamp_millis()
}

/// The instant that an RFC 3339 text names, in milliseconds since the Unix
/// epoch, or `None` where the text is not RFC 3339.
pub uninterp spec fn rfc3339_millis(s: Seq<char>) -> Option<int>;

/// Relies on chrono::DateTime::parse_from_rfc3339 and timestamp_millis: the
/// instant named by an RFC 3339 text, which depends on the text alone.
#[verifier::external_body]
pub(crate) fn parse_rfc3339(s: &str) -> (r: Option<i64>)
    ensures
        r matches Some(t) ==> rfc3339_millis(s@) == Some(t as int),
        r is None ==> rfc3339_millis(s@) is None,
{
    chrono::DateTime::parse_from_rfc3339(s).ok().map(|t| t.timestamp_millis())
}

/// Reads an RFC 3339 time; `InvalidInput` where the text is not one.
pub fn parse_time(s: &str) -> (r: Result<i64, ShevError>)
    ensures
        r matches Ok(t) ==> rfc3339_millis(s@) == Some(t as int),
        r matches Err(e) ==> rfc3339_millis(s@) is None && (e matches ShevError::InvalidInput(m) && m@ == "Invalid time format '"@
            + s@ + "'. Use RFC3339 format like 2025-01-15T14:30:00Z"@),
{
    match parse_rfc3339(s) {
        Some(t) => Ok(t),
        None => Err(ShevError::InvalidInput(describe(
            "Invalid time format '",
            s,
            "'. Use RFC3339 format like 2025-01-15T14:30:00Z",
        ))),
    }
}

} // verus!
