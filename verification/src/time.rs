//! Timestamp normalization: backends report last-modified instants as
//! RFC 3339 strings; the shared metadata record holds seconds since the
//! Unix epoch.

use vstd::prelude::*;

verus! {

/// The instant an RFC 3339 date-time string denotes, as seconds since the
/// Unix epoch, or nothing when the string is not a valid RFC 3339
/// date-time. A function of the characters alone.
pub uninterp spec fn rfc3339_seconds(s: Seq<char>) -> Option<i64>;

/// Relies on chrono's `DateTime::parse_from_rfc3339`, reading the parsed
/// instant with `DateTime::timestamp`: the result depends on the string
/// alone, and an empty string is never a valid date-time.
#[verifier::external_body]
pub fn parse_rfc3339_seconds(s: &str) -> (r: Option<i64>)
    ensures
        r == rfc3339_seconds(s@),
        s@.len() == 0 ==> r is None,
{
    chrono::DateTime::parse_from_rfc3339(s).ok().map(|dt| dt.timestamp())
}

} // verus!
