//! Timestamp rendering for listing rows: seconds since the Unix epoch become
//! a `YYYY-MM-DD HH:MM:SS` string in UTC.

use vstd::prelude::*;

verus! {

/// What the chrono rendering below returns for a given number of seconds: a
/// function of the seconds alone.
pub uninterp spec fn utc_datetime_of(secs: u64) -> Seq<char>;

/// Relies on `chrono::DateTime::<Utc>::from_timestamp` and chrono's
/// `%Y-%m-%d %H:%M:%S` formatting: the rendered UTC date-time is a pure
/// function of the seconds; for the few values chrono's calendar cannot hold
/// it degrades to the placeholder, still a function of the seconds alone.
#[verifier::external_body]
pub(crate) fn format_utc(secs: u64) -> (r: String)
    ensures
        r@ == utc_datetime_of(secs),
{
    match chrono::DateTime::<chrono::Utc>::from_timestamp(secs as i64, 0) {
        Some(t) => t.format("%Y-%m-%d %H:%M:%S").to_string(),
        None => "-".to_string(),
    }
}

} // verus!
