//! The wall clock, as chrono reads it, and the rendering of times.

use vstd::prelude::*;

verus! {

/// The Unix time of chrono's latest instant, `DateTime::<Utc>::MAX_UTC`
/// (December 31, 262142, 23:59:59 UTC).
pub open spec fn latest_clock_second() -> i64 {
    8210266876799
}

/// A time the clock can show: from the Unix epoch to chrono's latest
/// instant.
pub open spec fn is_clock_second(secs: i64) -> bool {
    0 <= secs <= latest_clock_second()
}

/// `chrono::Utc::now().timestamp()`: the current Unix time in seconds.
/// Which time is read is not stated; what holds of every outcome is that
/// `Utc::now` (outside wasm) panics on a clock before the Unix epoch and
/// unwraps `DateTime::from_timestamp`, which has no instant after
/// `MAX_UTC`, so the seconds lie between 0 and that instant's.
#[verifier::external_body]
pub(crate) fn now_unix_seconds() -> (secs: i64)
    ensures
        is_clock_second(secs),
{
    chrono::Utc::now().timestamp()
}

/// `chrono::Utc::now().to_rfc3339()`: the current time as RFC 3339 text.
/// The text depends on the clock; what holds of every outcome is that the
/// date and time are written, so the text is not empty.
#[verifier::external_body]
pub(crate) fn now_rfc3339() -> (text: String)
    ensures
        text@.len() > 0,
{
    chrono::Utc::now().to_rfc3339()
}

/// What chrono shows for a Unix time in whole seconds: the `Display` text
/// of `DateTime::<Utc>::from_timestamp(secs, 0)`, or nothing when the time
/// is out of chrono's range.
pub uninterp spec fn spec_utc_text(secs: i64) -> Option<Seq<char>>;

/// The view of an optional string.
pub open spec fn opt_text(s: Option<String>) -> Option<Seq<char>> {
    match s {
        Some(t) => Some(t@),
        None => None,
    }
}

/// `DateTime::<Utc>::from_timestamp(secs, 0)` and its `Display` text
/// (such as `2015-05-15 00:00:00 UTC`). Trusted: the result is the named
/// text of the seconds.
#[verifier::external_body]
pub(crate) fn utc_text(secs: i64) -> (text: Option<String>)
    ensures
        opt_text(text) == spec_utc_text(secs),
{
    match chrono::DateTime::from_timestamp(secs, 0) {
        Some(t) => Some(t.to_string()),
        None => None,
    }
}

} // verus!
