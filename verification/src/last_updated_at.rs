//! The `Last-Updated-At` response header, and UTC date texts.

use vstd::prelude::*;

verus! {

/// Name of the header that carries when a cached entry was last updated.
pub const LAST_UPDATED_AT_KEY: &'static str = "Last-Updated-At";

/// Nanoseconds per second.
pub const NANOS_PER_SEC: u64 = 1_000_000_000;

/// Largest number of seconds since the epoch that dates are formatted for
/// (what a `u64` of nanoseconds reaches).
pub const MAX_FORMAT_SECS: i64 = 18_446_744_073;

/// The RFC 1123 date pattern of HTTP headers.
pub const RFC1123_PATTERN: &'static str = "%a, %d %b %Y %H:%M:%S GMT";

/// The compact date pattern of dump file names.
pub const COMPACT_PATTERN: &'static str = "%Y%m%dT%H%M%S";

/// The text that chrono formats with the pattern for the given number of
/// seconds since the Unix epoch, in UTC.
pub uninterp spec fn utc_format(secs: i64, pattern: Seq<char>) -> Seq<char>;

/// Calls chrono's `DateTime::from_timestamp` and formats the result with
/// the pattern. chrono gives a date for every second count within about
/// 262,000 years of the epoch; this states it for the counts up to what a
/// `u64` of nanoseconds reaches. The nanosecond part is kept under one
/// second (chrono would read more as a leap second), and neither pattern
/// prints it, so the text depends on the seconds and the pattern alone. The
/// two patterns admitted are valid, so formatting does not fail.
#[verifier::external_body]
pub(crate) fn format_utc(secs: i64, nanos: u32, pattern: &str) -> (r: Option<String>)
    requires
        pattern@ == RFC1123_PATTERN@ || pattern@ == COMPACT_PATTERN@,
        nanos < 1_000_000_000,
    ensures
        r matches Some(s) ==> s@ == utc_format(secs, pattern@),
        0 <= secs <= MAX_FORMAT_SECS ==> r is Some,
{
    match chrono::DateTime::from_timestamp(secs, nanos) {
        Some(dt) => Some(dt.format(pattern).to_string()),
        None => None,
    }
}

/// The whole seconds of a nanosecond timestamp read as unsigned.
pub open spec fn header_secs(unix_nano: i64) -> i64 {
    ((unix_nano as u64) / NANOS_PER_SEC) as i64
}

/// The `Last-Updated-At` value for a timestamp in nanoseconds since the
/// epoch (read as unsigned): none for zero, else the RFC 1123 date of its
/// whole seconds.
pub fn set_last_updated_at_value(unix_nano: i64) -> (r: Option<String>)
    ensures
        unix_nano == 0 ==> r is None,
        unix_nano != 0 ==> (r matches Some(s) && s@ == utc_format(header_secs(unix_nano), RFC1123_PATTERN@)),
{
    if unix_nano == 0 {
        return None;
    }
    let total: u64 = unix_nano as u64;
    let secs: u64 = total / NANOS_PER_SEC;
    let nanos: u64 = total % NANOS_PER_SEC;
    assert(secs <= MAX_FORMAT_SECS) by (nonlinear_arith)
        requires
            secs == total / 1_000_000_000u64,
    ;
    format_utc(secs as i64, nanos as u32, RFC1123_PATTERN)
}

/// The timestamp part of dump file names for a time in whole seconds since
/// the epoch; none outside the range that chrono can date.
pub fn format_timestamp(now_secs: i64) -> (r: Option<String>)
    ensures
        r matches Some(s) ==> s@ == utc_format(now_secs, COMPACT_PATTERN@),
        0 <= now_secs <= MAX_FORMAT_SECS ==> r is Some,
{
    format_utc(now_secs, 0, COMPACT_PATTERN)
}

} // verus!
