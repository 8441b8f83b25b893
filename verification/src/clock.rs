//! Instants as seconds since the Unix epoch, and their textual forms.

use vstd::prelude::*;
use vstd::string::*;

verus! {

/// The instant that a text denotes in the RFC 3339 format, in whole seconds
/// since the epoch, as `chrono::DateTime::parse_from_rfc3339` reads it.
pub uninterp spec fn rfc3339_instant(text: Seq<char>) -> Option<i64>;

/// The RFC 3339 text of an instant, as `chrono::DateTime::to_rfc3339` writes
/// it in UTC; nothing for an instant outside the calendar's range.
pub uninterp spec fn rfc3339_form(seconds: i64) -> Option<Seq<char>>;

/// The `YYYYMMDDTHHMMSSZ` text of an instant, as `chrono::DateTime::format`
/// writes it in UTC; nothing for an instant outside the calendar's range.
pub uninterp spec fn utc_basic_form(seconds: i64) -> Option<Seq<char>>;

/// The instant that a text denotes in the `YYYYMMDDTHHMMSSZ` form, in
/// seconds since the epoch, as `chrono::NaiveDateTime::parse_from_str` reads
/// it with `%Y%m%dT%H%M%SZ`; nothing where the text is not in that form.
pub uninterp spec fn utc_basic_instant(text: Seq<char>) -> Option<i64>;

/// `chrono::NaiveDateTime::parse_from_str` with `%Y%m%dT%H%M%SZ`, the result
/// taken as UTC and handed out as seconds since the epoch.
#[verifier::external_body]
pub(crate) fn parse_utc_basic(text: &str) -> (r: Option<i64>)
    ensures
        r == utc_basic_instant(text@),
{
    chrono::NaiveDateTime::parse_from_str(text, "%Y%m%dT%H%M%SZ").ok().map(|d| d.and_utc().timestamp())
}

/// `chrono::Utc::now`: the system clock, as whole seconds since the epoch and,
/// where they fit 64 bits, as nanoseconds since the epoch. Nothing is claimed
/// of the reading.
#[verifier::external_body]
pub(crate) fn clock_reading() -> (r: (i64, Option<i64>)) {
    let now = chrono::Utc::now();
    (now.timestamp(), now.timestamp_nanos_opt())
}

/// `chrono::DateTime::parse_from_rfc3339`: the instant of an RFC 3339 text in
/// whole seconds since the epoch, or nothing where the text is not in that
/// format.
#[verifier::external_body]
pub(crate) fn parse_rfc3339(text: &str) -> (r: Option<i64>)
    ensures
        r == rfc3339_instant(text@),
{
    chrono::DateTime::parse_from_rfc3339(text).ok().map(|d| d.timestamp())
}

/// `chrono::DateTime::to_rfc3339` on the UTC instant `seconds` after the
/// epoch, or nothing where `chrono::DateTime::from_timestamp` has no such
/// instant.
#[verifier::external_body]
pub(crate) fn rfc3339_text(seconds: i64) -> (r: Option<String>)
    ensures
        match rfc3339_form(seconds) {
            Some(t) => r matches Some(s) && s@ == t,
            None => r is None,
        },
{
    chrono::DateTime::from_timestamp(seconds, 0).map(|d| d.to_rfc3339())
}

/// `chrono::DateTime::format` with `%Y%m%dT%H%M%SZ` on the UTC instant
/// `seconds` after the epoch, or nothing where
/// `chrono::DateTime::from_timestamp` has no such instant.
#[verifier::external_body]
pub(crate) fn utc_basic_text(seconds: i64) -> (r: Option<String>)
    ensures
        match utc_basic_form(seconds) {
            Some(t) => r matches Some(s) && s@ == t,
            None => r is None,
        },
{
    chrono::DateTime::from_timestamp(seconds, 0).map(|d| d.format("%Y%m%dT%H%M%SZ").to_string())
}

/// One hour after an instant, or the last instant where that is out of reach.
pub open spec fn hour_after(seconds: i64) -> i64 {
    if seconds > i64::MAX - 3600 {
        i64::MAX
    } else {
        (seconds + 3600) as i64
    }
}

/// Adds one hour to an instant, stopping at the last instant.
pub fn add_hour(seconds: i64) -> (r: i64)
    ensures
        r == hour_after(seconds),
{
    if seconds > i64::MAX - 3600 {
        i64::MAX
    } else {
        seconds + 3600
    }
}

} // verus!
