use vstd::prelude::*;
use chrono::{DateTime, SecondsFormat, Utc};

verus! {

/// The RFC 3339 text, with whole seconds and a `Z`, of the UTC instant
/// `seconds` after the Unix epoch, or `None` where chrono cannot represent
/// that instant.
pub uninterp spec fn rfc3339_of_seconds(seconds: int) -> Option<Seq<char>>;

/// The RFC 3339 text, with milliseconds and a `Z`, of the UTC instant
/// `millis` milliseconds after the Unix epoch, or `None` where chrono cannot
/// represent that instant.
pub uninterp spec fn rfc3339_of_millis(millis: int) -> Option<Seq<char>>;

/// The instant that an RFC 3339 text names, in milliseconds since the Unix
/// epoch, or `None` where the text is no valid RFC 3339 date-time.
pub uninterp spec fn millis_of_rfc3339(text: Seq<char>) -> Option<int>;

/// chrono's `DateTime::<Utc>::from_timestamp(seconds, 0)` followed by
/// `to_rfc3339_opts(SecondsFormat::Secs, true)`. Claimed: the result is a
/// function of `seconds` alone, named `rfc3339_of_seconds`.
#[verifier::external_body]
fn utc_text_of_seconds(seconds: i64) -> (r: Option<String>)
    ensures
        match r {
            Some(s) => rfc3339_of_seconds(seconds as int) == Some(s@),
            None => rfc3339_of_seconds(seconds as int) is None,
        },
{
    match DateTime::<Utc>::from_timestamp(seconds, 0) {
        Some(value) => Some(value.to_rfc3339_opts(SecondsFormat::Secs, true)),
        None => None,
    }
}

/// chrono's `DateTime::<Utc>::from_timestamp_millis(millis)` followed by
/// `to_rfc3339_opts(SecondsFormat::Millis, true)`. Claimed: the result is a
/// function of `millis` alone, named `rfc3339_of_millis`.
#[verifier::external_body]
fn utc_text_of_millis(millis: i64) -> (r: Option<String>)
    ensures
        match r {
            Some(s) => rfc3339_of_millis(millis as int) == Some(s@),
            None => rfc3339_of_millis(millis as int) is None,
        },
{
    match DateTime::<Utc>::from_timestamp_millis(millis) {
        Some(value) => Some(value.to_rfc3339_opts(SecondsFormat::Millis, true)),
        None => None,
    }
}

/// chrono's `DateTime::parse_from_rfc3339(text)` followed by
/// `timestamp_millis()`. Claimed: the result is a function of the text
/// alone, named `millis_of_rfc3339`.
#[verifier::external_body]
pub(crate) fn rfc3339_millis(text: &str) -> (r: Option<i64>)
    ensures
        match r {
            Some(m) => millis_of_rfc3339(text@) == Some(m as int),
            None => millis_of_rfc3339(text@) is None,
        },
{
    match DateTime::parse_from_rfc3339(text) {
        Ok(date) => Some(date.timestamp_millis()),
        Err(_) => None,
    }
}

/// The RFC 3339 text of an epoch second count, or the count itself where no
/// date can be formed.
pub open spec fn seconds_text(seconds: int) -> Seq<char> {
    match rfc3339_of_seconds(seconds) {
        Some(t) => t,
        None => crate::text::int_text(seconds),
    }
}

/// The RFC 3339 text of an epoch millisecond count, or the count itself
/// where no date can be formed.
pub open spec fn millis_text(millis: int) -> Seq<char> {
    match rfc3339_of_millis(millis) {
        Some(t) => t,
        None => crate::text::int_text(millis),
    }
}

/// `2026-06-15T06:48:57Z` for an epoch second count.
pub fn iso_from_seconds(seconds: i64) -> (r: String)
    ensures
        r@ == seconds_text(seconds as int),
{
    match utc_text_of_seconds(seconds) {
        Some(t) => t,
        None => crate::text::i64_text(seconds),
    }
}

/// `2026-06-15T06:48:57.000Z` for an epoch millisecond count.
pub fn iso_from_millis(milliseconds: i64) -> (r: String)
    ensures
        r@ == millis_text(milliseconds as int),
{
    match utc_text_of_millis(milliseconds) {
        Some(t) => t,
        None => crate::text::i64_text(milliseconds),
    }
}

} // verus!
