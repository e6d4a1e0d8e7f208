//! The wall clock and the textual form of instants.
//!
//! An instant is a count of milliseconds since the Unix epoch.

use vstd::prelude::*;

verus! {

/// The instant that `chrono::DateTime::parse_from_rfc3339` reads from `text`,
/// in milliseconds since the Unix epoch, or `None` where it rejects the text.
pub uninterp spec fn rfc3339_millis(text: Seq<char>) -> Option<i64>;

/// The text that `chrono::DateTime::<Utc>::to_rfc3339` writes for the instant
/// `at`, or `None` where `chrono::DateTime::from_timestamp_millis` has no
/// date for it.
pub uninterp spec fn rfc3339_text(at: i64) -> Option<Seq<char>>;

/// Reads the system clock through `chrono::Utc::now` and returns the instant
/// as `timestamp_millis` gives it. Nothing is claimed of the value.
#[verifier::external_body]
pub(crate) fn now_millis() -> i64 {
    chrono::Utc::now().timestamp_millis()
}

/// Calls `chrono::DateTime::parse_from_rfc3339` and converts the date with
/// `timestamp_millis`. The contract only names the result: it is a function
/// of the text.
#[verifier::external_body]
pub(crate) fn parse_rfc3339(text: &str) -> (at: Option<i64>)
    ensures
        at == rfc3339_millis(text@),
{
    match chrono::DateTime::parse_from_rfc3339(text) {
        Ok(date) => Some(date.timestamp_millis()),
        Err(_) => None,
    }
}

/// Calls `chrono::DateTime::from_timestamp_millis` and, where that yields a
/// date, `to_rfc3339` on it. The contract only names the result: it is a
/// function of the instant.
#[verifier::external_body]
pub(crate) fn format_rfc3339(at: i64) -> (text: Option<String>)
    ensures
        match text {
            Some(t) => rfc3339_text(at) == Some(t@),
            None => rfc3339_text(at).is_none(),
        },
{
    match chrono::DateTime::from_timestamp_millis(at) {
        Some(date) => Some(date.to_rfc3339()),
        None => None,
    }
}

} // verus!
