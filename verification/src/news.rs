//! How long stored news stays fresh.

use crate::clock::{parse_rfc3339, rfc3339_millis};
use vstd::prelude::*;

verus! {

/// The time for which stored news is served before the news providers are
/// asked again, in milliseconds: six hours.
pub const NEWS_FRESH_MILLIS: i64 = 21_600_000;

/// Whether news stored at `created` is still fresh at `now`.
pub open spec fn is_fresh(created: int, now: int) -> bool {
    now - created < NEWS_FRESH_MILLIS
}

/// Whether the news whose time of storing is written in `created_at` is
/// still fresh at `now`. News whose time cannot be read is not.
pub open spec fn stored_news_fresh(created_at: Seq<char>, now: int) -> bool {
    match rfc3339_millis(created_at) {
        Some(created) => is_fresh(created as int, now),
        None => false,
    }
}

/// Whether news stored at `created` is still fresh at `now`.
pub fn news_is_fresh(created: i64, now: i64) -> (fresh: bool)
    ensures
        fresh == is_fresh(created as int, now as int),
{
    (now as i128) - (created as i128) < NEWS_FRESH_MILLIS as i128
}

/// Whether the news whose time of storing is written in `created_at` is
/// still fresh at `now`.
pub fn stored_news_is_fresh(created_at: &str, now: i64) -> (fresh: bool)
    ensures
        fresh == stored_news_fresh(created_at@, now as int),
{
    match parse_rfc3339(created_at) {
        Some(created) => news_is_fresh(created, now),
        None => false,
    }
}

} // verus!
