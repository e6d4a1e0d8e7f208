//! Names of the sessions of a race weekend.

use crate::text::str_eq;
use vstd::prelude::*;

verus! {

/// The name under which the store keeps a session that the timing provider
/// calls `external`, if the provider's name is one of the five known ones.
pub open spec fn session_name(external: Seq<char>) -> Option<Seq<char>> {
    if external == "Practice 1"@ {
        Some("FirstPractice"@)
    } else if external == "Practice 2"@ {
        Some("SecondPractice"@)
    } else if external == "Practice 3"@ {
        Some("ThirdPractice"@)
    } else if external == "Qualifying"@ {
        Some("Qualifying"@)
    } else if external == "Race"@ {
        Some("Race"@)
    } else {
        None
    }
}

/// Maps the provider's session name to the store's session type.
pub fn map_session_name(external: &str) -> (mapped: Option<&'static str>)
    ensures
        match mapped {
            Some(name) => session_name(external@) == Some(name@),
            None => session_name(external@).is_none(),
        },
{
    if str_eq(external, "Practice 1") {
        Some("FirstPractice")
    } else if str_eq(external, "Practice 2") {
        Some("SecondPractice")
    } else if str_eq(external, "Practice 3") {
        Some("ThirdPractice")
    } else if str_eq(external, "Qualifying") {
        Some("Qualifying")
    } else if str_eq(external, "Race") {
        Some("Race")
    } else {
        None
    }
}

} // verus!
