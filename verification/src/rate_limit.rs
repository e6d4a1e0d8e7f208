//! The least time between two requests to a provider.

use vstd::prelude::*;

verus! {

/// How long a request has to wait so that at least `min_delay` lies between
/// it and the request before it, all in milliseconds: the rest of the delay
/// where the last request was made `elapsed` ago, nothing where the delay
/// has passed or no request was made yet.
pub open spec fn wait_of(elapsed: Option<u64>, min_delay: u64) -> u64 {
    match elapsed {
        Some(elapsed) => if elapsed < min_delay {
            (min_delay - elapsed) as u64
        } else {
            0
        },
        None => 0,
    }
}

/// How long a request has to wait so that at least `min_delay` lies between
/// it and the request before it.
pub fn wait_before_request(elapsed: Option<u64>, min_delay: u64) -> (wait: u64)
    ensures
        wait == wait_of(elapsed, min_delay),
{
    match elapsed {
        Some(elapsed) => if elapsed < min_delay {
            min_delay - elapsed
        } else {
            0
        },
        None => 0,
    }
}

} // verus!
