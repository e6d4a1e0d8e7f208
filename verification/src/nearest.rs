//! The sample nearest in time to an instant.

use vstd::prelude::*;

verus! {

/// The time between two instants.
pub open spec fn time_between(a: int, b: int) -> int {
    if a >= b {
        a - b
    } else {
        b - a
    }
}

/// The index of the instant of `instants` that is nearest to `at`; of
/// several equally near, the first. Zero where there is no instant.
pub open spec fn nearest(instants: Seq<i64>, at: int) -> int
    decreases instants.len(),
{
    if instants.len() <= 1 {
        0
    } else {
        let before = nearest(instants.drop_last(), at);
        if time_between(instants.last() as int, at) < time_between(instants[before] as int, at) {
            instants.len() - 1
        } else {
            before
        }
    }
}

/// The nearest instant is one of the sequence, no instant is nearer, and
/// every instant before it is further away.
pub proof fn lemma_nearest(instants: Seq<i64>, at: int)
    requires
        instants.len() > 0,
    ensures
        0 <= nearest(instants, at) < instants.len(),
        forall|j: int|
            0 <= j < instants.len() ==> time_between(instants[nearest(instants, at)] as int, at)
                <= time_between(#[trigger] instants[j] as int, at),
        forall|j: int|
            0 <= j < nearest(instants, at) ==> time_between(
                instants[nearest(instants, at)] as int,
                at,
            ) < time_between(#[trigger] instants[j] as int, at),
    decreases instants.len(),
{
    if instants.len() > 1 {
        let front = instants.drop_last();
        lemma_nearest(front, at);
        let before = nearest(front, at);
        assert(instants[before] == front[before]);
        assert forall|j: int| 0 <= j < instants.len() implies time_between(
            instants[nearest(instants, at)] as int,
            at,
        ) <= time_between(#[trigger] instants[j] as int, at) by {
            if j < front.len() {
                assert(instants[j] == front[j]);
            }
        }
        assert forall|j: int| 0 <= j < nearest(instants, at) implies time_between(
            instants[nearest(instants, at)] as int,
            at,
        ) < time_between(#[trigger] instants[j] as int, at) by {
            assert(instants[j] == front[j]);
        }
    }
}

/// The index of the instant of `instants` nearest to `at`, if there is an
/// instant.
pub fn nearest_index(instants: &Vec<i64>, at: i64) -> (index: Option<usize>)
    ensures
        instants.len() == 0 ==> index.is_none(),
        instants.len() > 0 ==> index == Some(nearest(instants@, at as int) as usize),
        instants.len() > 0 ==> 0 <= nearest(instants@, at as int) < instants.len(),
{
    if instants.len() == 0 {
        return None;
    }
    let mut best: usize = 0;
    let mut i: usize = 1;
    proof {
        assert(instants@.subrange(0, 1).len() == 1);
    }
    while i < instants.len()
        invariant
            1 <= i <= instants.len(),
            best < i,
            best == nearest(instants@.subrange(0, i as int), at as int),
        decreases instants.len() - i,
    {
        proof {
            assert(instants@.subrange(0, i + 1).drop_last() =~= instants@.subrange(0, i as int));
        }
        let here: i128 = instants[i] as i128 - at as i128;
        let there: i128 = instants[best] as i128 - at as i128;
        let here: i128 = if here >= 0 {
            here
        } else {
            -here
        };
        let there: i128 = if there >= 0 {
            there
        } else {
            -there
        };
        if here < there {
            best = i;
        }
        i += 1;
    }
    proof {
        assert(instants@.subrange(0, instants.len() as int) =~= instants@);
    }
    Some(best)
}

} // verus!
