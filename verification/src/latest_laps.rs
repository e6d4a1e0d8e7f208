//! The latest lap of every driver of a session.

use crate::clock::{parse_rfc3339, rfc3339_millis};
use vstd::prelude::*;

verus! {

/// A lap of a session: who drove it and when it began, as text.
#[derive(Clone, Debug)]
pub struct SessionLap {
    pub driver_number: u32,
    pub date_start: Option<String>,
}

/// A lap with a start that could be read: who drove it, when it began, and
/// where it stands among the laps of the session.
#[derive(Clone, Copy, Debug, PartialEq, Eq, Structural)]
pub struct StampedLap {
    pub driver_number: u32,
    pub at: i64,
    pub index: usize,
}

/// The instant at which a lap began, where it has a start that can be read.
pub open spec fn start_of(lap: SessionLap) -> Option<i64> {
    match lap.date_start {
        Some(text) => rfc3339_millis(text@),
        None => None,
    }
}

/// The laps of `laps` whose start can be read, in order, each with its
/// index among `laps`.
pub open spec fn stamped(laps: Seq<SessionLap>) -> Seq<StampedLap>
    decreases laps.len(),
{
    if laps.len() == 0 {
        Seq::empty()
    } else {
        match start_of(laps.last()) {
            Some(at) => stamped(laps.drop_last()).push(
                StampedLap {
                    driver_number: laps.last().driver_number,
                    at,
                    index: (laps.len() - 1) as usize,
                },
            ),
            None => stamped(laps.drop_last()),
        }
    }
}

/// The index of the first lap of `laps` that `driver` drove, if there is
/// one.
pub open spec fn place_of(laps: Seq<StampedLap>, driver: u32) -> Option<int>
    decreases laps.len(),
{
    if laps.len() == 0 {
        None
    } else {
        match place_of(laps.drop_last(), driver) {
            Some(place) => Some(place),
            None => if laps.last().driver_number == driver {
                Some(laps.len() - 1)
            } else {
                None
            },
        }
    }
}

/// The latest lap of every driver, in the order in which the drivers first
/// appear; of several laps of a driver that began at the same instant, the
/// first.
pub open spec fn latest_per_driver(laps: Seq<StampedLap>) -> Seq<StampedLap>
    decreases laps.len(),
{
    if laps.len() == 0 {
        Seq::empty()
    } else {
        let before = latest_per_driver(laps.drop_last());
        let lap = laps.last();
        match place_of(before, lap.driver_number) {
            Some(place) => if lap.at > before[place].at {
                before.update(place, lap)
            } else {
                before
            },
            None => before.push(lap),
        }
    }
}

/// The place of a driver lies within the laps, holds a lap of that driver,
/// and no lap before it is theirs; there is none exactly when no lap is
/// theirs.
pub proof fn lemma_place_of(laps: Seq<StampedLap>, driver: u32)
    ensures
        match place_of(laps, driver) {
            Some(place) => 0 <= place < laps.len() && laps[place].driver_number == driver
                && forall|j: int| 0 <= j < place ==> (#[trigger] laps[j]).driver_number != driver,
            None => forall|j: int| 0 <= j < laps.len() ==> (#[trigger] laps[j]).driver_number
                != driver,
        },
    decreases laps.len(),
{
    if laps.len() > 0 {
        let front = laps.drop_last();
        lemma_place_of(front, driver);
        assert forall|j: int| 0 <= j < front.len() implies #[trigger] laps[j] == front[j] by {}
        match place_of(front, driver) {
            Some(place) => {
                assert forall|j: int| 0 <= j < place implies (#[trigger] laps[j]).driver_number
                    != driver by {
                    assert(laps[j] == front[j]);
                }
            },
            None => {
                if laps.last().driver_number == driver {
                    assert forall|j: int| 0 <= j < laps.len() - 1 implies (
                    #[trigger] laps[j]).driver_number != driver by {
                        assert(laps[j] == front[j]);
                    }
                } else {
                    assert forall|j: int| 0 <= j < laps.len() implies (
                    #[trigger] laps[j]).driver_number != driver by {
                        if j < front.len() {
                            assert(laps[j] == front[j]);
                        }
                    }
                }
            },
        }
    }
}

/// Among the latest laps no driver appears twice, and each is a lap that no
/// lap of the same driver began after.
pub proof fn lemma_latest_per_driver(laps: Seq<StampedLap>)
    ensures
        forall|i: int, j: int|
            0 <= i < j < latest_per_driver(laps).len() ==> (#[trigger] latest_per_driver(
                laps,
            )[i]).driver_number != (#[trigger] latest_per_driver(laps)[j]).driver_number,
        forall|i: int, k: int|
            0 <= i < latest_per_driver(laps).len() && 0 <= k < laps.len() && (#[trigger] laps[k]).driver_number
                == (#[trigger] latest_per_driver(laps)[i]).driver_number ==> laps[k].at
                <= latest_per_driver(laps)[i].at,
        forall|k: int|
            0 <= k < laps.len() ==> place_of(
                latest_per_driver(laps),
                (#[trigger] laps[k]).driver_number,
            ).is_some(),
    decreases laps.len(),
{
    if laps.len() > 0 {
        let front = laps.drop_last();
        let lap = laps.last();
        let before = latest_per_driver(front);
        let after = latest_per_driver(laps);
        lemma_latest_per_driver(front);
        lemma_place_of(before, lap.driver_number);
        assert forall|k: int| 0 <= k < front.len() implies #[trigger] laps[k] == front[k] by {}
        assert forall|i: int, j: int| 0 <= i < j < after.len() implies (
        #[trigger] after[i]).driver_number != (#[trigger] after[j]).driver_number by {
            if i < before.len() && j < before.len() {
                assert(before[i].driver_number != before[j].driver_number);
            }
        }
        assert forall|i: int, k: int|
            0 <= i < after.len() && 0 <= k < laps.len() && (#[trigger] laps[k]).driver_number == (
            #[trigger] after[i]).driver_number implies laps[k].at <= after[i].at by {
            if k < front.len() {
                assert(laps[k] == front[k]);
                if i < before.len() {
                    if before[i].driver_number == after[i].driver_number {
                        assert(front[k].at <= before[i].at);
                    } else {
                    }
                } else {
                    lemma_place_of(before, front[k].driver_number);
                }
            } else {
                if i < before.len() {
                    if after[i] != lap {
                        assert(after[i] == before[i]);
                    }
                }
            }
        }
        assert forall|k: int| 0 <= k < laps.len() implies place_of(
            after,
            (#[trigger] laps[k]).driver_number,
        ).is_some() by {
            let driver = laps[k].driver_number;
            lemma_place_of(after, driver);
            if k < front.len() {
                assert(laps[k] == front[k]);
                lemma_place_of(before, driver);
                let place = place_of(before, driver).unwrap();
                assert(after[place].driver_number == driver);
            } else {
                match place_of(before, driver) {
                    Some(place) => {
                        assert(after[place].driver_number == driver);
                    },
                    None => {
                        assert(after[after.len() - 1].driver_number == driver);
                    },
                }
            }
        }
    }
}

/// The index of the first lap of `laps` that `driver` drove.
fn find_driver(laps: &Vec<StampedLap>, driver: u32) -> (found: Option<usize>)
    ensures
        match found {
            Some(place) => place_of(laps@, driver) == Some(place as int) && place < laps.len(),
            None => place_of(laps@, driver).is_none(),
        },
{
    let mut i: usize = 0;
    proof {
        lemma_place_of(laps@, driver);
    }
    while i < laps.len()
        invariant
            i <= laps.len(),
            forall|j: int| 0 <= j < i ==> (#[trigger] laps[j]).driver_number != driver,
            match place_of(laps@, driver) {
                Some(place) => 0 <= place < laps.len() && laps[place].driver_number == driver
                    && forall|j: int|
                    0 <= j < place ==> (#[trigger] laps[j]).driver_number != driver,
                None => forall|j: int|
                    0 <= j < laps.len() ==> (#[trigger] laps[j]).driver_number != driver,
            },
        decreases laps.len() - i,
    {
        if laps[i].driver_number == driver {
            return Some(i);
        }
        i += 1;
    }
    None
}

/// Reads the start of every lap; laps without a start, or with one that
/// cannot be read, are left out.
pub fn stamp_laps(laps: &Vec<SessionLap>) -> (read: Vec<StampedLap>)
    ensures
        read@ == stamped(laps@),
{
    let mut read: Vec<StampedLap> = Vec::new();
    let mut i: usize = 0;
    while i < laps.len()
        invariant
            i <= laps.len(),
            read@ == stamped(laps@.subrange(0, i as int)),
        decreases laps.len() - i,
    {
        proof {
            assert(laps@.subrange(0, i + 1).drop_last() =~= laps@.subrange(0, i as int));
        }
        let lap = &laps[i];
        match &lap.date_start {
            Some(text) => match parse_rfc3339(text.as_str()) {
                Some(at) => {
                    read.push(StampedLap { driver_number: lap.driver_number, at, index: i });
                },
                None => {},
            },
            None => {},
        }
        i += 1;
    }
    proof {
        assert(laps@.subrange(0, laps.len() as int) =~= laps@);
    }
    read
}

/// The latest lap of every driver among laps whose start is known.
pub fn latest_stamped(laps: &Vec<StampedLap>) -> (latest: Vec<StampedLap>)
    ensures
        latest@ == latest_per_driver(laps@),
{
    let mut latest: Vec<StampedLap> = Vec::new();
    let mut i: usize = 0;
    while i < laps.len()
        invariant
            i <= laps.len(),
            latest@ == latest_per_driver(laps@.subrange(0, i as int)),
        decreases laps.len() - i,
    {
        proof {
            assert(laps@.subrange(0, i + 1).drop_last() =~= laps@.subrange(0, i as int));
        }
        let lap = laps[i];
        match find_driver(&latest, lap.driver_number) {
            Some(place) => {
                if lap.at > latest[place].at {
                    latest.set(place, lap);
                }
            },
            None => {
                latest.push(lap);
            },
        }
        i += 1;
    }
    proof {
        assert(laps@.subrange(0, laps.len() as int) =~= laps@);
    }
    latest
}

/// The latest lap of every driver of a session, among the laps whose start
/// can be read.
pub fn latest_laps(laps: &Vec<SessionLap>) -> (latest: Vec<StampedLap>)
    ensures
        latest@ == latest_per_driver(stamped(laps@)),
{
    let read = stamp_laps(laps);
    latest_stamped(&read)
}

} // verus!
