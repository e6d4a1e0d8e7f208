//! The sector times of the fastest laps of the podium finishers.
//!
//! The laps of each finisher are asked for one after the other, in rank
//! order, with a pause before every request but the first. The plan of this
//! module says which step comes next and takes in what each step brought; the
//! caller carries the steps out.

use crate::records::{AggregateError, FastestLapSector};
use crate::sorting::{
    key_of, lemma_sorted_is_ordered, lemma_sorted_len, ordered_by, stable_sort, stable_sorted, Keyed,
};
use vstd::prelude::*;

verus! {

/// The pause before each request for laps but the first, in milliseconds.
pub const REQUEST_PAUSE_MILLIS: u64 = 300;

/// The lowest rank that does not stand on the podium.
pub const PODIUM_SIZE: u32 = 3;

/// A finisher and the rank in which they finished.
#[derive(Clone, Copy, Debug, PartialEq, Eq, Structural)]
pub struct PodiumEntry {
    pub position: u32,
    pub driver_number: u32,
}

impl Keyed for PodiumEntry {
    open spec fn key(&self) -> int {
        self.position as int
    }

    fn not_after(&self, other: &Self) -> (yes: bool) {
        self.position <= other.position
    }
}

impl Keyed for FastestLapSector {
    open spec fn key(&self) -> int {
        self.position as int
    }

    fn not_after(&self, other: &Self) -> (yes: bool) {
        self.position <= other.position
    }
}

/// A lap with the durations of its three sectors, as far as they are known.
#[derive(Clone, Copy, Debug, PartialEq, Eq, Structural)]
pub struct SectorLap {
    pub lap_duration: Option<u64>,
    pub duration_sector_1: Option<u64>,
    pub duration_sector_2: Option<u64>,
    pub duration_sector_3: Option<u64>,
}

/// The finishers of `results` that stand on the podium, in the order of
/// `results`.
pub open spec fn on_podium(results: Seq<PodiumEntry>) -> Seq<PodiumEntry>
    decreases results.len(),
{
    if results.len() == 0 {
        Seq::empty()
    } else if results.last().position <= PODIUM_SIZE {
        on_podium(results.drop_last()).push(results.last())
    } else {
        on_podium(results.drop_last())
    }
}

/// The first `count` items of `items`, or all of them where there are fewer.
pub open spec fn first_few<T>(items: Seq<T>, count: int) -> Seq<T> {
    if items.len() <= count {
        items
    } else {
        items.take(count)
    }
}

/// The podium of a session: the finishers ranked third or better, in rank
/// order, three at most.
pub open spec fn podium_of(results: Seq<PodiumEntry>) -> Seq<PodiumEntry> {
    first_few(stable_sorted(on_podium(results)), PODIUM_SIZE as int)
}

/// The podium of a session.
pub fn podium(results: &Vec<PodiumEntry>) -> (ranked: Vec<PodiumEntry>)
    ensures
        ranked@ == podium_of(results@),
{
    let mut chosen: Vec<PodiumEntry> = Vec::new();
    let mut i: usize = 0;
    while i < results.len()
        invariant
            i <= results.len(),
            chosen@ == on_podium(results@.subrange(0, i as int)),
        decreases results.len() - i,
    {
        proof {
            assert(results@.subrange(0, i + 1).drop_last() =~= results@.subrange(0, i as int));
        }
        if results[i].position <= PODIUM_SIZE {
            chosen.push(results[i]);
        }
        i += 1;
    }
    proof {
        assert(results@.subrange(0, results.len() as int) =~= results@);
    }
    let mut ranked = stable_sort(chosen);
    if ranked.len() > 3 {
        ranked.truncate(3);
    }
    ranked
}

/// The fastest lap of `laps`: the one of least duration among those that
/// have a duration; of several equally fast, the first.
pub open spec fn fastest_of(laps: Seq<SectorLap>) -> Option<SectorLap>
    decreases laps.len(),
{
    if laps.len() == 0 {
        None
    } else {
        let last = laps.last();
        match (fastest_of(laps.drop_last()), last.lap_duration) {
            (Some(earlier), Some(duration)) => if duration < earlier.lap_duration.unwrap() {
                Some(last)
            } else {
                Some(earlier)
            },
            (Some(earlier), None) => Some(earlier),
            (None, Some(_)) => Some(last),
            (None, None) => None,
        }
    }
}

/// The fastest lap is a lap of the sequence with a duration that no lap
/// undercuts and that every lap before it exceeds; there is one exactly when
/// some lap has a duration.
pub proof fn lemma_fastest_of(laps: Seq<SectorLap>)
    ensures
        match fastest_of(laps) {
            Some(lap) => lap.lap_duration.is_some() && exists|i: int|
                0 <= i < laps.len() && #[trigger] laps[i] == lap && (forall|j: int|
                    0 <= j < laps.len() && (#[trigger] laps[j]).lap_duration.is_some()
                        ==> lap.lap_duration.unwrap() <= laps[j].lap_duration.unwrap()) && (forall|
                    j: int,
                |
                    0 <= j < i && (#[trigger] laps[j]).lap_duration.is_some()
                        ==> lap.lap_duration.unwrap() < laps[j].lap_duration.unwrap()),
            None => forall|i: int| 0 <= i < laps.len() ==> (#[trigger] laps[i]).lap_duration.is_none(),
        },
    decreases laps.len(),
{
    if laps.len() > 0 {
        let front = laps.drop_last();
        let last = laps.last();
        let at = laps.len() - 1;
        lemma_fastest_of(front);
        assert(laps[at] == last);
        assert forall|j: int| 0 <= j < front.len() implies #[trigger] laps[j] == front[j] by {}
        match fastest_of(front) {
            Some(earlier) => {
                let i = choose|i: int|
                    0 <= i < front.len() && #[trigger] front[i] == earlier && (forall|j: int|
                        0 <= j < front.len() && (#[trigger] front[j]).lap_duration.is_some()
                            ==> earlier.lap_duration.unwrap() <= front[j].lap_duration.unwrap())
                        && (forall|j: int|
                        0 <= j < i && (#[trigger] front[j]).lap_duration.is_some()
                            ==> earlier.lap_duration.unwrap() < front[j].lap_duration.unwrap());
                assert(laps[i] == earlier);
                let chosen = fastest_of(laps).unwrap();
                if chosen == last && last.lap_duration.is_some() && last.lap_duration.unwrap()
                    < earlier.lap_duration.unwrap() {
                    assert forall|j: int|
                        0 <= j < laps.len() && (#[trigger] laps[j]).lap_duration.is_some() implies chosen.lap_duration.unwrap()
                        <= laps[j].lap_duration.unwrap() by {
                        if j < front.len() {
                            assert(laps[j] == front[j]);
                        }
                    }
                    assert forall|j: int|
                        0 <= j < at && (#[trigger] laps[j]).lap_duration.is_some() implies chosen.lap_duration.unwrap()
                        < laps[j].lap_duration.unwrap() by {
                        assert(laps[j] == front[j]);
                    }
                } else {
                    assert(chosen == earlier);
                    assert forall|j: int|
                        0 <= j < laps.len() && (#[trigger] laps[j]).lap_duration.is_some() implies chosen.lap_duration.unwrap()
                        <= laps[j].lap_duration.unwrap() by {
                        if j < front.len() {
                            assert(laps[j] == front[j]);
                        }
                    }
                    assert forall|j: int|
                        0 <= j < i && (#[trigger] laps[j]).lap_duration.is_some() implies chosen.lap_duration.unwrap()
                        < laps[j].lap_duration.unwrap() by {
                        assert(laps[j] == front[j]);
                    }
                }
            },
            None => {
                if last.lap_duration.is_some() {
                    assert forall|j: int|
                        0 <= j < laps.len() && (#[trigger] laps[j]).lap_duration.is_some() implies last.lap_duration.unwrap()
                        <= laps[j].lap_duration.unwrap() by {
                        if j < front.len() {
                            assert(laps[j] == front[j]);
                        }
                    }
                    assert forall|j: int|
                        0 <= j < at && (#[trigger] laps[j]).lap_duration.is_some() implies last.lap_duration.unwrap()
                        < laps[j].lap_duration.unwrap() by {
                        assert(laps[j] == front[j]);
                    }
                } else {
                    assert forall|j: int| 0 <= j < laps.len() implies (
                    #[trigger] laps[j]).lap_duration.is_none() by {
                        if j < front.len() {
                            assert(laps[j] == front[j]);
                        }
                    }
                }
            },
        }
    }
}

/// The fastest lap of `laps`.
pub fn fastest_lap(laps: &Vec<SectorLap>) -> (chosen: Option<SectorLap>)
    ensures
        chosen == fastest_of(laps@),
{
    let mut chosen: Option<SectorLap> = None;
    let mut i: usize = 0;
    while i < laps.len()
        invariant
            i <= laps.len(),
            chosen == fastest_of(laps@.subrange(0, i as int)),
            chosen.is_some() ==> chosen.unwrap().lap_duration.is_some(),
        decreases laps.len() - i,
    {
        proof {
            assert(laps@.subrange(0, i + 1).drop_last() =~= laps@.subrange(0, i as int));
        }
        let lap = laps[i];
        match (chosen, lap.lap_duration) {
            (Some(earlier), Some(duration)) => {
                match earlier.lap_duration {
                    Some(best) => {
                        if duration < best {
                            chosen = Some(lap);
                        }
                    },
                    None => {},
                }
            },
            (None, Some(_)) => {
                chosen = Some(lap);
            },
            _ => {},
        }
        i += 1;
    }
    proof {
        assert(laps@.subrange(0, laps.len() as int) =~= laps@);
    }
    chosen
}

/// The duration of a sector, zero where it is not known.
pub open spec fn sector_or_zero(duration: Option<u64>) -> u64 {
    match duration {
        Some(millis) => millis,
        None => 0,
    }
}

/// The row of a finisher, from the laps that the request for them brought:
/// the sectors of their fastest lap. A request that failed, or laps of which
/// none has a duration, give no row.
pub open spec fn sector_row(entry: PodiumEntry, outcome: Option<Seq<SectorLap>>) -> Option<
    FastestLapSector,
> {
    match outcome {
        Some(laps) => match fastest_of(laps) {
            Some(lap) => Some(
                FastestLapSector {
                    position: entry.position,
                    driver_number: entry.driver_number,
                    fastest_lap: sector_or_zero(lap.lap_duration),
                    sector_1: sector_or_zero(lap.duration_sector_1),
                    sector_2: sector_or_zero(lap.duration_sector_2),
                    sector_3: sector_or_zero(lap.duration_sector_3),
                },
            ),
            None => None,
        },
        None => None,
    }
}

/// The rows of the first `count` finishers of `podium`, from the outcomes of
/// the requests for them, in the order of `podium`.
pub open spec fn sector_rows(
    podium: Seq<PodiumEntry>,
    outcomes: Seq<Option<Seq<SectorLap>>>,
    count: int,
) -> Seq<FastestLapSector>
    decreases count,
{
    if count <= 0 {
        Seq::empty()
    } else {
        match sector_row(podium[count - 1], outcomes[count - 1]) {
            Some(row) => sector_rows(podium, outcomes, count - 1).push(row),
            None => sector_rows(podium, outcomes, count - 1),
        }
    }
}

/// The sector timings of a session, from its podium and the outcomes of the
/// requests for each finisher's laps: the rows of the finishers that yield
/// one, by rank. Without any row there is no valid data.
pub open spec fn sector_timings(
    podium: Seq<PodiumEntry>,
    outcomes: Seq<Option<Seq<SectorLap>>>,
) -> Result<Seq<FastestLapSector>, AggregateError> {
    let rows = sector_rows(podium, outcomes, outcomes.len() as int);
    if rows.len() == 0 {
        Err(AggregateError::NoValidData)
    } else {
        Ok(stable_sorted(rows))
    }
}

/// Whether `got` holds what `expected` describes.
pub open spec fn timings_match(
    got: Result<Vec<FastestLapSector>, AggregateError>,
    expected: Result<Seq<FastestLapSector>, AggregateError>,
) -> bool {
    match (got, expected) {
        (Ok(rows), Ok(timings)) => rows@ == timings,
        (Err(error), Err(reason)) => error == reason,
        _ => false,
    }
}

/// What a request for laps brought, as a sequence.
pub open spec fn laps_of(outcome: Option<Vec<SectorLap>>) -> Option<Seq<SectorLap>> {
    match outcome {
        Some(laps) => Some(laps@),
        None => None,
    }
}

/// The duration of a sector, zero where it is not known.
pub fn duration_or_zero(duration: Option<u64>) -> (millis: u64)
    ensures
        millis == sector_or_zero(duration),
{
    match duration {
        Some(millis) => millis,
        None => 0,
    }
}

/// The row of a finisher from the laps that the request for them brought.
pub fn row_for(entry: &PodiumEntry, outcome: &Option<Vec<SectorLap>>) -> (row: Option<
    FastestLapSector,
>)
    ensures
        row == sector_row(*entry, laps_of(*outcome)),
{
    match outcome {
        Some(laps) => match fastest_lap(laps) {
            Some(lap) => Some(
                FastestLapSector {
                    position: entry.position,
                    driver_number: entry.driver_number,
                    fastest_lap: duration_or_zero(lap.lap_duration),
                    sector_1: duration_or_zero(lap.duration_sector_1),
                    sector_2: duration_or_zero(lap.duration_sector_2),
                    sector_3: duration_or_zero(lap.duration_sector_3),
                },
            ),
            None => None,
        },
        None => None,
    }
}

/// The rows of the finishers asked for so far do not depend on what later
/// requests bring.
pub proof fn lemma_rows_keep(
    podium: Seq<PodiumEntry>,
    outcomes: Seq<Option<Seq<SectorLap>>>,
    outcome: Option<Seq<SectorLap>>,
    count: int,
)
    requires
        count <= outcomes.len(),
    ensures
        sector_rows(podium, outcomes.push(outcome), count) == sector_rows(podium, outcomes, count),
    decreases count,
{
    if count > 0 {
        lemma_rows_keep(podium, outcomes, outcome, count - 1);
        assert(outcomes.push(outcome)[count - 1] == outcomes[count - 1]);
    }
}

/// There is at most one row for each finisher asked for.
pub proof fn lemma_rows_len(
    podium: Seq<PodiumEntry>,
    outcomes: Seq<Option<Seq<SectorLap>>>,
    count: int,
)
    requires
        0 <= count,
    ensures
        sector_rows(podium, outcomes, count).len() <= count,
    decreases count,
{
    if count > 0 {
        lemma_rows_len(podium, outcomes, count - 1);
    }
}

/// Sector timings come by rank and hold a row at least, and no more rows
/// than finishers were asked for.
pub proof fn lemma_timings_by_rank(podium: Seq<PodiumEntry>, outcomes: Seq<Option<Seq<SectorLap>>>)
    ensures
        match sector_timings(podium, outcomes) {
            Ok(rows) => ordered_by(rows, key_of::<FastestLapSector>()) && 0 < rows.len()
                <= outcomes.len(),
            Err(error) => error == AggregateError::NoValidData,
        },
{
    let rows = sector_rows(podium, outcomes, outcomes.len() as int);
    lemma_rows_len(podium, outcomes, outcomes.len() as int);
    lemma_sorted_len(rows, key_of::<FastestLapSector>());
    lemma_sorted_is_ordered(rows, key_of::<FastestLapSector>());
}

/// What the caller of a plan does next.
#[derive(Clone, Copy, Debug, PartialEq, Eq, Structural)]
pub enum SectorStep {
    /// Wait this many milliseconds.
    Pause(u64),
    /// Ask for the laps of this driver.
    FetchLaps(u32),
    /// Nothing is left to do: take the result.
    Done,
}

/// The state of the requests for the laps of a session's podium finishers.
pub struct SectorPlan {
    podium: Vec<PodiumEntry>,
    asked: usize,
    rested: bool,
    rows: Vec<FastestLapSector>,
    outcomes: Ghost<Seq<Option<Seq<SectorLap>>>>,
}

impl SectorPlan {
    /// The count of requests made is the number of outcomes taken in, and
    /// the rows are those of the finishers asked for so far.
    #[verifier::type_invariant]
    spec fn consistent(&self) -> bool {
        &&& self.asked == self.outcomes@.len()
        &&& self.asked <= self.podium@.len()
        &&& self.rows@ == sector_rows(self.podium@, self.outcomes@, self.asked as int)
    }

    /// The finishers whose laps are asked for, in the order of asking.
    pub closed spec fn podium(&self) -> Seq<PodiumEntry> {
        self.podium@
    }

    /// What the requests made so far have brought, in the order of asking:
    /// the laps, or nothing where the request failed.
    pub closed spec fn outcomes(&self) -> Seq<Option<Seq<SectorLap>>> {
        self.outcomes@
    }

    /// Whether the pause before the next request has been taken.
    pub closed spec fn rested(&self) -> bool {
        self.rested
    }

    /// The step that comes next: nothing once every finisher has been asked
    /// for; a pause before every request but the first; else the request for
    /// the next finisher's laps.
    pub open spec fn next_step(&self) -> SectorStep {
        let asked = self.outcomes().len() as int;
        if asked >= self.podium().len() {
            SectorStep::Done
        } else if asked > 0 && !self.rested() {
            SectorStep::Pause(REQUEST_PAUSE_MILLIS)
        } else {
            SectorStep::FetchLaps(self.podium()[asked].driver_number)
        }
    }

    /// The plan for a session with these results. Nothing has been asked for
    /// yet.
    pub fn start(results: &Vec<PodiumEntry>) -> (plan: Self)
        ensures
            plan.podium() == podium_of(results@),
            plan.outcomes().len() == 0,
            !plan.rested(),
    {
        SectorPlan {
            podium: podium(results),
            asked: 0,
            rested: false,
            rows: Vec::new(),
            outcomes: Ghost(Seq::empty()),
        }
    }

    /// The step that comes next.
    pub fn step(&self) -> (step: SectorStep)
        ensures
            step == self.next_step(),
    {
        proof {
            use_type_invariant(self);
        }
        if self.asked >= self.podium.len() {
            SectorStep::Done
        } else if self.asked > 0 && !self.rested {
            SectorStep::Pause(REQUEST_PAUSE_MILLIS)
        } else {
            SectorStep::FetchLaps(self.podium[self.asked].driver_number)
        }
    }

    /// Takes in that a pause is over. Where no pause was due the plan stays
    /// as it is.
    pub fn after_pause(self) -> (plan: Self)
        ensures
            plan.podium() == self.podium(),
            plan.outcomes() == self.outcomes(),
            plan.rested() == (self.rested() || self.next_step() is Pause),
    {
        proof {
            use_type_invariant(&self);
        }
        let due = match self.step() {
            SectorStep::Pause(_) => true,
            _ => false,
        };
        SectorPlan {
            podium: self.podium,
            asked: self.asked,
            rested: self.rested || due,
            rows: self.rows,
            outcomes: self.outcomes,
        }
    }

    /// Takes in what the request for the next finisher's laps brought: the
    /// laps, or nothing where the request failed. Where no request was due
    /// the plan stays as it is.
    pub fn after_laps(self, outcome: Option<Vec<SectorLap>>) -> (plan: Self)
        ensures
            plan.podium() == self.podium(),
            self.next_step() is FetchLaps ==> plan.outcomes() == self.outcomes().push(
                laps_of(outcome),
            ) && !plan.rested(),
            !(self.next_step() is FetchLaps) ==> plan.outcomes() == self.outcomes()
                && plan.rested() == self.rested(),
    {
        proof {
            use_type_invariant(&self);
        }
        let due = match self.step() {
            SectorStep::FetchLaps(_) => true,
            _ => false,
        };
        if !due {
            return self;
        }
        assert(self.next_step() is FetchLaps);
        assert(self.asked < self.podium.len());
        let row = row_for(&self.podium[self.asked], &outcome);
        let ghost before = self.outcomes@;
        let ghost after = before.push(laps_of(outcome));
        let mut rows = self.rows;
        proof {
            lemma_rows_keep(self.podium@, before, laps_of(outcome), self.asked as int);
        }
        match row {
            Some(row) => {
                rows.push(row);
            },
            None => {},
        }
        SectorPlan {
            podium: self.podium,
            asked: self.asked + 1,
            rested: false,
            rows,
            outcomes: Ghost(after),
        }
    }

    /// The sector timings from what the requests made so far have brought.
    pub fn finish(self) -> (timings: Result<Vec<FastestLapSector>, AggregateError>)
        ensures
            timings_match(timings, sector_timings(self.podium(), self.outcomes())),
    {
        proof {
            use_type_invariant(&self);
        }
        if self.rows.len() == 0 {
            Err(AggregateError::NoValidData)
        } else {
            Ok(stable_sort(self.rows))
        }
    }
}

} // verus!
