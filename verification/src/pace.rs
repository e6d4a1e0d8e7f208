//! The pace of two drivers compared minisector by minisector.
//!
//! The fastest lap of each driver gives a run of samples: a place and the
//! speed nearest to it in time. The longer run is cut into minisectors of
//! equal width by index, and in each the driver with the higher average speed
//! is the faster one.

use crate::clock::{parse_rfc3339, rfc3339_millis};
use crate::distance::TimedLocation;
use crate::nearest::{nearest, nearest_index};
use crate::records::{AggregateError, CarDataPoint, Lap, LocationPoint, PacePoint};
use crate::trace::{
    located_all, sampled_all, time_locations, time_speeds, TimedLap, TimedSpeed,
};
use vstd::prelude::*;

verus! {

/// A place of the car, `x` then `y`, and the speed driven there.
pub type PaceSample = (i32, i32, u32);

/// The number of minisectors that a lap is cut into.
pub const MINISECTORS: u32 = 26;

/// Whether a lap has both a duration and a start.
pub open spec fn is_complete(lap: Lap) -> bool {
    lap.lap_duration.is_some() && lap.date_start.is_some()
}

/// The index of the fastest lap of `laps`: the one of least duration among
/// those that have a duration and a start; of several equally fast, the
/// first.
pub open spec fn fastest_complete(laps: Seq<Lap>) -> Option<int>
    decreases laps.len(),
{
    if laps.len() == 0 {
        None
    } else {
        let last = laps.len() - 1;
        match fastest_complete(laps.drop_last()) {
            Some(earlier) => if is_complete(laps[last]) && laps[last].lap_duration.unwrap()
                < laps[earlier].lap_duration.unwrap() {
                Some(last)
            } else {
                Some(earlier)
            },
            None => if is_complete(laps[last]) {
                Some(last)
            } else {
                None
            },
        }
    }
}

/// The fastest lap is a complete lap of the sequence that no complete lap
/// undercuts and that every complete lap before it exceeds; there is one
/// exactly when some lap is complete.
pub proof fn lemma_fastest_complete(laps: Seq<Lap>)
    ensures
        match fastest_complete(laps) {
            Some(i) => 0 <= i < laps.len() && is_complete(laps[i]) && (forall|j: int|
                0 <= j < laps.len() && is_complete(#[trigger] laps[j])
                    ==> laps[i].lap_duration.unwrap() <= laps[j].lap_duration.unwrap()) && (forall|
                j: int,
            |
                0 <= j < i && is_complete(#[trigger] laps[j]) ==> laps[i].lap_duration.unwrap()
                    < laps[j].lap_duration.unwrap()),
            None => forall|j: int| 0 <= j < laps.len() ==> !is_complete(#[trigger] laps[j]),
        },
    decreases laps.len(),
{
    if laps.len() > 0 {
        let front = laps.drop_last();
        lemma_fastest_complete(front);
        assert forall|j: int| 0 <= j < front.len() implies #[trigger] laps[j] == front[j] by {}
        match fastest_complete(laps) {
            Some(i) => {
                assert forall|j: int| 0 <= j < laps.len() && is_complete(
                    #[trigger] laps[j],
                ) implies laps[i].lap_duration.unwrap() <= laps[j].lap_duration.unwrap() by {
                    if j < front.len() {
                        assert(laps[j] == front[j]);
                    }
                }
                assert forall|j: int| 0 <= j < i && is_complete(
                    #[trigger] laps[j],
                ) implies laps[i].lap_duration.unwrap() < laps[j].lap_duration.unwrap() by {
                    assert(laps[j] == front[j]);
                }
            },
            None => {
                assert forall|j: int| 0 <= j < laps.len() implies !is_complete(
                    #[trigger] laps[j],
                ) by {
                    if j < front.len() {
                        assert(laps[j] == front[j]);
                    }
                }
            },
        }
    }
}

/// The index of the fastest lap of `laps`.
pub fn fastest_complete_index(laps: &Vec<Lap>) -> (found: Option<usize>)
    ensures
        match found {
            Some(i) => fastest_complete(laps@) == Some(i as int) && i < laps.len() && is_complete(
                laps[i as int],
            ),
            None => fastest_complete(laps@).is_none(),
        },
{
    let mut found: Option<usize> = None;
    let mut best: u64 = 0;
    let mut i: usize = 0;
    while i < laps.len()
        invariant
            i <= laps.len(),
            match found {
                Some(k) => fastest_complete(laps@.subrange(0, i as int)) == Some(k as int) && k < i
                    && is_complete(laps[k as int]) && laps[k as int].lap_duration == Some(best),
                None => fastest_complete(laps@.subrange(0, i as int)).is_none(),
            },
        decreases laps.len() - i,
    {
        proof {
            assert(laps@.subrange(0, i + 1).drop_last() =~= laps@.subrange(0, i as int));
        }
        let lap = &laps[i];
        match (&lap.lap_duration, &lap.date_start) {
            (Some(duration), Some(_)) => {
                match found {
                    Some(_) => {
                        if *duration < best {
                            found = Some(i);
                            best = *duration;
                        }
                    },
                    None => {
                        found = Some(i);
                        best = *duration;
                    },
                }
            },
            _ => {},
        }
        i += 1;
    }
    proof {
        assert(laps@.subrange(0, laps.len() as int) =~= laps@);
    }
    found
}

/// The lap whose pace is compared, from the laps of a driver: the fastest
/// complete lap with its start read from its text. Without a complete lap
/// there is no valid data; a start that cannot be read is malformed.
pub open spec fn pace_lap(laps: Seq<Lap>) -> Result<TimedLap, AggregateError> {
    match fastest_complete(laps) {
        Some(i) => match rfc3339_millis(laps[i].date_start.unwrap()@) {
            Some(start) => Ok(TimedLap { start, duration: laps[i].lap_duration.unwrap() }),
            None => Err(AggregateError::UpstreamMalformed),
        },
        None => Err(AggregateError::NoValidData),
    }
}

/// The lap whose pace is compared, from the laps of a driver.
pub fn fastest_lap(laps: &Vec<Lap>) -> (chosen: Result<TimedLap, AggregateError>)
    ensures
        chosen == pace_lap(laps@),
{
    match fastest_complete_index(laps) {
        Some(i) => {
            let lap = &laps[i];
            match (&lap.lap_duration, &lap.date_start) {
                (Some(duration), Some(text)) => match parse_rfc3339(text.as_str()) {
                    Some(start) => Ok(TimedLap { start, duration: *duration }),
                    None => Err(AggregateError::UpstreamMalformed),
                },
                _ => Err(AggregateError::NoValidData),
            }
        },
        None => Err(AggregateError::NoValidData),
    }
}

/// The instants of speed samples.
pub open spec fn sample_instants(samples: Seq<TimedSpeed>) -> Seq<i64> {
    Seq::new(samples.len(), |i: int| samples[i].at)
}

/// The instants of speed samples.
pub fn instants_of_samples(samples: &Vec<TimedSpeed>) -> (instants: Vec<i64>)
    ensures
        instants@ == sample_instants(samples@),
{
    let mut instants: Vec<i64> = Vec::new();
    let mut i: usize = 0;
    while i < samples.len()
        invariant
            i <= samples.len(),
            instants.len() == i,
            forall|j: int| 0 <= j < i ==> instants[j] == samples[j].at,
        decreases samples.len() - i,
    {
        instants.push(samples[i].at);
        i += 1;
    }
    proof {
        assert(instants@ =~= sample_instants(samples@));
    }
    instants
}

/// The speed of the sample nearest in time to `at`; zero where there is no
/// sample.
pub open spec fn speed_near(samples: Seq<TimedSpeed>, at: int) -> u32 {
    if samples.len() == 0 {
        0
    } else {
        samples[nearest(sample_instants(samples), at)].speed
    }
}

/// The samples of a lap: every place but the first, with the speed nearest
/// to it in time.
pub open spec fn pace_samples_along(places: Seq<TimedLocation>, samples: Seq<TimedSpeed>) -> Seq<
    PaceSample,
> {
    if places.len() == 0 {
        Seq::empty()
    } else {
        Seq::new(
            (places.len() - 1) as nat,
            |i: int| (places[i + 1].x, places[i + 1].y, speed_near(samples, places[i + 1].at as int)),
        )
    }
}

/// The samples of a lap from its places and its speed samples, in the order
/// of the places.
pub fn pace_samples_from_timed(places: &Vec<TimedLocation>, samples: &Vec<TimedSpeed>) -> (run: Vec<
    PaceSample,
>)
    ensures
        run@ == pace_samples_along(places@, samples@),
{
    let mut run: Vec<PaceSample> = Vec::new();
    if places.len() == 0 {
        return run;
    }
    let instants = instants_of_samples(samples);
    let mut i: usize = 1;
    while i < places.len()
        invariant
            1 <= i <= places.len(),
            instants@ == sample_instants(samples@),
            run.len() == i - 1,
            forall|j: int|
                0 <= j < i - 1 ==> run[j] == (
                    places[j + 1].x,
                    places[j + 1].y,
                    speed_near(samples@, places[j + 1].at as int),
                ),
        decreases places.len() - i,
    {
        let place = places[i];
        let speed: u32 = match nearest_index(&instants, place.at) {
            Some(index) => samples[index].speed,
            None => 0,
        };
        run.push((place.x, place.y, speed));
        i += 1;
    }
    proof {
        assert(run@ =~= pace_samples_along(places@, samples@));
    }
    run
}

/// What the samples of a lap are, from the provider's places and speed
/// samples: malformed where an instant cannot be read.
pub open spec fn pace_samples_of(
    locations: Seq<LocationPoint>,
    car_data: Seq<CarDataPoint>,
) -> Result<Seq<PaceSample>, AggregateError> {
    match (located_all(locations), sampled_all(car_data)) {
        (Some(places), Some(samples)) => Ok(pace_samples_along(places, samples)),
        _ => Err(AggregateError::UpstreamMalformed),
    }
}

/// Whether `got` holds what `expected` describes.
pub open spec fn samples_match(
    got: Result<Vec<PaceSample>, AggregateError>,
    expected: Result<Seq<PaceSample>, AggregateError>,
) -> bool {
    match (got, expected) {
        (Ok(run), Ok(samples)) => run@ == samples,
        (Err(error), Err(reason)) => error == reason,
        _ => false,
    }
}

/// The samples of a lap from the provider's places and speed samples within
/// the lap.
pub fn pace_samples(locations: &Vec<LocationPoint>, car_data: &Vec<CarDataPoint>) -> (run: Result<
    Vec<PaceSample>,
    AggregateError,
>)
    ensures
        samples_match(run, pace_samples_of(locations@, car_data@)),
{
    let places = match time_locations(locations) {
        Ok(places) => places,
        Err(error) => {
            return Err(error);
        },
    };
    let samples = match time_speeds(car_data) {
        Ok(samples) => samples,
        Err(error) => {
            return Err(error);
        },
    };
    Ok(pace_samples_from_timed(&places, &samples))
}

/// The index at which minisector `index` begins in a run of `samples`
/// samples.
pub open spec fn boundary(samples: int, index: int) -> int {
    index * samples / (MINISECTORS as int)
}

/// `index`, held within a run of `len` samples.
pub open spec fn clipped(index: int, len: int) -> int {
    if index < len {
        index
    } else {
        len
    }
}

/// The sum of the speeds of the samples of `run` from index `from` up to,
/// not including, index `to`.
pub open spec fn speed_sum(run: Seq<PaceSample>, from: int, to: int) -> int
    decreases to - from,
{
    if from >= to {
        0
    } else {
        speed_sum(run, from, to - 1) + run[to - 1].2
    }
}

/// The sum of the speeds of the samples of `run` that fall into minisector
/// `index` of runs of `samples` samples.
pub open spec fn minisector_speed(run: Seq<PaceSample>, samples: int, index: int) -> int {
    speed_sum(
        run,
        clipped(boundary(samples, index), run.len() as int),
        clipped(boundary(samples, index + 1), run.len() as int),
    )
}

/// The number of samples of the longer of two runs.
pub open spec fn longer(a: Seq<PaceSample>, b: Seq<PaceSample>) -> int {
    if a.len() >= b.len() {
        a.len() as int
    } else {
        b.len() as int
    }
}

/// The faster driver in minisector `index`: driver 2 where the average
/// speed of `b` is higher than that of `a`, else driver 1. Both averages are
/// taken over the width of the minisector, so the higher average is the
/// higher sum.
pub open spec fn faster_driver(a: Seq<PaceSample>, b: Seq<PaceSample>, index: int) -> u32 {
    if minisector_speed(b, longer(a, b), index) > minisector_speed(a, longer(a, b), index) {
        2
    } else {
        1
    }
}

/// The point for minisector `index`: the place at which `a` enters it and
/// the faster driver. No point where `a` ends before the minisector begins.
pub open spec fn pace_point(a: Seq<PaceSample>, b: Seq<PaceSample>, index: int) -> Option<
    PacePoint,
> {
    let start = boundary(longer(a, b), index);
    if start < a.len() {
        Some(
            PacePoint {
                x: a[start].0,
                y: a[start].1,
                minisector: index as u32,
                fastest_driver: faster_driver(a, b, index),
            },
        )
    } else {
        None
    }
}

/// The points of the first `count` minisectors, in their order.
pub open spec fn pace_points(a: Seq<PaceSample>, b: Seq<PaceSample>, count: int) -> Seq<PacePoint>
    decreases count,
{
    if count <= 0 {
        Seq::empty()
    } else {
        match pace_point(a, b, count - 1) {
            Some(point) => pace_points(a, b, count - 1).push(point),
            None => pace_points(a, b, count - 1),
        }
    }
}

/// There is at most one point for each minisector.
pub proof fn lemma_pace_points_len(a: Seq<PaceSample>, b: Seq<PaceSample>, count: int)
    requires
        0 <= count,
    ensures
        pace_points(a, b, count).len() <= count,
    decreases count,
{
    if count > 0 {
        lemma_pace_points_len(a, b, count - 1);
    }
}

/// A minisector begins within the longer run and does not end before it
/// begins.
pub proof fn lemma_boundary(samples: int, index: int)
    requires
        0 <= samples,
        0 <= index < MINISECTORS,
    ensures
        0 <= boundary(samples, index) <= boundary(samples, index + 1) <= samples,
        samples > 0 ==> boundary(samples, index) < samples,
{
    assert(0 <= index * samples <= (index + 1) * samples <= 26 * samples) by (nonlinear_arith)
        requires
            0 <= samples,
            0 <= index < 26,
    ;
    assert(samples > 0 ==> index * samples < 26 * samples) by (nonlinear_arith)
        requires
            0 <= samples,
            0 <= index < 26,
    ;
}

/// Of a run compared with itself, every minisector has a point, and the
/// first driver is the faster one in each.
pub proof fn lemma_same_run(run: Seq<PaceSample>, count: int)
    requires
        0 <= count <= MINISECTORS,
    ensures
        pace_points(run, run, count).len() == (if run.len() == 0 {
            0
        } else {
            count
        }),
        forall|i: int|
            0 <= i < pace_points(run, run, count).len() ==> (#[trigger] pace_points(
                run,
                run,
                count,
            )[i]).fastest_driver == 1,
    decreases count,
{
    if count > 0 {
        lemma_same_run(run, count - 1);
        lemma_boundary(run.len() as int, count - 1);
    }
}

/// Two identical runs of no sample, or of at least as many samples as there
/// are minisectors, give as many points as the smaller of the two numbers,
/// and the first driver is the faster one in each.
pub proof fn lemma_identical_runs(run: Seq<PaceSample>)
    requires
        run.len() == 0 || run.len() >= MINISECTORS,
    ensures
        pace_points(run, run, MINISECTORS as int).len() == (if run.len() < MINISECTORS {
            run.len() as int
        } else {
            MINISECTORS as int
        }),
        forall|i: int|
            0 <= i < pace_points(run, run, MINISECTORS as int).len() ==> (#[trigger] pace_points(
                run,
                run,
                MINISECTORS as int,
            )[i]).fastest_driver == 1,
{
    lemma_same_run(run, MINISECTORS as int);
}

/// The sum of the speeds of the samples of `run` from `from` up to `to`.
fn sum_speeds(run: &Vec<PaceSample>, from: usize, to: usize) -> (total: u128)
    requires
        from <= to <= run.len(),
    ensures
        total == speed_sum(run@, from as int, to as int),
{
    let mut total: u128 = 0;
    let mut i: usize = from;
    while i < to
        invariant
            from <= i <= to <= run.len(),
            total == speed_sum(run@, from as int, i as int),
            total <= (i - from) * 0xffff_ffff,
        decreases to - i,
    {
        total = total + run[i].2 as u128;
        i += 1;
    }
    total
}

/// The index at which minisector `index` begins in a run of `samples`
/// samples.
fn boundary_index(samples: usize, index: u32) -> (at: usize)
    requires
        index <= MINISECTORS,
    ensures
        at == boundary(samples as int, index as int),
        at <= samples,
{
    assert(0 <= index * samples <= 26 * samples) by (nonlinear_arith)
        requires
            0 <= samples,
            0 <= index <= 26,
    ;
    let product: u128 = index as u128 * samples as u128;
    (product / 26) as usize
}

/// Compares two runs minisector by minisector. There is one point for each
/// of the minisectors that begin within `a`.
pub fn compute_minisector_pace(a: Vec<PaceSample>, b: Vec<PaceSample>) -> (points: Vec<PacePoint>)
    ensures
        points@ == pace_points(a@, b@, MINISECTORS as int),
        points.len() <= MINISECTORS,
{
    let samples: usize = if a.len() >= b.len() {
        a.len()
    } else {
        b.len()
    };
    let mut points: Vec<PacePoint> = Vec::new();
    let mut index: u32 = 0;
    while index < MINISECTORS
        invariant
            index <= MINISECTORS,
            samples == longer(a@, b@),
            points@ == pace_points(a@, b@, index as int),
        decreases MINISECTORS - index,
    {
        let start = boundary_index(samples, index);
        let end = boundary_index(samples, index + 1);
        proof {
            lemma_boundary(samples as int, index as int);
        }
        let a_from = if start < a.len() {
            start
        } else {
            a.len()
        };
        let a_to = if end < a.len() {
            end
        } else {
            a.len()
        };
        let b_from = if start < b.len() {
            start
        } else {
            b.len()
        };
        let b_to = if end < b.len() {
            end
        } else {
            b.len()
        };
        let speed_a = sum_speeds(&a, a_from, a_to);
        let speed_b = sum_speeds(&b, b_from, b_to);
        let fastest: u32 = if speed_b > speed_a {
            2
        } else {
            1
        };
        if start < a.len() {
            points.push(
                PacePoint { x: a[start].0, y: a[start].1, minisector: index, fastest_driver: fastest },
            );
        }
        index += 1;
    }
    proof {
        lemma_pace_points_len(a@, b@, MINISECTORS as int);
    }
    points
}

} // verus!
