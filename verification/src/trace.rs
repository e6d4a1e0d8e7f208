//! The speed of a car over the distance of one lap.
//!
//! The lap is the driver's latest one that took less than two minutes. The
//! car's places within the lap give the distance covered; each speed sample
//! takes the distance of the place nearest to it in time.

use crate::clock::{format_rfc3339, parse_rfc3339, rfc3339_millis, rfc3339_text};
use crate::distance::{distances, travelled, TimedLocation};
use crate::nearest::{nearest, nearest_index};
use crate::records::{AggregateError, CarDataPoint, Lap, LocationPoint, SpeedDistance};
use crate::sorting::{stable_sort, stable_sorted, Keyed};
use vstd::prelude::*;

verus! {

/// A lap with its start and its duration.
#[derive(Clone, Copy, Debug, PartialEq, Eq, Structural)]
pub struct TimedLap {
    pub start: i64,
    pub duration: u64,
}

/// A speed at an instant.
#[derive(Clone, Copy, Debug, PartialEq, Eq, Structural)]
pub struct TimedSpeed {
    pub at: i64,
    pub speed: u32,
}

impl Keyed for TimedSpeed {
    open spec fn key(&self) -> int {
        self.at as int
    }

    fn not_after(&self, other: &Self) -> (yes: bool) {
        self.at <= other.at
    }
}

/// A lap that takes this long or longer was not driven at racing speed.
pub const SLOW_LAP_MILLIS: u64 = 120_000;

/// The provider's distance units per unit of the trace.
pub const DISTANCE_SCALE: u128 = 10;

/// The lap with its start read from its text, where the lap has a duration
/// and a start that can be read.
pub open spec fn timed_lap(lap: Lap) -> Option<TimedLap> {
    match (lap.lap_duration, lap.date_start) {
        (Some(duration), Some(text)) => match rfc3339_millis(text@) {
            Some(start) => Some(TimedLap { start, duration }),
            None => None,
        },
        _ => None,
    }
}

/// The laps of `laps` that have a duration and a readable start, in order.
pub open spec fn timed_laps(laps: Seq<Lap>) -> Seq<TimedLap>
    decreases laps.len(),
{
    if laps.len() == 0 {
        Seq::empty()
    } else {
        match timed_lap(laps.last()) {
            Some(lap) => timed_laps(laps.drop_last()).push(lap),
            None => timed_laps(laps.drop_last()),
        }
    }
}

/// Reads the start of every lap that has a duration and a start; laps
/// without either, or with a start that cannot be read, are left out.
pub fn time_laps(laps: &Vec<Lap>) -> (timed: Vec<TimedLap>)
    ensures
        timed@ == timed_laps(laps@),
{
    let mut timed: Vec<TimedLap> = Vec::new();
    let mut i: usize = 0;
    while i < laps.len()
        invariant
            i <= laps.len(),
            timed@ == timed_laps(laps@.subrange(0, i as int)),
        decreases laps.len() - i,
    {
        proof {
            assert(laps@.subrange(0, i + 1).drop_last() =~= laps@.subrange(0, i as int));
        }
        let lap = &laps[i];
        match (&lap.lap_duration, &lap.date_start) {
            (Some(duration), Some(text)) => {
                match parse_rfc3339(text.as_str()) {
                    Some(start) => {
                        timed.push(TimedLap { start, duration: *duration });
                    },
                    None => {},
                }
            },
            _ => {},
        }
        i += 1;
    }
    proof {
        assert(laps@.subrange(0, laps.len() as int) =~= laps@);
    }
    timed
}

/// Whether a lap was driven at racing speed.
pub open spec fn is_racing_lap(lap: TimedLap) -> bool {
    lap.duration < SLOW_LAP_MILLIS
}

/// The latest racing lap of `laps`; of several that start at the same
/// instant, the first.
pub open spec fn latest_racing_lap(laps: Seq<TimedLap>) -> Option<TimedLap>
    decreases laps.len(),
{
    if laps.len() == 0 {
        None
    } else {
        let last = laps.last();
        match latest_racing_lap(laps.drop_last()) {
            Some(earlier) => if is_racing_lap(last) && last.start > earlier.start {
                Some(last)
            } else {
                Some(earlier)
            },
            None => if is_racing_lap(last) {
                Some(last)
            } else {
                None
            },
        }
    }
}

/// The latest racing lap is a racing lap of the sequence that no racing lap
/// starts after, and that every racing lap before it starts before; there is
/// one exactly when the sequence holds a racing lap.
pub proof fn lemma_latest_racing_lap(laps: Seq<TimedLap>)
    ensures
        match latest_racing_lap(laps) {
            Some(lap) => exists|i: int|
                0 <= i < laps.len() && #[trigger] laps[i] == lap && is_racing_lap(lap) && (forall|
                    j: int,
                |
                    0 <= j < laps.len() && is_racing_lap(#[trigger] laps[j]) ==> laps[j].start
                        <= lap.start) && (forall|j: int|
                    0 <= j < i && is_racing_lap(#[trigger] laps[j]) ==> laps[j].start < lap.start),
            None => forall|i: int| 0 <= i < laps.len() ==> !is_racing_lap(#[trigger] laps[i]),
        },
    decreases laps.len(),
{
    if laps.len() > 0 {
        let front = laps.drop_last();
        let last = laps.last();
        lemma_latest_racing_lap(front);
        match latest_racing_lap(front) {
            Some(earlier) => {
                let i = choose|i: int|
                    0 <= i < front.len() && #[trigger] front[i] == earlier && is_racing_lap(earlier)
                        && (forall|j: int|
                        0 <= j < front.len() && is_racing_lap(#[trigger] front[j]) ==> front[j].start
                            <= earlier.start) && (forall|j: int|
                        0 <= j < i && is_racing_lap(#[trigger] front[j]) ==> front[j].start
                            < earlier.start);
                if is_racing_lap(last) && last.start > earlier.start {
                    let at = laps.len() - 1;
                    assert(laps[at] == last);
                    assert forall|j: int|
                        0 <= j < laps.len() && is_racing_lap(#[trigger] laps[j]) implies laps[j].start
                        <= last.start by {
                        if j < front.len() {
                            assert(laps[j] == front[j]);
                        }
                    }
                    assert forall|j: int|
                        0 <= j < at && is_racing_lap(#[trigger] laps[j]) implies laps[j].start
                        < last.start by {
                        assert(laps[j] == front[j]);
                    }
                } else {
                    assert(laps[i] == earlier);
                    assert forall|j: int|
                        0 <= j < laps.len() && is_racing_lap(#[trigger] laps[j]) implies laps[j].start
                        <= earlier.start by {
                        if j < front.len() {
                            assert(laps[j] == front[j]);
                        }
                    }
                    assert forall|j: int|
                        0 <= j < i && is_racing_lap(#[trigger] laps[j]) implies laps[j].start
                        < earlier.start by {
                        assert(laps[j] == front[j]);
                    }
                }
            },
            None => {
                if is_racing_lap(last) {
                    let at = laps.len() - 1;
                    assert(laps[at] == last);
                    assert forall|j: int|
                        0 <= j < laps.len() && is_racing_lap(#[trigger] laps[j]) implies laps[j].start
                        <= last.start by {
                        if j < front.len() {
                            assert(laps[j] == front[j]);
                        }
                    }
                    assert forall|j: int|
                        0 <= j < at && is_racing_lap(#[trigger] laps[j]) implies laps[j].start
                        < last.start by {
                        assert(laps[j] == front[j]);
                    }
                } else {
                    assert forall|j: int| 0 <= j < laps.len() implies !is_racing_lap(
                        #[trigger] laps[j],
                    ) by {
                        if j < front.len() {
                            assert(laps[j] == front[j]);
                        }
                    }
                }
            },
        }
    }
}

/// The latest racing lap of `laps`.
pub fn select_latest_racing_lap(laps: &Vec<TimedLap>) -> (chosen: Option<TimedLap>)
    ensures
        chosen == latest_racing_lap(laps@),
{
    let mut chosen: Option<TimedLap> = None;
    let mut i: usize = 0;
    while i < laps.len()
        invariant
            i <= laps.len(),
            chosen == latest_racing_lap(laps@.subrange(0, i as int)),
        decreases laps.len() - i,
    {
        proof {
            assert(laps@.subrange(0, i + 1).drop_last() =~= laps@.subrange(0, i as int));
        }
        let lap = laps[i];
        if lap.duration < SLOW_LAP_MILLIS {
            match chosen {
                Some(earlier) => {
                    if lap.start > earlier.start {
                        chosen = Some(lap);
                    }
                },
                None => {
                    chosen = Some(lap);
                },
            }
        }
        i += 1;
    }
    proof {
        assert(laps@.subrange(0, laps.len() as int) =~= laps@);
    }
    chosen
}

/// The lap whose telemetry is traced: the latest racing lap among those of
/// `laps` that have a duration and a readable start. Without one there is no
/// valid data.
pub fn latest_valid_lap(laps: &Vec<Lap>) -> (chosen: Result<TimedLap, AggregateError>)
    ensures
        match latest_racing_lap(timed_laps(laps@)) {
            Some(lap) => chosen == Ok::<TimedLap, AggregateError>(lap),
            None => chosen == Err::<TimedLap, AggregateError>(AggregateError::NoValidData),
        },
{
    let timed = time_laps(laps);
    match select_latest_racing_lap(&timed) {
        Some(lap) => Ok(lap),
        None => Err(AggregateError::NoValidData),
    }
}

/// The instant at which a lap ends, where that instant can be held.
pub open spec fn lap_end(lap: TimedLap) -> Option<i64> {
    if lap.start + lap.duration <= i64::MAX {
        Some((lap.start + lap.duration) as i64)
    } else {
        None
    }
}

/// The instant at which a lap ends.
pub fn end_of_lap(lap: &TimedLap) -> (end: Option<i64>)
    ensures
        end == lap_end(*lap),
{
    let end: i128 = lap.start as i128 + lap.duration as i128;
    if end <= i64::MAX as i128 {
        Some(end as i64)
    } else {
        None
    }
}

/// The texts of the two instants between which the samples of a lap are
/// asked for, where both instants have one.
pub open spec fn window_texts(lap: TimedLap) -> Option<(Seq<char>, Seq<char>)> {
    match lap_end(lap) {
        Some(end) => match (rfc3339_text(lap.start), rfc3339_text(end)) {
            (Some(from), Some(to)) => Some((from, to)),
            _ => None,
        },
        None => None,
    }
}

/// The start and the end of a lap as the provider's queries take them. A lap
/// whose start or end has no text yields no valid data.
pub fn lap_window(lap: &TimedLap) -> (bounds: Result<(String, String), AggregateError>)
    ensures
        match bounds {
            Ok(texts) => window_texts(*lap) == Some((texts.0@, texts.1@)),
            Err(error) => error == AggregateError::NoValidData && window_texts(*lap).is_none(),
        },
{
    match end_of_lap(lap) {
        Some(end) => {
            match format_rfc3339(lap.start) {
                Some(from) => match format_rfc3339(end) {
                    Some(to) => Ok((from, to)),
                    None => Err(AggregateError::NoValidData),
                },
                None => Err(AggregateError::NoValidData),
            }
        },
        None => Err(AggregateError::NoValidData),
    }
}

/// The instants of the places of a path.
pub open spec fn place_instants(path: Seq<TimedLocation>) -> Seq<i64> {
    Seq::new(path.len(), |i: int| path[i].at)
}

/// The instants of the places of a path.
pub fn instants_of_places(path: &Vec<TimedLocation>) -> (instants: Vec<i64>)
    ensures
        instants@ == place_instants(path@),
{
    let mut instants: Vec<i64> = Vec::new();
    let mut i: usize = 0;
    while i < path.len()
        invariant
            i <= path.len(),
            instants.len() == i,
            forall|j: int| 0 <= j < i ==> instants[j] == path[j].at,
        decreases path.len() - i,
    {
        instants.push(path[i].at);
        i += 1;
    }
    proof {
        assert(instants@ =~= place_instants(path@));
    }
    instants
}

/// The speed of `sample` at the distance covered along `path` up to the place
/// nearest in time to the sample, in units of `DISTANCE_SCALE`.
pub open spec fn trace_point(path: Seq<TimedLocation>, sample: TimedSpeed) -> SpeedDistance {
    SpeedDistance {
        speed: sample.speed,
        distance: (travelled(path, nearest(place_instants(path), sample.at as int)) / (
        DISTANCE_SCALE as nat)) as u128,
    }
}

/// The speed over distance of `samples` along `path`, sample by sample.
pub open spec fn trace_along(path: Seq<TimedLocation>, samples: Seq<TimedSpeed>) -> Seq<
    SpeedDistance,
> {
    Seq::new(samples.len(), |i: int| trace_point(path, samples[i]))
}

/// The trace of a lap: places and speed samples are each put in order of
/// time, then every speed takes the distance of the place nearest to it.
/// Speed samples without any place to go with them are no valid data.
pub open spec fn speed_distance(
    places: Seq<TimedLocation>,
    samples: Seq<TimedSpeed>,
) -> Result<Seq<SpeedDistance>, AggregateError> {
    if places.len() == 0 && samples.len() > 0 {
        Err(AggregateError::NoValidData)
    } else {
        Ok(trace_along(stable_sorted(places), stable_sorted(samples)))
    }
}

/// Whether `got` holds what `expected` describes.
pub open spec fn trace_matches(
    got: Result<Vec<SpeedDistance>, AggregateError>,
    expected: Result<Seq<SpeedDistance>, AggregateError>,
) -> bool {
    match (got, expected) {
        (Ok(trace), Ok(points)) => trace@ == points,
        (Err(error), Err(reason)) => error == reason,
        _ => false,
    }
}

/// The speed over distance of a lap from its places and its speed samples.
pub fn trace_from_timed(places: Vec<TimedLocation>, samples: Vec<TimedSpeed>) -> (trace: Result<
    Vec<SpeedDistance>,
    AggregateError,
>)
    ensures
        trace_matches(trace, speed_distance(places@, samples@)),
{
    if places.len() == 0 && samples.len() > 0 {
        return Err(AggregateError::NoValidData);
    }
    let path = stable_sort(places);
    let ordered = stable_sort(samples);
    let covered = distances(&path);
    let instants = instants_of_places(&path);
    let mut trace: Vec<SpeedDistance> = Vec::new();
    let mut i: usize = 0;
    while i < ordered.len()
        invariant
            i <= ordered.len(),
            ordered.len() > 0 ==> path.len() > 0,
            covered.len() == path.len(),
            instants@ == place_instants(path@),
            forall|j: int| 0 <= j < path.len() ==> covered[j] == travelled(path@, j),
            trace.len() == i,
            forall|j: int| 0 <= j < i ==> trace[j] == trace_point(path@, ordered[j]),
        decreases ordered.len() - i,
    {
        let sample = ordered[i];
        let index = nearest_index(&instants, sample.at).unwrap();
        trace.push(
            SpeedDistance { speed: sample.speed, distance: covered[index] / DISTANCE_SCALE },
        );
        i += 1;
    }
    proof {
        assert(trace@ =~= trace_along(path@, ordered@));
    }
    Ok(trace)
}

/// The place with its instant read from its text, where the text can be read.
pub open spec fn located(point: LocationPoint) -> Option<TimedLocation> {
    match rfc3339_millis(point.date@) {
        Some(at) => Some(TimedLocation { at, x: point.x, y: point.y, z: point.z }),
        None => None,
    }
}

/// The places of `points`, where the instant of every one can be read.
pub open spec fn located_all(points: Seq<LocationPoint>) -> Option<Seq<TimedLocation>> {
    if forall|i: int| 0 <= i < points.len() ==> located(#[trigger] points[i]).is_some() {
        Some(Seq::new(points.len(), |i: int| located(points[i]).unwrap()))
    } else {
        None
    }
}

/// Reads the instant of every place. One instant that cannot be read makes
/// the whole answer malformed.
pub fn time_locations(points: &Vec<LocationPoint>) -> (places: Result<
    Vec<TimedLocation>,
    AggregateError,
>)
    ensures
        match places {
            Ok(timed) => located_all(points@) == Some(timed@),
            Err(error) => error == AggregateError::UpstreamMalformed && located_all(
                points@,
            ).is_none(),
        },
{
    let mut timed: Vec<TimedLocation> = Vec::new();
    let mut i: usize = 0;
    while i < points.len()
        invariant
            i <= points.len(),
            timed.len() == i,
            forall|j: int| 0 <= j < i ==> located(#[trigger] points[j]) == Some(timed[j]),
        decreases points.len() - i,
    {
        let point = &points[i];
        match parse_rfc3339(point.date.as_str()) {
            Some(at) => {
                timed.push(TimedLocation { at, x: point.x, y: point.y, z: point.z });
            },
            None => {
                assert(located(points[i as int]).is_none());
                return Err(AggregateError::UpstreamMalformed);
            },
        }
        i += 1;
    }
    proof {
        assert(timed@ =~= Seq::new(points@.len(), |i: int| located(points@[i]).unwrap()));
    }
    Ok(timed)
}

/// The speed sample with its instant read from its text, where the text can
/// be read.
pub open spec fn sampled(point: CarDataPoint) -> Option<TimedSpeed> {
    match rfc3339_millis(point.date@) {
        Some(at) => Some(TimedSpeed { at, speed: point.speed }),
        None => None,
    }
}

/// The speed samples of `points`, where the instant of every one can be read.
pub open spec fn sampled_all(points: Seq<CarDataPoint>) -> Option<Seq<TimedSpeed>> {
    if forall|i: int| 0 <= i < points.len() ==> sampled(#[trigger] points[i]).is_some() {
        Some(Seq::new(points.len(), |i: int| sampled(points[i]).unwrap()))
    } else {
        None
    }
}

/// Reads the instant of every speed sample. One instant that cannot be read
/// makes the whole answer malformed.
pub fn time_speeds(points: &Vec<CarDataPoint>) -> (samples: Result<
    Vec<TimedSpeed>,
    AggregateError,
>)
    ensures
        match samples {
            Ok(timed) => sampled_all(points@) == Some(timed@),
            Err(error) => error == AggregateError::UpstreamMalformed && sampled_all(
                points@,
            ).is_none(),
        },
{
    let mut timed: Vec<TimedSpeed> = Vec::new();
    let mut i: usize = 0;
    while i < points.len()
        invariant
            i <= points.len(),
            timed.len() == i,
            forall|j: int| 0 <= j < i ==> sampled(#[trigger] points[j]) == Some(timed[j]),
        decreases points.len() - i,
    {
        let point = &points[i];
        match parse_rfc3339(point.date.as_str()) {
            Some(at) => {
                timed.push(TimedSpeed { at, speed: point.speed });
            },
            None => {
                assert(sampled(points[i as int]).is_none());
                return Err(AggregateError::UpstreamMalformed);
            },
        }
        i += 1;
    }
    proof {
        assert(timed@ =~= Seq::new(points@.len(), |i: int| sampled(points@[i]).unwrap()));
    }
    Ok(timed)
}

/// What the trace of a lap is, from the provider's places and speed samples:
/// malformed where an instant cannot be read, else the trace of the samples
/// read.
pub open spec fn trace_of(
    locations: Seq<LocationPoint>,
    car_data: Seq<CarDataPoint>,
) -> Result<Seq<SpeedDistance>, AggregateError> {
    match (located_all(locations), sampled_all(car_data)) {
        (Some(places), Some(samples)) => speed_distance(places, samples),
        _ => Err(AggregateError::UpstreamMalformed),
    }
}

/// The speed over distance of a lap from the provider's places and speed
/// samples within the lap.
pub fn speed_distance_trace(locations: &Vec<LocationPoint>, car_data: &Vec<CarDataPoint>) -> (trace:
    Result<Vec<SpeedDistance>, AggregateError>)
    ensures
        trace_matches(trace, trace_of(locations@, car_data@)),
{
    let places = match time_locations(locations) {
        Ok(places) => places,
        Err(error) => {
            return Err(error);
        },
    };
    let samples = match time_speeds(car_data) {
        Ok(samples) => samples,
        Err(error) => {
            return Err(error);
        },
    };
    trace_from_timed(places, samples)
}

} // verus!
