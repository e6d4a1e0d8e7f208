use f1_aggregator::distance::{distances, floor_sqrt, step_length, TimedLocation};
use f1_aggregator::nearest::nearest_index;
use f1_aggregator::records::{AggregateError, CarDataPoint, Lap, LocationPoint, SpeedDistance};
use f1_aggregator::trace::{
    end_of_lap, lap_window, latest_valid_lap, select_latest_racing_lap, speed_distance_trace,
    time_laps, trace_from_timed, TimedLap, TimedSpeed,
};

const T0: i64 = 1_709_391_600_000;

fn lap(duration: Option<u64>, start: Option<&str>) -> Lap {
    Lap { lap_duration: duration, date_start: start.map(|s| s.to_string()) }
}

fn place(at: i64, x: i32, y: i32, z: i32) -> TimedLocation {
    TimedLocation { at, x, y, z }
}

fn location(date: &str, x: i32, y: i32, z: i32) -> LocationPoint {
    LocationPoint { date: date.to_string(), x, y, z }
}

fn car(date: &str, speed: u32) -> CarDataPoint {
    CarDataPoint {
        date: date.to_string(),
        session_key: 9158,
        driver_number: 1,
        throttle: Some(100),
        meeting_key: 1219,
        brake: Some(0),
        n_gear: Some(8),
        rpm: Some(11_000),
        speed,
        drs: None,
    }
}

#[test]
fn floor_sqrt_exact_values() {
    assert_eq!(floor_sqrt(0), 0);
    assert_eq!(floor_sqrt(1), 1);
    assert_eq!(floor_sqrt(3), 1);
    assert_eq!(floor_sqrt(4), 2);
    assert_eq!(floor_sqrt(24), 4);
    assert_eq!(floor_sqrt(25), 5);
    assert_eq!(floor_sqrt(26), 5);
    assert_eq!(floor_sqrt(1_000_000_007), 31_622);
    assert_eq!(floor_sqrt(u128::MAX), u64::MAX);
}

#[test]
fn step_length_is_euclidean_rounded_down() {
    assert_eq!(step_length(&place(0, 0, 0, 0), &place(1, 3, 4, 0)), 5);
    assert_eq!(step_length(&place(0, 0, 0, 0), &place(1, 1, 1, 1)), 1);
    assert_eq!(step_length(&place(0, 2, 3, 6), &place(1, 0, 0, 0)), 7);
    assert_eq!(step_length(&place(0, 5, 5, 5), &place(1, 5, 5, 5)), 0);
    assert_eq!(
        step_length(&place(0, i32::MIN, i32::MIN, i32::MIN), &place(1, i32::MAX, i32::MAX, i32::MAX)),
        7_439_101_571
    );
}

#[test]
fn distances_accumulate_along_the_path() {
    let path = vec![place(0, 0, 0, 0), place(1, 3, 4, 0), place(2, 3, 4, 12), place(3, 3, 4, 12)];
    assert_eq!(distances(&path), vec![0, 5, 17, 17]);
    assert!(distances(&Vec::new()).is_empty());
    assert_eq!(distances(&vec![place(0, 9, 9, 9)]), vec![0]);
}

#[test]
fn nearest_index_takes_the_first_of_equally_near() {
    let instants = vec![100, 200, 300, 200];
    assert_eq!(nearest_index(&instants, 90), Some(0));
    assert_eq!(nearest_index(&instants, 150), Some(0));
    assert_eq!(nearest_index(&instants, 151), Some(1));
    assert_eq!(nearest_index(&instants, 260), Some(2));
    assert_eq!(nearest_index(&instants, 200), Some(1));
    assert_eq!(nearest_index(&instants, i64::MIN), Some(0));
    assert_eq!(nearest_index(&instants, i64::MAX), Some(2));
    assert_eq!(nearest_index(&Vec::new(), 5), None);
}

#[test]
fn nearest_index_spans_the_whole_range_of_instants() {
    let instants = vec![i64::MAX, i64::MIN];
    assert_eq!(nearest_index(&instants, -1), Some(1));
    assert_eq!(nearest_index(&instants, 0), Some(0));
}

#[test]
fn time_laps_keeps_laps_with_duration_and_readable_start() {
    let laps = vec![
        lap(Some(65_000), Some("2024-03-02T15:00:00+00:00")),
        lap(None, Some("2024-03-02T15:01:30+00:00")),
        lap(Some(70_000), None),
        lap(Some(71_000), Some("yesterday")),
        lap(Some(58_200), Some("2024-03-02T16:01:30+01:00")),
    ];
    assert_eq!(
        time_laps(&laps),
        vec![
            TimedLap { start: T0, duration: 65_000 },
            TimedLap { start: T0 + 90_000, duration: 58_200 },
        ]
    );
}

#[test]
fn fastest_lap_selection_excludes_slow_laps() {
    let laps = vec![
        lap(Some(65_000), Some("2024-03-02T15:00:00Z")),
        lap(Some(150_000), Some("2024-03-02T15:10:00Z")),
        lap(Some(58_200), Some("2024-03-02T15:01:30Z")),
    ];
    assert_eq!(latest_valid_lap(&laps), Ok(TimedLap { start: T0 + 90_000, duration: 58_200 }));
    assert_eq!(
        f1_aggregator::pace::fastest_lap(&laps),
        Ok(TimedLap { start: T0 + 90_000, duration: 58_200 })
    );
}

#[test]
fn latest_racing_lap_takes_the_first_of_equal_starts() {
    let laps = vec![
        TimedLap { start: 10, duration: 119_999 },
        TimedLap { start: 30, duration: 120_000 },
        TimedLap { start: 20, duration: 80_000 },
        TimedLap { start: 20, duration: 70_000 },
    ];
    assert_eq!(select_latest_racing_lap(&laps), Some(TimedLap { start: 20, duration: 80_000 }));
    assert_eq!(select_latest_racing_lap(&Vec::new()), None);
}

#[test]
fn no_valid_lap_is_no_valid_data() {
    let laps = vec![
        lap(Some(120_000), Some("2024-03-02T15:00:00Z")),
        lap(None, Some("2024-03-02T15:00:00Z")),
        lap(Some(60_000), None),
    ];
    assert_eq!(latest_valid_lap(&laps), Err(AggregateError::NoValidData));
    assert_eq!(latest_valid_lap(&Vec::new()), Err(AggregateError::NoValidData));
}

#[test]
fn lap_window_runs_from_start_to_start_plus_duration() {
    let window = lap_window(&TimedLap { start: T0, duration: 90_500 }).expect("window");
    assert_eq!(window.0, "2024-03-02T15:00:00+00:00");
    assert_eq!(window.1, "2024-03-02T15:01:30.500+00:00");
    assert_eq!(end_of_lap(&TimedLap { start: T0, duration: 90_500 }), Some(T0 + 90_500));
    assert_eq!(end_of_lap(&TimedLap { start: -5, duration: 5 }), Some(0));
}

#[test]
fn lap_window_without_an_end_is_no_valid_data() {
    assert_eq!(end_of_lap(&TimedLap { start: i64::MAX, duration: 1 }), None);
    assert_eq!(end_of_lap(&TimedLap { start: 0, duration: u64::MAX }), None);
    assert_eq!(
        lap_window(&TimedLap { start: i64::MAX, duration: 1 }),
        Err(AggregateError::NoValidData)
    );
    assert_eq!(
        lap_window(&TimedLap { start: i64::MAX - 10, duration: 1 }),
        Err(AggregateError::NoValidData)
    );
}

#[test]
fn trace_joins_each_speed_to_the_nearest_place() {
    let places = vec![place(300, 60, 80, 0), place(100, 0, 0, 0), place(200, 30, 40, 0)];
    let samples = vec![
        TimedSpeed { at: 290, speed: 310 },
        TimedSpeed { at: 90, speed: 120 },
        TimedSpeed { at: 150, speed: 200 },
        TimedSpeed { at: 151, speed: 201 },
    ];
    assert_eq!(
        trace_from_timed(places, samples),
        Ok(vec![
            SpeedDistance { speed: 120, distance: 0 },
            SpeedDistance { speed: 200, distance: 0 },
            SpeedDistance { speed: 201, distance: 5 },
            SpeedDistance { speed: 310, distance: 10 },
        ])
    );
}

#[test]
fn trace_distance_is_scaled_down_by_ten_rounding_down() {
    let places = vec![place(0, 0, 0, 0), place(10, 0, 0, 19), place(20, 0, 0, 39)];
    let samples = vec![
        TimedSpeed { at: 0, speed: 1 },
        TimedSpeed { at: 10, speed: 2 },
        TimedSpeed { at: 20, speed: 3 },
    ];
    assert_eq!(
        trace_from_timed(places, samples),
        Ok(vec![
            SpeedDistance { speed: 1, distance: 0 },
            SpeedDistance { speed: 2, distance: 1 },
            SpeedDistance { speed: 3, distance: 3 },
        ])
    );
}

#[test]
fn trace_without_places_is_no_valid_data() {
    assert_eq!(
        trace_from_timed(Vec::new(), vec![TimedSpeed { at: 0, speed: 1 }]),
        Err(AggregateError::NoValidData)
    );
    assert_eq!(trace_from_timed(Vec::new(), Vec::new()), Ok(Vec::new()));
    assert_eq!(trace_from_timed(vec![place(0, 1, 2, 3)], Vec::new()), Ok(Vec::new()));
}

#[test]
fn trace_reads_the_instants_of_the_samples() {
    let locations = vec![
        location("2024-03-02T15:00:02+00:00", 300, 400, 0),
        location("2024-03-02T15:00:00+00:00", 0, 0, 0),
    ];
    let car_data = vec![car("2024-03-02T15:00:01.600Z", 287), car("2024-03-02T16:00:00.100+01:00", 95)];
    assert_eq!(
        speed_distance_trace(&locations, &car_data),
        Ok(vec![
            SpeedDistance { speed: 95, distance: 0 },
            SpeedDistance { speed: 287, distance: 50 },
        ])
    );
}

#[test]
fn trace_with_an_unreadable_instant_is_malformed() {
    let good = vec![location("2024-03-02T15:00:00+00:00", 0, 0, 0)];
    let bad = vec![location("2024-03-02 15:00", 0, 0, 0)];
    let car_data = vec![car("2024-03-02T15:00:01Z", 287)];
    assert_eq!(speed_distance_trace(&bad, &car_data), Err(AggregateError::UpstreamMalformed));
    assert_eq!(
        speed_distance_trace(&good, &vec![car("", 1)]),
        Err(AggregateError::UpstreamMalformed)
    );
    assert_eq!(speed_distance_trace(&bad, &Vec::new()), Err(AggregateError::UpstreamMalformed));
}
