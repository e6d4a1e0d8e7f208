use f1_aggregator::records::{AggregateError, FastestLapSector};
use f1_aggregator::sectors::{
    fastest_lap, podium, row_for, PodiumEntry, SectorLap, SectorPlan, SectorStep,
    REQUEST_PAUSE_MILLIS,
};

fn entry(position: u32, driver_number: u32) -> PodiumEntry {
    PodiumEntry { position, driver_number }
}

fn lap(duration: Option<u64>, s1: Option<u64>, s2: Option<u64>, s3: Option<u64>) -> SectorLap {
    SectorLap {
        lap_duration: duration,
        duration_sector_1: s1,
        duration_sector_2: s2,
        duration_sector_3: s3,
    }
}

fn run(results: &Vec<PodiumEntry>, mut answers: Vec<Option<Vec<SectorLap>>>) -> (
    Vec<SectorStep>,
    Result<Vec<FastestLapSector>, AggregateError>,
) {
    answers.reverse();
    let mut plan = SectorPlan::start(results);
    let mut steps = Vec::new();
    loop {
        let step = plan.step();
        steps.push(step);
        match step {
            SectorStep::Pause(_) => plan = plan.after_pause(),
            SectorStep::FetchLaps(_) => plan = plan.after_laps(answers.pop().expect("answer")),
            SectorStep::Done => break,
        }
    }
    (steps, plan.finish())
}

#[test]
fn sector_timings_skip_a_driver_whose_fetch_fails() {
    let results = vec![entry(1, 1), entry(2, 11), entry(3, 44)];
    let answers = vec![
        Some(vec![lap(Some(91_000), Some(30_000), Some(31_000), Some(30_000))]),
        None,
        Some(vec![lap(Some(92_500), Some(30_500), Some(31_500), Some(30_500))]),
    ];
    let (steps, timings) = run(&results, answers);
    assert_eq!(
        steps,
        vec![
            SectorStep::FetchLaps(1),
            SectorStep::Pause(300),
            SectorStep::FetchLaps(11),
            SectorStep::Pause(300),
            SectorStep::FetchLaps(44),
            SectorStep::Done,
        ]
    );
    assert_eq!(
        timings,
        Ok(vec![
            FastestLapSector {
                position: 1,
                driver_number: 1,
                fastest_lap: 91_000,
                sector_1: 30_000,
                sector_2: 31_000,
                sector_3: 30_000,
            },
            FastestLapSector {
                position: 3,
                driver_number: 44,
                fastest_lap: 92_500,
                sector_1: 30_500,
                sector_2: 31_500,
                sector_3: 30_500,
            },
        ])
    );
}

#[test]
fn the_pause_is_three_hundred_milliseconds() {
    assert_eq!(REQUEST_PAUSE_MILLIS, 300);
}

#[test]
fn requests_go_out_in_rank_order() {
    let results = vec![entry(3, 44), entry(5, 4), entry(1, 1), entry(2, 11)];
    assert_eq!(podium(&results), vec![entry(1, 1), entry(2, 11), entry(3, 44)]);
    let answers = vec![
        Some(vec![lap(Some(90_000), None, None, None)]),
        Some(vec![lap(Some(90_100), None, None, None)]),
        Some(vec![lap(Some(90_200), None, None, None)]),
    ];
    let (steps, timings) = run(&results, answers);
    let asked: Vec<SectorStep> =
        steps.into_iter().filter(|s| matches!(s, SectorStep::FetchLaps(_))).collect();
    assert_eq!(
        asked,
        vec![SectorStep::FetchLaps(1), SectorStep::FetchLaps(11), SectorStep::FetchLaps(44)]
    );
    let rows = timings.expect("rows");
    assert_eq!(rows.iter().map(|r| r.position).collect::<Vec<u32>>(), vec![1, 2, 3]);
    assert_eq!(rows.iter().map(|r| r.fastest_lap).collect::<Vec<u64>>(), vec![90_000, 90_100, 90_200]);
}

#[test]
fn the_podium_holds_three_finishers_at_most() {
    let results = vec![entry(1, 1), entry(1, 2), entry(2, 3), entry(3, 4), entry(0, 5)];
    assert_eq!(podium(&results), vec![entry(0, 5), entry(1, 1), entry(1, 2)]);
    assert!(podium(&vec![entry(4, 1)]).is_empty());
}

#[test]
fn sectors_that_are_not_known_count_as_zero() {
    let laps = Some(vec![lap(Some(88_000), None, Some(29_000), None)]);
    assert_eq!(
        row_for(&entry(2, 16), &laps),
        Some(FastestLapSector {
            position: 2,
            driver_number: 16,
            fastest_lap: 88_000,
            sector_1: 0,
            sector_2: 29_000,
            sector_3: 0,
        })
    );
    assert_eq!(row_for(&entry(2, 16), &None), None);
    assert_eq!(row_for(&entry(2, 16), &Some(Vec::new())), None);
    assert_eq!(row_for(&entry(2, 16), &Some(vec![lap(None, Some(1), Some(2), Some(3))])), None);
}

#[test]
fn the_fastest_lap_is_the_first_of_least_duration() {
    let laps = vec![
        lap(None, Some(1), None, None),
        lap(Some(95_000), Some(2), None, None),
        lap(Some(89_000), Some(3), None, None),
        lap(Some(150_000), Some(4), None, None),
        lap(Some(89_000), Some(5), None, None),
    ];
    assert_eq!(fastest_lap(&laps), Some(lap(Some(89_000), Some(3), None, None)));
    assert_eq!(fastest_lap(&Vec::new()), None);
    assert_eq!(fastest_lap(&vec![lap(None, None, None, None)]), None);
}

#[test]
fn no_rows_at_all_is_no_valid_data() {
    let results = vec![entry(1, 1), entry(2, 11)];
    let (steps, timings) = run(&results, vec![None, Some(Vec::new())]);
    assert_eq!(steps.len(), 4);
    assert_eq!(timings, Err(AggregateError::NoValidData));
    let (steps, timings) = run(&Vec::new(), Vec::new());
    assert_eq!(steps, vec![SectorStep::Done]);
    assert_eq!(timings, Err(AggregateError::NoValidData));
}

#[test]
fn an_event_that_is_not_due_changes_nothing() {
    let results = vec![entry(1, 1), entry(2, 11)];
    let plan = SectorPlan::start(&results);
    let plan = plan.after_pause();
    assert_eq!(plan.step(), SectorStep::FetchLaps(1));
    let plan = plan.after_laps(Some(vec![lap(Some(90_000), None, None, None)]));
    assert_eq!(plan.step(), SectorStep::Pause(300));
    let plan = plan.after_laps(Some(vec![lap(Some(80_000), None, None, None)]));
    assert_eq!(plan.step(), SectorStep::Pause(300));
    let plan = plan.after_pause();
    assert_eq!(plan.step(), SectorStep::FetchLaps(11));
    let plan = plan.after_pause();
    assert_eq!(plan.step(), SectorStep::FetchLaps(11));
    let plan = plan.after_laps(None);
    assert_eq!(plan.step(), SectorStep::Done);
    let plan = plan.after_laps(Some(vec![lap(Some(1), None, None, None)]));
    let timings = plan.finish().expect("rows");
    assert_eq!(timings.len(), 1);
    assert_eq!(timings[0].fastest_lap, 90_000);
}

#[test]
fn finishing_early_gives_the_rows_so_far() {
    let results = vec![entry(1, 1), entry(2, 11)];
    let plan = SectorPlan::start(&results);
    let plan = plan.after_laps(Some(vec![lap(Some(90_000), Some(1), Some(2), Some(3))]));
    let timings = plan.finish().expect("rows");
    assert_eq!(timings.len(), 1);
    assert_eq!(timings[0].driver_number, 1);
}
