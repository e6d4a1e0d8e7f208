use f1_aggregator::position_graph::{
    driver_lap_graph, driver_laps, driver_places, drivers, position_graphs,
};
use f1_aggregator::records::{DriverLapGraph, LapPosition, LapRecord, PositionRecord};

fn lap(driver: u32, number: u32, start: Option<i64>) -> LapRecord {
    LapRecord { lap_number: number, date_start: start, driver_number: driver }
}

fn held(driver: u32, position: u32, date: i64) -> PositionRecord {
    PositionRecord { position, driver_number: driver, date }
}

fn pairs(graph: &DriverLapGraph) -> Vec<(u32, u32)> {
    graph.data.iter().map(|p: &LapPosition| (p.lap, p.position)).collect()
}

#[test]
fn position_graph_merge_join() {
    let laps = vec![lap(44, 1, Some(1_000)), lap(44, 2, Some(2_000)), lap(44, 3, Some(3_000))];
    let positions = vec![held(44, 1, 0), held(44, 2, 1_500), held(44, 3, 2_500)];
    let graphs = position_graphs(&laps, &positions);
    assert_eq!(graphs.len(), 1);
    assert_eq!(graphs[0].driver_number, 44);
    assert_eq!(pairs(&graphs[0]), vec![(1, 1), (1, 1), (2, 2), (3, 3)]);
}

#[test]
fn a_record_at_the_start_of_a_lap_is_in_effect() {
    let laps = vec![lap(1, 2, Some(2_000)), lap(1, 3, Some(2_999))];
    let positions = vec![held(1, 5, 1_000), held(1, 4, 2_000), held(1, 3, 3_000)];
    let graph = driver_lap_graph(&laps, &positions, 1).expect("graph");
    assert_eq!(pairs(&graph), vec![(1, 5), (2, 4), (3, 4)]);
}

#[test]
fn a_lap_before_every_record_takes_the_first_place() {
    let laps = vec![lap(1, 7, Some(10)), lap(1, 8, Some(5_000))];
    let positions = vec![held(1, 9, 1_000), held(1, 8, 2_000)];
    let graph = driver_lap_graph(&laps, &positions, 1).expect("graph");
    assert_eq!(pairs(&graph), vec![(1, 9), (7, 9), (8, 8)]);
}

#[test]
fn laps_and_records_are_put_in_order_of_time() {
    let laps = vec![
        lap(1, 3, Some(3_000)),
        lap(1, 1, None),
        lap(1, 2, Some(2_000)),
        lap(2, 2, Some(2_100)),
    ];
    let positions = vec![held(1, 3, 2_500), held(2, 1, 0), held(1, 2, 1_500), held(1, 1, 0)];
    assert_eq!(driver_laps(&laps, 1), vec![lap(1, 2, Some(2_000)), lap(1, 3, Some(3_000))]);
    assert_eq!(
        driver_places(&positions, 1),
        vec![held(1, 1, 0), held(1, 2, 1_500), held(1, 3, 2_500)]
    );
    let graph = driver_lap_graph(&laps, &positions, 1).expect("graph");
    assert_eq!(pairs(&graph), vec![(1, 1), (2, 2), (3, 3)]);
}

#[test]
fn drivers_stand_in_order_of_first_appearance() {
    let laps = vec![lap(44, 1, None), lap(1, 1, None), lap(44, 2, Some(5)), lap(16, 1, None)];
    assert_eq!(drivers(&laps), vec![44, 1, 16]);
    assert!(drivers(&Vec::new()).is_empty());
}

#[test]
fn drivers_without_place_records_are_left_out() {
    let laps = vec![lap(44, 1, Some(1_000)), lap(1, 1, Some(1_000))];
    let positions = vec![held(1, 2, 0), held(63, 1, 0)];
    let graphs = position_graphs(&laps, &positions);
    assert_eq!(graphs.len(), 1);
    assert_eq!(graphs[0].driver_number, 1);
    assert!(driver_lap_graph(&laps, &positions, 44).is_none());
    assert!(driver_lap_graph(&laps, &positions, 63).is_some());
}

#[test]
fn graphs_come_by_final_place() {
    let laps = vec![
        lap(44, 1, Some(1_000)),
        lap(1, 1, Some(1_000)),
        lap(16, 1, Some(1_000)),
        lap(44, 2, Some(2_000)),
        lap(1, 2, Some(2_000)),
        lap(16, 2, Some(2_000)),
    ];
    let positions = vec![
        held(44, 1, 0),
        held(1, 2, 0),
        held(16, 3, 0),
        held(44, 3, 1_500),
        held(16, 1, 1_500),
    ];
    let graphs = position_graphs(&laps, &positions);
    let order: Vec<u32> = graphs.iter().map(|g| g.driver_number).collect();
    assert_eq!(order, vec![16, 1, 44]);
    assert_eq!(pairs(&graphs[0]), vec![(1, 3), (1, 3), (2, 1)]);
    assert_eq!(pairs(&graphs[1]), vec![(1, 2), (1, 2), (2, 2)]);
    assert_eq!(pairs(&graphs[2]), vec![(1, 1), (1, 1), (2, 3)]);
}

#[test]
fn graphs_that_end_in_the_same_place_keep_the_order_of_the_drivers() {
    let laps = vec![lap(7, 1, Some(10)), lap(5, 1, Some(10)), lap(9, 1, Some(10))];
    let positions = vec![held(5, 4, 0), held(9, 2, 0), held(7, 4, 0)];
    let graphs = position_graphs(&laps, &positions);
    let order: Vec<u32> = graphs.iter().map(|g| g.driver_number).collect();
    assert_eq!(order, vec![9, 7, 5]);
}

#[test]
fn a_driver_whose_laps_have_no_start_keeps_the_seed() {
    let laps = vec![lap(4, 1, None), lap(4, 2, None)];
    let positions = vec![held(4, 6, 100), held(4, 5, 200)];
    let graphs = position_graphs(&laps, &positions);
    assert_eq!(graphs.len(), 1);
    assert_eq!(pairs(&graphs[0]), vec![(1, 6)]);
}

#[test]
fn no_laps_give_no_graphs() {
    assert!(position_graphs(&Vec::new(), &vec![held(4, 6, 100)]).is_empty());
    assert!(position_graphs(&Vec::new(), &Vec::new()).is_empty());
}

#[test]
fn the_sweep_agrees_with_a_search_for_every_lap() {
    let mut seed: u64 = 0x9e37_79b9_7f4a_7c15;
    let mut next = move |bound: u64| -> u64 {
        seed = seed.wrapping_mul(6364136223846793005).wrapping_add(1442695040888963407);
        (seed >> 33) % bound
    };
    for _ in 0..40 {
        let mut laps = Vec::new();
        let mut positions = Vec::new();
        for number in 0..next(12) {
            let start = if next(5) == 0 { None } else { Some(next(50) as i64) };
            laps.push(lap(7, number as u32 + 1, start));
        }
        for _ in 0..next(10) + 1 {
            positions.push(held(7, next(20) as u32 + 1, next(50) as i64));
        }
        let graph = match driver_lap_graph(&laps, &positions, 7) {
            Some(graph) => graph,
            None => panic!("a driver with place records has a graph"),
        };
        let mut sorted_positions = positions.clone();
        sorted_positions.sort_by_key(|record| record.date);
        let mut started: Vec<LapRecord> =
            laps.iter().filter(|lap| lap.date_start.is_some()).cloned().collect();
        started.sort_by_key(|lap| lap.date_start);
        let mut expected = vec![(1, sorted_positions[0].position)];
        for lap in &started {
            let at = lap.date_start.unwrap_or(0);
            let place = sorted_positions
                .iter()
                .rev()
                .find(|record| record.date <= at)
                .map(|record| record.position)
                .unwrap_or(sorted_positions[0].position);
            expected.push((lap.lap_number, place));
        }
        assert_eq!(pairs(&graph), expected);
    }
}
