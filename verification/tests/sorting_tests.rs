use f1_aggregator::distance::TimedLocation;
use f1_aggregator::qualifying::RankKey;
use f1_aggregator::records::PositionRecord;
use f1_aggregator::sorting::{stable_sort, Keyed};

fn held(driver: u32, position: u32, date: i64) -> PositionRecord {
    PositionRecord { position, driver_number: driver, date }
}

#[test]
fn stable_sort_orders_by_key() {
    let items = vec![held(1, 1, 30), held(2, 2, -5), held(3, 3, 10), held(4, 4, i64::MIN)];
    let sorted = stable_sort(items);
    let dates: Vec<i64> = sorted.iter().map(|r| r.date).collect();
    assert_eq!(dates, vec![i64::MIN, -5, 10, 30]);
}

#[test]
fn stable_sort_keeps_the_order_of_equal_keys() {
    let items = vec![
        held(1, 9, 20),
        held(2, 8, 10),
        held(3, 7, 20),
        held(4, 6, 10),
        held(5, 5, 20),
        held(6, 4, 5),
    ];
    let drivers: Vec<u32> = stable_sort(items).iter().map(|r| r.driver_number).collect();
    assert_eq!(drivers, vec![6, 2, 4, 1, 3, 5]);
}

#[test]
fn stable_sort_keeps_every_item() {
    let items: Vec<TimedLocation> =
        (0..200).map(|i| TimedLocation { at: (i * 7919) % 101, x: i as i32, y: 0, z: 0 }).collect();
    let sorted = stable_sort(items.clone());
    assert_eq!(sorted.len(), items.len());
    assert!(sorted.windows(2).all(|w| w[0].at < w[1].at || (w[0].at == w[1].at && w[0].x < w[1].x)));
    let mut seen: Vec<i32> = sorted.iter().map(|p| p.x).collect();
    seen.sort();
    assert_eq!(seen, (0..200).collect::<Vec<i32>>());
}

#[test]
fn stable_sort_of_nothing_and_of_one() {
    assert!(stable_sort(Vec::<PositionRecord>::new()).is_empty());
    assert_eq!(stable_sort(vec![held(1, 1, 1)]), vec![held(1, 1, 1)]);
}

#[test]
fn a_missing_time_comes_after_every_time() {
    let none = RankKey { index: 0, time: None };
    let most = RankKey { index: 1, time: Some(u64::MAX) };
    let least = RankKey { index: 2, time: Some(0) };
    assert!(most.not_after(&none));
    assert!(!none.not_after(&most));
    assert!(none.not_after(&none));
    assert!(least.not_after(&most));
    assert!(!most.not_after(&least));
    let sorted = stable_sort(vec![none, most, least]);
    assert_eq!(sorted.iter().map(|k| k.index).collect::<Vec<usize>>(), vec![2, 1, 0]);
}

#[test]
fn stable_sort_agrees_with_the_standard_stable_sort() {
    let mut seed: u64 = 0x2545_f491_4f6c_dd1d;
    for round in 0..50usize {
        let len = (round * 7) % 64;
        let mut items = Vec::new();
        for place in 0..len {
            seed = seed.wrapping_mul(6364136223846793005).wrapping_add(1442695040888963407);
            let date = ((seed >> 33) % 9) as i64 - 4;
            items.push(held(place as u32, round as u32, date));
        }
        let mut expected = items.clone();
        expected.sort_by_key(|record| record.date);
        assert_eq!(stable_sort(items), expected);
    }
}
