use f1_aggregator::latest_laps::{latest_laps, latest_stamped, stamp_laps, SessionLap, StampedLap};
use f1_aggregator::rate_limit::wait_before_request;
use f1_aggregator::records::AggregateError;
use f1_aggregator::session_sync::{
    any_awaits_key, any_lacks_key, final_status, first_look, planned_updates, sessions_url,
    update_for, FirstLook, OfferedSession, StoredSession, SyncStatus,
};
use f1_aggregator::sessions::map_session_name;
use f1_aggregator::text::str_eq;

fn stored(kind: &str, has_key: bool, date: Option<&str>) -> StoredSession {
    StoredSession {
        session_type: Some(kind.to_string()),
        has_key,
        date: date.map(|d| d.to_string()),
    }
}

fn offered(name: &str, session_key: Option<i64>, meeting_key: Option<i64>) -> OfferedSession {
    OfferedSession { session_name: Some(name.to_string()), session_key, meeting_key }
}

fn session_lap(driver: u32, start: Option<&str>) -> SessionLap {
    SessionLap { driver_number: driver, date_start: start.map(|s| s.to_string()) }
}

#[test]
fn session_names_map_to_session_types() {
    assert_eq!(map_session_name("Practice 1"), Some("FirstPractice"));
    assert_eq!(map_session_name("Practice 2"), Some("SecondPractice"));
    assert_eq!(map_session_name("Practice 3"), Some("ThirdPractice"));
    assert_eq!(map_session_name("Qualifying"), Some("Qualifying"));
    assert_eq!(map_session_name("Race"), Some("Race"));
}

#[test]
fn other_names_map_to_nothing() {
    for name in ["", "race", "Race ", "Practice 4", "Practice", "Sprint", "Sprint Qualifying", "Räce"] {
        assert_eq!(map_session_name(name), None, "{:?}", name);
    }
}

#[test]
fn texts_are_compared_by_content() {
    assert!(str_eq("", ""));
    assert!(str_eq("Race", "Race"));
    assert!(!str_eq("Race", "Rac"));
    assert!(!str_eq("Race", "Rade"));
    assert!(str_eq("Großer Preis", "Großer Preis"));
    assert!(!str_eq("Großer Preis", "Grosser Preis"));
}

#[test]
fn a_race_without_sessions_is_not_found() {
    assert_eq!(first_look(&Vec::new()).err(), Some(AggregateError::NotFound));
}

#[test]
fn a_first_look_decides_whether_to_ask() {
    let complete = vec![stored("Race", true, Some("2024-03-02")), stored("Qualifying", true, None)];
    assert!(matches!(first_look(&complete), Ok(FirstLook::Completed)));
    let undated = vec![stored("Race", true, None), stored("Qualifying", false, Some("2024-03-01"))];
    assert!(matches!(first_look(&undated), Ok(FirstLook::Scheduled)));
    let blank = vec![stored("Race", false, Some(""))];
    assert!(matches!(first_look(&blank), Ok(FirstLook::Scheduled)));
    let open = vec![
        stored("FirstPractice", true, Some("2024-02-29")),
        stored("Qualifying", false, Some("2024-03-01")),
        stored("Race", false, None),
    ];
    match first_look(&open) {
        Ok(FirstLook::AskProvider { from, to }) => {
            assert_eq!(from, "2024-02-29");
            assert_eq!(to, "");
        },
        other => panic!("{:?}", other),
    }
    let dated = vec![stored("Qualifying", false, Some("2024-03-01")), stored("Race", true, Some("2024-03-02"))];
    match first_look(&dated) {
        Ok(FirstLook::AskProvider { from, to }) => {
            assert_eq!(from, "2024-03-01");
            assert_eq!(to, "2024-03-02");
        },
        other => panic!("{:?}", other),
    }
}

#[test]
fn updates_go_to_sessions_that_await_a_key() {
    let held = vec![
        stored("FirstPractice", true, None),
        stored("Qualifying", false, None),
        stored("Race", false, None),
        StoredSession { session_type: None, has_key: false, date: None },
    ];
    assert!(any_lacks_key(&held));
    assert!(any_awaits_key(&held, "Race"));
    assert!(!any_awaits_key(&held, "FirstPractice"));
    assert!(!any_awaits_key(&held, "Sprint"));
    let offers = vec![
        offered("Practice 1", Some(1), Some(10)),
        offered("Race", Some(5), Some(10)),
        offered("Sprint", Some(3), Some(10)),
        offered("Qualifying", None, Some(10)),
        offered("Qualifying", Some(4), None),
        OfferedSession { session_name: None, session_key: Some(9), meeting_key: Some(10) },
        offered("Qualifying", Some(4), Some(10)),
    ];
    let updates = planned_updates(&held, &offers);
    let seen: Vec<(&str, i64, i64)> =
        updates.iter().map(|u| (u.session_type, u.session_key, u.meeting_key)).collect();
    assert_eq!(seen, vec![("Race", 5, 10), ("Qualifying", 4, 10)]);
    assert!(update_for(&held, &offers[0]).is_none());
    assert!(planned_updates(&held, &Vec::new()).is_empty());
    assert!(planned_updates(&Vec::new(), &offers).is_empty());
}

#[test]
fn the_final_status_tells_whether_keys_are_missing() {
    assert_eq!(final_status(&vec![stored("Race", true, None)]), SyncStatus::Completed);
    assert_eq!(final_status(&Vec::new()), SyncStatus::Completed);
    assert_eq!(
        final_status(&vec![stored("Race", true, None), stored("Qualifying", false, None)]),
        SyncStatus::Partial
    );
    assert_eq!(SyncStatus::Completed.name(), "completed");
    assert_eq!(SyncStatus::Partial.name(), "partial");
    assert_eq!(SyncStatus::Scheduled.name(), "scheduled");
}

#[test]
fn the_provider_is_asked_for_a_range_of_dates() {
    assert_eq!(
        sessions_url("2024", "2024-02-29", "2024-03-02"),
        "https://api.openf1.org/v1/sessions?year=2024&date_start>=2024-02-29&date_end<=2024-03-02"
    );
}

#[test]
fn the_latest_lap_of_every_driver() {
    let laps = vec![
        session_lap(44, Some("2024-03-02T15:00:00Z")),
        session_lap(1, Some("2024-03-02T15:00:05Z")),
        session_lap(44, Some("2024-03-02T15:01:30Z")),
        session_lap(16, None),
        session_lap(1, Some("whenever")),
        session_lap(44, Some("2024-03-02T16:01:30+01:00")),
        session_lap(1, Some("2024-03-02T15:00:04Z")),
        session_lap(63, Some("1970-01-01T00:00:01Z")),
    ];
    assert_eq!(
        stamp_laps(&laps).iter().map(|l| l.index).collect::<Vec<usize>>(),
        vec![0, 1, 2, 5, 6, 7]
    );
    assert_eq!(
        latest_laps(&laps),
        vec![
            StampedLap { driver_number: 44, at: 1_709_391_690_000, index: 2 },
            StampedLap { driver_number: 1, at: 1_709_391_605_000, index: 1 },
            StampedLap { driver_number: 63, at: 1_000, index: 7 },
        ]
    );
    assert!(latest_laps(&Vec::new()).is_empty());
}

#[test]
fn the_latest_of_stamped_laps() {
    let laps = vec![
        StampedLap { driver_number: 2, at: 5, index: 0 },
        StampedLap { driver_number: 3, at: -1, index: 1 },
        StampedLap { driver_number: 2, at: 5, index: 2 },
        StampedLap { driver_number: 2, at: 6, index: 3 },
        StampedLap { driver_number: 3, at: -2, index: 4 },
    ];
    assert_eq!(
        latest_stamped(&laps),
        vec![
            StampedLap { driver_number: 2, at: 6, index: 3 },
            StampedLap { driver_number: 3, at: -1, index: 1 },
        ]
    );
}

#[test]
fn a_request_waits_for_the_rest_of_the_delay() {
    assert_eq!(wait_before_request(None, 300), 0);
    assert_eq!(wait_before_request(Some(0), 300), 300);
    assert_eq!(wait_before_request(Some(120), 300), 180);
    assert_eq!(wait_before_request(Some(299), 300), 1);
    assert_eq!(wait_before_request(Some(300), 300), 0);
    assert_eq!(wait_before_request(Some(u64::MAX), 300), 0);
    assert_eq!(wait_before_request(Some(5), 0), 0);
}

#[test]
fn stored_news_is_fresh_for_six_hours() {
    let stored = 1_709_391_600_000i64;
    assert_eq!(f1_aggregator::news::NEWS_FRESH_MILLIS, 6 * 60 * 60 * 1000);
    assert!(f1_aggregator::news::news_is_fresh(stored, stored));
    assert!(f1_aggregator::news::news_is_fresh(stored, stored + 21_599_999));
    assert!(!f1_aggregator::news::news_is_fresh(stored, stored + 21_600_000));
    assert!(f1_aggregator::news::news_is_fresh(stored, stored - 1));
    assert!(!f1_aggregator::news::news_is_fresh(i64::MIN, i64::MAX));
    assert!(f1_aggregator::news::news_is_fresh(i64::MAX, i64::MIN));
    let text = "2024-03-02T15:00:00+00:00";
    assert!(f1_aggregator::news::stored_news_is_fresh(text, stored + 1_000));
    assert!(!f1_aggregator::news::stored_news_is_fresh(text, stored + 21_600_000));
    assert!(!f1_aggregator::news::stored_news_is_fresh("2024-03-02", stored));
    assert!(!f1_aggregator::news::stored_news_is_fresh("", stored));
}

#[test]
fn each_race_finds_its_circuit() {
    let circuits = vec![
        Some("monza".to_string()),
        None,
        Some("spa".to_string()),
        Some("monza".to_string()),
        Some("".to_string()),
    ];
    let races =
        vec!["spa".to_string(), "monza".to_string(), "imola".to_string(), "".to_string(), "Spa".to_string()];
    assert_eq!(
        f1_aggregator::circuits::match_circuits(&races, &circuits),
        vec![Some(2), Some(0), None, Some(4), None]
    );
    assert_eq!(f1_aggregator::circuits::find_circuit(&circuits, "monza"), Some(0));
    assert_eq!(f1_aggregator::circuits::find_circuit(&Vec::new(), "monza"), None);
    assert!(f1_aggregator::circuits::match_circuits(&Vec::new(), &circuits).is_empty());
    assert_eq!(
        f1_aggregator::circuits::match_circuits(&races, &vec![None]),
        vec![None, None, None, None, None]
    );
}
