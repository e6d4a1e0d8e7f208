use f1_aggregator::decimal::push_decimal;
use f1_aggregator::records::{AggregateError, PaceQuery, TelemetryQuery, Upstream};
use f1_aggregator::requests::{
    car_data_url, driver_laps_url, location_url, podium_url, position_graph_cache_key,
    positions_url, sector_timings_cache_key, session_laps_url, Config, WeatherQuery,
};
use f1_aggregator::trace::{lap_window, TimedLap};

fn decimal(number: u32) -> String {
    let mut text = String::from("n=");
    push_decimal(&mut text, number);
    text
}

#[test]
fn numbers_are_written_in_decimal() {
    assert_eq!(decimal(0), "n=0");
    assert_eq!(decimal(7), "n=7");
    assert_eq!(decimal(10), "n=10");
    assert_eq!(decimal(44), "n=44");
    assert_eq!(decimal(1_002_003), "n=1002003");
    assert_eq!(decimal(u32::MAX), "n=4294967295");
    for number in [1u32, 9, 99, 100, 101, 12_345, 999_999_999, 1_000_000_000] {
        assert_eq!(decimal(number), format!("n={}", number));
    }
}

#[test]
fn addresses_of_a_session() {
    assert_eq!(session_laps_url("9158"), "https://api.openf1.org/v1/laps?session_key=9158");
    assert_eq!(positions_url("9158"), "https://api.openf1.org/v1/position?session_key=9158");
    assert_eq!(
        podium_url("9158"),
        "https://api.openf1.org/v1/session_result?session_key=9158&position<=3"
    );
    assert_eq!(
        driver_laps_url("latest", 44),
        "https://api.openf1.org/v1/laps?session_key=latest&driver_number=44"
    );
}

#[test]
fn addresses_of_a_lap_window() {
    assert_eq!(
        location_url("9158", 1, "2024-03-02T15:00:00+00:00", "2024-03-02T15:01:30.500+00:00"),
        "https://api.openf1.org/v1/location?session_key=9158&driver_number=1&date>2024-03-02T15:00:00+00:00&date<2024-03-02T15:01:30.500+00:00"
    );
    let (from, to) =
        lap_window(&TimedLap { start: 1_709_391_600_000, duration: 90_000 }).expect("window");
    assert_eq!(
        car_data_url("9158", 16, &from, &to),
        "https://api.openf1.org/v1/car_data?session_key=9158&driver_number=16&date>2024-03-02T15:00:00+00:00&date<2024-03-02T15:01:30+00:00"
    );
}

#[test]
fn cache_keys() {
    let telemetry = TelemetryQuery { session_key: "9158".to_string(), driver_number: 44 };
    assert_eq!(telemetry.cache_key(), "session_drivers_telemetry_graph_9158_44");
    assert_eq!(position_graph_cache_key("9158"), "session_drivers_position_graph_9158");
    assert_eq!(sector_timings_cache_key("9158"), "session_sector_timings_9158");
    let pace = PaceQuery { session_key: "9158".to_string(), driver_1: 1, driver_2: 16 };
    assert_eq!(pace.cache_key(), "race_pace_9158_1_16");
}

#[test]
fn weather_defaults_to_the_latest() {
    let none = WeatherQuery { session_key: None, meeting_key: None };
    assert_eq!(none.session_or_latest(), "latest");
    assert_eq!(none.meeting_or_latest(), "latest");
    assert_eq!(
        none.address(),
        "https://api.openf1.org/v1/weather?meeting_key=latest&session_key=latest"
    );
    let both = WeatherQuery { session_key: Some("9158".to_string()), meeting_key: Some("1219".to_string()) };
    assert_eq!(
        both.address(),
        "https://api.openf1.org/v1/weather?meeting_key=1219&session_key=9158"
    );
}

#[test]
fn the_rest_endpoint_hangs_on_the_project() {
    let config = Config {
        supabase_project_url: "https://project.example".to_string(),
        supabase_anon_key: "anon".to_string(),
        supabase_service_role_key: "service".to_string(),
        jwk_x: "x".to_string(),
        jwk_y: "y".to_string(),
    };
    assert_eq!(config.rest_endpoint(), "https://project.example/rest/v1");
}

#[test]
fn every_failure_has_its_status() {
    assert_eq!(AggregateError::UpstreamUnavailable.status_code(), 502);
    assert_eq!(AggregateError::UpstreamMalformed.status_code(), 502);
    assert_eq!(AggregateError::NoValidData.status_code(), 404);
    assert_eq!(AggregateError::NotFound.status_code(), 404);
}

#[test]
fn the_end_of_a_request_decides_the_failure() {
    assert_eq!(Upstream::<u8>::Unavailable.rows(), Err(AggregateError::UpstreamUnavailable));
    assert_eq!(Upstream::<u8>::Malformed.rows(), Err(AggregateError::UpstreamMalformed));
    assert_eq!(Upstream::Rows(vec![1, 2]).rows(), Ok(vec![1, 2]));
}
