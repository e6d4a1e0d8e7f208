use f1_aggregator::cache::{Cache, CacheEntry, CachedValue, TTL_SECONDS};
use f1_aggregator::records::{AggregateError, SpeedDistance};

fn trace() -> CachedValue {
    CachedValue::Trace(vec![
        SpeedDistance { speed: 280, distance: 0 },
        SpeedDistance { speed: 301, distance: 12 },
    ])
}

fn trace_of(value: &CachedValue) -> Vec<SpeedDistance> {
    match value {
        CachedValue::Trace(points) => points.clone(),
        _ => panic!("not a trace"),
    }
}

#[test]
fn entry_is_fresh_when_made_and_stale_after_expiry() {
    let entry = CacheEntry::at(7u32, 1_000, 60);
    assert_eq!(entry.value, 7);
    assert_eq!(entry.expires_at, 61_000);
    assert!(!entry.is_expired_at(1_000));
    assert!(!entry.is_expired_at(61_000));
    assert!(entry.is_expired_at(61_001));
}

#[test]
fn entry_expiry_saturates() {
    let late = CacheEntry::at((), i64::MAX - 5, 1);
    assert_eq!(late.expires_at, i64::MAX);
    assert!(!late.is_expired_at(i64::MAX));
    let early = CacheEntry::at((), i64::MIN + 5, -1);
    assert_eq!(early.expires_at, i64::MIN);
    let wide = CacheEntry::at((), 0, i64::MAX);
    assert_eq!(wide.expires_at, i64::MAX);
}

#[test]
fn entry_made_now_is_not_expired() {
    let entry = CacheEntry::new("value", TTL_SECONDS);
    assert_eq!(entry.value, "value");
    assert!(!entry.is_expired());
    let gone = CacheEntry::new("value", -10);
    assert!(gone.is_expired());
}

#[test]
fn cache_round_trip() {
    let mut cache = Cache::new();
    assert!(cache.get("k").is_none());
    cache.insert_at("k".to_string(), trace(), 5_000, 10);
    let found = cache.get("k").expect("entry");
    assert_eq!(found.expires_at, 15_000);
    assert_eq!(trace_of(&found.value), trace_of(&trace()));
    let hit = cache.read_at("k", 5_000).expect("fresh");
    assert_eq!(trace_of(&hit), trace_of(&trace()));
}

#[test]
fn cache_insert_overwrites() {
    let mut cache = Cache::new();
    cache.insert_at("k".to_string(), trace(), 0, 10);
    cache.insert_at("k".to_string(), CachedValue::Pace(Vec::new()), 0, 20);
    let found = cache.get("k").expect("entry");
    assert_eq!(found.expires_at, 20_000);
    assert!(matches!(found.value, CachedValue::Pace(_)));
}

#[test]
fn cache_read_removes_stale_entry() {
    let mut cache = Cache::new();
    cache.insert_at("k".to_string(), trace(), 0, 10);
    cache.insert_at("other".to_string(), trace(), 0, 1);
    assert!(cache.read_at("k", 10_001).is_none());
    assert!(cache.get("k").is_none());
    assert!(cache.get("other").is_some());
    assert!(cache.read_at("missing", 0).is_none());
}

#[test]
fn cache_remove_is_explicit() {
    let mut cache = Cache::new();
    cache.insert("k".to_string(), trace(), TTL_SECONDS);
    assert!(cache.read("k").is_some());
    cache.remove("k");
    assert!(cache.get("k").is_none());
    assert!(cache.read("k").is_none());
}

#[test]
fn a_failure_is_not_cached() {
    let mut cache = Cache::new();
    assert_eq!(
        cache.keep_at("k".to_string(), Err(AggregateError::UpstreamUnavailable), 0, 10),
        Err(AggregateError::UpstreamUnavailable)
    );
    assert!(cache.get("k").is_none());
    assert_eq!(cache.keep_at("k".to_string(), Ok(trace()), 0, 10), Ok(()));
    assert_eq!(cache.get("k").expect("entry").expires_at, 10_000);
    assert_eq!(
        cache.keep_at("k".to_string(), Err(AggregateError::NoValidData), 5, 10),
        Err(AggregateError::NoValidData)
    );
    assert_eq!(cache.get("k").expect("entry").expires_at, 10_000);
    assert_eq!(cache.keep("n".to_string(), Ok(trace()), TTL_SECONDS), Ok(()));
    assert!(cache.read("n").is_some());
    assert_eq!(
        cache.keep("m".to_string(), Err(AggregateError::UpstreamMalformed), TTL_SECONDS),
        Err(AggregateError::UpstreamMalformed)
    );
    assert!(cache.read("m").is_none());
}

#[test]
fn a_cached_value_hands_out_what_it_holds() {
    assert_eq!(trace().into_trace(), Some(trace_of(&trace())));
    assert!(trace().into_pace().is_none());
    assert!(trace().into_position_graphs().is_none());
    assert!(trace().into_sector_timings().is_none());
    assert_eq!(CachedValue::Pace(Vec::new()).into_pace(), Some(Vec::new()));
    assert!(CachedValue::Pace(Vec::new()).into_trace().is_none());
    assert!(CachedValue::PositionGraphs(Vec::new()).into_position_graphs().is_some());
    assert_eq!(CachedValue::SectorTimings(Vec::new()).into_sector_timings(), Some(Vec::new()));
}

#[test]
fn the_usual_lifetime_is_an_hour() {
    assert_eq!(TTL_SECONDS, 3600);
    let entry = CacheEntry::at((), 0, TTL_SECONDS);
    assert_eq!(entry.expires_at, 3_600_000);
}

#[test]
fn keys_are_told_apart_by_content() {
    let mut cache = Cache::new();
    cache.insert_at("session_9158".to_string(), trace(), 0, 10);
    cache.insert_at("session_9159".to_string(), CachedValue::Pace(Vec::new()), 0, 20);
    assert!(matches!(cache.read_at("session_9158", 1), Some(CachedValue::Trace(_))));
    assert!(matches!(cache.read_at("session_9159", 1), Some(CachedValue::Pace(_))));
    assert!(cache.read_at("session_915", 1).is_none());
    assert!(cache.read_at("", 1).is_none());
}
