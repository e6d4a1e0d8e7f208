//! A cache whose entries expire.
//!
//! Each entry carries the instant after which it is stale. Nothing sweeps the
//! cache: a stale entry stays until a read finds it and removes it.

use crate::clock::now_millis;
use crate::records::{AggregateError, DriverLapGraph, FastestLapSector, PacePoint, SpeedDistance};
use dashmap::DashMap;
use vstd::prelude::*;

verus! {

/// The lifetime, in seconds, that every derived result is cached for.
pub const TTL_SECONDS: i64 = 3600;

/// The instant at which an entry made at `now` with a lifetime of
/// `ttl_seconds` expires, held within the range of an instant.
pub open spec fn expiry(now: int, ttl_seconds: int) -> int {
    let end = now + ttl_seconds * 1000;
    if end > i64::MAX {
        i64::MAX as int
    } else if end < i64::MIN {
        i64::MIN as int
    } else {
        end
    }
}

/// Whether an entry that expires at `expires_at` is stale at `now`.
pub open spec fn stale(expires_at: int, now: int) -> bool {
    now > expires_at
}

/// A cached value and the instant after which it is stale.
#[derive(Clone, Debug)]
pub struct CacheEntry<T> {
    pub value: T,
    pub expires_at: i64,
}

impl<T> CacheEntry<T> {
    /// The entry for `value` that is made at `now` and lives `ttl_seconds`.
    pub fn at(value: T, now: i64, ttl_seconds: i64) -> (entry: Self)
        ensures
            entry.value == value,
            entry.expires_at == expiry(now as int, ttl_seconds as int),
    {
        let end: i128 = now as i128 + ttl_seconds as i128 * 1000;
        let expires_at: i64 = if end > i64::MAX as i128 {
            i64::MAX
        } else if end < i64::MIN as i128 {
            i64::MIN
        } else {
            end as i64
        };
        CacheEntry { value, expires_at }
    }

    /// The entry for `value` that is made now and lives `ttl_seconds`.
    pub fn new(value: T, ttl_seconds: i64) -> (entry: Self)
        ensures
            entry.value == value,
            exists|now: i64| entry.expires_at == expiry(now as int, ttl_seconds as int),
    {
        let now = now_millis();
        CacheEntry::at(value, now, ttl_seconds)
    }

    /// Whether the entry is stale at `now`.
    pub fn is_expired_at(&self, now: i64) -> (expired: bool)
        ensures
            expired == stale(self.expires_at as int, now as int),
    {
        now > self.expires_at
    }

    /// Whether the entry is stale now.
    pub fn is_expired(&self) -> (expired: bool)
        ensures
            exists|now: i64| expired == stale(self.expires_at as int, now as int),
    {
        let now = now_millis();
        self.is_expired_at(now)
    }
}

/// An entry whose lifetime is not negative is fresh at the instant it is
/// made, and stale at every instant after its expiry.
pub proof fn lemma_entry_lifetime(now: i64, ttl_seconds: i64, later: i64)
    requires
        ttl_seconds >= 0,
    ensures
        !stale(expiry(now as int, ttl_seconds as int), now as int),
        later > expiry(now as int, ttl_seconds as int) ==> stale(
            expiry(now as int, ttl_seconds as int),
            later as int,
        ),
{
}

/// A derived result that the cache can hold.
#[derive(Clone, Debug)]
pub enum CachedValue {
    /// The speed over distance of one driver's lap.
    Trace(Vec<SpeedDistance>),
    /// The places of every driver, lap by lap.
    PositionGraphs(Vec<DriverLapGraph>),
    /// The sector times of the podium's fastest laps.
    SectorTimings(Vec<FastestLapSector>),
    /// The minisector comparison of two drivers.
    Pace(Vec<PacePoint>),
}

impl CachedValue {
    /// The trace that the value holds, if it holds one.
    pub fn into_trace(self) -> (trace: Option<Vec<SpeedDistance>>)
        ensures
            match self {
                CachedValue::Trace(points) => trace == Some(points),
                _ => trace.is_none(),
            },
    {
        match self {
            CachedValue::Trace(points) => Some(points),
            _ => None,
        }
    }

    /// The position graphs that the value holds, if it holds them.
    pub fn into_position_graphs(self) -> (graphs: Option<Vec<DriverLapGraph>>)
        ensures
            match self {
                CachedValue::PositionGraphs(found) => graphs == Some(found),
                _ => graphs.is_none(),
            },
    {
        match self {
            CachedValue::PositionGraphs(found) => Some(found),
            _ => None,
        }
    }

    /// The sector timings that the value holds, if it holds them.
    pub fn into_sector_timings(self) -> (timings: Option<Vec<FastestLapSector>>)
        ensures
            match self {
                CachedValue::SectorTimings(rows) => timings == Some(rows),
                _ => timings.is_none(),
            },
    {
        match self {
            CachedValue::SectorTimings(rows) => Some(rows),
            _ => None,
        }
    }

    /// The pace comparison that the value holds, if it holds one.
    pub fn into_pace(self) -> (pace: Option<Vec<PacePoint>>)
        ensures
            match self {
                CachedValue::Pace(points) => pace == Some(points),
                _ => pace.is_none(),
            },
    {
        match self {
            CachedValue::Pace(points) => Some(points),
            _ => None,
        }
    }
}

/// `dashmap::DashMap`, a hash map in shards. The proofs see nothing of its
/// inside: what a map holds is known only through `stored` and the four
/// functions below that make the calls.
#[verifier::external_type_specification]
#[verifier::external_body]
#[verifier::reject_recursive_types(K)]
#[verifier::reject_recursive_types(V)]
#[verifier::reject_recursive_types(S)]
pub struct ExDashMap<K, V, S>(DashMap<K, V, S>);

/// The entries that a `DashMap` holds, by the characters of their keys. The
/// functions below say how `DashMap::new`, `get`, `insert` and `remove`
/// relate to it.
pub uninterp spec fn stored(map: DashMap<String, CacheEntry<CachedValue>>) -> Map<Seq<char>, CacheEntry<CachedValue>>;

/// What `entries` holds under `key`.
pub open spec fn lookup(
    entries: Map<Seq<char>, CacheEntry<CachedValue>>,
    key: Seq<char>,
) -> Option<CacheEntry<CachedValue>> {
    if entries.contains_key(key) {
        Some(entries[key])
    } else {
        None
    }
}

/// Calls `DashMap::new`: the new map holds nothing.
#[verifier::external_body]
fn map_new() -> (made: DashMap<String, CacheEntry<CachedValue>>)
    ensures
        stored(made) == (Map::<Seq<char>, CacheEntry<CachedValue>>::empty()),
{
    DashMap::new()
}

/// Calls `DashMap::get` and hands out a clone of the entry found: the entry
/// stored under `key`, if there is one.
#[verifier::external_body]
fn map_get(
    map: &DashMap<String, CacheEntry<CachedValue>>,
    key: &str,
) -> (found: Option<CacheEntry<CachedValue>>)
    ensures
        found == lookup(stored(*map), key@),
{
    match map.get(key) {
        Some(entry) => Some(entry.value().clone()),
        None => None,
    }
}

/// Calls `DashMap::insert` on a map that the caller holds alone: afterwards
/// the map holds `entry` under `key`, in place of what it held there, and
/// everything else it held.
#[verifier::external_body]
fn map_insert(
    map: &mut DashMap<String, CacheEntry<CachedValue>>,
    key: String,
    entry: CacheEntry<CachedValue>,
)
    ensures
        stored(*final(map)) == stored(*old(map)).insert(key@, entry),
{
    map.insert(key, entry);
}

/// Calls `DashMap::remove` on a map that the caller holds alone: afterwards
/// the map holds nothing under `key`, and everything else it held.
#[verifier::external_body]
fn map_remove(map: &mut DashMap<String, CacheEntry<CachedValue>>, key: &str)
    ensures
        stored(*final(map)) == stored(*old(map)).remove(key@),
{
    map.remove(key);
}

/// The value that a read of `key` at `now` yields: the one stored under
/// `key`, unless it is stale.
pub open spec fn fresh_value(
    entries: Map<Seq<char>, CacheEntry<CachedValue>>,
    key: Seq<char>,
    now: int,
) -> Option<CachedValue> {
    match lookup(entries, key) {
        Some(entry) => if stale(entry.expires_at as int, now) {
            None
        } else {
            Some(entry.value)
        },
        None => None,
    }
}

/// The entries that a read of `key` at `now` leaves: a stale entry under
/// `key` is removed, nothing else changes.
pub open spec fn after_read(
    entries: Map<Seq<char>, CacheEntry<CachedValue>>,
    key: Seq<char>,
    now: int,
) -> Map<Seq<char>, CacheEntry<CachedValue>> {
    match lookup(entries, key) {
        Some(entry) => if stale(entry.expires_at as int, now) {
            entries.remove(key)
        } else {
            entries
        },
        None => entries,
    }
}

/// The entries after `value` is stored under `key` at `now` for
/// `ttl_seconds`.
pub open spec fn after_store(
    entries: Map<Seq<char>, CacheEntry<CachedValue>>,
    key: Seq<char>,
    value: CachedValue,
    now: int,
    ttl_seconds: int,
) -> Map<Seq<char>, CacheEntry<CachedValue>> {
    entries.insert(
        key,
        CacheEntry { value, expires_at: expiry(now, ttl_seconds) as i64 },
    )
}

/// The entries after the outcome of a computation is taken in at `now`: a
/// result is stored under `key` for `ttl_seconds`; a failure leaves the
/// entries as they are.
pub open spec fn after_outcome(
    entries: Map<Seq<char>, CacheEntry<CachedValue>>,
    key: Seq<char>,
    outcome: Result<CachedValue, AggregateError>,
    now: int,
    ttl_seconds: int,
) -> Map<Seq<char>, CacheEntry<CachedValue>> {
    match outcome {
        Ok(value) => after_store(entries, key, value, now, ttl_seconds),
        Err(_) => entries,
    }
}

/// What is left of an outcome once its result is stored: the failure, if it
/// was one.
pub open spec fn failure_of(outcome: Result<CachedValue, AggregateError>) -> Result<
    (),
    AggregateError,
> {
    match outcome {
        Ok(_) => Ok(()),
        Err(error) => Err(error),
    }
}

/// A cache of derived results by key.
pub struct Cache {
    map: DashMap<String, CacheEntry<CachedValue>>,
}

impl Cache {
    /// The entries of the cache, by the characters of their keys.
    pub closed spec fn entries(&self) -> Map<Seq<char>, CacheEntry<CachedValue>> {
        stored(self.map)
    }

    /// A cache that holds nothing.
    pub fn new() -> (cache: Self)
        ensures
            cache.entries() == (Map::<Seq<char>, CacheEntry<CachedValue>>::empty()),
    {
        Cache { map: map_new() }
    }

    /// The entry under `key`, stale or not. The cache does not change.
    pub fn get(&self, key: &str) -> (found: Option<CacheEntry<CachedValue>>)
        ensures
            found == lookup(self.entries(), key@),
    {
        map_get(&self.map, key)
    }

    /// Puts `entry` under `key`, in place of what was there.
    pub fn put(&mut self, key: String, entry: CacheEntry<CachedValue>)
        ensures
            final(self).entries() == old(self).entries().insert(key@, entry),
    {
        map_insert(&mut self.map, key, entry);
    }

    /// Removes what is under `key`.
    pub fn remove(&mut self, key: &str)
        ensures
            final(self).entries() == old(self).entries().remove(key@),
    {
        map_remove(&mut self.map, key);
    }

    /// Stores `value` under `key` at `now` for `ttl_seconds`, in place of
    /// what was there.
    pub fn insert_at(&mut self, key: String, value: CachedValue, now: i64, ttl_seconds: i64)
        ensures
            final(self).entries() == after_store(
                old(self).entries(),
                key@,
                value,
                now as int,
                ttl_seconds as int,
            ),
    {
        let entry = CacheEntry::at(value, now, ttl_seconds);
        self.put(key, entry);
    }

    /// Stores `value` under `key` for `ttl_seconds` from now, in place of
    /// what was there.
    pub fn insert(&mut self, key: String, value: CachedValue, ttl_seconds: i64)
        ensures
            exists|now: i64|
                final(self).entries() == after_store(
                    old(self).entries(),
                    key@,
                    value,
                    now as int,
                    ttl_seconds as int,
                ),
    {
        let now = now_millis();
        self.insert_at(key, value, now, ttl_seconds);
    }

    /// Takes in the outcome of a computation at `now`: a result is stored
    /// under `key` for `ttl_seconds`; a failure is handed back and nothing is
    /// stored.
    pub fn keep_at(
        &mut self,
        key: String,
        outcome: Result<CachedValue, AggregateError>,
        now: i64,
        ttl_seconds: i64,
    ) -> (kept: Result<(), AggregateError>)
        ensures
            kept == failure_of(outcome),
            final(self).entries() == after_outcome(
                old(self).entries(),
                key@,
                outcome,
                now as int,
                ttl_seconds as int,
            ),
    {
        match outcome {
            Ok(value) => {
                self.insert_at(key, value, now, ttl_seconds);
                Ok(())
            },
            Err(error) => Err(error),
        }
    }

    /// Takes in the outcome of a computation now: a result is stored under
    /// `key` for `ttl_seconds`; a failure is handed back and nothing is
    /// stored.
    pub fn keep(
        &mut self,
        key: String,
        outcome: Result<CachedValue, AggregateError>,
        ttl_seconds: i64,
    ) -> (kept: Result<(), AggregateError>)
        ensures
            kept == failure_of(outcome),
            exists|now: i64|
                final(self).entries() == after_outcome(
                    old(self).entries(),
                    key@,
                    outcome,
                    now as int,
                    ttl_seconds as int,
                ),
    {
        let now = now_millis();
        self.keep_at(key, outcome, now, ttl_seconds)
    }

    /// Reads `key` at `now`: a fresh value is handed out; a stale entry is
    /// removed and nothing is handed out.
    pub fn read_at(&mut self, key: &str, now: i64) -> (hit: Option<CachedValue>)
        ensures
            hit == fresh_value(old(self).entries(), key@, now as int),
            final(self).entries() == after_read(old(self).entries(), key@, now as int),
    {
        match self.get(key) {
            Some(entry) => {
                if entry.is_expired_at(now) {
                    self.remove(key);
                    None
                } else {
                    Some(entry.value)
                }
            },
            None => None,
        }
    }

    /// Reads `key` now: a fresh value is handed out; a stale entry is removed
    /// and nothing is handed out.
    pub fn read(&mut self, key: &str) -> (hit: Option<CachedValue>)
        ensures
            exists|now: i64|
                hit == fresh_value(old(self).entries(), key@, now as int)
                    && final(self).entries() == after_read(
                    old(self).entries(),
                    key@,
                    now as int,
                ),
    {
        let now = now_millis();
        self.read_at(key, now)
    }
}

/// What is put under a key is what a lookup of that key finds.
pub proof fn lemma_put_then_get(
    entries: Map<Seq<char>, CacheEntry<CachedValue>>,
    key: Seq<char>,
    entry: CacheEntry<CachedValue>,
)
    ensures
        lookup(entries.insert(key, entry), key) == Some(entry),
{
}

/// A value stored with a lifetime that is not negative is the value that a
/// read at the same instant hands out, and that read leaves the cache as it
/// is.
pub proof fn lemma_store_then_read(
    entries: Map<Seq<char>, CacheEntry<CachedValue>>,
    key: Seq<char>,
    value: CachedValue,
    now: i64,
    ttl_seconds: i64,
)
    requires
        ttl_seconds >= 0,
    ensures
        fresh_value(
            after_store(entries, key, value, now as int, ttl_seconds as int),
            key,
            now as int,
        ) == Some(value),
        after_read(
            after_store(entries, key, value, now as int, ttl_seconds as int),
            key,
            now as int,
        ) == after_store(entries, key, value, now as int, ttl_seconds as int),
{
}

} // verus!
