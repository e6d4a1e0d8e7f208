//! The records that the timing provider sends and the results built from them.
//!
//! Timestamps are milliseconds since the Unix epoch, durations are
//! milliseconds, coordinates and speeds are whole provider units.

use vstd::prelude::*;

verus! {

/// One sample of a car's telemetry.
#[derive(Clone, Debug)]
pub struct CarDataPoint {
    pub date: String,
    pub session_key: u32,
    pub driver_number: u32,
    pub throttle: Option<u32>,
    pub meeting_key: u32,
    pub brake: Option<u32>,
    pub n_gear: Option<u32>,
    pub rpm: Option<u32>,
    pub speed: u32,
    pub drs: Option<u32>,
}

/// A speed together with the distance covered since the start of the lap.
#[derive(Clone, Copy, Debug, PartialEq, Eq, Structural)]
pub struct SpeedDistance {
    pub speed: u32,
    pub distance: u128,
}

/// A lap of one driver, as the position graph reads it.
#[derive(Clone, Copy, Debug, PartialEq, Eq, Structural)]
pub struct LapRecord {
    pub lap_number: u32,
    pub date_start: Option<i64>,
    pub driver_number: u32,
}

/// The place a driver held from `date` on.
#[derive(Clone, Copy, Debug, PartialEq, Eq, Structural)]
pub struct PositionRecord {
    pub position: u32,
    pub driver_number: u32,
    pub date: i64,
}

/// The place a driver held when a lap began.
#[derive(Clone, Copy, Debug, PartialEq, Eq, Structural)]
pub struct LapPosition {
    pub lap: u32,
    pub position: u32,
}

/// The places of one driver, lap by lap.
#[derive(Clone, Debug)]
pub struct DriverLapGraph {
    pub driver_number: u32,
    pub data: Vec<LapPosition>,
}

/// The fastest lap of a podium finisher, split into its three sectors.
#[derive(Clone, Copy, Debug, PartialEq, Eq, Structural)]
pub struct FastestLapSector {
    pub position: u32,
    pub driver_number: u32,
    pub fastest_lap: u64,
    pub sector_1: u64,
    pub sector_2: u64,
    pub sector_3: u64,
}

/// The two drivers whose pace is compared in a session.
#[derive(Clone, Debug)]
pub struct PaceQuery {
    pub session_key: String,
    pub driver_1: u32,
    pub driver_2: u32,
}

/// The driver whose telemetry is asked for in a session.
#[derive(Clone, Debug)]
pub struct TelemetryQuery {
    pub session_key: String,
    pub driver_number: u32,
}

/// One sample of a car's place on the track.
#[derive(Clone, Debug)]
pub struct LocationPoint {
    pub date: String,
    pub x: i32,
    pub y: i32,
    pub z: i32,
}

/// A lap as the pace comparison reads it.
#[derive(Clone, Debug)]
pub struct Lap {
    pub lap_duration: Option<u64>,
    pub date_start: Option<String>,
}

/// Which of two drivers was faster through one minisector, at the place where
/// the first driver entered it.
#[derive(Clone, Copy, Debug, PartialEq, Eq, Structural)]
pub struct PacePoint {
    pub x: i32,
    pub y: i32,
    pub minisector: u32,
    pub fastest_driver: u32,
}

/// Why an aggregation gave no result.
#[derive(Clone, Copy, Debug, PartialEq, Eq, Structural)]
pub enum AggregateError {
    /// The provider could not be reached or refused the request.
    UpstreamUnavailable,
    /// The provider's answer did not have the expected shape.
    UpstreamMalformed,
    /// The provider's answer holds nothing the computation can use.
    NoValidData,
    /// What was asked for does not exist.
    NotFound,
}

/// How a request to the provider ended.
#[derive(Clone, Debug)]
pub enum Upstream<T> {
    /// The request failed: the provider could not be reached, did not answer
    /// in time, or refused.
    Unavailable,
    /// The answer was not the list of records that was asked for.
    Malformed,
    /// The records of the answer.
    Rows(T),
}

/// The status with which a failure is reported: a bad gateway where the
/// provider is at fault, not found where there is nothing to show.
pub open spec fn failure_status(error: AggregateError) -> u16 {
    match error {
        AggregateError::UpstreamUnavailable => 502,
        AggregateError::UpstreamMalformed => 502,
        AggregateError::NoValidData => 404,
        AggregateError::NotFound => 404,
    }
}

impl AggregateError {
    /// The status with which the failure is reported.
    pub fn status_code(&self) -> (status: u16)
        ensures
            status == failure_status(*self),
    {
        match self {
            AggregateError::UpstreamUnavailable => 502,
            AggregateError::UpstreamMalformed => 502,
            AggregateError::NoValidData => 404,
            AggregateError::NotFound => 404,
        }
    }
}

impl<T> Upstream<T> {
    /// The records of the answer, or the failure that stands for the way
    /// the request ended.
    pub fn rows(self) -> (rows: Result<T, AggregateError>)
        ensures
            match self {
                Upstream::Unavailable => rows == Err::<T, AggregateError>(
                    AggregateError::UpstreamUnavailable,
                ),
                Upstream::Malformed => rows == Err::<T, AggregateError>(
                    AggregateError::UpstreamMalformed,
                ),
                Upstream::Rows(found) => rows == Ok::<T, AggregateError>(found),
            },
    {
        match self {
            Upstream::Unavailable => Err(AggregateError::UpstreamUnavailable),
            Upstream::Malformed => Err(AggregateError::UpstreamMalformed),
            Upstream::Rows(found) => Ok(found),
        }
    }
}

} // verus!
