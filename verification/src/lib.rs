//! Aggregation core for Formula 1 timing data: a time-to-live cache, the joins
//! that turn laps, positions, locations and car samples into graphs and traces,
//! the minisector pace comparison and the qualifying ranking.
//!
//! Every quantity is an integer: timestamps and durations are milliseconds,
//! coordinates and speeds are whole provider units.

pub mod cache;
pub mod circuits;
pub mod clock;
pub mod decimal;
pub mod distance;
pub mod lap_time;
pub mod latest_laps;
pub mod nearest;
pub mod news;
pub mod pace;
pub mod position_graph;
pub mod qualifying;
pub mod rate_limit;
pub mod records;
pub mod requests;
pub mod sectors;
pub mod session_sync;
pub mod sessions;
pub mod sorting;
pub mod text;
pub mod trace;
