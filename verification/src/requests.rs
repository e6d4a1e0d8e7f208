//! What is asked of the timing provider, and the keys under which the
//! results are cached.

use crate::decimal::{decimal_chars, push_decimal};
use crate::records::{PaceQuery, TelemetryQuery};
use vstd::prelude::*;
use vstd::string::StringExecFns;

verus! {

/// The session and the meeting whose weather is asked for.
#[derive(Clone, Debug)]
pub struct WeatherQuery {
    pub session_key: Option<String>,
    pub meeting_key: Option<String>,
}

/// The keys of the services that the backend talks to.
#[derive(Clone, Debug)]
pub struct Config {
    pub supabase_project_url: String,
    pub supabase_anon_key: String,
    pub supabase_service_role_key: String,
    pub jwk_x: String,
    pub jwk_y: String,
}

/// The key that is asked for: the one given, or the latest.
pub open spec fn key_or_latest(key: Option<String>) -> Seq<char> {
    match key {
        Some(key) => key@,
        None => "latest"@,
    }
}

/// The address of the weather of a meeting and a session.
pub open spec fn weather_address(query: WeatherQuery) -> Seq<char> {
    "https://api.openf1.org/v1/weather?meeting_key="@ + key_or_latest(query.meeting_key)
        + "&session_key="@ + key_or_latest(query.session_key)
}

/// The address of the store's REST interface.
pub open spec fn rest_address(project: Seq<char>) -> Seq<char> {
    project + "/rest/v1"@
}

/// The address of all laps of a session.
pub open spec fn session_laps_address(session: Seq<char>) -> Seq<char> {
    "https://api.openf1.org/v1/laps?session_key="@ + session
}

/// The address of all place records of a session.
pub open spec fn positions_address(session: Seq<char>) -> Seq<char> {
    "https://api.openf1.org/v1/position?session_key="@ + session
}

/// The address of the podium of a session.
pub open spec fn podium_address(session: Seq<char>) -> Seq<char> {
    "https://api.openf1.org/v1/session_result?session_key="@ + session + "&position<=3"@
}

/// The address of the laps of one driver in a session.
pub open spec fn driver_laps_address(session: Seq<char>, driver: u32) -> Seq<char> {
    "https://api.openf1.org/v1/laps?session_key="@ + session + "&driver_number="@ + decimal_chars(
        driver as nat,
    )
}

/// The part of an address that names a session, a driver and the two
/// instants between which samples are asked for.
pub open spec fn window_filter(
    session: Seq<char>,
    driver: u32,
    from: Seq<char>,
    to: Seq<char>,
) -> Seq<char> {
    "?session_key="@ + session + "&driver_number="@ + decimal_chars(driver as nat) + "&date>"@
        + from + "&date<"@ + to
}

/// The address of the places of one driver between two instants.
pub open spec fn location_address(
    session: Seq<char>,
    driver: u32,
    from: Seq<char>,
    to: Seq<char>,
) -> Seq<char> {
    "https://api.openf1.org/v1/location"@ + window_filter(session, driver, from, to)
}

/// The address of the car samples of one driver between two instants.
pub open spec fn car_data_address(
    session: Seq<char>,
    driver: u32,
    from: Seq<char>,
    to: Seq<char>,
) -> Seq<char> {
    "https://api.openf1.org/v1/car_data"@ + window_filter(session, driver, from, to)
}

/// The key under which the trace of a driver in a session is cached.
pub open spec fn telemetry_key(session: Seq<char>, driver: u32) -> Seq<char> {
    "session_drivers_telemetry_graph_"@ + session + "_"@ + decimal_chars(driver as nat)
}

/// The key under which the position graphs of a session are cached.
pub open spec fn position_graph_key(session: Seq<char>) -> Seq<char> {
    "session_drivers_position_graph_"@ + session
}

/// The key under which the sector timings of a session are cached.
pub open spec fn sector_timings_key(session: Seq<char>) -> Seq<char> {
    "session_sector_timings_"@ + session
}

/// The key under which the pace comparison of two drivers is cached.
pub open spec fn pace_key(session: Seq<char>, first: u32, second: u32) -> Seq<char> {
    "race_pace_"@ + session + "_"@ + decimal_chars(first as nat) + "_"@ + decimal_chars(
        second as nat,
    )
}

impl WeatherQuery {
    /// The session that is asked for: the one given, or the latest.
    pub fn session_or_latest(&self) -> (key: String)
        ensures
            key@ == key_or_latest(self.session_key),
    {
        match &self.session_key {
            Some(key) => key.clone(),
            None => String::from_str("latest"),
        }
    }

    /// The meeting that is asked for: the one given, or the latest.
    pub fn meeting_or_latest(&self) -> (key: String)
        ensures
            key@ == key_or_latest(self.meeting_key),
    {
        match &self.meeting_key {
            Some(key) => key.clone(),
            None => String::from_str("latest"),
        }
    }

    /// The address of the weather that is asked for.
    pub fn address(&self) -> (address: String)
        ensures
            address@ == weather_address(*self),
    {
        let mut address = String::from_str("https://api.openf1.org/v1/weather?meeting_key=");
        let meeting = self.meeting_or_latest();
        let session = self.session_or_latest();
        address.append(meeting.as_str());
        address.append("&session_key=");
        address.append(session.as_str());
        address
    }
}

impl Config {
    /// The address of the store's REST interface.
    pub fn rest_endpoint(&self) -> (address: String)
        ensures
            address@ == rest_address(self.supabase_project_url@),
    {
        let mut address = self.supabase_project_url.clone();
        address.append("/rest/v1");
        address
    }
}

/// The address of all laps of a session.
pub fn session_laps_url(session: &str) -> (address: String)
    ensures
        address@ == session_laps_address(session@),
{
    let mut address = String::from_str("https://api.openf1.org/v1/laps?session_key=");
    address.append(session);
    address
}

/// The address of all place records of a session.
pub fn positions_url(session: &str) -> (address: String)
    ensures
        address@ == positions_address(session@),
{
    let mut address = String::from_str("https://api.openf1.org/v1/position?session_key=");
    address.append(session);
    address
}

/// The address of the podium of a session.
pub fn podium_url(session: &str) -> (address: String)
    ensures
        address@ == podium_address(session@),
{
    let mut address = String::from_str("https://api.openf1.org/v1/session_result?session_key=");
    address.append(session);
    address.append("&position<=3");
    address
}

/// The address of the laps of one driver in a session.
pub fn driver_laps_url(session: &str, driver: u32) -> (address: String)
    ensures
        address@ == driver_laps_address(session@, driver),
{
    let mut address = String::from_str("https://api.openf1.org/v1/laps?session_key=");
    address.append(session);
    address.append("&driver_number=");
    push_decimal(&mut address, driver);
    address
}

/// Appends the part of an address that names a session, a driver and the
/// two instants between which samples are asked for.
fn push_window_filter(address: &mut String, session: &str, driver: u32, from: &str, to: &str)
    ensures
        final(address)@ == old(address)@ + window_filter(session@, driver, from@, to@),
{
    address.append("?session_key=");
    address.append(session);
    address.append("&driver_number=");
    push_decimal(address, driver);
    address.append("&date>");
    address.append(from);
    address.append("&date<");
    address.append(to);
    proof {
        assert(address@ =~= old(address)@ + window_filter(session@, driver, from@, to@));
    }
}

/// The address of the places of one driver between two instants.
pub fn location_url(session: &str, driver: u32, from: &str, to: &str) -> (address: String)
    ensures
        address@ == location_address(session@, driver, from@, to@),
{
    let mut address = String::from_str("https://api.openf1.org/v1/location");
    push_window_filter(&mut address, session, driver, from, to);
    address
}

/// The address of the car samples of one driver between two instants.
pub fn car_data_url(session: &str, driver: u32, from: &str, to: &str) -> (address: String)
    ensures
        address@ == car_data_address(session@, driver, from@, to@),
{
    let mut address = String::from_str("https://api.openf1.org/v1/car_data");
    push_window_filter(&mut address, session, driver, from, to);
    address
}

/// The key under which the position graphs of a session are cached.
pub fn position_graph_cache_key(session: &str) -> (key: String)
    ensures
        key@ == position_graph_key(session@),
{
    let mut key = String::from_str("session_drivers_position_graph_");
    key.append(session);
    key
}

/// The key under which the sector timings of a session are cached.
pub fn sector_timings_cache_key(session: &str) -> (key: String)
    ensures
        key@ == sector_timings_key(session@),
{
    let mut key = String::from_str("session_sector_timings_");
    key.append(session);
    key
}

impl TelemetryQuery {
    /// The key under which the trace that is asked for is cached.
    pub fn cache_key(&self) -> (key: String)
        ensures
            key@ == telemetry_key(self.session_key@, self.driver_number),
    {
        let mut key = String::from_str("session_drivers_telemetry_graph_");
        key.append(self.session_key.as_str());
        key.append("_");
        push_decimal(&mut key, self.driver_number);
        key
    }
}

impl PaceQuery {
    /// The key under which the comparison that is asked for is cached.
    pub fn cache_key(&self) -> (key: String)
        ensures
            key@ == pace_key(self.session_key@, self.driver_1, self.driver_2),
    {
        let mut key = String::from_str("race_pace_");
        key.append(self.session_key.as_str());
        key.append("_");
        push_decimal(&mut key, self.driver_1);
        key.append("_");
        push_decimal(&mut key, self.driver_2);
        key
    }
}

} // verus!
