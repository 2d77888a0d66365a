use vstd::prelude::*;
use crate::geo::{decimal_nanodegrees, Coordinate};
use crate::numeric::{parse_i32, spec_parse_i32};
use crate::time::Timestamp;

verus! {

/// The vehicle class a reading is attributed to.
#[derive(Debug, Clone, Copy, PartialEq, Eq, Structural)]
pub enum VehicleClass {
    MotorBikes,
    Cars,
    Vans,
    RigidTrucks,
    ArticulatedTrucks,
    Unknown,
}

/// Codes 1 to 5 name a class; every other code is `Unknown`.
pub open spec fn class_of_code(code: int) -> VehicleClass {
    if code == 1 {
        VehicleClass::MotorBikes
    } else if code == 2 {
        VehicleClass::Cars
    } else if code == 3 {
        VehicleClass::Vans
    } else if code == 4 {
        VehicleClass::RigidTrucks
    } else if code == 5 {
        VehicleClass::ArticulatedTrucks
    } else {
        VehicleClass::Unknown
    }
}

impl VehicleClass {
    /// Maps a class code; never fails, out-of-range codes degrade to `Unknown`.
    pub fn from_code(code: i32) -> (r: VehicleClass)
        ensures
            r == class_of_code(code as int),
    {
        match code {
            1 => VehicleClass::MotorBikes,
            2 => VehicleClass::Cars,
            3 => VehicleClass::Vans,
            4 => VehicleClass::RigidTrucks,
            5 => VehicleClass::ArticulatedTrucks,
            _ => VehicleClass::Unknown,
        }
    }
}

impl From<i32> for VehicleClass {
    fn from(value: i32) -> (r: VehicleClass) {
        VehicleClass::from_code(value)
    }
}

impl vstd::std_specs::convert::FromSpecImpl<i32> for VehicleClass {
    open spec fn obeys_from_spec() -> bool {
        true
    }

    open spec fn from_spec(v: i32) -> VehicleClass {
        class_of_code(v as int)
    }
}

/// One per-vehicle-class reading of a measuring point.
#[derive(Debug, Clone, Copy, PartialEq, Eq, Structural)]
pub struct MeasurementData {
    pub vehicle_class: VehicleClass,
    pub traffic_intensity: i32,
    pub vehicle_speed_arithmetic: i32,
    pub vehicle_speed_harmonic: i32,
}

/// The figures the feed computes per measuring point.
#[derive(Debug, Clone, Copy, PartialEq, Eq, Structural)]
pub struct CalculatedData {
    pub occupancy_rate: i32,
    pub availability_rate: i32,
    pub instability: i32,
}

/// One sensor location's snapshot in the measurement document.
#[derive(Debug)]
pub struct MeasuringPoint {
    pub descriptive_id: String,
    pub unique_id: i32,
    pub equipment_number: i32,
    pub observation_time: Timestamp,
    pub last_modified_time: Timestamp,
    pub current_publication: i32,
    pub available: i32,
    pub faulty: i32,
    pub valid: i32,
    pub measurement_data: Vec<MeasurementData>,
    pub calculated_data: CalculatedData,
}

/// The measurement document.
#[derive(Debug)]
pub struct TrafficData {
    pub publication_time: Timestamp,
    pub last_config_change_time: Timestamp,
    pub measuring_points: Vec<MeasuringPoint>,
}

/// One point of the location document.
#[derive(Debug, Clone, Copy, PartialEq, Eq, Structural)]
pub struct MeasuringPointLocation {
    pub unique_id: i32,
    pub latitude: Coordinate,
    pub longitude: Coordinate,
}

/// The location document.
#[derive(Debug)]
pub struct TrafficDataLocations {
    pub publication_time: Timestamp,
    pub locations: Vec<MeasuringPointLocation>,
}

/// Why a field of a feed document could not be decoded.
#[derive(Debug, Clone, Copy, PartialEq, Eq, Structural)]
pub enum ParseError {
    Coordinate,
    Timestamp,
}

pub open spec fn parse_error_text(e: ParseError) -> Seq<char> {
    match e {
        ParseError::Coordinate => "coordinate is not a decimal number"@,
        ParseError::Timestamp => "timestamp is not RFC 3339 with an offset"@,
    }
}

impl ParseError {
    /// A human-readable description of the failure.
    pub fn message(&self) -> (r: &'static str)
        ensures
            r@ == parse_error_text(*self),
    {
        match self {
            ParseError::Coordinate => "coordinate is not a decimal number",
            ParseError::Timestamp => "timestamp is not RFC 3339 with an offset",
        }
    }
}

/// The text with every decimal comma turned into a decimal point.
pub open spec fn comma_to_dot(s: Seq<char>) -> Seq<char> {
    s.map_values(|c: char| if c == ',' { '.' } else { c })
}

/// Relies on `str::replace` with a one-character pattern: every `,` becomes `.`,
/// every other character is copied.
#[verifier::external_body]
fn replace_commas(s: &str) -> (r: String)
    ensures
        r@ == comma_to_dot(s@),
{
    s.replace(",", ".")
}

/// Decodes a vehicle class attribute: an integer code, mapped by `class_of_code`.
/// This never fails: text that is not an integer degrades to `Unknown` as well.
pub fn parse_vehicle_class(text: &str) -> (r: VehicleClass)
    ensures
        r == (match spec_parse_i32(text@) {
            Some(code) => class_of_code(code as int),
            None => VehicleClass::Unknown,
        }),
{
    match parse_i32(text) {
        Some(code) => VehicleClass::from_code(code),
        None => VehicleClass::Unknown,
    }
}

/// Decodes a coordinate written with a decimal comma, such as `51,0234`.
pub fn parse_dutch_coordinate(text: &str) -> (r: Result<Coordinate, ParseError>)
    ensures
        match decimal_nanodegrees(comma_to_dot(text@)) {
            Some(v) => r == Ok::<Coordinate, ParseError>(Coordinate { nanodegrees: v as i64 }),
            None => r == Err::<Coordinate, ParseError>(ParseError::Coordinate),
        },
{
    let normalized = replace_commas(text);
    match Coordinate::parse_decimal(normalized.as_str()) {
        Some(c) => Ok(c),
        None => Err(ParseError::Coordinate),
    }
}

/// Decodes a feed timestamp and normalises it to UTC.
pub fn parse_feed_timestamp(text: &str) -> (r: Result<Timestamp, ParseError>)
    ensures
        match Timestamp::parse_spec(text@) {
            Some(t) => r == Ok::<Timestamp, ParseError>(t),
            None => r == Err::<Timestamp, ParseError>(ParseError::Timestamp),
        },
{
    match Timestamp::parse(text) {
        Some(t) => Ok(t),
        None => Err(ParseError::Timestamp),
    }
}

} // verus!
