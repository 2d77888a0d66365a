use vstd::prelude::*;
use crate::feed::VehicleClass;
use crate::geo::Coordinate;
use crate::time::Timestamp;

verus! {

/// A sensor location; its identity is `location_id`.
#[derive(Debug, Clone, Copy, PartialEq, Eq, Structural)]
pub struct Location {
    pub location_id: i32,
    pub latitude: Coordinate,
    pub longitude: Coordinate,
}

/// The aggregate of one measuring point at one observation time; its identity is
/// the pair (`location_id`, `observation_time`).
#[derive(Debug, Clone, Copy, PartialEq, Eq, Structural)]
pub struct TrafficMeasurement {
    pub location_id: i32,
    pub observation_time: Timestamp,
    pub occupancy_rate: i32,
    pub availability_rate: i32,
    pub total_vehicles_passed: i32,
    pub average_speed: Option<i32>,
    pub max_speed: Option<i32>,
}

/// One per-vehicle-class reading as the optional per-class sink stores it; its
/// identity is (`location_id`, `observation_time`, `vehicle_class`).
#[derive(Debug, Clone, Copy, PartialEq, Eq, Structural)]
pub struct TrafficVehicleMeasurement {
    pub location_id: i32,
    pub observation_time: Timestamp,
    pub vehicle_class: VehicleClass,
    pub traffic_intensity: i32,
    pub vehicle_speed_arithmetic: i32,
    pub vehicle_speed_harmonic: i32,
}

/// The read model: an aggregate joined to the coordinates of its location.
#[derive(Debug, Clone, Copy, PartialEq, Eq, Structural)]
pub struct MeasurementDTO {
    pub location_id: i32,
    pub observation_time: Timestamp,
    pub occupancy_rate: i32,
    pub availability_rate: i32,
    pub total_vehicles_passed: i32,
    pub average_speed: Option<i32>,
    pub max_speed: Option<i32>,
    pub latitude: Coordinate,
    pub longitude: Coordinate,
}

pub open spec fn joined(m: TrafficMeasurement, l: Location) -> MeasurementDTO {
    MeasurementDTO {
        location_id: m.location_id,
        observation_time: m.observation_time,
        occupancy_rate: m.occupancy_rate,
        availability_rate: m.availability_rate,
        total_vehicles_passed: m.total_vehicles_passed,
        average_speed: m.average_speed,
        max_speed: m.max_speed,
        latitude: l.latitude,
        longitude: l.longitude,
    }
}

impl MeasurementDTO {
    /// The view row of `m` at location `l`.
    pub fn join(m: &TrafficMeasurement, l: &Location) -> (r: MeasurementDTO)
        ensures
            r == joined(*m, *l),
    {
        MeasurementDTO {
            location_id: m.location_id,
            observation_time: m.observation_time,
            occupancy_rate: m.occupancy_rate,
            availability_rate: m.availability_rate,
            total_vehicles_passed: m.total_vehicles_passed,
            average_speed: m.average_speed,
            max_speed: m.max_speed,
            latitude: l.latitude,
            longitude: l.longitude,
        }
    }
}

} // verus!
