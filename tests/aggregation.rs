use traffic_feed::feed::{CalculatedData, MeasurementData, MeasuringPoint, VehicleClass};
use traffic_feed::models::TrafficMeasurement;
use traffic_feed::time::Timestamp;

fn reading(class: VehicleClass, intensity: i32, speed: i32) -> MeasurementData {
    MeasurementData {
        vehicle_class: class,
        traffic_intensity: intensity,
        vehicle_speed_arithmetic: speed,
        vehicle_speed_harmonic: speed,
    }
}

fn point(id: i32, readings: Vec<MeasurementData>) -> MeasuringPoint {
    let t = Timestamp { seconds: 1709284500, nanos: 0 };
    MeasuringPoint {
        descriptive_id: String::from("H101L10"),
        unique_id: id,
        equipment_number: 7,
        observation_time: t,
        last_modified_time: t,
        current_publication: 1,
        available: 1,
        faulty: 0,
        valid: 1,
        measurement_data: readings,
        calculated_data: CalculatedData { occupancy_rate: 12, availability_rate: 100, instability: 3 },
    }
}

#[test]
fn aggregation_skips_sentinel_speed() {
    let p = point(
        4,
        vec![
            reading(VehicleClass::Cars, 10, 60),
            reading(VehicleClass::Vans, 20, 251),
            reading(VehicleClass::RigidTrucks, 30, 80),
        ],
    );
    let m = TrafficMeasurement::aggregate(&p).unwrap();
    assert_eq!(m.total_vehicles_passed, 60);
    assert_eq!(m.average_speed, Some(70));
    assert_eq!(m.max_speed, Some(80));
    assert_eq!(m.location_id, 4);
    assert_eq!(m.occupancy_rate, 12);
    assert_eq!(m.availability_rate, 100);
    assert_eq!(m.observation_time, Timestamp { seconds: 1709284500, nanos: 0 });
}

#[test]
fn aggregation_all_sentinels_has_no_speeds() {
    let p = point(
        5,
        vec![
            reading(VehicleClass::Cars, 3, 251),
            reading(VehicleClass::Vans, 4, 252),
            reading(VehicleClass::Unknown, 5, 254),
        ],
    );
    let m = TrafficMeasurement::aggregate(&p).unwrap();
    assert_eq!(m.total_vehicles_passed, 12);
    assert_eq!(m.average_speed, None);
    assert_eq!(m.max_speed, None);
}

#[test]
fn aggregation_without_readings() {
    let m = TrafficMeasurement::aggregate(&point(6, vec![])).unwrap();
    assert_eq!(m.total_vehicles_passed, 0);
    assert_eq!(m.average_speed, None);
    assert_eq!(m.max_speed, None);
}

#[test]
fn aggregation_rounds_half_away_from_zero() {
    // mean 60.5 rounds up to 61
    let p = point(7, vec![reading(VehicleClass::Cars, 1, 60), reading(VehicleClass::Cars, 1, 61)]);
    assert_eq!(TrafficMeasurement::aggregate(&p).unwrap().average_speed, Some(61));
    // mean 60.333 rounds down to 60
    let p = point(
        7,
        vec![
            reading(VehicleClass::Cars, 1, 60),
            reading(VehicleClass::Cars, 1, 60),
            reading(VehicleClass::Cars, 1, 61),
        ],
    );
    assert_eq!(TrafficMeasurement::aggregate(&p).unwrap().average_speed, Some(60));
    // mean -2.5 rounds to -3
    let p = point(7, vec![reading(VehicleClass::Cars, 1, -2), reading(VehicleClass::Cars, 1, -3)]);
    let m = TrafficMeasurement::aggregate(&p).unwrap();
    assert_eq!(m.average_speed, Some(-3));
    assert_eq!(m.max_speed, Some(-2));
}

#[test]
fn aggregation_sentinel_253_is_a_speed() {
    let p = point(8, vec![reading(VehicleClass::Cars, 1, 253), reading(VehicleClass::Cars, 1, 251)]);
    let m = TrafficMeasurement::aggregate(&p).unwrap();
    assert_eq!(m.average_speed, Some(253));
    assert_eq!(m.max_speed, Some(253));
}

#[test]
fn aggregation_total_out_of_range() {
    let p = point(
        9,
        vec![reading(VehicleClass::Cars, i32::MAX, 50), reading(VehicleClass::Cars, 1, 50)],
    );
    assert!(TrafficMeasurement::aggregate(&p).is_none());
}

#[test]
fn aggregation_extreme_speeds_stay_in_range() {
    let p = point(
        10,
        vec![reading(VehicleClass::Cars, 1, i32::MAX), reading(VehicleClass::Cars, 1, i32::MAX)],
    );
    let m = TrafficMeasurement::aggregate(&p).unwrap();
    assert_eq!(m.average_speed, Some(i32::MAX));
    let p = point(
        10,
        vec![reading(VehicleClass::Cars, 1, i32::MIN), reading(VehicleClass::Cars, 1, i32::MIN)],
    );
    assert_eq!(TrafficMeasurement::aggregate(&p).unwrap().average_speed, Some(i32::MIN));
}
