use traffic_feed::feed::{
    CalculatedData, MeasurementData, MeasuringPoint, MeasuringPointLocation, TrafficData,
    TrafficDataLocations, VehicleClass,
};
use traffic_feed::geo::Coordinate;
use traffic_feed::models::Location;
use traffic_feed::pipeline::{plan_ingestion, vehicle_measurements, IngestError, LocationDirectory};
use traffic_feed::store::{MeasurementQuery, MemoryStore};
use traffic_feed::time::Timestamp;

const T0: Timestamp = Timestamp { seconds: 1709284500, nanos: 0 };

fn point(id: i32, intensity: i32) -> MeasuringPoint {
    MeasuringPoint {
        descriptive_id: format!("P{}", id),
        unique_id: id,
        equipment_number: 1,
        observation_time: T0,
        last_modified_time: T0,
        current_publication: 1,
        available: 1,
        faulty: 0,
        valid: 1,
        measurement_data: vec![
            MeasurementData {
                vehicle_class: VehicleClass::Cars,
                traffic_intensity: intensity,
                vehicle_speed_arithmetic: 90,
                vehicle_speed_harmonic: 88,
            },
            MeasurementData {
                vehicle_class: VehicleClass::ArticulatedTrucks,
                traffic_intensity: 2,
                vehicle_speed_arithmetic: 252,
                vehicle_speed_harmonic: 252,
            },
        ],
        calculated_data: CalculatedData { occupancy_rate: 5, availability_rate: 100, instability: 0 },
    }
}

fn location(id: i32, lat: i64) -> MeasuringPointLocation {
    MeasuringPointLocation {
        unique_id: id,
        latitude: Coordinate { nanodegrees: lat },
        longitude: Coordinate { nanodegrees: 4_000_000_000 },
    }
}

fn feeds() -> (TrafficData, TrafficDataLocations) {
    let traffic = TrafficData {
        publication_time: T0,
        last_config_change_time: T0,
        measuring_points: vec![point(10, 8), point(20, 3)],
    };
    let locations = TrafficDataLocations { publication_time: T0, locations: vec![location(10, 51_000_000_000)] };
    (traffic, locations)
}

#[test]
fn end_to_end_skips_point_without_location() {
    let (traffic, locations) = feeds();
    let mut store = MemoryStore::new();
    assert_eq!(store.ingest_feeds(&traffic, &locations), Ok(()));
    assert_eq!(store.locations.len(), 1);
    assert_eq!(store.measurements.len(), 1);
    let m = store.measurements[0];
    assert_eq!(m.location_id, 10);
    assert_eq!(m.total_vehicles_passed, 10);
    assert_eq!(m.average_speed, Some(90));
    assert_eq!(m.max_speed, Some(90));
    assert!(store.measurements.iter().all(|m| m.location_id != 20));
    let rows = store.run(&MeasurementQuery::Recent { limit: 20 });
    assert_eq!(rows.len(), 1);
    assert_eq!(rows[0].latitude, Coordinate { nanodegrees: 51_000_000_000 });
}

#[test]
fn second_run_is_a_no_op() {
    let (traffic, locations) = feeds();
    let mut store = MemoryStore::new();
    store.ingest_feeds(&traffic, &locations).unwrap();
    let (mut traffic2, mut locations2) = feeds();
    traffic2.measuring_points[0].measurement_data[0].traffic_intensity = 500;
    locations2.locations[0].latitude = Coordinate { nanodegrees: 1 };
    store.ingest_feeds(&traffic2, &locations2).unwrap();
    assert_eq!(store.measurements.len(), 1);
    assert_eq!(store.measurements[0].total_vehicles_passed, 10);
    assert_eq!(store.locations[0].latitude, Coordinate { nanodegrees: 51_000_000_000 });
}

#[test]
fn plan_orders_and_deduplicates_locations() {
    let (mut traffic, mut locations) = feeds();
    locations.locations = vec![location(20, 1), location(10, 2), location(20, 3)];
    traffic.measuring_points.push(point(30, 1));
    let plan = plan_ingestion(&traffic, &locations).unwrap();
    assert_eq!(
        plan.locations,
        vec![
            Location { location_id: 20, latitude: Coordinate { nanodegrees: 1 }, longitude: Coordinate { nanodegrees: 4_000_000_000 } },
            Location { location_id: 10, latitude: Coordinate { nanodegrees: 2 }, longitude: Coordinate { nanodegrees: 4_000_000_000 } },
        ]
    );
    let ids: Vec<i32> = plan.measurements.iter().map(|m| m.location_id).collect();
    assert_eq!(ids, vec![10, 20]);
    let dir = LocationDirectory::build(&locations.locations);
    assert!(dir.contains(20));
    assert!(!dir.contains(30));
}

#[test]
fn plan_fails_on_total_overflow() {
    let (mut traffic, locations) = feeds();
    traffic.measuring_points[0].measurement_data[0].traffic_intensity = i32::MAX;
    assert_eq!(
        plan_ingestion(&traffic, &locations).err(),
        Some(IngestError::TotalOutOfRange { location_id: 10 })
    );
    let mut store = MemoryStore::new();
    assert!(store.ingest_feeds(&traffic, &locations).is_err());
    assert!(store.locations.is_empty());
}

#[test]
fn per_class_rows() {
    let (traffic, _) = feeds();
    let rows = vehicle_measurements(&traffic);
    assert_eq!(rows.len(), 4);
    assert_eq!(rows[1].vehicle_class, VehicleClass::ArticulatedTrucks);
    assert_eq!(rows[1].location_id, 10);
    assert_eq!(rows[2].location_id, 20);
    assert_eq!(rows[2].traffic_intensity, 3);
    assert_eq!(rows[3].observation_time, T0);
}

#[test]
fn run_with_only_sentinel_speeds_stores_no_speeds() {
    let (mut traffic, locations) = feeds();
    traffic.measuring_points[0].measurement_data[0].vehicle_speed_arithmetic = 254;
    let mut store = MemoryStore::new();
    store.ingest_feeds(&traffic, &locations).unwrap();
    assert_eq!(store.measurements.len(), 1);
    let m = store.measurements[0];
    assert_eq!(m.total_vehicles_passed, 10);
    assert_eq!(m.average_speed, None);
    assert_eq!(m.max_speed, None);
    let rows = traffic_feed::models::TrafficMeasurement::get_by_location_id(
        &store,
        "10",
        &traffic_feed::query::FindMeasurementsByLocationIdParams::from_limit(Some(1)),
    );
    assert_eq!(rows.len(), 1);
    assert_eq!(rows[0].latitude, Coordinate { nanodegrees: 51_000_000_000 });
}
