use traffic_feed::batch::{insert_statement, plan_batches, BatchError, SqlValue, Table, BATCH_SIZE};
use traffic_feed::feed::VehicleClass;
use traffic_feed::geo::Coordinate;
use traffic_feed::models::{Location, TrafficMeasurement, TrafficVehicleMeasurement};
use traffic_feed::time::Timestamp;

fn loc(id: i32) -> Location {
    Location {
        location_id: id,
        latitude: Coordinate { nanodegrees: 51_000_000_000 + id as i64 },
        longitude: Coordinate { nanodegrees: 4_000_000_000 },
    }
}

#[test]
fn statement_text_for_two_locations() {
    assert_eq!(
        insert_statement(Table::Locations, 2),
        "INSERT INTO public.locations (location_id, latitude, longitude) VALUES ($1,$2,$3),($4,$5,$6) ON CONFLICT (location_id) DO NOTHING"
    );
}

#[test]
fn statement_text_for_one_measurement() {
    assert_eq!(
        insert_statement(Table::TrafficMeasurements, 1),
        "INSERT INTO public.traffic_measurements (location_id, observation_time, occupancy_rate, availability_rate, total_vehicles_passed, average_speed, max_speed) VALUES ($1,$2,$3,$4,$5,$6,$7) ON CONFLICT (location_id, observation_time) DO NOTHING"
    );
}

#[test]
fn chunking_splits_into_ceiling_batches() {
    let rows: Vec<Location> = (0..2500).map(loc).collect();
    let batches = Location::batch_insert(&rows);
    assert_eq!(batches.len(), 3);
    assert_eq!(batches[0].row_count, 1000);
    assert_eq!(batches[1].row_count, 1000);
    assert_eq!(batches[2].row_count, 500);
    for (k, b) in batches.iter().enumerate() {
        assert_eq!(b.index, k);
        assert_eq!(b.table, Table::Locations);
        assert_eq!(b.params.len(), b.row_count * 3);
        assert_eq!(b.statement, insert_statement(Table::Locations, b.row_count));
    }
    // the first row of the second chunk is bound at $1..$3 of that chunk
    assert!(batches[1].statement.contains("VALUES ($1,$2,$3),($4,$5,$6)"));
    assert!(batches[1].statement.ends_with(",($2998,$2999,$3000) ON CONFLICT (location_id) DO NOTHING"));
    assert_eq!(batches[1].params[0], SqlValue::Int(1000));
    assert_eq!(batches[1].params[3], SqlValue::Int(1001));
    assert_eq!(batches[2].params[3 * 499], SqlValue::Int(2499));
    assert_eq!(batches[2].params[3 * 499 + 1], SqlValue::Coord(Coordinate { nanodegrees: 51_000_002_499 }));
}

#[test]
fn chunking_exact_multiple_and_empty() {
    let rows: Vec<Location> = (0..2000).map(loc).collect();
    assert_eq!(Location::batch_insert(&rows).len(), 2);
    let rows: Vec<Location> = (0..1).map(loc).collect();
    assert_eq!(Location::batch_insert(&rows).len(), 1);
    assert_eq!(Location::batch_insert(&Vec::new()).len(), 0);
    let rows: Vec<Location> = (0..(BATCH_SIZE as i32 + 1)).map(loc).collect();
    let b = Location::batch_insert(&rows);
    assert_eq!(b.len(), 2);
    assert_eq!(b[1].row_count, 1);
}

#[test]
fn measurement_rows_in_column_order() {
    let t = Timestamp { seconds: 100, nanos: 0 };
    let m = TrafficMeasurement {
        location_id: 3,
        observation_time: t,
        occupancy_rate: 4,
        availability_rate: 5,
        total_vehicles_passed: 6,
        average_speed: None,
        max_speed: Some(90),
    };
    let b = TrafficMeasurement::batch_insert(&vec![m]);
    assert_eq!(b.len(), 1);
    assert_eq!(
        b[0].params,
        vec![
            SqlValue::Int(3),
            SqlValue::Time(t),
            SqlValue::Int(4),
            SqlValue::Int(5),
            SqlValue::Int(6),
            SqlValue::OptInt(None),
            SqlValue::OptInt(Some(90)),
        ]
    );
    let v = TrafficVehicleMeasurement {
        location_id: 3,
        observation_time: t,
        vehicle_class: VehicleClass::Vans,
        traffic_intensity: 7,
        vehicle_speed_arithmetic: 8,
        vehicle_speed_harmonic: 9,
    };
    let b = TrafficVehicleMeasurement::batch_insert(&vec![v, v]);
    assert_eq!(b[0].row_count, 2);
    assert_eq!(b[0].params.len(), 12);
    assert_eq!(b[0].params[8], SqlValue::Class(VehicleClass::Vans));
    assert!(b[0].statement.ends_with("($7,$8,$9,$10,$11,$12) ON CONFLICT (location_id, observation_time, vehicle_class) DO NOTHING"));
}

#[test]
fn plan_rejects_wrong_arity() {
    let rows = vec![
        vec![SqlValue::Int(1), SqlValue::Int(2), SqlValue::Int(3)],
        vec![SqlValue::Int(1), SqlValue::Int(2)],
        vec![SqlValue::Int(1)],
    ];
    match plan_batches(Table::Locations, &rows) {
        Err(BatchError::Arity { row, expected, found }) => {
            assert_eq!(row, 1);
            assert_eq!(expected, 3);
            assert_eq!(found, 2);
        }
        Ok(_) => panic!("arity mismatch accepted"),
    }
    assert_eq!(Table::TrafficMeasurements.column_count(), 7);
    assert_eq!(Table::TrafficVehicleMeasurements.column_count(), 6);
}

#[test]
fn single_row_inserts() {
    let b = Location::insert(&loc(7));
    assert_eq!(b.row_count, 1);
    assert_eq!(b.index, 0);
    assert_eq!(b.statement, insert_statement(Table::Locations, 1));
    assert_eq!(b.params, vec![SqlValue::Int(7), SqlValue::Coord(Coordinate { nanodegrees: 51_000_000_007 }), SqlValue::Coord(Coordinate { nanodegrees: 4_000_000_000 })]);
    let t = Timestamp { seconds: 5, nanos: 1 };
    let m = TrafficMeasurement {
        location_id: 1,
        observation_time: t,
        occupancy_rate: 0,
        availability_rate: 0,
        total_vehicles_passed: 0,
        average_speed: None,
        max_speed: None,
    };
    let b = TrafficMeasurement::insert(&m);
    assert_eq!(b.params.len(), 7);
    assert!(b.statement.ends_with("VALUES ($1,$2,$3,$4,$5,$6,$7) ON CONFLICT (location_id, observation_time) DO NOTHING"));
    let v = TrafficVehicleMeasurement {
        location_id: 1,
        observation_time: t,
        vehicle_class: VehicleClass::Unknown,
        traffic_intensity: 0,
        vehicle_speed_arithmetic: 0,
        vehicle_speed_harmonic: 0,
    };
    assert_eq!(TrafficVehicleMeasurement::insert(&v).params.len(), 6);
}
