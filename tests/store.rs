use traffic_feed::geo::Coordinate;
use traffic_feed::models::{Location, MeasurementDTO, TrafficMeasurement};
use traffic_feed::query::{
    location_query, FindAllQueryParams, FindByLocationIdPathParams, FindMeasurementsByLocationIdParams,
    FindMeasurementsParams,
};
use traffic_feed::store::{MeasurementQuery, MemoryStore};
use traffic_feed::time::Timestamp;

fn c(deg_nano: i64) -> Coordinate {
    Coordinate { nanodegrees: deg_nano }
}

fn loc(id: i32, lat: i64, lon: i64) -> Location {
    Location { location_id: id, latitude: c(lat), longitude: c(lon) }
}

fn meas(id: i32, secs: i64, total: i32) -> TrafficMeasurement {
    TrafficMeasurement {
        location_id: id,
        observation_time: Timestamp { seconds: secs, nanos: 0 },
        occupancy_rate: 1,
        availability_rate: 100,
        total_vehicles_passed: total,
        average_speed: Some(50),
        max_speed: Some(60),
    }
}

const DEG: i64 = 1_000_000_000;

fn sample_store() -> MemoryStore {
    let mut s = MemoryStore::new();
    s.upsert_locations(&vec![loc(1, 51 * DEG, 4 * DEG), loc(2, 50 * DEG, 3 * DEG), loc(3, 10 * DEG, 10 * DEG)]);
    s.upsert_measurements(&vec![
        meas(1, 100, 1),
        meas(2, 300, 2),
        meas(3, 200, 3),
        meas(1, 400, 4),
        meas(9, 500, 5),
    ]);
    s
}

fn totals(rows: &[MeasurementDTO]) -> Vec<i32> {
    rows.iter().map(|r| r.total_vehicles_passed).collect()
}

#[test]
fn measurement_upsert_keeps_first_values() {
    let mut s = MemoryStore::new();
    s.upsert_measurements(&vec![meas(1, 100, 10)]);
    s.upsert_measurements(&vec![meas(1, 100, 99)]);
    assert_eq!(s.measurements.len(), 1);
    assert_eq!(s.measurements[0].total_vehicles_passed, 10);
    s.upsert_measurements(&vec![meas(1, 101, 7), meas(1, 101, 8)]);
    assert_eq!(s.measurements.len(), 2);
    assert_eq!(s.measurements[1].total_vehicles_passed, 7);
}

#[test]
fn location_upsert_keeps_first_coordinates() {
    let mut s = MemoryStore::new();
    s.upsert_locations(&vec![loc(1, 51 * DEG, 4 * DEG)]);
    s.upsert_locations(&vec![loc(1, 0, 0)]);
    assert_eq!(s.locations, vec![loc(1, 51 * DEG, 4 * DEG)]);
}

#[test]
fn recent_without_point_ignores_radius() {
    let s = sample_store();
    let params = FindAllQueryParams::parse(None, Some("4.0"), Some("0.0001"), Some("3")).resolve();
    assert_eq!(params.query(), MeasurementQuery::Recent { limit: 3 });
    let rows = TrafficMeasurement::get_recent(&s, &params);
    // newest first, the row without a location (id 9) is not joined
    assert_eq!(totals(&rows), vec![4, 2, 3]);
    assert_eq!(rows[0].latitude, c(51 * DEG));
    let all = TrafficMeasurement::get_recent(&s, &FindAllQueryParams::parse(None, None, None, None).resolve());
    assert_eq!(totals(&all), vec![4, 2, 3, 1]);
}

#[test]
fn near_filters_by_radius() {
    let s = sample_store();
    let params = FindAllQueryParams::parse(Some("51.0"), Some("4.0"), Some("1.5"), None).resolve();
    let rows = TrafficMeasurement::get_recent(&s, &params);
    // location 2 lies sqrt(2) degrees away, location 3 far outside
    assert_eq!(totals(&rows), vec![4, 2, 1]);
    let params = FindAllQueryParams::parse(Some("51.0"), Some("4.0"), Some("1.4"), None).resolve();
    assert_eq!(totals(&TrafficMeasurement::get_recent(&s, &params)), vec![4, 1]);
    // the default radius of 1000 degrees admits everything
    let params = FindAllQueryParams::parse(Some("51.0"), Some("4.0"), None, None).resolve();
    assert_eq!(params.radius, c(1000 * DEG));
    assert_eq!(totals(&TrafficMeasurement::get_recent(&s, &params)), vec![4, 2, 3, 1]);
    // a negative radius admits nothing
    let params = FindMeasurementsParams { lat: Some(c(51 * DEG)), lon: Some(c(4 * DEG)), radius: c(-1), limit: 20 };
    assert!(TrafficMeasurement::get_recent(&s, &params).is_empty());
}

#[test]
fn limits_and_defaults() {
    let q = FindAllQueryParams::parse(Some("x"), None, Some("far"), Some("ten"));
    assert_eq!(q, FindAllQueryParams { lat: None, lon: None, radius: None, limit: None });
    let p = q.resolve();
    assert_eq!(p.limit, 20);
    assert_eq!(FindAllQueryParams::parse(None, None, None, Some("-4")).resolve().limit, 20);
    assert_eq!(FindAllQueryParams::parse(None, None, None, Some("0")).resolve().limit, 0);
    let s = sample_store();
    let params = FindAllQueryParams::parse(None, None, None, Some("0")).resolve();
    assert!(TrafficMeasurement::get_recent(&s, &params).is_empty());
    assert_eq!(FindMeasurementsByLocationIdParams::from_limit(None).limit, 20);
    assert_eq!(FindMeasurementsByLocationIdParams::from_limit(Some(5)).limit, 5);
    assert!(s.run(&MeasurementQuery::Recent { limit: -1 }).is_empty());
}

#[test]
fn by_location_reads_one_location() {
    let s = sample_store();
    let params = FindMeasurementsByLocationIdParams::from_limit(None);
    let rows = TrafficMeasurement::get_by_location_id(&s, "1", &params);
    assert_eq!(totals(&rows), vec![4, 1]);
    assert!(TrafficMeasurement::get_by_location_id(&s, "9", &params).is_empty());
    let path = FindByLocationIdPathParams { location_id: String::from("2") };
    assert_eq!(path.resolved_id(), 2);
}

#[test]
fn non_numeric_location_id_reads_as_zero() {
    let mut s = sample_store();
    s.upsert_locations(&vec![loc(0, 0, 0)]);
    s.upsert_measurements(&vec![meas(0, 50, 77)]);
    let params = FindMeasurementsByLocationIdParams::from_limit(Some(10));
    let odd = TrafficMeasurement::get_by_location_id(&s, "abc", &params);
    let zero = TrafficMeasurement::get_by_location_id(&s, "0", &params);
    assert_eq!(odd, zero);
    assert_eq!(totals(&odd), vec![77]);
    assert_eq!(location_query("abc", 10), MeasurementQuery::AtLocation { location_id: 0, limit: 10 });
    let path = FindByLocationIdPathParams { location_id: String::from("12a") };
    assert_eq!(path.resolved_id(), 0);
}

#[test]
fn equal_times_keep_store_order() {
    let mut s = MemoryStore::new();
    s.upsert_locations(&vec![loc(1, 0, 0), loc(2, 0, 0)]);
    s.upsert_measurements(&vec![meas(1, 100, 1), meas(2, 100, 2), meas(1, 200, 3)]);
    let rows = s.run(&MeasurementQuery::Recent { limit: 20 });
    assert_eq!(totals(&rows), vec![3, 1, 2]);
}
