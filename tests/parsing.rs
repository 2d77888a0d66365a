use traffic_feed::feed::{parse_dutch_coordinate, parse_feed_timestamp, parse_vehicle_class, ParseError, VehicleClass};
use traffic_feed::geo::Coordinate;
use traffic_feed::time::Timestamp;

#[test]
fn vehicle_class_codes() {
    assert_eq!(VehicleClass::from_code(1), VehicleClass::MotorBikes);
    assert_eq!(VehicleClass::from_code(2), VehicleClass::Cars);
    assert_eq!(VehicleClass::from_code(3), VehicleClass::Vans);
    assert_eq!(VehicleClass::from_code(4), VehicleClass::RigidTrucks);
    assert_eq!(VehicleClass::from_code(5), VehicleClass::ArticulatedTrucks);
    assert_eq!(VehicleClass::from_code(0), VehicleClass::Unknown);
    assert_eq!(VehicleClass::from_code(6), VehicleClass::Unknown);
    assert_eq!(VehicleClass::from_code(-1), VehicleClass::Unknown);
    assert_eq!(VehicleClass::from(4), VehicleClass::RigidTrucks);
}

#[test]
fn vehicle_class_attribute_text() {
    assert_eq!(parse_vehicle_class("3"), VehicleClass::Vans);
    assert_eq!(parse_vehicle_class("+2"), VehicleClass::Cars);
    assert_eq!(parse_vehicle_class("17"), VehicleClass::Unknown);
    assert_eq!(parse_vehicle_class("-5"), VehicleClass::Unknown);
    assert_eq!(parse_vehicle_class("x"), VehicleClass::Unknown);
    assert_eq!(parse_vehicle_class(""), VehicleClass::Unknown);
    assert_eq!(parse_vehicle_class(" 3"), VehicleClass::Unknown);
    assert_eq!(parse_vehicle_class("99999999999"), VehicleClass::Unknown);
}

#[test]
fn dutch_coordinates() {
    assert_eq!(parse_dutch_coordinate("51,0234"), Ok(Coordinate { nanodegrees: 51_023_400_000 }));
    assert_eq!(parse_dutch_coordinate("-3,5"), Ok(Coordinate { nanodegrees: -3_500_000_000 }));
    assert_eq!(parse_dutch_coordinate("4"), Ok(Coordinate { nanodegrees: 4_000_000_000 }));
    assert_eq!(parse_dutch_coordinate(",5"), Ok(Coordinate { nanodegrees: 500_000_000 }));
    assert_eq!(parse_dutch_coordinate("5,"), Ok(Coordinate { nanodegrees: 5_000_000_000 }));
    assert_eq!(
        parse_dutch_coordinate("3,12345678987"),
        Ok(Coordinate { nanodegrees: 3_123_456_789 })
    );
    assert_eq!(parse_dutch_coordinate("51.0234"), Ok(Coordinate { nanodegrees: 51_023_400_000 }));
}

#[test]
fn dutch_coordinates_rejected() {
    assert_eq!(parse_dutch_coordinate("abc"), Err(ParseError::Coordinate));
    assert_eq!(parse_dutch_coordinate(""), Err(ParseError::Coordinate));
    assert_eq!(parse_dutch_coordinate(","), Err(ParseError::Coordinate));
    assert_eq!(parse_dutch_coordinate("-"), Err(ParseError::Coordinate));
    assert_eq!(parse_dutch_coordinate("1,2,3"), Err(ParseError::Coordinate));
    assert_eq!(parse_dutch_coordinate("51,0x"), Err(ParseError::Coordinate));
    assert_eq!(parse_dutch_coordinate("1000000000"), Err(ParseError::Coordinate));
}

#[test]
fn decimal_degrees_with_point() {
    assert_eq!(Coordinate::parse_decimal("50.85"), Some(Coordinate { nanodegrees: 50_850_000_000 }));
    assert_eq!(Coordinate::parse_decimal("+0.000000001"), Some(Coordinate { nanodegrees: 1 }));
    assert_eq!(Coordinate::parse_decimal("50,85"), None);
    assert_eq!(
        Coordinate::parse_decimal("999999999.999999999"),
        Some(Coordinate { nanodegrees: 999_999_999_999_999_999 })
    );
}

#[test]
fn feed_timestamps_normalised_to_utc() {
    assert_eq!(
        parse_feed_timestamp("2024-03-01T10:15:00+01:00"),
        Ok(Timestamp { seconds: 1709284500, nanos: 0 })
    );
    assert_eq!(
        parse_feed_timestamp("2024-03-01T09:15:00Z"),
        Ok(Timestamp { seconds: 1709284500, nanos: 0 })
    );
    assert_eq!(
        parse_feed_timestamp("2024-03-01T09:16:00.5+00:00"),
        Ok(Timestamp { seconds: 1709284560, nanos: 500_000_000 })
    );
    assert_eq!(parse_feed_timestamp("yesterday"), Err(ParseError::Timestamp));
}

#[test]
fn timestamp_order() {
    let a = Timestamp { seconds: 10, nanos: 5 };
    let b = Timestamp { seconds: 10, nanos: 6 };
    let c = Timestamp { seconds: 9, nanos: 999 };
    assert!(b.is_not_before(&a));
    assert!(!a.is_not_before(&b));
    assert!(a.is_not_before(&c));
    assert!(a.is_not_before(&a));
}
