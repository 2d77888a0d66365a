use vstd::prelude::*;
use crate::geo::{decimal_nanodegrees, Coordinate, NANODEGREES_PER_DEGREE};
use crate::models::{Location, MeasurementDTO, TrafficMeasurement};
use crate::numeric::{digits_value, parse_i32, parse_i64, spec_parse_i32, spec_parse_i64};
use crate::store::{
    candidates, is_newest_first, law_newest_first_orders, newest_first, query_result, take_limit,
    MeasurementQuery, MemoryStore,
};

verus! {

/// Rows returned when the caller names no limit.
pub const DEFAULT_LIMIT: i64 = 20;

/// Search radius, in whole degrees, when the caller names none.
pub const DEFAULT_RADIUS_DEGREES: i64 = 1000;

/// The default radius in nanodegrees.
pub const DEFAULT_RADIUS_NANODEGREES: i64 = DEFAULT_RADIUS_DEGREES * NANODEGREES_PER_DEGREE;

/// The query string of "measurements near a point", as decoded values; a parameter
/// that is missing or malformed is `None`.
#[derive(Debug, Clone, Copy, PartialEq, Eq, Structural)]
pub struct FindAllQueryParams {
    pub lat: Option<Coordinate>,
    pub lon: Option<Coordinate>,
    pub radius: Option<Coordinate>,
    pub limit: Option<i64>,
}

/// The resolved parameters of "measurements near a point".
#[derive(Debug, Clone, Copy, PartialEq, Eq, Structural)]
pub struct FindMeasurementsParams {
    pub lat: Option<Coordinate>,
    pub lon: Option<Coordinate>,
    pub radius: Coordinate,
    pub limit: i64,
}

/// The path of "measurements at a location".
#[derive(Debug)]
pub struct FindByLocationIdPathParams {
    pub location_id: String,
}

/// The resolved parameters of "measurements at a location".
#[derive(Debug, Clone, Copy, PartialEq, Eq, Structural)]
pub struct FindMeasurementsByLocationIdParams {
    pub limit: i64,
}

pub open spec fn coordinate_param(text: Option<Seq<char>>) -> Option<Coordinate> {
    match text {
        Some(t) => match decimal_nanodegrees(t) {
            Some(v) => Some(Coordinate { nanodegrees: v as i64 }),
            None => None,
        },
        None => None,
    }
}

pub open spec fn limit_param(text: Option<Seq<char>>) -> Option<i64> {
    match text {
        Some(t) => spec_parse_i64(t),
        None => None,
    }
}

pub open spec fn opt_view(s: Option<&str>) -> Option<Seq<char>> {
    match s {
        Some(t) => Some(t@),
        None => None,
    }
}

fn coordinate_from(text: Option<&str>) -> (r: Option<Coordinate>)
    ensures
        r == coordinate_param(opt_view(text)),
{
    match text {
        Some(t) => Coordinate::parse_decimal(t),
        None => None,
    }
}

/// A limit is used when it is present and not negative; otherwise the default applies.
pub open spec fn resolved_limit(limit: Option<i64>) -> i64 {
    match limit {
        Some(l) => if l >= 0 {
            l
        } else {
            DEFAULT_LIMIT
        },
        None => DEFAULT_LIMIT,
    }
}

pub fn resolve_limit(limit: Option<i64>) -> (r: i64)
    ensures
        r == resolved_limit(limit),
{
    match limit {
        Some(l) => if l >= 0 {
            l
        } else {
            DEFAULT_LIMIT
        },
        None => DEFAULT_LIMIT,
    }
}

/// The id a path segment names: its integer value, or 0 where it is not an integer.
pub open spec fn location_id_of(text: Seq<char>) -> i32 {
    match spec_parse_i32(text) {
        Some(id) => id,
        None => 0,
    }
}

pub open spec fn by_location_query(text: Seq<char>, limit: i64) -> MeasurementQuery {
    MeasurementQuery::AtLocation { location_id: location_id_of(text), limit }
}

impl FindAllQueryParams {
    /// Decodes the raw query-string values; malformed numbers count as absent.
    pub fn parse(lat: Option<&str>, lon: Option<&str>, radius: Option<&str>, limit: Option<&str>) -> (r:
        FindAllQueryParams)
        ensures
            r.lat == coordinate_param(opt_view(lat)),
            r.lon == coordinate_param(opt_view(lon)),
            r.radius == coordinate_param(opt_view(radius)),
            r.limit == limit_param(opt_view(limit)),
    {
        let limit = match limit {
            Some(t) => parse_i64(t),
            None => None,
        };
        FindAllQueryParams {
            lat: coordinate_from(lat),
            lon: coordinate_from(lon),
            radius: coordinate_from(radius),
            limit,
        }
    }

    /// Fills in the defaults: a radius of 1000 degrees and a limit of 20.
    pub fn resolve(&self) -> (r: FindMeasurementsParams)
        ensures
            r.lat == self.lat,
            r.lon == self.lon,
            r.radius == (match self.radius {
                Some(c) => c,
                None => Coordinate { nanodegrees: DEFAULT_RADIUS_NANODEGREES },
            }),
            r.limit == resolved_limit(self.limit),
    {
        let radius = match self.radius {
            Some(c) => c,
            None => Coordinate { nanodegrees: DEFAULT_RADIUS_NANODEGREES },
        };
        FindMeasurementsParams {
            lat: self.lat,
            lon: self.lon,
            radius,
            limit: resolve_limit(self.limit),
        }
    }
}

impl FindMeasurementsParams {
    /// Near (`lat`, `lon`) when both are given; otherwise the most recent rows of all
    /// locations, whatever the radius.
    pub open spec fn query_spec(&self) -> MeasurementQuery {
        match (self.lat, self.lon) {
            (Some(lat), Some(lon)) => MeasurementQuery::Near {
                lat,
                lon,
                radius: self.radius,
                limit: self.limit,
            },
            _ => MeasurementQuery::Recent { limit: self.limit },
        }
    }

    pub fn query(&self) -> (r: MeasurementQuery)
        ensures
            r == self.query_spec(),
    {
        match (self.lat, self.lon) {
            (Some(lat), Some(lon)) => MeasurementQuery::Near {
                lat,
                lon,
                radius: self.radius,
                limit: self.limit,
            },
            _ => MeasurementQuery::Recent { limit: self.limit },
        }
    }
}

impl FindByLocationIdPathParams {
    /// The location id of the path; a non-numeric segment resolves to 0.
    pub fn resolved_id(&self) -> (r: i32)
        ensures
            r == location_id_of(self.location_id@),
    {
        match parse_i32(self.location_id.as_str()) {
            Some(id) => id,
            None => 0,
        }
    }
}

impl FindMeasurementsByLocationIdParams {
    /// The limit of the query string, with the default where it is missing or negative.
    pub fn from_limit(limit: Option<i64>) -> (r: FindMeasurementsByLocationIdParams)
        ensures
            r.limit == resolved_limit(limit),
    {
        FindMeasurementsByLocationIdParams { limit: resolve_limit(limit) }
    }
}

/// The read of "measurements at a location" for a raw path segment.
pub fn location_query(location_id: &str, limit: i64) -> (r: MeasurementQuery)
    ensures
        r == by_location_query(location_id@, limit),
{
    let id = match parse_i32(location_id) {
        Some(id) => id,
        None => 0,
    };
    MeasurementQuery::AtLocation { location_id: id, limit }
}

impl TrafficMeasurement {
    /// The most recent joined rows near the given point, or across all locations when
    /// the point is incomplete.
    pub fn get_recent(store: &MemoryStore, params: &FindMeasurementsParams) -> (r: Vec<
        MeasurementDTO,
    >)
        requires
            store.wf(),
        ensures
            r@ == query_result(store.measurements@, store.locations@, params.query_spec()),
    {
        store.run(&params.query())
    }

    /// The most recent joined rows of the location a path segment names.
    pub fn get_by_location_id(
        store: &MemoryStore,
        location_id: &str,
        params: &FindMeasurementsByLocationIdParams,
    ) -> (r: Vec<MeasurementDTO>)
        requires
            store.wf(),
        ensures
            r@ == query_result(
                store.measurements@,
                store.locations@,
                by_location_query(location_id@, params.limit),
            ),
    {
        store.run(&location_query(location_id, params.limit))
    }
}

/// A location id that is not an integer reads exactly what id "0" reads, on every store.
pub proof fn law_non_numeric_location_id(
    text: Seq<char>,
    limit: i64,
    ms: Seq<TrafficMeasurement>,
    ls: Seq<Location>,
)
    requires
        spec_parse_i32(text) is None,
    ensures
        by_location_query(text, limit) == by_location_query(seq!['0'], limit),
        query_result(ms, ls, by_location_query(text, limit)) == query_result(
            ms,
            ls,
            by_location_query(seq!['0'], limit),
        ),
{
    let zero = seq!['0'];
    assert(zero.drop_last() =~= Seq::<char>::empty());
    assert(digits_value(Seq::<char>::empty()) == 0);
    assert(zero.last() == '0');
    assert(digits_value(zero) == digits_value(zero.drop_last()) * 10 + 0);
    assert(digits_value(zero) == 0);
    assert(spec_parse_i32(zero) == Some(0i32));
}

/// Without both coordinates, "near" reads the most recent rows across all locations,
/// whatever the radius: the first `limit` of every joined row, ordered newest first.
pub proof fn law_find_near_without_point(
    ms: Seq<TrafficMeasurement>,
    ls: Seq<Location>,
    params: FindMeasurementsParams,
)
    requires
        params.lat is None || params.lon is None,
    ensures
        ({
            let all = candidates(ms, ls, MeasurementQuery::Recent { limit: params.limit });
            &&& query_result(ms, ls, params.query_spec()) == take_limit(newest_first(all), params.limit)
            &&& is_newest_first(newest_first(all))
            &&& newest_first(all).to_multiset() == all.to_multiset()
        }),
{
    law_newest_first_orders(candidates(ms, ls, MeasurementQuery::Recent { limit: params.limit }));
}

} // verus!
