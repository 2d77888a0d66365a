use vstd::prelude::*;
use std::collections::HashSet;
use crate::aggregate::aggregate_of;
use crate::feed::{MeasuringPoint, MeasuringPointLocation, TrafficData, TrafficDataLocations};
use crate::models::{Location, TrafficMeasurement, TrafficVehicleMeasurement};
use crate::store::{
    has_location_id, upserted_locations, upserted_measurements, unique_location_ids, MemoryStore,
};

verus! {

broadcast use vstd::std_specs::hash::group_hash_axioms;

pub open spec fn location_of_point(p: MeasuringPointLocation) -> Location {
    Location { location_id: p.unique_id, latitude: p.latitude, longitude: p.longitude }
}

/// The location rows of a location document: one per id, the first one seen, in
/// document order.
pub open spec fn directory_rows(points: Seq<MeasuringPointLocation>) -> Seq<Location> {
    upserted_locations(Seq::empty(), points.map_values(|p: MeasuringPointLocation| location_of_point(p)))
}

/// Lookup from location id to its coordinates, rebuilt from each location document.
#[derive(Debug)]
pub struct LocationDirectory {
    pub rows: Vec<Location>,
    pub ids: HashSet<i32>,
}

impl LocationDirectory {
    pub open spec fn wf(&self) -> bool {
        &&& unique_location_ids(self.rows@)
        &&& forall|id: i32| #[trigger] self.ids@.contains(id) <==> has_location_id(self.rows@, id)
    }

    /// Builds the directory in one pass; a repeated id keeps its first coordinates.
    pub fn build(points: &Vec<MeasuringPointLocation>) -> (r: LocationDirectory)
        ensures
            r.wf(),
            r.rows@ == directory_rows(points@),
    {
        let ghost locs = points@.map_values(|p: MeasuringPointLocation| location_of_point(p));
        let mut rows: Vec<Location> = Vec::new();
        let mut ids: HashSet<i32> = HashSet::new();
        let n = points.len();
        let mut i: usize = 0;
        while i < n
            invariant
                n == points@.len(),
                locs == points@.map_values(|p: MeasuringPointLocation| location_of_point(p)),
                i <= n,
                unique_location_ids(rows@),
                forall|id: i32| #[trigger] ids@.contains(id) <==> has_location_id(rows@, id),
                rows@ == upserted_locations(Seq::empty(), locs.take(i as int)),
            decreases n - i,
        {
            let p = points[i];
            let l = Location { location_id: p.unique_id, latitude: p.latitude, longitude: p.longitude };
            proof {
                assert(locs.take(i + 1).drop_last() =~= locs.take(i as int));
                assert(locs.take(i + 1).last() == l);
            }
            if !ids.contains(&l.location_id) {
                let ghost prev = rows@;
                rows.push(l);
                ids.insert(l.location_id);
                proof {
                    assert forall|id: i32| #[trigger] ids@.contains(id) <==> has_location_id(rows@, id) by {
                        if has_location_id(rows@, id) {
                            let k = choose|k: int| 0 <= k < rows@.len() && (#[trigger] rows@[k]).location_id == id;
                            if k < prev.len() {
                                assert(prev[k] == rows@[k]);
                            }
                        }
                        if has_location_id(prev, id) {
                            let k = choose|k: int| 0 <= k < prev.len() && (#[trigger] prev[k]).location_id == id;
                            assert(rows@[k] == prev[k]);
                        }
                        if id == l.location_id {
                            assert(rows@[prev.len() as int] == l);
                        }
                    }
                }
            }
            i = i + 1;
        }
        assert(locs.take(n as int) =~= locs);
        LocationDirectory { rows, ids }
    }

    /// Whether a location with this id is in the directory.
    pub fn contains(&self, id: i32) -> (r: bool)
        requires
            self.wf(),
        ensures
            r == has_location_id(self.rows@, id),
    {
        self.ids.contains(&id)
    }
}

/// The aggregates that one run writes: one per measuring point whose id has a
/// location, in feed order; points without a location are skipped. `None` where an
/// aggregate of a kept point cannot be formed.
pub open spec fn planned_measurements(points: Seq<MeasuringPoint>, ls: Seq<Location>) -> Option<
    Seq<TrafficMeasurement>,
>
    decreases points.len(),
{
    if points.len() == 0 {
        Some(Seq::empty())
    } else {
        match planned_measurements(points.drop_last(), ls) {
            None => None,
            Some(prev) => if has_location_id(ls, points.last().unique_id) {
                match aggregate_of(points.last()) {
                    Some(m) => Some(prev.push(m)),
                    None => None,
                }
            } else {
                Some(prev)
            },
        }
    }
}

/// Why a run could not be planned.
#[derive(Debug, Clone, Copy, PartialEq, Eq, Structural)]
pub enum IngestError {
    /// The intensities of the point with this id add up past the `i32` range.
    TotalOutOfRange { location_id: i32 },
}

/// What one ingestion run writes, in the order it writes it.
#[derive(Debug)]
pub struct IngestionPlan {
    pub locations: Vec<Location>,
    pub measurements: Vec<TrafficMeasurement>,
}

/// Turns the two parsed documents into the rows of one run.
pub fn plan_ingestion(traffic: &TrafficData, locations: &TrafficDataLocations) -> (r: Result<
    IngestionPlan,
    IngestError,
>)
    ensures
        r is Ok <==> planned_measurements(traffic.measuring_points@, directory_rows(locations.locations@)) is Some,
        r matches Ok(plan) ==> {
            &&& plan.locations@ == directory_rows(locations.locations@)
            &&& Some(plan.measurements@) == planned_measurements(
                traffic.measuring_points@,
                directory_rows(locations.locations@),
            )
        },
{
    let directory = LocationDirectory::build(&locations.locations);
    let points = &traffic.measuring_points;
    let ghost ls = directory.rows@;
    let mut measurements: Vec<TrafficMeasurement> = Vec::new();
    let n = points.len();
    let mut i: usize = 0;
    while i < n
        invariant
            n == points@.len(),
            points@ == traffic.measuring_points@,
            directory.wf(),
            ls == directory.rows@,
            ls == directory_rows(locations.locations@),
            i <= n,
            planned_measurements(points@.take(i as int), ls) == Some(measurements@),
        decreases n - i,
    {
        let p = &points[i];
        proof {
            assert(points@.take(i + 1).drop_last() =~= points@.take(i as int));
            assert(points@.take(i + 1).last() == *p);
        }
        if directory.contains(p.unique_id) {
            match TrafficMeasurement::aggregate(p) {
                Some(m) => measurements.push(m),
                None => {
                    proof {
                        lemma_planned_none_extends(points@, ls, (i + 1) as int);
                        assert(points@.take(n as int) =~= points@);
                    }
                    return Err(IngestError::TotalOutOfRange { location_id: p.unique_id });
                },
            }
        }
        i = i + 1;
    }
    assert(points@.take(n as int) =~= points@);
    Ok(IngestionPlan { locations: directory.rows, measurements })
}

proof fn lemma_planned_none_extends(points: Seq<MeasuringPoint>, ls: Seq<Location>, k: int)
    requires
        0 <= k <= points.len(),
        planned_measurements(points.take(k), ls) is None,
    ensures
        planned_measurements(points, ls) is None,
    decreases points.len() - k,
{
    if k < points.len() {
        assert(points.take(k + 1).drop_last() =~= points.take(k));
        lemma_planned_none_extends(points, ls, k + 1);
    } else {
        assert(points.take(k) =~= points);
    }
}

/// Every aggregate a run plans belongs to a location of the same run.
pub proof fn law_planned_measurements_have_locations(points: Seq<MeasuringPoint>, ls: Seq<Location>)
    requires
        planned_measurements(points, ls) is Some,
    ensures
        forall|j: int|
            0 <= j < planned_measurements(points, ls)->0.len() ==> has_location_id(
                ls,
                (#[trigger] planned_measurements(points, ls)->0[j]).location_id,
            ),
    decreases points.len(),
{
    if points.len() > 0 {
        law_planned_measurements_have_locations(points.drop_last(), ls);
    }
}

/// A run over a location document holding one location and a measurement document of
/// two points, one at that location's id and one at an id the document lacks, writes
/// into an empty store that location and exactly the aggregate of the first point;
/// the point without a location leaves no row.
pub proof fn law_run_skips_point_without_location(
    loc: MeasuringPointLocation,
    matched: MeasuringPoint,
    unmatched: MeasuringPoint,
)
    requires
        matched.unique_id == loc.unique_id,
        unmatched.unique_id != loc.unique_id,
        aggregate_of(matched) is Some,
    ensures
        ({
            let ls = directory_rows(seq![loc]);
            let points = seq![matched, unmatched];
            &&& upserted_locations(Seq::empty(), ls) == seq![location_of_point(loc)]
            &&& planned_measurements(points, ls) == Some(seq![aggregate_of(matched)->0])
            &&& upserted_measurements(Seq::empty(), planned_measurements(points, ls)->0)
                == seq![aggregate_of(matched)->0]
        }),
{
    let l = location_of_point(loc);
    let locs = seq![loc].map_values(|p: MeasuringPointLocation| location_of_point(p));
    assert(locs =~= seq![l]);
    assert(locs.drop_last() =~= Seq::<Location>::empty());
    assert(upserted_locations(Seq::empty(), Seq::<Location>::empty()) == Seq::<Location>::empty());
    assert(!has_location_id(Seq::<Location>::empty(), l.location_id));
    assert(Seq::<Location>::empty().push(l) =~= seq![l]);
    let ls = directory_rows(seq![loc]);
    assert(ls == seq![l]);
    assert(upserted_locations(Seq::empty(), ls) == seq![l]) by {
        assert(ls.drop_last() =~= Seq::<Location>::empty());
    }
    assert(ls[0].location_id == matched.unique_id);
    assert(has_location_id(ls, matched.unique_id));
    assert(!has_location_id(ls, unmatched.unique_id));
    let points = seq![matched, unmatched];
    let m = aggregate_of(matched)->0;
    assert(points.drop_last() =~= seq![matched]);
    assert(seq![matched].drop_last() =~= Seq::<MeasuringPoint>::empty());
    assert(planned_measurements(Seq::<MeasuringPoint>::empty(), ls) == Some(Seq::<TrafficMeasurement>::empty()));
    assert(Seq::<TrafficMeasurement>::empty().push(m) =~= seq![m]);
    assert(planned_measurements(seq![matched], ls) == Some(seq![m]));
    assert(planned_measurements(points, ls) == Some(seq![m]));
    assert(seq![m].drop_last() =~= Seq::<TrafficMeasurement>::empty());
    assert(upserted_measurements(Seq::empty(), Seq::<TrafficMeasurement>::empty()) == Seq::<TrafficMeasurement>::empty());
    assert(!crate::store::has_measurement_key(Seq::<TrafficMeasurement>::empty(), m));
}

impl MemoryStore {
    /// Writes a run: its locations first, then its aggregates, each insert-if-absent.
    pub fn ingest(&mut self, plan: &IngestionPlan)
        requires
            old(self).wf(),
        ensures
            final(self).wf(),
            final(self).locations@ == upserted_locations(old(self).locations@, plan.locations@),
            final(self).measurements@ == upserted_measurements(
                old(self).measurements@,
                plan.measurements@,
            ),
    {
        self.upsert_locations(&plan.locations);
        self.upsert_measurements(&plan.measurements);
    }

    /// Plans a run from the two parsed documents and writes it; nothing is written
    /// when the run cannot be planned.
    pub fn ingest_feeds(&mut self, traffic: &TrafficData, locations: &TrafficDataLocations) -> (r:
        Result<(), IngestError>)
        requires
            old(self).wf(),
        ensures
            final(self).wf(),
            r is Ok <==> planned_measurements(traffic.measuring_points@, directory_rows(locations.locations@)) is Some,
            r is Err ==> *final(self) == *old(self),
            r is Ok ==> final(self).locations@ == upserted_locations(
                old(self).locations@,
                directory_rows(locations.locations@),
            ),
            r is Ok ==> final(self).measurements@ == upserted_measurements(
                old(self).measurements@,
                planned_measurements(
                    traffic.measuring_points@,
                    directory_rows(locations.locations@),
                )->0,
            ),
    {
        match plan_ingestion(traffic, locations) {
            Ok(plan) => {
                self.ingest(&plan);
                Ok(())
            },
            Err(e) => Err(e),
        }
    }
}

pub open spec fn vehicle_rows_of(p: MeasuringPoint) -> Seq<TrafficVehicleMeasurement> {
    p.measurement_data@.map_values(
        |d: crate::feed::MeasurementData|
            TrafficVehicleMeasurement {
                location_id: p.unique_id,
                observation_time: p.observation_time,
                vehicle_class: d.vehicle_class,
                traffic_intensity: d.traffic_intensity,
                vehicle_speed_arithmetic: d.vehicle_speed_arithmetic,
                vehicle_speed_harmonic: d.vehicle_speed_harmonic,
            },
    )
}

/// The per-class rows of all points, point after point.
pub open spec fn vehicle_rows(points: Seq<MeasuringPoint>) -> Seq<TrafficVehicleMeasurement>
    decreases points.len(),
{
    if points.len() == 0 {
        Seq::empty()
    } else {
        vehicle_rows(points.drop_last()) + vehicle_rows_of(points.last())
    }
}

/// The rows of the optional per-class sink: one per reading, tagged with its point's
/// id and observation time.
pub fn vehicle_measurements(traffic: &TrafficData) -> (r: Vec<TrafficVehicleMeasurement>)
    ensures
        r@ == vehicle_rows(traffic.measuring_points@),
{
    let points = &traffic.measuring_points;
    let n = points.len();
    let mut out: Vec<TrafficVehicleMeasurement> = Vec::new();
    let mut i: usize = 0;
    while i < n
        invariant
            n == points@.len(),
            points@ == traffic.measuring_points@,
            i <= n,
            out@ == vehicle_rows(points@.take(i as int)),
        decreases n - i,
    {
        let p = &points[i];
        let ghost before = out@;
        let m = p.measurement_data.len();
        let mut j: usize = 0;
        while j < m
            invariant
                m == p.measurement_data@.len(),
                j <= m,
                out@ == before + vehicle_rows_of(*p).take(j as int),
            decreases m - j,
        {
            let d = p.measurement_data[j];
            out.push(
                TrafficVehicleMeasurement {
                    location_id: p.unique_id,
                    observation_time: p.observation_time,
                    vehicle_class: d.vehicle_class,
                    traffic_intensity: d.traffic_intensity,
                    vehicle_speed_arithmetic: d.vehicle_speed_arithmetic,
                    vehicle_speed_harmonic: d.vehicle_speed_harmonic,
                },
            );
            assert(vehicle_rows_of(*p).take(j + 1) =~= vehicle_rows_of(*p).take(j as int).push(
                vehicle_rows_of(*p)[j as int],
            ));
            j = j + 1;
        }
        proof {
            assert(vehicle_rows_of(*p).take(m as int) =~= vehicle_rows_of(*p));
            assert(points@.take(i + 1).drop_last() =~= points@.take(i as int));
            assert(points@.take(i + 1).last() == *p);
        }
        i = i + 1;
    }
    assert(points@.take(n as int) =~= points@);
    out
}

} // verus!
