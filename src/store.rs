use vstd::prelude::*;
use crate::geo::{is_within, within_radius, Coordinate};
use crate::models::{joined, Location, MeasurementDTO, TrafficMeasurement};
use crate::time::not_before;

verus! {

pub open spec fn has_location_id(ls: Seq<Location>, id: i32) -> bool {
    exists|i: int| 0 <= i < ls.len() && (#[trigger] ls[i]).location_id == id
}

/// Insert-if-absent of each incoming location in turn, keyed by `location_id`.
pub open spec fn upserted_locations(ls: Seq<Location>, incoming: Seq<Location>) -> Seq<Location>
    decreases incoming.len(),
{
    if incoming.len() == 0 {
        ls
    } else {
        let prev = upserted_locations(ls, incoming.drop_last());
        if has_location_id(prev, incoming.last().location_id) {
            prev
        } else {
            prev.push(incoming.last())
        }
    }
}

pub open spec fn same_key(a: TrafficMeasurement, b: TrafficMeasurement) -> bool {
    a.location_id == b.location_id && a.observation_time == b.observation_time
}

pub open spec fn has_measurement_key(ms: Seq<TrafficMeasurement>, m: TrafficMeasurement) -> bool {
    exists|i: int| 0 <= i < ms.len() && same_key(#[trigger] ms[i], m)
}

/// Insert-if-absent of each incoming aggregate in turn, keyed by
/// (`location_id`, `observation_time`).
pub open spec fn upserted_measurements(
    ms: Seq<TrafficMeasurement>,
    incoming: Seq<TrafficMeasurement>,
) -> Seq<TrafficMeasurement>
    decreases incoming.len(),
{
    if incoming.len() == 0 {
        ms
    } else {
        let prev = upserted_measurements(ms, incoming.drop_last());
        if has_measurement_key(prev, incoming.last()) {
            prev
        } else {
            prev.push(incoming.last())
        }
    }
}

pub open spec fn unique_location_ids(ls: Seq<Location>) -> bool {
    forall|i: int, j: int|
        0 <= i < j < ls.len() ==> (#[trigger] ls[i]).location_id != (#[trigger] ls[j]).location_id
}

pub open spec fn unique_measurement_keys(ms: Seq<TrafficMeasurement>) -> bool {
    forall|i: int, j: int| 0 <= i < j < ms.len() ==> !same_key(#[trigger] ms[i], #[trigger] ms[j])
}

/// The location stored under `id`, if any.
pub open spec fn location_for(ls: Seq<Location>, id: i32) -> Option<Location> {
    if has_location_id(ls, id) {
        Some(ls[choose|i: int| 0 <= i < ls.len() && (#[trigger] ls[i]).location_id == id])
    } else {
        None
    }
}

/// A read against the store; each returns at most `limit` rows, newest first.
#[derive(Debug, Clone, Copy, PartialEq, Eq, Structural)]
pub enum MeasurementQuery {
    /// Every joined row.
    Recent { limit: i64 },
    /// Rows whose location lies within `radius` degrees of (`lat`, `lon`).
    Near { lat: Coordinate, lon: Coordinate, radius: Coordinate, limit: i64 },
    /// Rows of one location.
    AtLocation { location_id: i32, limit: i64 },
}

pub open spec fn selects(q: MeasurementQuery, d: MeasurementDTO) -> bool {
    match q {
        MeasurementQuery::Recent { .. } => true,
        MeasurementQuery::Near { lat, lon, radius, .. } => within_radius(
            d.latitude,
            d.longitude,
            lat,
            lon,
            radius,
        ),
        MeasurementQuery::AtLocation { location_id, .. } => d.location_id == location_id,
    }
}

pub open spec fn limit_of(q: MeasurementQuery) -> i64 {
    match q {
        MeasurementQuery::Recent { limit } => limit,
        MeasurementQuery::Near { limit, .. } => limit,
        MeasurementQuery::AtLocation { limit, .. } => limit,
    }
}

/// The aggregates that have a location, joined to it and kept when the query
/// selects them, in store order.
pub open spec fn candidates(
    ms: Seq<TrafficMeasurement>,
    ls: Seq<Location>,
    q: MeasurementQuery,
) -> Seq<MeasurementDTO>
    decreases ms.len(),
{
    if ms.len() == 0 {
        Seq::empty()
    } else {
        let prev = candidates(ms.drop_last(), ls, q);
        match location_for(ls, ms.last().location_id) {
            Some(l) => if selects(q, joined(ms.last(), l)) {
                prev.push(joined(ms.last(), l))
            } else {
                prev
            },
            None => prev,
        }
    }
}

/// `d` placed after every row at least as recent as it and before the first older one.
pub open spec fn insert_newest_first(buf: Seq<MeasurementDTO>, d: MeasurementDTO) -> Seq<
    MeasurementDTO,
>
    decreases buf.len(),
{
    if buf.len() == 0 {
        seq![d]
    } else if !not_before(buf[0].observation_time, d.observation_time) {
        seq![d] + buf
    } else {
        seq![buf[0]] + insert_newest_first(buf.drop_first(), d)
    }
}

/// The rows ordered by observation time, newest first; rows of equal time keep
/// their order.
pub open spec fn newest_first(s: Seq<MeasurementDTO>) -> Seq<MeasurementDTO>
    decreases s.len(),
{
    if s.len() == 0 {
        Seq::empty()
    } else {
        insert_newest_first(newest_first(s.drop_last()), s.last())
    }
}

pub open spec fn take_limit(s: Seq<MeasurementDTO>, limit: i64) -> Seq<MeasurementDTO> {
    if limit <= 0 {
        Seq::empty()
    } else if s.len() <= limit {
        s
    } else {
        s.take(limit as int)
    }
}

/// What the store answers to `q`: the selected rows, newest first, at most `limit`
/// of them (none for a negative limit).
pub open spec fn query_result(
    ms: Seq<TrafficMeasurement>,
    ls: Seq<Location>,
    q: MeasurementQuery,
) -> Seq<MeasurementDTO> {
    take_limit(newest_first(candidates(ms, ls, q)), limit_of(q))
}

pub open spec fn read_sql(q: MeasurementQuery) -> Seq<char> {
    match q {
        MeasurementQuery::Recent { .. } => "SELECT t.location_id, t.observation_time, t.occupancy_rate, t.availability_rate, t.total_vehicles_passed, t.average_speed, t.max_speed, l.latitude, l.longitude FROM public.traffic_measurements t JOIN public.locations l ON t.location_id = l.location_id ORDER BY t.observation_time DESC LIMIT $1"@,
        MeasurementQuery::Near { .. } => "SELECT t.location_id, t.observation_time, t.occupancy_rate, t.availability_rate, t.total_vehicles_passed, t.average_speed, t.max_speed, l.latitude, l.longitude FROM public.traffic_measurements t JOIN public.locations l ON t.location_id = l.location_id WHERE ST_DWithin(ST_SetSRID(ST_MakePoint(l.longitude, l.latitude), 4326), ST_SetSRID(ST_MakePoint($1, $2), 4326), $3) ORDER BY t.observation_time DESC LIMIT $4"@,
        MeasurementQuery::AtLocation { .. } => "SELECT t.location_id, t.observation_time, t.occupancy_rate, t.availability_rate, t.total_vehicles_passed, t.average_speed, t.max_speed, l.latitude, l.longitude FROM public.traffic_measurements t JOIN public.locations l ON t.location_id = l.location_id WHERE l.location_id = $1 ORDER BY t.observation_time DESC LIMIT $2"@,
    }
}

impl MeasurementQuery {
    /// The statement that runs this query against the persisted store. Its parameters:
    /// `limit` for `Recent`; `lon`, `lat`, `radius`, `limit` for `Near`;
    /// `location_id`, `limit` for `AtLocation`.
    pub fn sql(&self) -> (r: &'static str)
        ensures
            r@ == read_sql(*self),
    {
        match self {
            MeasurementQuery::Recent { .. } => "SELECT t.location_id, t.observation_time, t.occupancy_rate, t.availability_rate, t.total_vehicles_passed, t.average_speed, t.max_speed, l.latitude, l.longitude FROM public.traffic_measurements t JOIN public.locations l ON t.location_id = l.location_id ORDER BY t.observation_time DESC LIMIT $1",
            MeasurementQuery::Near { .. } => "SELECT t.location_id, t.observation_time, t.occupancy_rate, t.availability_rate, t.total_vehicles_passed, t.average_speed, t.max_speed, l.latitude, l.longitude FROM public.traffic_measurements t JOIN public.locations l ON t.location_id = l.location_id WHERE ST_DWithin(ST_SetSRID(ST_MakePoint(l.longitude, l.latitude), 4326), ST_SetSRID(ST_MakePoint($1, $2), 4326), $3) ORDER BY t.observation_time DESC LIMIT $4",
            MeasurementQuery::AtLocation { .. } => "SELECT t.location_id, t.observation_time, t.occupancy_rate, t.availability_rate, t.total_vehicles_passed, t.average_speed, t.max_speed, l.latitude, l.longitude FROM public.traffic_measurements t JOIN public.locations l ON t.location_id = l.location_id WHERE l.location_id = $1 ORDER BY t.observation_time DESC LIMIT $2",
        }
    }

    pub fn limit(&self) -> (r: i64)
        ensures
            r == limit_of(*self),
    {
        match self {
            MeasurementQuery::Recent { limit } => *limit,
            MeasurementQuery::Near { limit, .. } => *limit,
            MeasurementQuery::AtLocation { limit, .. } => *limit,
        }
    }

    /// Whether the query keeps the joined row `d`.
    pub fn selects(&self, d: &MeasurementDTO) -> (r: bool)
        ensures
            r == selects(*self, *d),
    {
        match self {
            MeasurementQuery::Recent { .. } => true,
            MeasurementQuery::Near { lat, lon, radius, .. } => is_within(
                d.latitude,
                d.longitude,
                *lat,
                *lon,
                *radius,
            ),
            MeasurementQuery::AtLocation { location_id, .. } => d.location_id == *location_id,
        }
    }
}

proof fn lemma_insert_at(buf: Seq<MeasurementDTO>, d: MeasurementDTO, p: int)
    requires
        0 <= p <= buf.len(),
        forall|j: int| 0 <= j < p ==> not_before((#[trigger] buf[j]).observation_time, d.observation_time),
        p == buf.len() || !not_before(buf[p].observation_time, d.observation_time),
    ensures
        insert_newest_first(buf, d) == buf.insert(p, d),
    decreases p,
{
    if p == 0 {
        if buf.len() == 0 {
            assert(buf.insert(0, d) =~= seq![d]);
        } else {
            assert(buf.insert(0, d) =~= seq![d] + buf);
        }
    } else {
        let t = buf.drop_first();
        assert forall|j: int| 0 <= j < p - 1 implies not_before(
            (#[trigger] t[j]).observation_time,
            d.observation_time,
        ) by {
            assert(t[j] == buf[j + 1]);
        }
        assert(buf[0] == buf[0]);
        assert(not_before(buf[0].observation_time, d.observation_time));
        lemma_insert_at(t, d, p - 1);
        assert(buf.insert(p, d) =~= seq![buf[0]] + t.insert(p - 1, d));
    }
}

/// Inserts `d` into a buffer kept newest first.
fn insert_by_time(buf: &mut Vec<MeasurementDTO>, d: MeasurementDTO)
    ensures
        final(buf)@ == insert_newest_first(old(buf)@, d),
{
    let n = buf.len();
    let mut p: usize = 0;
    while p < n
        invariant_except_break
            n == buf@.len(),
            p <= n,
            forall|j: int| 0 <= j < p ==> not_before((#[trigger] buf@[j]).observation_time, d.observation_time),
        ensures
            n == buf@.len(),
            p <= n,
            forall|j: int| 0 <= j < p ==> not_before((#[trigger] buf@[j]).observation_time, d.observation_time),
            p == n || !not_before(buf@[p as int].observation_time, d.observation_time),
        decreases n - p,
    {
        if !buf[p].observation_time.is_not_before(&d.observation_time) {
            break;
        }
        p = p + 1;
    }
    proof {
        lemma_insert_at(buf@, d, p as int);
    }
    buf.insert(p, d);
}

/// An in-process store with the write semantics of the persisted one: inserts skip
/// rows whose key exists, and nothing is ever updated or removed.
#[derive(Debug)]
pub struct MemoryStore {
    pub locations: Vec<Location>,
    pub measurements: Vec<TrafficMeasurement>,
}

impl MemoryStore {
    /// Keys are unique: one location per id, one aggregate per (id, time).
    pub open spec fn wf(&self) -> bool {
        &&& unique_location_ids(self.locations@)
        &&& unique_measurement_keys(self.measurements@)
    }

    pub fn new() -> (r: MemoryStore)
        ensures
            r.wf(),
            r.locations@ == Seq::<Location>::empty(),
            r.measurements@ == Seq::<TrafficMeasurement>::empty(),
    {
        MemoryStore { locations: Vec::new(), measurements: Vec::new() }
    }

    /// The index of the location stored under `id`.
    fn find_location(&self, id: i32) -> (r: Option<usize>)
        ensures
            match r {
                Some(i) => i < self.locations@.len() && self.locations@[i as int].location_id == id,
                None => !has_location_id(self.locations@, id),
            },
    {
        let n = self.locations.len();
        let mut i: usize = 0;
        while i < n
            invariant
                n == self.locations@.len(),
                i <= n,
                forall|j: int| 0 <= j < i ==> (#[trigger] self.locations@[j]).location_id != id,
            decreases n - i,
        {
            if self.locations[i].location_id == id {
                return Some(i);
            }
            i = i + 1;
        }
        None
    }

    fn has_measurement(&self, m: &TrafficMeasurement) -> (r: bool)
        ensures
            r == has_measurement_key(self.measurements@, *m),
    {
        let n = self.measurements.len();
        let mut i: usize = 0;
        while i < n
            invariant
                n == self.measurements@.len(),
                i <= n,
                forall|j: int| 0 <= j < i ==> !same_key(#[trigger] self.measurements@[j], *m),
            decreases n - i,
        {
            let e = &self.measurements[i];
            if e.location_id == m.location_id && e.observation_time == m.observation_time {
                assert(same_key(self.measurements@[i as int], *m));
                return true;
            }
            i = i + 1;
        }
        false
    }

    /// Inserts each location whose id is not stored yet; stored ones are never changed.
    pub fn upsert_locations(&mut self, rows: &Vec<Location>)
        requires
            old(self).wf(),
        ensures
            final(self).wf(),
            final(self).locations@ == upserted_locations(old(self).locations@, rows@),
            final(self).measurements@ == old(self).measurements@,
    {
        let n = rows.len();
        let mut i: usize = 0;
        while i < n
            invariant
                n == rows@.len(),
                i <= n,
                self.wf(),
                self.locations@ == upserted_locations(old(self).locations@, rows@.take(i as int)),
                self.measurements@ == old(self).measurements@,
            decreases n - i,
        {
            let l = rows[i];
            proof {
                assert(rows@.take(i + 1).drop_last() =~= rows@.take(i as int));
            }
            match self.find_location(l.location_id) {
                Some(_) => {},
                None => {
                    self.locations.push(l);
                },
            }
            i = i + 1;
        }
        assert(rows@.take(n as int) =~= rows@);
    }

    /// Inserts each aggregate whose (id, time) key is not stored yet; stored ones are
    /// never changed.
    pub fn upsert_measurements(&mut self, rows: &Vec<TrafficMeasurement>)
        requires
            old(self).wf(),
        ensures
            final(self).wf(),
            final(self).measurements@ == upserted_measurements(old(self).measurements@, rows@),
            final(self).locations@ == old(self).locations@,
    {
        let n = rows.len();
        let mut i: usize = 0;
        while i < n
            invariant
                n == rows@.len(),
                i <= n,
                self.wf(),
                self.measurements@ == upserted_measurements(
                    old(self).measurements@,
                    rows@.take(i as int),
                ),
                self.locations@ == old(self).locations@,
            decreases n - i,
        {
            let m = rows[i];
            proof {
                assert(rows@.take(i + 1).drop_last() =~= rows@.take(i as int));
            }
            if !self.has_measurement(&m) {
                self.measurements.push(m);
            }
            i = i + 1;
        }
        assert(rows@.take(n as int) =~= rows@);
    }

    /// Answers `q` from the stored rows.
    pub fn run(&self, q: &MeasurementQuery) -> (r: Vec<MeasurementDTO>)
        requires
            self.wf(),
        ensures
            r@ == query_result(self.measurements@, self.locations@, *q),
    {
        let ms = &self.measurements;
        let n = ms.len();
        let mut buf: Vec<MeasurementDTO> = Vec::new();
        let mut i: usize = 0;
        while i < n
            invariant
                n == ms@.len(),
                ms@ == self.measurements@,
                self.wf(),
                i <= n,
                buf@ == newest_first(candidates(ms@.take(i as int), self.locations@, *q)),
            decreases n - i,
        {
            let m = ms[i];
            let ghost prev = candidates(ms@.take(i as int), self.locations@, *q);
            proof {
                assert(ms@.take(i + 1).drop_last() =~= ms@.take(i as int));
                assert(ms@.take(i + 1).last() == m);
            }
            match self.find_location(m.location_id) {
                Some(li) => {
                    let l = self.locations[li];
                    proof {
                        let ls = self.locations@;
                        let c = choose|k: int| 0 <= k < ls.len() && (#[trigger] ls[k]).location_id == m.location_id;
                        assert(ls[c].location_id == ls[li as int].location_id);
                        assert(location_for(ls, m.location_id) == Some(l));
                    }
                    let d = MeasurementDTO::join(&m, &l);
                    proof {
                        assert(prev.push(d).drop_last() =~= prev);
                    }
                    if q.selects(&d) {
                        insert_by_time(&mut buf, d);
                    }
                },
                None => {},
            }
            i = i + 1;
        }
        assert(ms@.take(n as int) =~= ms@);
        let limit = q.limit();
        if limit <= 0 {
            buf.truncate(0);
            assert(buf@ =~= Seq::<MeasurementDTO>::empty());
        } else if (buf.len() as u64) > (limit as u64) {
            buf.truncate(limit as usize);
        }
        buf
    }
}

/// Upserting a location whose id was just written leaves the stored locations as the
/// first write left them: the first coordinates stay.
pub proof fn law_location_upsert_keeps_first(ls: Seq<Location>, first: Location, second: Location)
    requires
        first.location_id == second.location_id,
    ensures
        upserted_locations(upserted_locations(ls, seq![first]), seq![second])
            == upserted_locations(ls, seq![first]),
        location_for(upserted_locations(ls, seq![first]), first.location_id) is Some,
{
    assert(seq![first].drop_last() =~= Seq::<Location>::empty());
    assert(seq![second].drop_last() =~= Seq::<Location>::empty());
    assert(upserted_locations(ls, Seq::<Location>::empty()) == ls);
    let once = upserted_locations(ls, seq![first]);
    assert(upserted_locations(once, Seq::<Location>::empty()) == once);
    if !has_location_id(ls, first.location_id) {
        assert(once == ls.push(first));
        assert(once[ls.len() as int] == first);
    } else {
        assert(once == ls);
    }
    assert(has_location_id(once, second.location_id));
}

/// Upserting an aggregate whose (id, time) key was just written leaves the stored
/// aggregates as the first write left them: the first metric values stay.
pub proof fn law_measurement_upsert_keeps_first(
    ms: Seq<TrafficMeasurement>,
    first: TrafficMeasurement,
    second: TrafficMeasurement,
)
    requires
        same_key(first, second),
    ensures
        upserted_measurements(upserted_measurements(ms, seq![first]), seq![second])
            == upserted_measurements(ms, seq![first]),
{
    assert(seq![first].drop_last() =~= Seq::<TrafficMeasurement>::empty());
    assert(seq![second].drop_last() =~= Seq::<TrafficMeasurement>::empty());
    assert(upserted_measurements(ms, Seq::<TrafficMeasurement>::empty()) == ms);
    let once = upserted_measurements(ms, seq![first]);
    assert(upserted_measurements(once, Seq::<TrafficMeasurement>::empty()) == once);
    if !has_measurement_key(ms, first) {
        assert(once == ms.push(first));
        assert(once[ms.len() as int] == first);
        assert(same_key(once[ms.len() as int], second));
    } else {
        assert(once == ms);
        let i = choose|i: int| 0 <= i < ms.len() && same_key(#[trigger] ms[i], first);
        assert(same_key(once[i], second));
    }
}

/// Upserting locations chunk after chunk stores the same as upserting them all at once,
/// so a run split into write operations of at most `BATCH_SIZE` rows keeps the
/// first-written coordinates of every id.
pub proof fn law_location_upsert_in_chunks(ls: Seq<Location>, a: Seq<Location>, b: Seq<Location>)
    ensures
        upserted_locations(ls, a + b) == upserted_locations(upserted_locations(ls, a), b),
    decreases b.len(),
{
    if b.len() == 0 {
        assert(a + b =~= a);
    } else {
        assert((a + b).drop_last() =~= a + b.drop_last());
        assert((a + b).last() == b.last());
        law_location_upsert_in_chunks(ls, a, b.drop_last());
    }
}

/// Upserting aggregates chunk after chunk stores the same as upserting them all at
/// once, so a run split into write operations keeps the first-written values of
/// every (id, time) key.
pub proof fn law_measurement_upsert_in_chunks(
    ms: Seq<TrafficMeasurement>,
    a: Seq<TrafficMeasurement>,
    b: Seq<TrafficMeasurement>,
)
    ensures
        upserted_measurements(ms, a + b) == upserted_measurements(upserted_measurements(ms, a), b),
    decreases b.len(),
{
    if b.len() == 0 {
        assert(a + b =~= a);
    } else {
        assert((a + b).drop_last() =~= a + b.drop_last());
        assert((a + b).last() == b.last());
        law_measurement_upsert_in_chunks(ms, a, b.drop_last());
    }
}

/// Rows are ordered newest first.
pub open spec fn is_newest_first(s: Seq<MeasurementDTO>) -> bool {
    forall|i: int, j: int|
        0 <= i < j < s.len() ==> not_before(
            (#[trigger] s[i]).observation_time,
            (#[trigger] s[j]).observation_time,
        )
}

/// Where `insert_newest_first` puts `d`.
pub open spec fn insert_point(buf: Seq<MeasurementDTO>, d: MeasurementDTO) -> int
    decreases buf.len(),
{
    if buf.len() == 0 {
        0
    } else if !not_before(buf[0].observation_time, d.observation_time) {
        0
    } else {
        1 + insert_point(buf.drop_first(), d)
    }
}

proof fn lemma_insert_point(buf: Seq<MeasurementDTO>, d: MeasurementDTO)
    ensures
        0 <= insert_point(buf, d) <= buf.len(),
        forall|j: int|
            0 <= j < insert_point(buf, d) ==> not_before(
                (#[trigger] buf[j]).observation_time,
                d.observation_time,
            ),
        insert_point(buf, d) == buf.len() || !not_before(
            buf[insert_point(buf, d)].observation_time,
            d.observation_time,
        ),
        insert_newest_first(buf, d) == buf.insert(insert_point(buf, d), d),
    decreases buf.len(),
{
    if buf.len() > 0 && not_before(buf[0].observation_time, d.observation_time) {
        let t = buf.drop_first();
        lemma_insert_point(t, d);
        assert forall|j: int| 0 <= j < insert_point(buf, d) implies not_before(
            (#[trigger] buf[j]).observation_time,
            d.observation_time,
        ) by {
            if j > 0 {
                assert(buf[j] == t[j - 1]);
            }
        }
    }
    lemma_insert_at(buf, d, insert_point(buf, d));
}

proof fn lemma_newest_first(s: Seq<MeasurementDTO>)
    ensures
        is_newest_first(newest_first(s)),
        newest_first(s).to_multiset() == s.to_multiset(),
    decreases s.len(),
{
    broadcast use vstd::seq_lib::group_to_multiset_ensures;

    if s.len() == 0 {
        assert(s =~= Seq::<MeasurementDTO>::empty());
    } else {
        let prev = newest_first(s.drop_last());
        let d = s.last();
        lemma_newest_first(s.drop_last());
        lemma_insert_point(prev, d);
        let p = insert_point(prev, d);
        let r = prev.insert(p, d);
        vstd::seq_lib::to_multiset_insert(prev, p, d);
        assert(s.drop_last().push(d) =~= s);
        assert forall|i: int, j: int| 0 <= i < j < r.len() implies not_before(
            (#[trigger] r[i]).observation_time,
            (#[trigger] r[j]).observation_time,
        ) by {
            if j < p {
                assert(r[i] == prev[i] && r[j] == prev[j]);
            } else if j == p {
                assert(r[i] == prev[i]);
            } else if i < p {
                assert(r[i] == prev[i] && r[j] == prev[j - 1]);
            } else if i == p {
                assert(r[j] == prev[j - 1]);
                assert(!not_before(prev[p].observation_time, d.observation_time));
                assert(p <= j - 1);
                if p < j - 1 {
                    assert(not_before(prev[p].observation_time, prev[j - 1].observation_time));
                }
            } else {
                assert(r[i] == prev[i - 1] && r[j] == prev[j - 1]);
            }
        }
    }
}

/// The newest-first order of the query layer is a total order of the selected rows:
/// sorted by time, descending, holding exactly the rows it was given.
pub proof fn law_newest_first_orders(s: Seq<MeasurementDTO>)
    ensures
        is_newest_first(newest_first(s)),
        newest_first(s).to_multiset() == s.to_multiset(),
{
    lemma_newest_first(s);
}

} // verus!
