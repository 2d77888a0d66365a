use vstd::prelude::*;
use crate::feed::VehicleClass;
use crate::geo::Coordinate;
use crate::numeric::{decimal_text, push_decimal};
use crate::models::{Location, TrafficMeasurement, TrafficVehicleMeasurement};
use crate::time::Timestamp;

verus! {

/// Most rows that one write statement carries.
pub const BATCH_SIZE: usize = 1000;

/// A persisted table, with its columns and its conflict target.
#[derive(Debug, Clone, Copy, PartialEq, Eq, Structural)]
pub enum Table {
    Locations,
    TrafficMeasurements,
    TrafficVehicleMeasurements,
}

pub open spec fn width_of(t: Table) -> nat {
    match t {
        Table::Locations => 3,
        Table::TrafficMeasurements => 7,
        Table::TrafficVehicleMeasurements => 6,
    }
}

pub open spec fn prefix_text(t: Table) -> Seq<char> {
    match t {
        Table::Locations => "INSERT INTO public.locations (location_id, latitude, longitude) VALUES "@,
        Table::TrafficMeasurements => "INSERT INTO public.traffic_measurements (location_id, observation_time, occupancy_rate, availability_rate, total_vehicles_passed, average_speed, max_speed) VALUES "@,
        Table::TrafficVehicleMeasurements => "INSERT INTO public.traffic_vehicle_measurements (location_id, observation_time, vehicle_class, traffic_intensity, vehicle_speed_arithmetic, vehicle_speed_harmonic) VALUES "@,
    }
}

pub open spec fn conflict_text(t: Table) -> Seq<char> {
    match t {
        Table::Locations => " ON CONFLICT (location_id) DO NOTHING"@,
        Table::TrafficMeasurements => " ON CONFLICT (location_id, observation_time) DO NOTHING"@,
        Table::TrafficVehicleMeasurements => " ON CONFLICT (location_id, observation_time, vehicle_class) DO NOTHING"@,
    }
}

impl Table {
    /// Number of columns, and so of parameters, per row.
    pub fn column_count(&self) -> (r: usize)
        ensures
            r == width_of(*self),
    {
        match self {
            Table::Locations => 3,
            Table::TrafficMeasurements => 7,
            Table::TrafficVehicleMeasurements => 6,
        }
    }

    /// The statement text up to the row tuples.
    pub fn insert_prefix(&self) -> (r: &'static str)
        ensures
            r@ == prefix_text(*self),
    {
        match self {
            Table::Locations => "INSERT INTO public.locations (location_id, latitude, longitude) VALUES ",
            Table::TrafficMeasurements => "INSERT INTO public.traffic_measurements (location_id, observation_time, occupancy_rate, availability_rate, total_vehicles_passed, average_speed, max_speed) VALUES ",
            Table::TrafficVehicleMeasurements => "INSERT INTO public.traffic_vehicle_measurements (location_id, observation_time, vehicle_class, traffic_intensity, vehicle_speed_arithmetic, vehicle_speed_harmonic) VALUES ",
        }
    }

    /// The clause that skips rows whose key already exists.
    pub fn conflict_clause(&self) -> (r: &'static str)
        ensures
            r@ == conflict_text(*self),
    {
        match self {
            Table::Locations => " ON CONFLICT (location_id) DO NOTHING",
            Table::TrafficMeasurements => " ON CONFLICT (location_id, observation_time) DO NOTHING",
            Table::TrafficVehicleMeasurements => " ON CONFLICT (location_id, observation_time, vehicle_class) DO NOTHING",
        }
    }
}

/// `$k`: the k-th parameter of a statement, counted from 1.
pub open spec fn placeholder(k: nat) -> Seq<char> {
    seq!['$'] + decimal_text(k)
}

/// `$first,$first+1,...` with `count` placeholders.
pub open spec fn placeholder_list(first: nat, count: nat) -> Seq<char>
    decreases count,
{
    if count == 0 {
        Seq::empty()
    } else if count == 1 {
        placeholder(first)
    } else {
        placeholder_list(first, (count - 1) as nat) + seq![','] + placeholder(
            (first + count - 1) as nat,
        )
    }
}

/// The tuple of row `row` (from 0) of a statement whose rows have `width` columns.
pub open spec fn row_tuple(row: nat, width: nat) -> Seq<char> {
    seq!['('] + placeholder_list(row * width + 1, width) + seq![')']
}

/// The row tuples of a statement of `rows` rows, separated by commas.
pub open spec fn values_text(rows: nat, width: nat) -> Seq<char>
    decreases rows,
{
    if rows == 0 {
        Seq::empty()
    } else if rows == 1 {
        row_tuple(0, width)
    } else {
        values_text((rows - 1) as nat, width) + seq![','] + row_tuple((rows - 1) as nat, width)
    }
}

/// The multi-row insert of `rows` rows into `t` that skips conflicting keys.
pub open spec fn statement_text(t: Table, rows: nat) -> Seq<char> {
    prefix_text(t) + values_text(rows, width_of(t)) + conflict_text(t)
}

fn comma() -> (r: &'static str)
    ensures
        r@ == seq![','],
{
    proof { reveal_strlit(","); }
    ","
}

/// The text of the insert statement of `rows` rows into `table`, with numbered
/// parameters in row-major order.
pub fn insert_statement(table: Table, rows: usize) -> (r: String)
    requires
        rows <= BATCH_SIZE,
    ensures
        r@ == statement_text(table, rows as nat),
{
    let width = table.column_count();
    let mut out = String::from_str(table.insert_prefix());
    let mut row: usize = 0;
    while row < rows
        invariant
            rows <= BATCH_SIZE,
            width == width_of(table),
            row <= rows,
            out@ == prefix_text(table) + values_text(row as nat, width as nat),
        decreases rows - row,
    {
        let ghost before = out@;
        if row > 0 {
            out.append(comma());
        }
        proof { reveal_strlit("("); }
        out.append("(");
        let ghost open_at = out@;
        let mut col: usize = 0;
        while col < width
            invariant
                rows <= BATCH_SIZE,
                row < rows,
                width == width_of(table),
                col <= width,
                out@ == open_at + placeholder_list((row * width + 1) as nat, col as nat),
            decreases width - col,
        {
            if col > 0 {
                out.append(comma());
            }
            proof { reveal_strlit("$"); }
            out.append("$");
            assert(row * width <= 1000 * 7) by (nonlinear_arith)
                requires
                    row < 1000,
                    width <= 7,
            ;
            push_decimal(&mut out, (row * width + col + 1) as u64);
            col = col + 1;
        }
        proof { reveal_strlit(")"); }
        out.append(")");
        assert(out@ =~= prefix_text(table) + values_text((row + 1) as nat, width as nat));
        row = row + 1;
    }
    out.append(table.conflict_clause());
    out
}

/// One bound parameter value.
#[derive(Debug, Clone, Copy, PartialEq, Eq, Structural)]
pub enum SqlValue {
    Int(i32),
    OptInt(Option<i32>),
    Time(Timestamp),
    Coord(Coordinate),
    Class(VehicleClass),
}

/// One write operation: a statement and its parameters, row after row.
#[derive(Debug)]
pub struct Batch {
    pub table: Table,
    pub index: usize,
    pub row_count: usize,
    pub statement: String,
    pub params: Vec<SqlValue>,
}

/// A row whose number of values differs from the table's column count.
#[derive(Debug, Clone, Copy, PartialEq, Eq, Structural)]
pub enum BatchError {
    Arity { row: usize, expected: usize, found: usize },
}

/// The rows one after the other, as one sequence of parameters.
pub open spec fn flatten(rows: Seq<Seq<SqlValue>>) -> Seq<SqlValue>
    decreases rows.len(),
{
    if rows.len() == 0 {
        Seq::empty()
    } else {
        flatten(rows.drop_last()) + rows.last()
    }
}

pub open spec fn row_views(rows: Seq<Vec<SqlValue>>) -> Seq<Seq<SqlValue>> {
    rows.map_values(|r: Vec<SqlValue>| r@)
}

/// Number of write operations for `n` rows.
pub open spec fn batch_count(n: nat) -> nat {
    ((n + BATCH_SIZE - 1) / BATCH_SIZE as int) as nat
}

pub open spec fn batch_start(k: int) -> int {
    k * BATCH_SIZE
}

pub open spec fn batch_end(k: int, n: int) -> int {
    if (k + 1) * BATCH_SIZE <= n {
        (k + 1) * BATCH_SIZE
    } else {
        n
    }
}

/// Batch `k` of a plan over `rows`: the right slice, statement and parameters.
pub open spec fn is_batch_of(b: Batch, t: Table, rows: Seq<Seq<SqlValue>>, k: int) -> bool {
    let lo = batch_start(k);
    let hi = batch_end(k, rows.len() as int);
    &&& b.table == t
    &&& b.index == k
    &&& b.row_count == hi - lo
    &&& b.statement@ == statement_text(t, (hi - lo) as nat)
    &&& b.params@ == flatten(rows.subrange(lo, hi))
}

/// The chunked plan for `rows`: `ceil(n / BATCH_SIZE)` batches covering the rows in order.
pub open spec fn is_plan_of(bs: Seq<Batch>, t: Table, rows: Seq<Seq<SqlValue>>) -> bool {
    &&& bs.len() == batch_count(rows.len())
    &&& forall|k: int| 0 <= k < bs.len() ==> is_batch_of(#[trigger] bs[k], t, rows, k)
}

pub open spec fn arity_ok(t: Table, rows: Seq<Seq<SqlValue>>) -> bool {
    forall|i: int| 0 <= i < rows.len() ==> (#[trigger] rows[i]).len() == width_of(t)
}

proof fn lemma_batch_count(n: int, k: int)
    requires
        n >= 0,
        k >= 0,
        k * BATCH_SIZE >= n,
        k == 0 || (k - 1) * BATCH_SIZE < n,
    ensures
        k == batch_count(n as nat),
{
    let x = n + BATCH_SIZE - 1;
    let d = BATCH_SIZE as int;
    vstd::arithmetic::div_mod::lemma_fundamental_div_mod(x, d);
    let q = x / d;
    let r = x % d;
    assert(q == k) by (nonlinear_arith)
        requires
            x == d * q + r,
            0 <= r < d,
            d == 1000,
            x == n + 999,
            k * 1000 >= n,
            k == 0 || (k - 1) * 1000 < n,
            n >= 0,
            k >= 0,
    ;
}

proof fn lemma_flatten_push(rows: Seq<Seq<SqlValue>>, lo: int, hi: int)
    requires
        0 <= lo <= hi < rows.len(),
    ensures
        flatten(rows.subrange(lo, hi + 1)) == flatten(rows.subrange(lo, hi)) + rows[hi],
{
    assert(rows.subrange(lo, hi + 1).drop_last() =~= rows.subrange(lo, hi));
}

/// Splits `rows` into write operations on `table` of at most `BATCH_SIZE` rows each,
/// after checking every row's arity; the first row of the wrong arity is reported.
pub fn plan_batches(table: Table, rows: &Vec<Vec<SqlValue>>) -> (r: Result<Vec<Batch>, BatchError>)
    ensures
        match r {
            Ok(bs) => arity_ok(table, row_views(rows@)) && is_plan_of(bs@, table, row_views(rows@)),
            Err(BatchError::Arity { row, expected, found }) => {
                &&& row < rows@.len()
                &&& expected == width_of(table)
                &&& found == rows@[row as int]@.len()
                &&& found != expected
                &&& forall|j: int| 0 <= j < row ==> (#[trigger] rows@[j])@.len() == width_of(table)
            },
        },
        arity_ok(table, row_views(rows@)) <==> r is Ok,
{
    let width = table.column_count();
    let n = rows.len();
    let ghost views = row_views(rows@);
    let mut i: usize = 0;
    while i < n
        invariant
            n == rows@.len(),
            width == width_of(table),
            views == row_views(rows@),
            i <= n,
            forall|j: int| 0 <= j < i ==> (#[trigger] rows@[j])@.len() == width_of(table),
        decreases n - i,
    {
        if rows[i].len() != width {
            proof {
                assert(views[i as int].len() != width_of(table));
            }
            return Err(BatchError::Arity { row: i, expected: width, found: rows[i].len() });
        }
        i = i + 1;
    }
    assert(arity_ok(table, views));
    let mut batches: Vec<Batch> = Vec::new();
    let mut lo: usize = 0;
    let mut k: usize = 0;
    while lo < n
        invariant
            n == rows@.len(),
            width == width_of(table),
            views == row_views(rows@),
            arity_ok(table, views),
            lo == (if k * BATCH_SIZE <= n {
                k * BATCH_SIZE
            } else {
                n as int
            }),
            k == 0 || (k - 1) * BATCH_SIZE < n,
            batches@.len() == k,
            forall|j: int| 0 <= j < k ==> is_batch_of(#[trigger] batches@[j], table, views, j),
        decreases n - lo,
    {
        let hi: usize = if n - lo >= BATCH_SIZE {
            lo + BATCH_SIZE
        } else {
            n
        };
        let mut params: Vec<SqlValue> = Vec::new();
        let mut j: usize = lo;
        assert(views.subrange(lo as int, lo as int) =~= Seq::<Seq<SqlValue>>::empty());
        while j < hi
            invariant
                n == rows@.len(),
                width == width_of(table),
                views == row_views(rows@),
                lo <= j <= hi <= n,
                params@ == flatten(views.subrange(lo as int, j as int)),
            decreases hi - j,
        {
            let row = &rows[j];
            let m = row.len();
            let ghost before = params@;
            let mut c: usize = 0;
            while c < m
                invariant
                    m == row@.len(),
                    c <= m,
                    params@ == before + row@.take(c as int),
                decreases m - c,
            {
                params.push(row[c]);
                assert(row@.take(c + 1) =~= row@.take(c as int).push(row@[c as int]));
                c = c + 1;
            }
            proof {
                assert(row@.take(m as int) =~= row@);
                assert(views[j as int] == rows@[j as int]@);
                lemma_flatten_push(views, lo as int, j as int);
            }
            j = j + 1;
        }
        let statement = insert_statement(table, hi - lo);
        let batch = Batch { table, index: k, row_count: hi - lo, statement, params };
        proof {
            assert(batch_start(k as int) == lo);
            assert(batch_end(k as int, n as int) == hi);
        }
        let ghost prev = batches@;
        batches.push(batch);
        proof {
            assert forall|j: int| 0 <= j < k + 1 implies is_batch_of(
                #[trigger] batches@[j],
                table,
                views,
                j,
            ) by {
                if j < k {
                    assert(batches@[j] == prev[j]);
                }
            }
        }
        lo = hi;
        k = k + 1;
    }
    proof {
        lemma_batch_count(n as int, k as int);
    }
    Ok(batches)
}

pub open spec fn location_row(l: Location) -> Seq<SqlValue> {
    seq![SqlValue::Int(l.location_id), SqlValue::Coord(l.latitude), SqlValue::Coord(l.longitude)]
}

pub open spec fn measurement_row(m: TrafficMeasurement) -> Seq<SqlValue> {
    seq![
        SqlValue::Int(m.location_id),
        SqlValue::Time(m.observation_time),
        SqlValue::Int(m.occupancy_rate),
        SqlValue::Int(m.availability_rate),
        SqlValue::Int(m.total_vehicles_passed),
        SqlValue::OptInt(m.average_speed),
        SqlValue::OptInt(m.max_speed),
    ]
}

pub open spec fn vehicle_measurement_row(v: TrafficVehicleMeasurement) -> Seq<SqlValue> {
    seq![
        SqlValue::Int(v.location_id),
        SqlValue::Time(v.observation_time),
        SqlValue::Class(v.vehicle_class),
        SqlValue::Int(v.traffic_intensity),
        SqlValue::Int(v.vehicle_speed_arithmetic),
        SqlValue::Int(v.vehicle_speed_harmonic),
    ]
}

impl Location {
    /// The write operation that inserts one row, unless its key already exists.
    pub fn insert(row: &Location) -> (r: Batch)
        ensures
            is_batch_of(r, Table::Locations, seq![location_row(*row)], 0),
    {
        let rows = vec![*row];
        let mut batches = Location::batch_insert(&rows);
        proof {
            assert(rows@.map_values(|l: Location| location_row(l)) =~= seq![location_row(*row)]);
            assert(batch_count(1) == 1);
        }
        batches.remove(0)
    }

    /// The parameters of this location, in column order.
    pub fn row(&self) -> (r: Vec<SqlValue>)
        ensures
            r@ == location_row(*self),
    {
        let r = vec![SqlValue::Int(self.location_id), SqlValue::Coord(self.latitude), SqlValue::Coord(self.longitude)];
        assert(r@ =~= location_row(*self));
        r
    }

    /// The write operations that insert `rows`, skipping ids that already exist.
    pub fn batch_insert(rows: &Vec<Location>) -> (r: Vec<Batch>)
        ensures
            is_plan_of(r@, Table::Locations, rows@.map_values(|l: Location| location_row(l))),
    {
        let mut values: Vec<Vec<SqlValue>> = Vec::new();
        let mut i: usize = 0;
        while i < rows.len()
            invariant
                i <= rows@.len(),
                values@.len() == i,
                forall|j: int| 0 <= j < i ==> (#[trigger] values@[j])@ == location_row(rows@[j]),
            decreases rows@.len() - i,
        {
            values.push(rows[i].row());
            i = i + 1;
        }
        assert(row_views(values@) =~= rows@.map_values(|l: Location| location_row(l)));
        match plan_batches(Table::Locations, &values) {
            Ok(bs) => bs,
            Err(_) => Vec::new(),
        }
    }
}

impl TrafficMeasurement {
    /// The write operation that inserts one row, unless its key already exists.
    pub fn insert(row: &TrafficMeasurement) -> (r: Batch)
        ensures
            is_batch_of(r, Table::TrafficMeasurements, seq![measurement_row(*row)], 0),
    {
        let rows = vec![*row];
        let mut batches = TrafficMeasurement::batch_insert(&rows);
        proof {
            assert(rows@.map_values(|m: TrafficMeasurement| measurement_row(m)) =~= seq![measurement_row(*row)]);
            assert(batch_count(1) == 1);
        }
        batches.remove(0)
    }

    /// The parameters of this aggregate, in column order.
    pub fn row(&self) -> (r: Vec<SqlValue>)
        ensures
            r@ == measurement_row(*self),
    {
        let r = vec![
            SqlValue::Int(self.location_id),
            SqlValue::Time(self.observation_time),
            SqlValue::Int(self.occupancy_rate),
            SqlValue::Int(self.availability_rate),
            SqlValue::Int(self.total_vehicles_passed),
            SqlValue::OptInt(self.average_speed),
            SqlValue::OptInt(self.max_speed),
        ];
        assert(r@ =~= measurement_row(*self));
        r
    }

    /// The write operations that insert `rows`, skipping (location, time) keys that
    /// already exist.
    pub fn batch_insert(rows: &Vec<TrafficMeasurement>) -> (r: Vec<Batch>)
        ensures
            is_plan_of(
                r@,
                Table::TrafficMeasurements,
                rows@.map_values(|m: TrafficMeasurement| measurement_row(m)),
            ),
    {
        let mut values: Vec<Vec<SqlValue>> = Vec::new();
        let mut i: usize = 0;
        while i < rows.len()
            invariant
                i <= rows@.len(),
                values@.len() == i,
                forall|j: int| 0 <= j < i ==> (#[trigger] values@[j])@ == measurement_row(rows@[j]),
            decreases rows@.len() - i,
        {
            values.push(rows[i].row());
            i = i + 1;
        }
        assert(row_views(values@) =~= rows@.map_values(
            |m: TrafficMeasurement| measurement_row(m),
        ));
        match plan_batches(Table::TrafficMeasurements, &values) {
            Ok(bs) => bs,
            Err(_) => Vec::new(),
        }
    }
}

impl TrafficVehicleMeasurement {
    /// The write operation that inserts one row, unless its key already exists.
    pub fn insert(row: &TrafficVehicleMeasurement) -> (r: Batch)
        ensures
            is_batch_of(r, Table::TrafficVehicleMeasurements, seq![vehicle_measurement_row(*row)], 0),
    {
        let rows = vec![*row];
        let mut batches = TrafficVehicleMeasurement::batch_insert(&rows);
        proof {
            assert(rows@.map_values(|v: TrafficVehicleMeasurement| vehicle_measurement_row(v)) =~= seq![vehicle_measurement_row(*row)]);
            assert(batch_count(1) == 1);
        }
        batches.remove(0)
    }

    /// The parameters of this reading, in column order.
    pub fn row(&self) -> (r: Vec<SqlValue>)
        ensures
            r@ == vehicle_measurement_row(*self),
    {
        let r = vec![
            SqlValue::Int(self.location_id),
            SqlValue::Time(self.observation_time),
            SqlValue::Class(self.vehicle_class),
            SqlValue::Int(self.traffic_intensity),
            SqlValue::Int(self.vehicle_speed_arithmetic),
            SqlValue::Int(self.vehicle_speed_harmonic),
        ];
        assert(r@ =~= vehicle_measurement_row(*self));
        r
    }

    /// The write operations that insert `rows` into the per-class table, skipping
    /// (location, time, class) keys that already exist.
    pub fn batch_insert(rows: &Vec<TrafficVehicleMeasurement>) -> (r: Vec<Batch>)
        ensures
            is_plan_of(
                r@,
                Table::TrafficVehicleMeasurements,
                rows@.map_values(|v: TrafficVehicleMeasurement| vehicle_measurement_row(v)),
            ),
    {
        let mut values: Vec<Vec<SqlValue>> = Vec::new();
        let mut i: usize = 0;
        while i < rows.len()
            invariant
                i <= rows@.len(),
                values@.len() == i,
                forall|j: int| 0 <= j < i ==> (#[trigger] values@[j])@ == vehicle_measurement_row(rows@[j]),
            decreases rows@.len() - i,
        {
            values.push(rows[i].row());
            i = i + 1;
        }
        assert(row_views(values@) =~= rows@.map_values(
            |v: TrafficVehicleMeasurement| vehicle_measurement_row(v),
        ));
        match plan_batches(Table::TrafficVehicleMeasurements, &values) {
            Ok(bs) => bs,
            Err(_) => Vec::new(),
        }
    }
}

proof fn lemma_flatten_index(rows: Seq<Seq<SqlValue>>, w: int, i: int, c: int)
    requires
        w >= 0,
        forall|j: int| 0 <= j < rows.len() ==> (#[trigger] rows[j]).len() == w,
        0 <= i < rows.len(),
        0 <= c < w,
    ensures
        flatten(rows).len() == rows.len() * w,
        i * w + c < flatten(rows).len(),
        flatten(rows)[i * w + c] == rows[i][c],
    decreases rows.len(),
{
    let prev = rows.drop_last();
    lemma_flatten_len(rows, w);
    lemma_flatten_len(prev, w);
    assert(i * w + c < rows.len() * w) by (nonlinear_arith)
        requires
            0 <= i < rows.len(),
            0 <= c < w,
    ;
    if i < rows.len() - 1 {
        lemma_flatten_index(prev, w, i, c);
    } else {
        assert(i * w == prev.len() * w);
    }
}

proof fn lemma_flatten_len(rows: Seq<Seq<SqlValue>>, w: int)
    requires
        w >= 0,
        forall|j: int| 0 <= j < rows.len() ==> (#[trigger] rows[j]).len() == w,
    ensures
        flatten(rows).len() == rows.len() * w,
    decreases rows.len(),
{
    if rows.len() > 0 {
        lemma_flatten_len(rows.drop_last(), w);
        assert(rows.len() * w == (rows.len() - 1) * w + w) by (nonlinear_arith);
    }
}

/// A plan for n rows of the right arity has exactly `ceil(n / 1000)` write operations,
/// each of 1 to 1000 rows; in operation `k`, parameters are numbered from 1 again and
/// parameter `i * w + c` (from 0) is column `c` of row `1000 * k + i`.
pub proof fn law_batch_plan_shape(
    bs: Seq<Batch>,
    t: Table,
    rows: Seq<Seq<SqlValue>>,
    k: int,
    i: int,
    c: int,
)
    requires
        is_plan_of(bs, t, rows),
        arity_ok(t, rows),
        0 <= k < bs.len(),
        0 <= i < bs[k].row_count,
        0 <= c < width_of(t),
    ensures
        bs.len() == batch_count(rows.len()),
        1 <= bs[k].row_count <= BATCH_SIZE,
        bs[k].statement@ == statement_text(t, bs[k].row_count as nat),
        bs[k].params@.len() == bs[k].row_count * width_of(t),
        bs[k].params@[i * width_of(t) + c] == rows[k * BATCH_SIZE + i][c],
{
    let n = rows.len() as int;
    let lo = batch_start(k);
    let hi = batch_end(k, n);
    assert(is_batch_of(bs[k], t, rows, k));
    let x = n + BATCH_SIZE - 1;
    vstd::arithmetic::div_mod::lemma_fundamental_div_mod(x, BATCH_SIZE as int);
    assert(lo < n) by (nonlinear_arith)
        requires
            lo == k * 1000,
            k < x / 1000,
            x == 1000 * (x / 1000) + x % 1000,
            0 <= x % 1000 < 1000,
            x == n + 999,
    ;
    let sub = rows.subrange(lo, hi);
    let w = width_of(t) as int;
    assert forall|j: int| 0 <= j < sub.len() implies (#[trigger] sub[j]).len() == w by {
        assert(sub[j] == rows[lo + j]);
    }
    lemma_flatten_index(sub, w, i, c);
    assert(sub[i] == rows[lo + i]);
}

} // verus!
