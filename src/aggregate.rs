use vstd::prelude::*;
use vstd::arithmetic::div_mod::lemma_fundamental_div_mod;
use crate::feed::{MeasurementData, MeasuringPoint};
use crate::models::TrafficMeasurement;

verus! {

/// Speeds the feed uses as "no data" or error codes rather than real speeds.
pub open spec fn is_sentinel_speed(v: int) -> bool {
    v == 251 || v == 252 || v == 254
}

/// The arithmetic speeds of the readings that are not sentinel codes, in order.
pub open spec fn valid_speeds(rs: Seq<MeasurementData>) -> Seq<int>
    decreases rs.len(),
{
    if rs.len() == 0 {
        Seq::empty()
    } else {
        let v = rs.last().vehicle_speed_arithmetic as int;
        if is_sentinel_speed(v) {
            valid_speeds(rs.drop_last())
        } else {
            valid_speeds(rs.drop_last()).push(v)
        }
    }
}

pub open spec fn sum_of(s: Seq<int>) -> int
    decreases s.len(),
{
    if s.len() == 0 {
        0
    } else {
        sum_of(s.drop_last()) + s.last()
    }
}

pub open spec fn max_of(s: Seq<int>) -> int
    recommends
        s.len() > 0,
    decreases s.len(),
{
    if s.len() <= 1 {
        s[0]
    } else {
        let m = max_of(s.drop_last());
        if s.last() > m {
            s.last()
        } else {
            m
        }
    }
}

/// Sum of the traffic intensities of all readings, whatever their class.
pub open spec fn total_intensity(rs: Seq<MeasurementData>) -> int
    decreases rs.len(),
{
    if rs.len() == 0 {
        0
    } else {
        total_intensity(rs.drop_last()) + rs.last().traffic_intensity
    }
}

/// `sum / n` rounded to the nearest integer, halves away from zero.
pub open spec fn rounded_mean(sum: int, n: int) -> int
    recommends
        n > 0,
{
    if sum >= 0 {
        (2 * sum + n) / (2 * n)
    } else {
        -((2 * (-sum) + n) / (2 * n))
    }
}

pub open spec fn average_speed_of(rs: Seq<MeasurementData>) -> Option<int> {
    let v = valid_speeds(rs);
    if v.len() == 0 {
        None
    } else {
        Some(rounded_mean(sum_of(v), v.len() as int))
    }
}

pub open spec fn max_speed_of(rs: Seq<MeasurementData>) -> Option<int> {
    let v = valid_speeds(rs);
    if v.len() == 0 {
        None
    } else {
        Some(max_of(v))
    }
}

pub open spec fn opt_i32(o: Option<int>) -> Option<i32> {
    match o {
        Some(v) => Some(v as i32),
        None => None,
    }
}

/// The aggregate of a measuring point; `None` where the total intensity does not fit
/// the `i32` column.
pub open spec fn aggregate_of(p: MeasuringPoint) -> Option<TrafficMeasurement> {
    let rs = p.measurement_data@;
    if i32::MIN <= total_intensity(rs) <= i32::MAX {
        Some(
            TrafficMeasurement {
                location_id: p.unique_id,
                observation_time: p.observation_time,
                occupancy_rate: p.calculated_data.occupancy_rate,
                availability_rate: p.calculated_data.availability_rate,
                total_vehicles_passed: total_intensity(rs) as i32,
                average_speed: opt_i32(average_speed_of(rs)),
                max_speed: opt_i32(max_speed_of(rs)),
            },
        )
    } else {
        None
    }
}

proof fn lemma_rounded_bound(s: int, n: int, m: int)
    requires
        n > 0,
        m >= 0,
        0 <= s <= n * m,
    ensures
        0 <= (2 * s + n) / (2 * n) <= m,
{
    let x = 2 * s + n;
    let d = 2 * n;
    lemma_fundamental_div_mod(x, d);
    let q = x / d;
    let r = x % d;
    assert(0 <= r < d);
    assert(x < d * (m + 1)) by (nonlinear_arith)
        requires
            x == 2 * s + n,
            d == 2 * n,
            s <= n * m,
            n > 0,
    ;
    assert(0 <= q <= m) by (nonlinear_arith)
        requires
            x == d * q + r,
            0 <= r < d,
            x < d * (m + 1),
            x >= 0,
            d > 0,
    ;
}

impl TrafficMeasurement {
    /// Collapses a measuring point's readings into its aggregate: total intensity over
    /// all readings, and the rounded mean and the maximum of the non-sentinel speeds.
    pub fn aggregate(point: &MeasuringPoint) -> (r: Option<TrafficMeasurement>)
        ensures
            r == aggregate_of(*point),
    {
        let rs = &point.measurement_data;
        let n = rs.len();
        let mut total: i128 = 0;
        let mut speed_sum: i128 = 0;
        let mut count: usize = 0;
        let mut max: i32 = 0;
        let mut i: usize = 0;
        while i < n
            invariant
                n == rs@.len(),
                i <= n,
                rs@ == point.measurement_data@,
                total == total_intensity(rs@.take(i as int)),
                -2147483648 * i <= total <= 2147483647 * i,
                count == valid_speeds(rs@.take(i as int)).len(),
                count <= i,
                speed_sum == sum_of(valid_speeds(rs@.take(i as int))),
                -2147483648 * count <= speed_sum <= 2147483647 * count,
                count > 0 ==> max == max_of(valid_speeds(rs@.take(i as int))),
            decreases n - i,
        {
            let reading = &rs[i];
            let v = reading.vehicle_speed_arithmetic;
            proof {
                assert(rs@.take(i + 1).drop_last() =~= rs@.take(i as int));
            }
            total = total + reading.traffic_intensity as i128;
            if !(v == 251 || v == 252 || v == 254) {
                proof {
                    let prev = valid_speeds(rs@.take(i as int));
                    assert(prev.push(v as int).drop_last() =~= prev);
                }
                speed_sum = speed_sum + v as i128;
                if count == 0 || v > max {
                    max = v;
                }
                count = count + 1;
            }
            i = i + 1;
        }
        proof {
            assert(rs@.take(n as int) =~= rs@);
        }
        if total < i32::MIN as i128 || total > i32::MAX as i128 {
            return None;
        }
        let (average_speed, max_speed) = if count == 0 {
            (None, None)
        } else {
            let c = count as i128;
            let avg = if speed_sum >= 0 {
                proof {
                    lemma_rounded_bound(speed_sum as int, c as int, 2147483647);
                }
                (2 * speed_sum + c) / (2 * c)
            } else {
                proof {
                    lemma_rounded_bound(-speed_sum, c as int, 2147483648);
                }
                -((2 * (-speed_sum) + c) / (2 * c))
            };
            (Some(avg as i32), Some(max))
        };
        Some(
            TrafficMeasurement {
                location_id: point.unique_id,
                observation_time: point.observation_time,
                occupancy_rate: point.calculated_data.occupancy_rate,
                availability_rate: point.calculated_data.availability_rate,
                total_vehicles_passed: total as i32,
                average_speed,
                max_speed,
            },
        )
    }
}

proof fn lemma_no_valid_speeds(rs: Seq<MeasurementData>)
    requires
        forall|i: int|
            0 <= i < rs.len() ==> is_sentinel_speed((#[trigger] rs[i]).vehicle_speed_arithmetic as int),
    ensures
        valid_speeds(rs).len() == 0,
    decreases rs.len(),
{
    if rs.len() > 0 {
        lemma_no_valid_speeds(rs.drop_last());
        assert(is_sentinel_speed(rs[rs.len() - 1].vehicle_speed_arithmetic as int));
    }
}

/// When every reading's speed is a sentinel code, the aggregate has neither an average
/// nor a maximum speed, and its total still sums the intensities of all readings.
pub proof fn law_all_sentinel_speeds(p: MeasuringPoint)
    requires
        forall|i: int|
            0 <= i < p.measurement_data@.len() ==> is_sentinel_speed(
                (#[trigger] p.measurement_data@[i]).vehicle_speed_arithmetic as int,
            ),
        i32::MIN <= total_intensity(p.measurement_data@) <= i32::MAX,
    ensures
        aggregate_of(p) matches Some(m) && m.average_speed is None && m.max_speed is None
            && m.total_vehicles_passed == total_intensity(p.measurement_data@),
{
    lemma_no_valid_speeds(p.measurement_data@);
}

} // verus!
