use vstd::prelude::*;
use crate::numeric::{
    all_digits, digit_value, digits_value, is_digit, lemma_digits_value_nonneg,
    lemma_digits_value_push,
};

verus! {

/// Fixed-point precision of a coordinate: one nanodegree.
pub const NANODEGREES_PER_DEGREE: i64 = 1_000_000_000;

/// Number of fractional digits of a decimal text that are kept.
pub const FRACTION_DIGITS: usize = 9;

/// Exclusive bound on the whole degrees of a parsed value.
pub const WHOLE_DEGREES_BOUND: i64 = 1_000_000_000;

/// A latitude, a longitude or a planar distance, in nanodegrees.
#[derive(Debug, Clone, Copy, PartialEq, Eq, Structural)]
pub struct Coordinate {
    pub nanodegrees: i64,
}

pub open spec fn pow10(n: nat) -> int
    decreases n,
{
    if n == 0 {
        1
    } else {
        10 * pow10((n - 1) as nat)
    }
}

/// Length of the run of digits at the start of `s`.
pub open spec fn leading_digits(s: Seq<char>) -> nat
    decreases s.len(),
{
    if s.len() == 0 || !is_digit(s[0]) {
        0
    } else {
        1 + leading_digits(s.drop_first())
    }
}

/// Whole digits, then optionally `.` and fractional digits, with at least one digit
/// in all; fractional digits past the ninth are dropped.
pub open spec fn unsigned_nanodegrees(body: Seq<char>) -> Option<int> {
    let k = leading_digits(body) as int;
    let whole = body.take(k);
    let rest = body.skip(k);
    let frac = if rest.len() > 0 {
        rest.drop_first()
    } else {
        rest
    };
    let kept = if frac.len() <= FRACTION_DIGITS {
        frac.len()
    } else {
        FRACTION_DIGITS as nat
    };
    if rest.len() > 0 && !(rest[0] == '.' && all_digits(frac)) {
        None
    } else if k + frac.len() == 0 {
        None
    } else if digits_value(whole) >= WHOLE_DEGREES_BOUND {
        None
    } else {
        Some(
            digits_value(whole) * NANODEGREES_PER_DEGREE + digits_value(frac.take(kept as int))
                * pow10((FRACTION_DIGITS - kept) as nat),
        )
    }
}

/// A dot-decimal number of degrees with an optional sign, in nanodegrees.
pub open spec fn decimal_nanodegrees(s: Seq<char>) -> Option<int> {
    if s.len() > 0 && (s[0] == '-' || s[0] == '+') {
        match unsigned_nanodegrees(s.drop_first()) {
            Some(v) => Some(
                if s[0] == '-' {
                    -v
                } else {
                    v
                },
            ),
            None => None,
        }
    } else {
        unsigned_nanodegrees(s)
    }
}

proof fn lemma_leading_digits(s: Seq<char>, k: int)
    requires
        0 <= k <= s.len(),
        all_digits(s.take(k)),
        k == s.len() || !is_digit(s[k]),
    ensures
        leading_digits(s) == k,
    decreases k,
{
    if k > 0 {
        assert(is_digit(s.take(k)[0]));
        let t = s.drop_first();
        assert forall|i: int| 0 <= i < k - 1 implies is_digit(#[trigger] t.take(k - 1)[i]) by {
            assert(s.take(k)[i + 1] == t.take(k - 1)[i]);
        }
        if k < s.len() {
            assert(t[k - 1] == s[k]);
        }
        lemma_leading_digits(t, k - 1);
    }
}

proof fn lemma_pow10_bounds(n: nat)
    ensures
        pow10(n) >= 1,
    decreases n,
{
    if n > 0 {
        lemma_pow10_bounds((n - 1) as nat);
    }
}

proof fn lemma_digits_value_bound(s: Seq<char>)
    requires
        all_digits(s),
    ensures
        0 <= digits_value(s) < pow10(s.len()),
    decreases s.len(),
{
    if s.len() > 0 {
        assert(all_digits(s.drop_last()));
        lemma_digits_value_bound(s.drop_last());
        assert(is_digit(s[s.len() - 1]));
    }
}

impl Coordinate {
    /// Parses dot-decimal degrees such as `51.0234` or `-3.5` into nanodegrees.
    pub fn parse_decimal(text: &str) -> (r: Option<Coordinate>)
        ensures
            match decimal_nanodegrees(text@) {
                Some(v) => r == Some(Coordinate { nanodegrees: v as i64 }),
                None => r is None,
            },
            r matches Some(c) ==> decimal_nanodegrees(text@) == Some(c.nanodegrees as int),
    {
        let ghost s = text@;
        let n = text.unicode_len();
        let mut start: usize = 0;
        let mut negative = false;
        if n > 0 {
            let c0 = text.get_char(0);
            if c0 == '-' || c0 == '+' {
                start = 1;
                negative = c0 == '-';
            }
        }
        let ghost body = s.skip(start as int);
        assert(start == 1 ==> body =~= s.drop_first());
        assert(start == 0 ==> body =~= s);
        // whole degrees
        let mut i: usize = start;
        let mut whole: i64 = 0;
        while i < n
            invariant_except_break
                start <= i <= n,
                n == s.len(),
                s == text@,
                body == s.skip(start as int),
                all_digits(body.take(i - start)),
                0 <= whole < 10 * WHOLE_DEGREES_BOUND,
                digits_value(body.take(i - start)) < WHOLE_DEGREES_BOUND ==> whole == digits_value(
                    body.take(i - start),
                ),
                digits_value(body.take(i - start)) >= WHOLE_DEGREES_BOUND ==> whole
                    >= WHOLE_DEGREES_BOUND,
            ensures
                start <= i <= n,
                all_digits(body.take(i - start)),
                i == n || !is_digit(body[i - start]),
                0 <= whole < 10 * WHOLE_DEGREES_BOUND,
                digits_value(body.take(i - start)) < WHOLE_DEGREES_BOUND ==> whole == digits_value(
                    body.take(i - start),
                ),
                digits_value(body.take(i - start)) >= WHOLE_DEGREES_BOUND ==> whole
                    >= WHOLE_DEGREES_BOUND,
            decreases n - i,
        {
            let c = text.get_char(i);
            assert(body[i - start] == c);
            if !('0' <= c && c <= '9') {
                break;
            }
            let d = (c as u32 - '0' as u32) as i64;
            proof {
                let k = i - start;
                lemma_digits_value_push(body, k as int);
                lemma_digits_value_nonneg(body.take(k as int));
                assert forall|j: int| 0 <= j < k + 1 implies is_digit(
                    #[trigger] body.take(k + 1)[j],
                ) by {
                    if j < k {
                        assert(body.take(k + 1)[j] == body.take(k as int)[j]);
                    }
                }
            }
            if whole < WHOLE_DEGREES_BOUND {
                whole = whole * 10 + d;
            }
            i = i + 1;
        }
        let whole_digits: usize = i - start;
        let ghost k = whole_digits as int;
        proof {
            lemma_leading_digits(body, k);
            lemma_digits_value_nonneg(body.take(k));
        }
        let ghost rest = body.skip(k);
        let ghost frac = if rest.len() > 0 {
            rest.drop_first()
        } else {
            rest
        };
        // fractional digits
        let mut frac_digits: usize = 0;
        let mut frac_value: i64 = 0;
        if i < n {
            let c = text.get_char(i);
            assert(rest[0] == c);
            if c != '.' {
                return None;
            }
            let dot = i;
            i = i + 1;
            assert(frac =~= s.skip(dot as int + 1));
            while i < n
                invariant_except_break
                    dot < i <= n,
                    n == s.len(),
                    s == text@,
                    body == s.skip(start as int),
                    rest == body.skip(k),
                    frac == rest.drop_first(),
                    frac == s.skip(dot as int + 1),
                    dot == start + k,
                    frac_digits == i - dot - 1,
                    all_digits(frac.take(frac_digits as int)),
                    frac_digits <= FRACTION_DIGITS ==> frac_value == digits_value(
                        frac.take(frac_digits as int),
                    ),
                    frac_digits > FRACTION_DIGITS ==> frac_value == digits_value(
                        frac.take(FRACTION_DIGITS as int),
                    ),
                    0 <= frac_value < NANODEGREES_PER_DEGREE,
                ensures
                    dot < i <= n,
                    frac_digits == i - dot - 1,
                    all_digits(frac.take(frac_digits as int)),
                    i < n ==> !is_digit(frac[frac_digits as int]),
                    frac_digits <= FRACTION_DIGITS ==> frac_value == digits_value(
                        frac.take(frac_digits as int),
                    ),
                    frac_digits > FRACTION_DIGITS ==> frac_value == digits_value(
                        frac.take(FRACTION_DIGITS as int),
                    ),
                    0 <= frac_value < NANODEGREES_PER_DEGREE,
                decreases n - i,
            {
                let c = text.get_char(i);
                assert(frac[frac_digits as int] == c);
                if !('0' <= c && c <= '9') {
                    break;
                }
                let d = (c as u32 - '0' as u32) as i64;
                proof {
                    let m = frac_digits as int;
                    lemma_digits_value_push(frac, m);
                    assert forall|j: int| 0 <= j < m + 1 implies is_digit(
                        #[trigger] frac.take(m + 1)[j],
                    ) by {
                        if j < m {
                            assert(frac.take(m + 1)[j] == frac.take(m)[j]);
                        }
                    }
                    if m < FRACTION_DIGITS {
                        lemma_digits_value_bound(frac.take(m + 1));
                        assert(pow10((m + 1) as nat) <= pow10(FRACTION_DIGITS as nat)) by {
                            reveal_with_fuel(pow10, 10);
                        }
                        assert(pow10(FRACTION_DIGITS as nat) == NANODEGREES_PER_DEGREE) by {
                            reveal_with_fuel(pow10, 10);
                        }
                    }
                }
                if frac_digits < FRACTION_DIGITS {
                    frac_value = frac_value * 10 + d;
                }
                frac_digits = frac_digits + 1;
                i = i + 1;
            }
            if i < n {
                return None;
            }
            assert(frac.take(frac_digits as int) =~= frac);
        } else {
            assert(rest.len() == 0);
        }
        if whole_digits == 0 && frac_digits == 0 {
            return None;
        }
        if whole >= WHOLE_DEGREES_BOUND {
            return None;
        }
        // scale the kept fractional digits up to nanodegrees
        let mut scaled = frac_value;
        let mut kept: usize = if frac_digits <= FRACTION_DIGITS {
            frac_digits
        } else {
            FRACTION_DIGITS
        };
        let ghost kept0 = kept;
        proof {
            assert(frac.len() == frac_digits);
            assert(frac_value == digits_value(frac.take(kept0 as int)));
            assert(pow10(0) == 1);
            lemma_digits_value_bound(frac.take(kept0 as int));
            lemma_pow10_add(kept0 as nat, (FRACTION_DIGITS - kept0) as nat);
            assert(pow10(FRACTION_DIGITS as nat) == NANODEGREES_PER_DEGREE) by {
                reveal_with_fuel(pow10, 10);
            }
            lemma_pow10_bounds((FRACTION_DIGITS - kept0) as nat);
            assert(frac_value < NANODEGREES_PER_DEGREE) by (nonlinear_arith)
                requires
                    0 <= frac_value < pow10(kept0 as nat),
                    pow10((FRACTION_DIGITS - kept0) as nat) >= 1,
                    pow10(kept0 as nat) * pow10((FRACTION_DIGITS - kept0) as nat) == NANODEGREES_PER_DEGREE,
            ;
        }
        while kept < FRACTION_DIGITS
            invariant
                kept0 <= kept <= FRACTION_DIGITS,
                scaled == frac_value * pow10((kept - kept0) as nat),
                0 <= scaled < NANODEGREES_PER_DEGREE,
                0 <= frac_value < pow10(kept0 as nat),
                pow10(kept0 as nat) * pow10((FRACTION_DIGITS - kept0) as nat) == NANODEGREES_PER_DEGREE,
            decreases FRACTION_DIGITS - kept,
        {
            proof {
                assert(pow10((kept + 1 - kept0) as nat) == 10 * pow10((kept - kept0) as nat));
                assert(pow10((kept - kept0) as nat) * 10 <= pow10((FRACTION_DIGITS - kept0) as nat))
                    by {
                    lemma_pow10_mono((kept + 1 - kept0) as nat, (FRACTION_DIGITS - kept0) as nat);
                }
                lemma_pow10_bounds((kept - kept0) as nat);
                assert(frac_value * pow10((kept - kept0) as nat) * 10 < NANODEGREES_PER_DEGREE)
                    by (nonlinear_arith)
                    requires
                        0 <= frac_value < pow10(kept0 as nat),
                        pow10((kept - kept0) as nat) * 10 <= pow10((FRACTION_DIGITS - kept0) as nat),
                        pow10(kept0 as nat) * pow10((FRACTION_DIGITS - kept0) as nat) == NANODEGREES_PER_DEGREE,
                        pow10((kept - kept0) as nat) >= 1,
                ;
                assert(frac_value * pow10((kept - kept0) as nat) * 10 == frac_value * pow10(
                    (kept + 1 - kept0) as nat,
                )) by (nonlinear_arith)
                    requires
                        pow10((kept + 1 - kept0) as nat) == 10 * pow10((kept - kept0) as nat),
                ;
            }
            scaled = scaled * 10;
            kept = kept + 1;
        }
        let unsigned = whole * NANODEGREES_PER_DEGREE + scaled;
        proof {
            assert(whole == digits_value(body.take(k)));
            assert(unsigned_nanodegrees(body) == Some(unsigned as int));
        }
        if negative {
            Some(Coordinate { nanodegrees: -unsigned })
        } else {
            Some(Coordinate { nanodegrees: unsigned })
        }
    }
}

/// The planar distance predicate of the store: the point lies within `radius` of the
/// centre, distance and radius both in degrees; a negative radius admits nothing.
pub open spec fn within_radius(
    lat: Coordinate,
    lon: Coordinate,
    center_lat: Coordinate,
    center_lon: Coordinate,
    radius: Coordinate,
) -> bool {
    let dy = lat.nanodegrees - center_lat.nanodegrees;
    let dx = lon.nanodegrees - center_lon.nanodegrees;
    radius.nanodegrees >= 0 && dx * dx + dy * dy <= radius.nanodegrees * radius.nanodegrees
}

fn abs_diff(a: i64, b: i64) -> (r: u64)
    ensures
        r as int == (if a >= b {
            a - b
        } else {
            b - a
        }),
{
    if a >= b {
        (a as i128 - b as i128) as u64
    } else {
        (b as i128 - a as i128) as u64
    }
}

fn square(d: u64) -> (r: u128)
    ensures
        r as int == d as int * d as int,
{
    proof {
        assert(d as int * d as int <= u64::MAX as int * u64::MAX as int) by (nonlinear_arith)
            requires
                d <= u64::MAX,
        ;
        assert(u64::MAX as int * u64::MAX as int <= u128::MAX) by (nonlinear_arith);
    }
    (d as u128) * (d as u128)
}

/// Whether the point (`lat`, `lon`) lies within `radius` of (`center_lat`, `center_lon`).
pub fn is_within(
    lat: Coordinate,
    lon: Coordinate,
    center_lat: Coordinate,
    center_lon: Coordinate,
    radius: Coordinate,
) -> (r: bool)
    ensures
        r == within_radius(lat, lon, center_lat, center_lon, radius),
{
    if radius.nanodegrees < 0 {
        return false;
    }
    let dy = abs_diff(lat.nanodegrees, center_lat.nanodegrees);
    let dx = abs_diff(lon.nanodegrees, center_lon.nanodegrees);
    let limit = square(radius.nanodegrees as u64);
    let dx2 = square(dx);
    let dy2 = square(dy);
    proof {
        let ddx = lon.nanodegrees - center_lon.nanodegrees;
        let ddy = lat.nanodegrees - center_lat.nanodegrees;
        assert(ddx * ddx == dx as int * dx as int) by (nonlinear_arith)
            requires
                dx as int == ddx || dx as int == -ddx,
        ;
        assert(ddy * ddy == dy as int * dy as int) by (nonlinear_arith)
            requires
                dy as int == ddy || dy as int == -ddy,
        ;
    }
    match dx2.checked_add(dy2) {
        Some(total) => total <= limit,
        None => false,
    }
}

proof fn lemma_pow10_add(a: nat, b: nat)
    ensures
        pow10(a + b) == pow10(a) * pow10(b),
    decreases a,
{
    if a > 0 {
        lemma_pow10_add((a - 1) as nat, b);
        assert(pow10(a + b) == 10 * pow10((a - 1 + b) as nat));
        assert(10 * (pow10((a - 1) as nat) * pow10(b)) == (10 * pow10((a - 1) as nat)) * pow10(b))
            by (nonlinear_arith);
    }
}

proof fn lemma_pow10_mono(a: nat, b: nat)
    requires
        a <= b,
    ensures
        pow10(a) <= pow10(b),
    decreases b,
{
    if a < b {
        lemma_pow10_mono(a, (b - 1) as nat);
        lemma_pow10_bounds((b - 1) as nat);
    }
}

} // verus!
