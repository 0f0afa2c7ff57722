//! Error measures of an estimator against known prices.
use vstd::prelude::*;
use crate::estimator::Estimator;
use crate::fixed::{clamp, div_floor, in_bounds, saturate, SCALE};
use crate::trainer::{lemma_take_last, valid_data};

verus! {

/// Error measures, in fixed point. The normalized and relative measures are
/// `None` where their denominator is zero.
#[derive(Debug, PartialEq, Eq, Structural)]
pub struct Accuracy {
    /// Mean absolute error.
    pub mae: i64,
    /// Mean absolute error over the width of the price range.
    pub nmae: Option<i64>,
    /// Root mean squared error.
    pub rmse: i64,
    /// Root mean squared error over the width of the price range.
    pub nrmse: Option<i64>,
    /// Sum of absolute errors over the sum of absolute deviations from the mean price.
    pub rae: Option<i64>,
    /// Root of the sum of squared errors over the sum of squared deviations from the mean price.
    pub rrse: Option<i64>,
}

/// An optional fixed-point value as an optional integer.
pub open spec fn widen(o: Option<i64>) -> Option<int> {
    match o {
        Some(v) => Some(v as int),
        None => None,
    }
}

/// `r` is the square root of `x`, rounded down.
pub open spec fn is_sqrt_floor(x: int, r: int) -> bool {
    0 <= r && r * r <= x < (r + 1) * (r + 1)
}

impl Estimator {
    /// What `estimate` returns for `mileage`.
    pub open spec fn estimate_of(&self, mileage: int) -> int {
        crate::estimator::estimate_spec(
            self.t0 as int,
            self.t1 as int,
            (self.km_range.0 as int, self.km_range.1 as int),
            (self.prices_range.0 as int, self.prices_range.1 as int),
            mileage,
        )
    }
}

/// Estimated minus known price of a record.
pub open spec fn error_of(e: Estimator, pt: (i64, i64)) -> int {
    e.estimate_of(pt.0 as int) - pt.1
}

/// Absolute value.
pub open spec fn abs(x: int) -> int {
    if x < 0 {
        -x
    } else {
        x
    }
}

/// Sum of the absolute errors.
pub open spec fn sum_abs_errors(s: Seq<(i64, i64)>, e: Estimator) -> int
    decreases s.len(),
{
    if s.len() == 0 {
        0
    } else {
        sum_abs_errors(s.drop_last(), e) + abs(error_of(e, s.last()))
    }
}

/// Sum of the squared errors.
pub open spec fn sum_sq_errors(s: Seq<(i64, i64)>, e: Estimator) -> int
    decreases s.len(),
{
    if s.len() == 0 {
        0
    } else {
        sum_sq_errors(s.drop_last(), e) + clamp(
            error_of(e, s.last()) * error_of(e, s.last()) / SCALE as int,
        )
    }
}

/// Sum of the known prices.
pub open spec fn sum_prices(s: Seq<(i64, i64)>) -> int
    decreases s.len(),
{
    if s.len() == 0 {
        0
    } else {
        sum_prices(s.drop_last()) + s.last().1
    }
}

/// Mean absolute deviation of the known prices from their mean.
pub open spec fn mean_abs_deviation(s: Seq<(i64, i64)>) -> int {
    clamp(sum_abs_deviations(s, mean_price(s)) / s.len() as int)
}

/// Mean squared deviation of the known prices from their mean.
pub open spec fn mean_sq_deviation(s: Seq<(i64, i64)>) -> int {
    clamp(sum_sq_deviations(s, mean_price(s)) / s.len() as int)
}

/// Sum of the absolute deviations of the known prices from `avg`.
pub open spec fn sum_abs_deviations(s: Seq<(i64, i64)>, avg: int) -> int
    decreases s.len(),
{
    if s.len() == 0 {
        0
    } else {
        sum_abs_deviations(s.drop_last(), avg) + abs(avg - s.last().1)
    }
}

/// Sum of the squared deviations of the known prices from `avg`.
pub open spec fn sum_sq_deviations(s: Seq<(i64, i64)>, avg: int) -> int
    decreases s.len(),
{
    if s.len() == 0 {
        0
    } else {
        sum_sq_deviations(s.drop_last(), avg) + clamp(
            (avg - s.last().1) * (avg - s.last().1) / SCALE as int,
        )
    }
}

/// Mean absolute error.
pub open spec fn mae_spec(s: Seq<(i64, i64)>, e: Estimator) -> int {
    clamp(sum_abs_errors(s, e) / s.len() as int)
}

/// Mean squared error.
pub open spec fn mse_spec(s: Seq<(i64, i64)>, e: Estimator) -> int {
    clamp(sum_sq_errors(s, e) / s.len() as int)
}

/// Mean known price.
pub open spec fn mean_price(s: Seq<(i64, i64)>) -> int {
    clamp(sum_prices(s) / s.len() as int)
}

/// `num / den` in fixed point, saturated; `None` where `den` is not positive.
pub open spec fn ratio(num: int, den: int) -> Option<int> {
    if den <= 0 {
        None
    } else {
        Some(clamp(num * SCALE as int / den))
    }
}

/// The square root of `x`, rounded down.
pub fn sqrt_floor(x: u128) -> (r: u64)
    requires
        x <= 1_000_000_000_000_000_000_000_000_000_000,
    ensures
        is_sqrt_floor(x as int, r as int),
{
    let mut lo: u128 = 0;
    let mut hi: u128 = 1_000_000_000_000_001;
    assert(x < hi * hi) by (nonlinear_arith)
        requires
            x <= 1_000_000_000_000_000_000_000_000_000_000,
            hi == 1_000_000_000_000_001,
    ;
    while hi - lo > 1
        invariant
            lo < hi <= 1_000_000_000_000_001,
            lo * lo <= x < hi * hi,
        decreases hi - lo,
    {
        let mid: u128 = lo + (hi - lo) / 2;
        assert(mid * mid <= 1_000_000_000_000_001 * 1_000_000_000_000_001) by (nonlinear_arith)
            requires
                mid <= 1_000_000_000_000_001,
        ;
        if mid * mid <= x {
            lo = mid;
        } else {
            hi = mid;
        }
    }
    assert(hi == lo + 1);
    lo as u64
}

/// `num / den` in fixed point, saturated; `None` where `den` is not positive.
fn ratio_exec(num: i64, den: i64) -> (r: Option<i64>)
    requires
        in_bounds(num as int),
    ensures
        widen(r) == ratio(num as int, den as int),
{
    if den <= 0 {
        None
    } else {
        Some(saturate(div_floor(num as i128 * 1_000_000i128, den as i128)))
    }
}

/// The square root of a non-negative fixed-point value, in fixed point.
fn sqrt_fixed(x: i64) -> (r: i64)
    requires
        0 <= x,
        in_bounds(x as int),
    ensures
        is_sqrt_floor(x * SCALE as int, r as int),
        in_bounds(r as int),
{
    let v: u128 = x as u128 * 1_000_000u128;
    let r = sqrt_floor(v);
    assert(r <= 1_000_000_000_000) by (nonlinear_arith)
        requires
            (r as int) * (r as int) <= v,
            v <= 1_000_000_000_000_000_000_000,
            r >= 0,
    ;
    r as i64
}

/// Sums of absolute errors, of squared errors and of known prices.
fn error_sums(known: &Vec<(i64, i64)>, estimator: &Estimator) -> (r: (i128, i128, i128))
    requires
        valid_data(known@),
    ensures
        r.0 == sum_abs_errors(known@, *estimator),
        r.1 == sum_sq_errors(known@, *estimator),
        r.2 == sum_prices(known@),
        0 <= r.0 <= 2_000_000_000_000_000 * known@.len(),
        0 <= r.1 <= 1_000_000_000_000_000 * known@.len(),
        -1_000_000_000_000_000 * known@.len() <= r.2 <= 1_000_000_000_000_000 * known@.len(),
{
    let n = known.len();
    let mut a: i128 = 0;
    let mut b: i128 = 0;
    let mut c: i128 = 0;
    let mut i: usize = 0;
    while i < n
        invariant
            n == known@.len(),
            valid_data(known@),
            0 <= i <= n,
            a == sum_abs_errors(known@.take(i as int), *estimator),
            b == sum_sq_errors(known@.take(i as int), *estimator),
            c == sum_prices(known@.take(i as int)),
            0 <= a <= 2_000_000_000_000_000 * i,
            0 <= b <= 1_000_000_000_000_000 * i,
            -1_000_000_000_000_000 * i <= c <= 1_000_000_000_000_000 * i,
        decreases n - i,
    {
        let (m, p) = known[i];
        proof {
            lemma_take_last(known@, i as int);
            assert(in_bounds(known@[i as int].0 as int) && in_bounds(known@[i as int].1 as int));
            assert(i + 1 <= 0x1_0000_0000_0000_0000);
        }
        let err: i128 = estimator.estimate(m) as i128 - p as i128;
        let abs_err: i128 = if err < 0 {
            -err
        } else {
            err
        };
        assert(0 <= (err as int) * (err as int) <= 0x40_0000_0000_0000_0000_0000_0000) by (nonlinear_arith)
            requires
                -0x8_0000_0000_0000 <= err <= 0x8_0000_0000_0000,
        ;
        let sq = saturate(div_floor(err * err, 1_000_000i128));
        a = a + abs_err;
        b = b + sq as i128;
        c = c + p as i128;
        i = i + 1;
    }
    proof {
        assert(known@.take(n as int) =~= known@);
    }
    (a, b, c)
}

/// Sums of absolute and of squared deviations of the known prices from `avg`.
fn deviation_sums(known: &Vec<(i64, i64)>, avg: i64) -> (r: (i128, i128))
    requires
        valid_data(known@),
        in_bounds(avg as int),
    ensures
        r.0 == sum_abs_deviations(known@, avg as int),
        r.1 == sum_sq_deviations(known@, avg as int),
        0 <= r.0 <= 2_000_000_000_000_000 * known@.len(),
        0 <= r.1 <= 1_000_000_000_000_000 * known@.len(),
{
    let n = known.len();
    let mut a: i128 = 0;
    let mut b: i128 = 0;
    let mut i: usize = 0;
    while i < n
        invariant
            n == known@.len(),
            valid_data(known@),
            in_bounds(avg as int),
            0 <= i <= n,
            a == sum_abs_deviations(known@.take(i as int), avg as int),
            b == sum_sq_deviations(known@.take(i as int), avg as int),
            0 <= a <= 2_000_000_000_000_000 * i,
            0 <= b <= 1_000_000_000_000_000 * i,
        decreases n - i,
    {
        let (_, p) = known[i];
        proof {
            lemma_take_last(known@, i as int);
            assert(in_bounds(known@[i as int].1 as int));
            assert(i + 1 <= 0x1_0000_0000_0000_0000);
        }
        let dev: i128 = avg as i128 - p as i128;
        let abs_dev: i128 = if dev < 0 {
            -dev
        } else {
            dev
        };
        assert(0 <= (dev as int) * (dev as int) <= 0x40_0000_0000_0000_0000_0000_0000) by (nonlinear_arith)
            requires
                -0x8_0000_0000_0000 <= dev <= 0x8_0000_0000_0000,
        ;
        let sq = saturate(div_floor(dev * dev, 1_000_000i128));
        a = a + abs_dev;
        b = b + sq as i128;
        i = i + 1;
    }
    proof {
        assert(known@.take(n as int) =~= known@);
    }
    (a, b)
}

/// The error measures of `estimator` over the records of `known`.
pub fn accuracy(known: &Vec<(i64, i64)>, estimator: &Estimator) -> (r: Accuracy)
    requires
        known@.len() > 0,
        valid_data(known@),
    ensures
        r.mae == mae_spec(known@, *estimator),
        is_sqrt_floor(mse_spec(known@, *estimator) * SCALE as int, r.rmse as int),
        widen(r.nmae) == ratio(
            r.mae as int,
            estimator.prices_range.1 - estimator.prices_range.0,
        ),
        widen(r.nrmse) == ratio(
            r.rmse as int,
            estimator.prices_range.1 - estimator.prices_range.0,
        ),
        widen(r.rae) == ratio(r.mae as int, mean_abs_deviation(known@)),
        r.rrse is Some <==> mean_sq_deviation(known@) > 0,
        r.rrse matches Some(v) ==> is_sqrt_floor(
            ratio(mse_spec(known@, *estimator), mean_sq_deviation(known@))->Some_0 * SCALE as int,
            v as int,
        ),
{
    let n = known.len() as i128;
    let (abs_sum, sq_sum, price_sum) = error_sums(known, estimator);
    let mae = saturate(div_floor(abs_sum, n));
    let mse = saturate(div_floor(sq_sum, n));
    let avg = saturate(div_floor(price_sum, n));
    let (abs_dev_sum, sq_dev_sum) = deviation_sums(known, avg);
    let mad = saturate(div_floor(abs_dev_sum, n));
    let msd = saturate(div_floor(sq_dev_sum, n));
    proof {
        vstd::arithmetic::div_mod::lemma_div_pos_is_pos(sq_sum as int, n as int);
    }
    let rmse = sqrt_fixed(mse);
    let width = estimator.prices_range.1 as i128 - estimator.prices_range.0 as i128;
    let nmae = ratio_wide(mae, width);
    let nrmse = ratio_wide(rmse, width);
    let rae = ratio_exec(mae, mad);
    let rrse = match ratio_exec(mse, msd) {
        None => None,
        Some(q) => {
            proof {
                vstd::arithmetic::div_mod::lemma_div_pos_is_pos(mse as int * SCALE as int, msd as int);
            }
            Some(sqrt_fixed(q))
        },
    };
    Accuracy { mae, nmae, rmse, nrmse, rae, rrse }
}

/// `num / den` in fixed point, saturated; `None` where `den` is not positive.
fn ratio_wide(num: i64, den: i128) -> (r: Option<i64>)
    requires
        in_bounds(num as int),
    ensures
        widen(r) == ratio(num as int, den as int),
{
    if den <= 0 {
        None
    } else {
        Some(saturate(div_floor(num as i128 * 1_000_000i128, den)))
    }
}

proof fn lemma_exact_sums(s: Seq<(i64, i64)>, e: Estimator)
    requires
        forall|i: int| 0 <= i < s.len() ==> #[trigger] error_of(e, s[i]) == 0,
    ensures
        sum_abs_errors(s, e) == 0,
        sum_sq_errors(s, e) == 0,
    decreases s.len(),
{
    if s.len() > 0 {
        let t = s.drop_last();
        assert forall|i: int| 0 <= i < t.len() implies #[trigger] error_of(e, t[i]) == 0 by {
            assert(t[i] == s[i]);
        }
        lemma_exact_sums(t, e);
        assert(error_of(e, s[s.len() - 1]) == 0);
    }
}

/// Where the estimator gives every known price exactly, the mean absolute
/// error and the root mean squared error are zero.
pub proof fn lemma_exact_model_has_no_error(s: Seq<(i64, i64)>, e: Estimator)
    requires
        s.len() > 0,
        forall|i: int| 0 <= i < s.len() ==> e.estimate_of(#[trigger] s[i].0 as int) == s[i].1,
    ensures
        mae_spec(s, e) == 0,
        mse_spec(s, e) == 0,
        forall|r: int| #[trigger] is_sqrt_floor(mse_spec(s, e) * SCALE as int, r) ==> r == 0,
{
    assert forall|i: int| 0 <= i < s.len() implies #[trigger] error_of(e, s[i]) == 0 by {
        assert(e.estimate_of(s[i].0 as int) == s[i].1);
    }
    lemma_exact_sums(s, e);
    assert forall|r: int| #[trigger] is_sqrt_floor(mse_spec(s, e) * SCALE as int, r) implies r == 0 by {
        assert(r == 0) by (nonlinear_arith)
            requires
                0 <= r,
                r * r <= 0,
        ;
    }
}

} // verus!
