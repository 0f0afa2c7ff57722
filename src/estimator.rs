//! Price estimation from a fitted model and the ranges of its training data.
use vstd::prelude::*;
use crate::fixed::{clamp, in_bounds, SCALE};
use vstd::arithmetic::div_mod::{lemma_div_is_ordered, lemma_fundamental_div_mod, lemma_mod_bound};
use crate::trainer::{predict, predict_exec};
use crate::utils::{denormalize_elem, denormalize_spec, min_max, normalize_elem, normalize_spec, ranges};

verus! {

/// Why an estimator could not be built.
#[derive(Debug, PartialEq, Eq, Structural)]
pub enum EstimatorError {
    /// The training dataset holds no record.
    DataUnavailable,
}

/// A fitted model `(t0, t1)` in normalized space, with the mileage and price
/// ranges of the dataset that it was trained on. It does not change once built.
#[derive(Debug)]
pub struct Estimator {
    pub t0: i64,
    pub t1: i64,
    pub km_range: (i64, i64),
    pub prices_range: (i64, i64),
}

/// Price estimated for `mileage` by the model `(t0, t1)` trained on data with
/// mileage range `km` and price range `pr`.
pub open spec fn estimate_spec(t0: int, t1: int, km: (int, int), pr: (int, int), mileage: int) -> int {
    denormalize_spec(predict(t0, t1, normalize_spec(mileage, km.0, km.1)), pr.0, pr.1)
}

impl Estimator {
    /// Builds an estimator from persisted parameters, or from `(0, 0)` where
    /// none could be read, and from the training dataset.
    pub fn new(thetas: Option<(i64, i64)>, km_prices: &Vec<(i64, i64)>) -> (r: Result<Estimator, EstimatorError>)
        ensures
            km_prices@.len() == 0 <==> r is Err,
            r matches Err(e) ==> e == EstimatorError::DataUnavailable,
            r matches Ok(e) ==> {
                &&& thetas matches Some(t) ==> e.t0 == t.0 && e.t1 == t.1
                &&& thetas is None ==> e.t0 == 0 && e.t1 == 0
                &&& e.km_range.0 == ranges(km_prices@).0.0
                &&& e.km_range.1 == ranges(km_prices@).0.1
                &&& e.prices_range.0 == ranges(km_prices@).1.0
                &&& e.prices_range.1 == ranges(km_prices@).1.1
            },
    {
        if km_prices.len() == 0 {
            return Err(EstimatorError::DataUnavailable);
        }
        let (t0, t1) = match thetas {
            Some(t) => t,
            None => (0, 0),
        };
        let (km_range, prices_range) = min_max(km_prices);
        Ok(Estimator { t0, t1, km_range, prices_range })
    }

    /// The estimated price for `mileage`; mileages outside the training range
    /// are extrapolated along the same line.
    pub fn estimate(&self, mileage: i64) -> (r: i64)
        ensures
            r == estimate_spec(
                self.t0 as int,
                self.t1 as int,
                (self.km_range.0 as int, self.km_range.1 as int),
                (self.prices_range.0 as int, self.prices_range.1 as int),
                mileage as int,
            ),
            in_bounds(r as int),
    {
        let norm_mileage = normalize_elem(mileage, self.km_range.0, self.km_range.1);
        let norm_estimation = predict_exec(self.t0, self.t1, norm_mileage);
        denormalize_elem(norm_estimation, self.prices_range.0, self.prices_range.1)
    }

    /// The lowest price of the training data.
    pub fn min_price(&self) -> (r: i64)
        ensures
            r == self.prices_range.0,
    {
        self.prices_range.0
    }

    /// The highest price of the training data.
    pub fn max_price(&self) -> (r: i64)
        ensures
            r == self.prices_range.1,
    {
        self.prices_range.1
    }
}

/// Saturation keeps order.
proof fn lemma_clamp_monotone(x: int, y: int)
    requires
        x <= y,
    ensures
        clamp(x) <= clamp(y),
{
}

/// Estimates follow the sign of the slope: with `t1 >= 0` a larger mileage
/// never gets a lower estimate, and with `t1 <= 0` never a higher one.
pub proof fn lemma_estimate_monotone(
    t0: int,
    t1: int,
    km: (int, int),
    pr: (int, int),
    a: int,
    b: int,
)
    requires
        pr.0 <= pr.1,
        a <= b,
    ensures
        t1 >= 0 ==> estimate_spec(t0, t1, km, pr, a) <= estimate_spec(t0, t1, km, pr, b),
        t1 <= 0 ==> estimate_spec(t0, t1, km, pr, a) >= estimate_spec(t0, t1, km, pr, b),
{
    let sc = SCALE as int;
    let na = normalize_spec(a, km.0, km.1);
    let nb = normalize_spec(b, km.0, km.1);
    if km.0 < km.1 {
        assert((a - km.0) * sc <= (b - km.0) * sc) by (nonlinear_arith)
            requires
                a <= b,
                sc > 0,
        ;
        lemma_div_is_ordered((a - km.0) * sc, (b - km.0) * sc, km.1 - km.0);
        lemma_clamp_monotone((a - km.0) * sc / (km.1 - km.0), (b - km.0) * sc / (km.1 - km.0));
    }
    assert(na <= nb);
    let w = pr.1 - pr.0;
    if t1 >= 0 {
        assert(t1 * na <= t1 * nb) by (nonlinear_arith)
            requires
                na <= nb,
                t1 >= 0,
        ;
        lemma_div_is_ordered(t1 * na, t1 * nb, sc);
        lemma_clamp_monotone(t0 + t1 * na / sc, t0 + t1 * nb / sc);
        let pa = predict(t0, t1, na);
        let pb = predict(t0, t1, nb);
        assert(pa * w <= pb * w) by (nonlinear_arith)
            requires
                pa <= pb,
                w >= 0,
        ;
        lemma_div_is_ordered(pa * w, pb * w, sc);
        lemma_clamp_monotone(pa * w / sc + pr.0, pb * w / sc + pr.0);
    }
    if t1 <= 0 {
        assert(t1 * nb <= t1 * na) by (nonlinear_arith)
            requires
                na <= nb,
                t1 <= 0,
        ;
        lemma_div_is_ordered(t1 * nb, t1 * na, sc);
        lemma_clamp_monotone(t0 + t1 * nb / sc, t0 + t1 * na / sc);
        let pa = predict(t0, t1, na);
        let pb = predict(t0, t1, nb);
        assert(pb * w <= pa * w) by (nonlinear_arith)
            requires
                pb <= pa,
                w >= 0,
        ;
        lemma_div_is_ordered(pb * w, pa * w, sc);
        lemma_clamp_monotone(pb * w / sc + pr.0, pa * w / sc + pr.0);
    }
}

/// None of the three steps of an estimate for `x` saturates.
pub open spec fn unsaturated(t0: int, t1: int, km: (int, int), pr: (int, int), x: int) -> bool {
    let n = (x - km.0) * SCALE as int / (km.1 - km.0);
    let p = t0 + t1 * n / SCALE as int;
    &&& in_bounds(n)
    &&& in_bounds(p)
    &&& in_bounds(p * (pr.1 - pr.0) / SCALE as int + pr.0)
}

/// Absolute value.
pub open spec fn abs_int(x: int) -> int {
    if x < 0 {
        -x
    } else {
        x
    }
}

/// The rounding error of one estimate: scaled by `K * SCALE^2`, with `K` the
/// mileage range's width and `W` the price range's width, the estimate lies
/// below the exact line `pr.0 + W * (t0 / SCALE + t1 * (x - km.0) / (K * SCALE))`
/// by less than `K * ((|t1| + SCALE) * W + SCALE^2)`.
pub proof fn lemma_estimate_rounding(t0: int, t1: int, km: (int, int), pr: (int, int), x: int)
    requires
        km.0 < km.1,
        pr.0 <= pr.1,
        unsaturated(t0, t1, km, pr, x),
    ensures
        abs_int(
            (estimate_spec(t0, t1, km, pr, x) - pr.0) * (km.1 - km.0) * SCALE * SCALE - (t0 * (
            km.1 - km.0) * SCALE + t1 * (x - km.0) * SCALE) * (pr.1 - pr.0),
        ) < (km.1 - km.0) * ((abs_int(t1) + SCALE) * (pr.1 - pr.0) + SCALE * SCALE),
{
    let sc = SCALE as int;
    let k = km.1 - km.0;
    let w = pr.1 - pr.0;
    let xs = (x - km.0) * sc;
    let n = xs / k;
    lemma_fundamental_div_mod(xs, k);
    lemma_mod_bound(xs, k);
    let r1 = xs % k;
    let u = t1 * n;
    let q2 = u / sc;
    lemma_fundamental_div_mod(u, sc);
    lemma_mod_bound(u, sc);
    let r2 = u % sc;
    let p = t0 + q2;
    let v = p * w;
    let q3 = v / sc;
    lemma_fundamental_div_mod(v, sc);
    lemma_mod_bound(v, sc);
    let r3 = v % sc;
    assert(normalize_spec(x, km.0, km.1) == n);
    assert(predict(t0, t1, n) == p);
    let e = q3 + pr.0;
    assert(estimate_spec(t0, t1, km, pr, x) == e);
    assert(sc * q3 == p * w - r3);
    assert(sc * q2 == t1 * n - r2);
    assert(k * n == xs - r1);
    // the estimate's term, taken apart one rounding at a time
    assert((e - pr.0) * k * sc * sc == q3 * k * sc * sc);
    assert(q3 * k * sc * sc == (sc * q3) * (k * sc)) by (nonlinear_arith);
    assert((sc * q3) * (k * sc) == (p * w - r3) * (k * sc));
    assert((p * w - r3) * (k * sc) == p * w * k * sc - r3 * k * sc) by (nonlinear_arith);
    assert(p * w * k * sc == (t0 + q2) * w * k * sc);
    assert((t0 + q2) * w * k * sc == t0 * w * k * sc + (sc * q2) * (w * k)) by (nonlinear_arith);
    assert((sc * q2) * (w * k) == (t1 * n - r2) * (w * k));
    assert((t1 * n - r2) * (w * k) == (k * n) * (t1 * w) - r2 * w * k) by (nonlinear_arith);
    assert((k * n) * (t1 * w) == (xs - r1) * (t1 * w));
    assert((xs - r1) * (t1 * w) == xs * (t1 * w) - r1 * (t1 * w)) by (nonlinear_arith);
    assert(xs * (t1 * w) == (x - km.0) * sc * (t1 * w));
    // the exact line's term
    let y = x - km.0;
    assert((t0 * k * sc + t1 * y * sc) * w == (t0 * k * sc) * w + (t1 * y * sc) * w) by (nonlinear_arith);
    assert((t0 * k * sc) * w == t0 * w * k * sc) by (nonlinear_arith);
    assert((t1 * y * sc) * w == y * sc * (t1 * w)) by (nonlinear_arith);
    assert(r3 * k * sc == k * sc * r3) by (nonlinear_arith);
    assert(r2 * w * k == k * w * r2) by (nonlinear_arith);
    assert(r1 * (t1 * w) == w * t1 * r1) by (nonlinear_arith);
    let d = (e - pr.0) * k * sc * sc - (t0 * k * sc + t1 * (x - km.0) * sc) * w;
    assert(d == -(w * t1 * r1 + k * w * r2 + k * sc * r3));
    assert(abs_int(w * t1 * r1) <= k * abs_int(t1) * w) by (nonlinear_arith)
        requires
            0 <= r1 < k,
            w >= 0,
    ;
    assert(0 <= k * w * r2 < k * w * sc + 1) by (nonlinear_arith)
        requires
            0 <= r2 < sc,
            w >= 0,
            k > 0,
    ;
    assert(0 <= k * sc * r3 < k * sc * sc) by (nonlinear_arith)
        requires
            0 <= r3 < sc,
            k > 0,
            sc > 0,
    ;
    assert(k * ((abs_int(t1) + sc) * w + sc * sc) == k * abs_int(t1) * w + k * w * sc + k * sc * sc)
        by (nonlinear_arith);
}

/// Differences of estimates follow the slope of the model's line up to
/// rounding: scaled by `K * SCALE^2`, `estimate(a) - estimate(b)` differs from
/// `t1 * W * (a - b) * SCALE` by less than twice the bound of one estimate's
/// rounding (`K` and `W` are the widths of the mileage and price ranges).
/// Holds wherever neither estimate saturates.
pub proof fn lemma_estimate_linear(t0: int, t1: int, km: (int, int), pr: (int, int), a: int, b: int)
    requires
        km.0 < km.1,
        pr.0 <= pr.1,
        unsaturated(t0, t1, km, pr, a),
        unsaturated(t0, t1, km, pr, b),
    ensures
        abs_int(
            (estimate_spec(t0, t1, km, pr, a) - estimate_spec(t0, t1, km, pr, b)) * (km.1 - km.0)
                * SCALE * SCALE - t1 * (pr.1 - pr.0) * (a - b) * SCALE,
        ) < 2 * (km.1 - km.0) * ((abs_int(t1) + SCALE) * (pr.1 - pr.0) + SCALE * SCALE),
{
    lemma_estimate_rounding(t0, t1, km, pr, a);
    lemma_estimate_rounding(t0, t1, km, pr, b);
    let sc = SCALE as int;
    let k = km.1 - km.0;
    let w = pr.1 - pr.0;
    let ea = estimate_spec(t0, t1, km, pr, a);
    let eb = estimate_spec(t0, t1, km, pr, b);
    assert((ea - eb) * k * sc * sc == (ea - pr.0) * k * sc * sc - (eb - pr.0) * k * sc * sc)
        by (nonlinear_arith);
    let ya = a - km.0;
    let yb = b - km.0;
    assert((t0 * k * sc + t1 * ya * sc) * w == (t0 * k * sc) * w + (t1 * ya * sc) * w) by (nonlinear_arith);
    assert((t0 * k * sc + t1 * yb * sc) * w == (t0 * k * sc) * w + (t1 * yb * sc) * w) by (nonlinear_arith);
    let m = t1 * sc * w;
    assert((t1 * ya * sc) * w == ya * m) by (nonlinear_arith)
        requires
            m == t1 * sc * w,
    ;
    assert((t1 * yb * sc) * w == yb * m) by (nonlinear_arith)
        requires
            m == t1 * sc * w,
    ;
    vstd::arithmetic::mul::lemma_mul_is_distributive_sub_other_way(m, ya, yb);
    assert(ya - yb == a - b);
    assert((a - b) * m == t1 * w * (a - b) * sc) by (nonlinear_arith)
        requires
            m == t1 * sc * w,
    ;
    let bound = k * ((abs_int(t1) + sc) * w + sc * sc);
    let da = (ea - pr.0) * k * sc * sc - (t0 * k * sc + t1 * ya * sc) * w;
    let db = (eb - pr.0) * k * sc * sc - (t0 * k * sc + t1 * yb * sc) * w;
    assert(abs_int(da) < bound);
    assert(abs_int(db) < bound);
    assert((ea - eb) * k * sc * sc - t1 * w * (a - b) * sc == da - db);
    assert(2 * k * ((abs_int(t1) + sc) * w + sc * sc) == 2 * bound) by (nonlinear_arith)
        requires
            bound == k * ((abs_int(t1) + sc) * w + sc * sc),
    ;
}

} // verus!
