use ft_linear_regression::accuracy::{accuracy, sqrt_floor};
use ft_linear_regression::estimator::{Estimator, EstimatorError};
use ft_linear_regression::fixed::{div_floor, saturate, LIMIT, SCALE};
use ft_linear_regression::trainer::{
    gradient_descent, gradient_descent_traced, loss, progress_due, DEFAULT_ITERATIONS,
    DEFAULT_LEARNING_RATE,
};
use ft_linear_regression::utils::{denormalize_elem, min_max, normalize_data, normalize_elem};

fn fx(units: i64) -> i64 {
    units * SCALE
}

fn pairs(raw: &[(i64, i64)]) -> Vec<(i64, i64)> {
    raw.iter().map(|&(m, p)| (fx(m), fx(p))).collect()
}

#[test]
fn min_max_of_three_records() {
    let data = pairs(&[(10, 100), (50, 300), (30, 200)]);
    let ((min0, max0), (min1, max1)) = min_max(&data);
    assert_eq!((min0, max0), (fx(10), fx(50)));
    assert_eq!((min1, max1), (fx(100), fx(300)));
}

#[test]
fn min_max_of_nothing() {
    let data: Vec<(i64, i64)> = Vec::new();
    assert_eq!(min_max(&data), ((i64::MAX, i64::MIN), (i64::MAX, i64::MIN)));
}

#[test]
fn normalize_exact_values() {
    assert_eq!(normalize_elem(fx(30), fx(10), fx(50)), 500_000);
    assert_eq!(normalize_elem(fx(10), fx(10), fx(50)), 0);
    assert_eq!(normalize_elem(fx(50), fx(10), fx(50)), SCALE);
    assert_eq!(normalize_elem(fx(0), fx(10), fx(50)), -250_000);
    assert_eq!(normalize_elem(1, 0, 3), 333_333);
    assert_eq!(normalize_elem(-1, 0, 3), -333_334);
}

#[test]
fn normalize_degenerate_range_gives_zero() {
    assert_eq!(normalize_elem(fx(7), fx(5), fx(5)), 0);
    assert_eq!(normalize_elem(fx(5), fx(5), fx(5)), 0);
}

#[test]
fn normalize_saturates() {
    assert_eq!(normalize_elem(i64::MAX, 0, 1), LIMIT);
    assert_eq!(normalize_elem(i64::MIN, 0, 1), -LIMIT);
}

#[test]
fn denormalize_exact_values() {
    assert_eq!(denormalize_elem(500_000, fx(10), fx(50)), fx(30));
    assert_eq!(denormalize_elem(0, fx(10), fx(50)), fx(10));
    assert_eq!(denormalize_elem(SCALE, fx(10), fx(50)), fx(50));
    assert_eq!(denormalize_elem(-250_000, fx(10), fx(50)), fx(0));
}

#[test]
fn round_trip_stays_close() {
    let (lo, hi) = (fx(22_899), fx(240_000));
    for v in [fx(22_899), fx(61_789), 123_456_789_012, fx(240_000)] {
        let back = denormalize_elem(normalize_elem(v, lo, hi), lo, hi);
        assert!(back <= v);
        assert!((v - back) * SCALE < (hi - lo) + SCALE);
    }
}

#[test]
fn normalize_data_uses_each_column_range() {
    let mut data = pairs(&[(10, 100), (50, 300), (30, 200)]);
    normalize_data(&mut data);
    assert_eq!(data, vec![(0, 0), (SCALE, SCALE), (500_000, 500_000)]);
}

#[test]
fn zero_learning_rate_keeps_origin() {
    let mut data = pairs(&[(10, 100), (50, 300), (30, 250)]);
    normalize_data(&mut data);
    assert_eq!(gradient_descent(&data, 0, 100), (0, 0));
}

#[test]
fn zero_iterations_keep_origin() {
    let data = vec![(0, SCALE), (SCALE, 0)];
    assert_eq!(gradient_descent(&data, DEFAULT_LEARNING_RATE, 0), (0, 0));
    assert_eq!(gradient_descent(&data, fx(1000), 0), (0, 0));
}

#[test]
fn loss_of_model_never_rises() {
    let mut data = pairs(&[(240_000, 3650), (139_800, 3800), (150_500, 4400), (74_000, 6800), (22_899, 7990)]);
    normalize_data(&mut data);
    let mut last = i64::MAX;
    for k in 1..40 {
        let (t0, t1) = gradient_descent(&data, DEFAULT_LEARNING_RATE, k);
        let l = loss(t0, t1, &data);
        assert!(l <= last);
        last = l;
    }
}

#[test]
fn large_learning_rate_is_halved_on_rejection() {
    let data = vec![(0, SCALE), (SCALE, 0)];
    let (_, trace) = gradient_descent_traced(&data, fx(100), 3);
    assert_eq!(trace.len(), 3);
    assert_eq!(trace[0].1, fx(100));
    assert_eq!(trace[1].1, fx(105));
    assert_eq!(trace[2].1, 52_500_000);
}

#[test]
fn loss_exact_value() {
    let data = vec![(0, SCALE), (SCALE, 0)];
    assert_eq!(loss(0, 0, &data), 500_000);
    assert_eq!(loss(SCALE, -SCALE, &data), 0);
}

#[test]
fn end_to_end_two_points() {
    let raw = pairs(&[(0, 10_000), (100_000, 5_000)]);
    let mut data = raw.clone();
    normalize_data(&mut data);
    let thetas = gradient_descent(&data, DEFAULT_LEARNING_RATE, 1000);
    let est = Estimator::new(Some(thetas), &raw).unwrap();
    assert!((est.estimate(fx(0)) - fx(10_000)).abs() <= fx(50));
    assert!((est.estimate(fx(100_000)) - fx(5_000)).abs() <= fx(50));
}

#[test]
fn estimate_is_linear_in_mileage() {
    let raw = pairs(&[(0, 10_000), (100_000, 5_000)]);
    let est = Estimator::new(Some((SCALE, -SCALE)), &raw).unwrap();
    let a = est.estimate(fx(10_000));
    let b = est.estimate(fx(20_000));
    let c = est.estimate(fx(40_000));
    assert_eq!(b - a, fx(-500));
    assert_eq!(c - b, 2 * (b - a));
    assert_eq!(est.estimate(fx(200_000)), 0);
}

#[test]
fn estimator_without_data_fails() {
    let raw: Vec<(i64, i64)> = Vec::new();
    assert_eq!(Estimator::new(None, &raw).unwrap_err(), EstimatorError::DataUnavailable);
}

#[test]
fn untrained_estimator_predicts_lowest_price() {
    let raw = pairs(&[(10, 100), (50, 300), (30, 200)]);
    let est = Estimator::new(None, &raw).unwrap();
    assert_eq!((est.t0, est.t1), (0, 0));
    assert_eq!(est.min_price(), fx(100));
    assert_eq!(est.max_price(), fx(300));
    assert_eq!(est.estimate(fx(10)), fx(100));
    assert_eq!(est.estimate(fx(1_000)), fx(100));
}

#[test]
fn exact_model_has_zero_error() {
    let raw = pairs(&[(0, 10_000), (100_000, 5_000), (50_000, 7_500)]);
    let est = Estimator::new(Some((SCALE, -SCALE)), &raw).unwrap();
    let acc = accuracy(&raw, &est);
    assert_eq!(acc.mae, 0);
    assert_eq!(acc.rmse, 0);
    assert_eq!(acc.nmae, Some(0));
    assert_eq!(acc.rae, Some(0));
    assert_eq!(acc.rrse, Some(0));
}

#[test]
fn accuracy_exact_values() {
    let raw = pairs(&[(0, 10), (10, 20)]);
    let est = Estimator::new(None, &raw).unwrap();
    let acc = accuracy(&raw, &est);
    assert_eq!(acc.mae, 5_000_000);
    assert_eq!(acc.rmse, 7_071_067);
    assert_eq!(acc.nmae, Some(500_000));
    assert_eq!(acc.nrmse, Some(707_106));
    assert_eq!(acc.rae, Some(1_000_000));
    assert_eq!(acc.rrse, Some(1_414_213));
}

#[test]
fn accuracy_with_constant_prices() {
    let raw = pairs(&[(0, 10), (10, 10)]);
    let est = Estimator::new(Some((SCALE, 0)), &raw).unwrap();
    let acc = accuracy(&raw, &est);
    assert_eq!(acc.mae, 0);
    assert_eq!(acc.nmae, None);
    assert_eq!(acc.nrmse, None);
    assert_eq!(acc.rae, None);
    assert_eq!(acc.rrse, None);
}

#[test]
fn progress_every_tenth_and_last() {
    assert!(progress_due(0, DEFAULT_ITERATIONS));
    assert!(progress_due(500, DEFAULT_ITERATIONS));
    assert!(!progress_due(501, DEFAULT_ITERATIONS));
    assert!(progress_due(4999, DEFAULT_ITERATIONS));
    assert!(progress_due(3, 5));
}

#[test]
fn square_root_rounds_down() {
    assert_eq!(sqrt_floor(0), 0);
    assert_eq!(sqrt_floor(1), 1);
    assert_eq!(sqrt_floor(15), 3);
    assert_eq!(sqrt_floor(16), 4);
    assert_eq!(sqrt_floor(1_000_000_000_000_000_000_000_000_000_000), 1_000_000_000_000_000);
}

#[test]
fn floor_division_and_saturation() {
    assert_eq!(div_floor(7, 2), 3);
    assert_eq!(div_floor(-7, 2), -4);
    assert_eq!(div_floor(-8, 2), -4);
    assert_eq!(saturate(i128::MAX), LIMIT);
    assert_eq!(saturate(-5), -5);
}
