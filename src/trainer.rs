//! Batch gradient descent with a "bold driver" learning rate over a
//! normalized dataset.
use vstd::prelude::*;
use crate::fixed::{clamp, div_floor, in_bounds, saturate, SCALE};

verus! {

/// Learning rate used when none is given: one half.
pub const DEFAULT_LEARNING_RATE: i64 = 500_000;

/// Number of iterations used when none is given.
pub const DEFAULT_ITERATIONS: usize = 5000;

/// Loss recorded before the first step, above any loss that can occur, so
/// that the first step is always accepted.
pub const NO_LOSS: i64 = i64::MAX;

/// Every value of the dataset is a fixed-point value.
pub open spec fn valid_data(s: Seq<(i64, i64)>) -> bool {
    forall|i: int| 0 <= i < s.len() ==> in_bounds((#[trigger] s[i]).0 as int) && in_bounds(s[i].1 as int)
}

/// The model's output `t0 + t1 * m`.
pub open spec fn predict(t0: int, t1: int, m: int) -> int {
    clamp(t0 + t1 * m / SCALE as int)
}

/// How far the model's output lies above the observed price.
pub open spec fn residual(t0: int, t1: int, pt: (i64, i64)) -> int {
    predict(t0, t1, pt.0 as int) - pt.1
}

/// Sum of the residuals.
pub open spec fn sum_residuals(s: Seq<(i64, i64)>, t0: int, t1: int) -> int
    decreases s.len(),
{
    if s.len() == 0 {
        0
    } else {
        sum_residuals(s.drop_last(), t0, t1) + residual(t0, t1, s.last())
    }
}

/// Sum of the residuals, each multiplied by its mileage.
pub open spec fn sum_weighted_residuals(s: Seq<(i64, i64)>, t0: int, t1: int) -> int
    decreases s.len(),
{
    if s.len() == 0 {
        0
    } else {
        sum_weighted_residuals(s.drop_last(), t0, t1) + clamp(
            residual(t0, t1, s.last()) * s.last().0 / SCALE as int,
        )
    }
}

/// Sum of the squared residuals.
pub open spec fn sum_squared_residuals(s: Seq<(i64, i64)>, t0: int, t1: int) -> int
    decreases s.len(),
{
    if s.len() == 0 {
        0
    } else {
        sum_squared_residuals(s.drop_last(), t0, t1) + clamp(
            residual(t0, t1, s.last()) * residual(t0, t1, s.last()) / SCALE as int,
        )
    }
}

/// Mean squared error of the model `(t0, t1)` over a non-empty dataset.
pub open spec fn loss_spec(s: Seq<(i64, i64)>, t0: int, t1: int) -> int {
    clamp(sum_squared_residuals(s, t0, t1) / s.len() as int)
}

/// Gradient of half the mean squared error, with respect to `t0` and `t1`.
pub open spec fn gradient(s: Seq<(i64, i64)>, t0: int, t1: int) -> (int, int) {
    (
        clamp(sum_residuals(s, t0, t1) / s.len() as int),
        clamp(sum_weighted_residuals(s, t0, t1) / s.len() as int),
    )
}

/// The learning rate after a rejected step: halved.
pub open spec fn shrink(rate: int) -> int {
    rate / 2
}

/// The learning rate after an accepted step: grown by five percent.
pub open spec fn grow(rate: int) -> int {
    clamp(rate * 21 / 20)
}

/// The state of a descent: `(t0, t1, learning rate, loss of the last accepted step)`.
pub type Descent = (int, int, int, int);

/// The model proposed by a step along the gradient from `st`, and its loss.
pub open spec fn proposal(s: Seq<(i64, i64)>, st: Descent) -> (int, int, int) {
    let (t0, t1, rate, prev) = st;
    let (d0, d1) = gradient(s, t0, t1);
    let n0 = clamp(t0 - d0 * rate / SCALE as int);
    let n1 = clamp(t1 - d1 * rate / SCALE as int);
    (n0, n1, loss_spec(s, n0, n1))
}

/// One iteration: the proposed step is rejected (and the learning rate
/// halved) when it raises the loss, accepted (and the rate grown) otherwise.
pub open spec fn step(s: Seq<(i64, i64)>, st: Descent) -> Descent {
    let (t0, t1, rate, prev) = st;
    let (n0, n1, l) = proposal(s, st);
    if l > prev {
        (t0, t1, shrink(rate), prev)
    } else {
        (n0, n1, grow(rate), l)
    }
}

/// The state after `k` iterations from `t0 = t1 = 0` at learning rate `rate`.
pub open spec fn descent(s: Seq<(i64, i64)>, rate: int, k: nat) -> Descent
    decreases k,
{
    if k == 0 {
        (0, 0, rate, NO_LOSS as int)
    } else {
        step(s, descent(s, rate, (k - 1) as nat))
    }
}

/// The model's output `t0 + t1 * m`.
pub fn predict_exec(t0: i64, t1: i64, m: i64) -> (r: i64)
    requires
        in_bounds(m as int),
    ensures
        r == predict(t0 as int, t1 as int, m as int),
        in_bounds(r as int),
{
    assert(-0x10_0000_0000_0000_0000_0000_0000_0000 <= (t1 as int) * (m as int)
        <= 0x10_0000_0000_0000_0000_0000_0000_0000) by (nonlinear_arith)
        requires
            -0x8000_0000_0000_0000 <= t1 < 0x8000_0000_0000_0000,
            -0x4_0000_0000_0000 <= m <= 0x4_0000_0000_0000,
    ;
    let q = div_floor(t1 as i128 * m as i128, SCALE as i128);
    saturate(t0 as i128 + q)
}

/// The first `i + 1` items are the first `i` and then item `i`.
pub(crate) proof fn lemma_take_last(s: Seq<(i64, i64)>, i: int)
    requires
        0 <= i < s.len(),
    ensures
        s.take(i + 1).drop_last() =~= s.take(i),
        s.take(i + 1).last() == s[i],
{
}

/// The three sums over the dataset, for the model `(t0, t1)`.
fn sums(data: &Vec<(i64, i64)>, t0: i64, t1: i64) -> (r: (i128, i128, i128))
    requires
        valid_data(data@),
    ensures
        r.0 == sum_residuals(data@, t0 as int, t1 as int),
        r.1 == sum_weighted_residuals(data@, t0 as int, t1 as int),
        r.2 == sum_squared_residuals(data@, t0 as int, t1 as int),
        -2_000_000_000_000_000 * data@.len() <= r.0 <= 2_000_000_000_000_000 * data@.len(),
        -1_000_000_000_000_000 * data@.len() <= r.1 <= 1_000_000_000_000_000 * data@.len(),
        -1_000_000_000_000_000 * data@.len() <= r.2 <= 1_000_000_000_000_000 * data@.len(),
{
    let n = data.len();
    let mut a: i128 = 0;
    let mut b: i128 = 0;
    let mut c: i128 = 0;
    let mut i: usize = 0;
    while i < n
        invariant
            n == data@.len(),
            valid_data(data@),
            0 <= i <= n,
            a == sum_residuals(data@.take(i as int), t0 as int, t1 as int),
            b == sum_weighted_residuals(data@.take(i as int), t0 as int, t1 as int),
            c == sum_squared_residuals(data@.take(i as int), t0 as int, t1 as int),
            -2_000_000_000_000_000 * i <= a <= 2_000_000_000_000_000 * i,
            -1_000_000_000_000_000 * i <= b <= 1_000_000_000_000_000 * i,
            -1_000_000_000_000_000 * i <= c <= 1_000_000_000_000_000 * i,
        decreases n - i,
    {
        let (m, p) = data[i];
        proof {
            lemma_take_last(data@, i as int);
            assert(in_bounds(data@[i as int].0 as int) && in_bounds(data@[i as int].1 as int));
            assert(i + 1 <= 0x1_0000_0000_0000_0000);
        }
        let e: i128 = predict_exec(t0, t1, m) as i128 - p as i128;
        assert(-0x40_0000_0000_0000_0000_0000_0000 <= (e as int) * (m as int)
            <= 0x40_0000_0000_0000_0000_0000_0000) by (nonlinear_arith)
            requires
                -0x8_0000_0000_0000 <= e <= 0x8_0000_0000_0000,
                -0x4_0000_0000_0000 <= m <= 0x4_0000_0000_0000,
        ;
        assert(-0x40_0000_0000_0000_0000_0000_0000 <= (e as int) * (e as int)
            <= 0x40_0000_0000_0000_0000_0000_0000) by (nonlinear_arith)
            requires
                -0x8_0000_0000_0000 <= e <= 0x8_0000_0000_0000,
        ;
        let wm = saturate(div_floor(e * m as i128, SCALE as i128));
        let sq = saturate(div_floor(e * e, SCALE as i128));
        a = a + e;
        b = b + wm as i128;
        c = c + sq as i128;
        i = i + 1;
    }
    proof {
        assert(data@.take(n as int) =~= data@);
    }
    (a, b, c)
}

/// Mean squared error of the model `(t0, t1)` over the dataset.
pub fn loss(t0: i64, t1: i64, miles_n_prices: &Vec<(i64, i64)>) -> (r: i64)
    requires
        miles_n_prices@.len() > 0,
        valid_data(miles_n_prices@),
    ensures
        r == loss_spec(miles_n_prices@, t0 as int, t1 as int),
        in_bounds(r as int),
{
    let (_, _, c) = sums(miles_n_prices, t0, t1);
    saturate(div_floor(c, miles_n_prices.len() as i128))
}

/// `t - d * rate`, saturated.
fn descend(t: i64, d: i64, rate: i64) -> (r: i64)
    requires
        in_bounds(d as int),
        in_bounds(rate as int),
    ensures
        r == clamp(t - d * rate / SCALE as int),
{
    assert(-0x10_0000_0000_0000_0000_0000_0000 <= (d as int) * (rate as int)
        <= 0x10_0000_0000_0000_0000_0000_0000) by (nonlinear_arith)
        requires
            -0x4_0000_0000_0000 <= d <= 0x4_0000_0000_0000,
            -0x4_0000_0000_0000 <= rate <= 0x4_0000_0000_0000,
    ;
    let q = div_floor(d as i128 * rate as i128, SCALE as i128);
    saturate(t as i128 - q)
}

/// One iteration of the descent from the state `(t0, t1, rate, prev)`.
pub fn descent_step(
    miles_n_prices: &Vec<(i64, i64)>,
    t0: i64,
    t1: i64,
    rate: i64,
    prev: i64,
) -> (r: (i64, i64, i64, i64, i64))
    requires
        miles_n_prices@.len() > 0,
        valid_data(miles_n_prices@),
        in_bounds(rate as int),
    ensures
        (r.0 as int, r.1 as int, r.2 as int, r.3 as int) == step(
            miles_n_prices@,
            (t0 as int, t1 as int, rate as int, prev as int),
        ),
        r.4 == proposal(miles_n_prices@, (t0 as int, t1 as int, rate as int, prev as int)).2,
        in_bounds(r.2 as int),
{
    let n = miles_n_prices.len() as i128;
    let (a, b, _) = sums(miles_n_prices, t0, t1);
    let d0 = saturate(div_floor(a, n));
    let d1 = saturate(div_floor(b, n));
    let n0 = descend(t0, d0, rate);
    let n1 = descend(t1, d1, rate);
    let l = loss(n0, n1, miles_n_prices);
    if l > prev {
        let halved = saturate(div_floor(rate as i128, 2));
        (t0, t1, halved, prev, l)
    } else {
        let grown = saturate(div_floor(rate as i128 * 21, 20));
        (n0, n1, grown, l, l)
    }
}

/// Fits `(t0, t1)` to a normalized dataset by `iterations` steps of gradient
/// descent from `(0, 0)`, starting at `learning_rate`.
pub fn gradient_descent(miles_n_prices: &Vec<(i64, i64)>, learning_rate: i64, iterations: usize) -> (r: (
    i64,
    i64,
))
    requires
        miles_n_prices@.len() > 0,
        valid_data(miles_n_prices@),
        in_bounds(learning_rate as int),
    ensures
        r.0 == descent(miles_n_prices@, learning_rate as int, iterations as nat).0,
        r.1 == descent(miles_n_prices@, learning_rate as int, iterations as nat).1,
{
    let (thetas, _) = gradient_descent_traced(miles_n_prices, learning_rate, iterations);
    thetas
}

/// As `gradient_descent`, and also, for each iteration `i`, the loss of the
/// step proposed at `i` and the learning rate that `i` used.
pub fn gradient_descent_traced(
    miles_n_prices: &Vec<(i64, i64)>,
    learning_rate: i64,
    iterations: usize,
) -> (r: ((i64, i64), Vec<(i64, i64)>))
    requires
        miles_n_prices@.len() > 0,
        valid_data(miles_n_prices@),
        in_bounds(learning_rate as int),
    ensures
        r.0.0 == descent(miles_n_prices@, learning_rate as int, iterations as nat).0,
        r.0.1 == descent(miles_n_prices@, learning_rate as int, iterations as nat).1,
        r.1@.len() == iterations,
        forall|i: int|
            0 <= i < iterations ==> {
                &&& (#[trigger] r.1@[i]).0 == proposal(
                    miles_n_prices@,
                    descent(miles_n_prices@, learning_rate as int, i as nat),
                ).2
                &&& r.1@[i].1 == descent(miles_n_prices@, learning_rate as int, i as nat).2
            },
{
    let mut t0: i64 = 0;
    let mut t1: i64 = 0;
    let mut rate: i64 = learning_rate;
    let mut prev: i64 = NO_LOSS;
    let mut trace: Vec<(i64, i64)> = Vec::new();
    let mut i: usize = 0;
    while i < iterations
        invariant
            miles_n_prices@.len() > 0,
            valid_data(miles_n_prices@),
            0 <= i <= iterations,
            in_bounds(rate as int),
            (t0 as int, t1 as int, rate as int, prev as int) == descent(
                miles_n_prices@,
                learning_rate as int,
                i as nat,
            ),
            trace@.len() == i,
            forall|k: int|
                0 <= k < i ==> {
                    &&& (#[trigger] trace@[k]).0 == proposal(
                        miles_n_prices@,
                        descent(miles_n_prices@, learning_rate as int, k as nat),
                    ).2
                    &&& trace@[k].1 == descent(miles_n_prices@, learning_rate as int, k as nat).2
                },
        decreases iterations - i,
    {
        let (a, b, c, d, l) = descent_step(miles_n_prices, t0, t1, rate, prev);
        trace.push((l, rate));
        t0 = a;
        t1 = b;
        rate = c;
        prev = d;
        i = i + 1;
    }
    ((t0, t1), trace)
}

/// Whether progress is worth reporting at iteration `i` of `iterations`:
/// every tenth of the run, and at the last iteration.
pub fn progress_due(i: usize, iterations: usize) -> (r: bool)
    ensures
        r == (i % (if iterations / 10 > 1 { iterations / 10 } else { 1usize }) == 0
            || i + 1 == iterations),
{
    let every: usize = if iterations / 10 > 1 {
        iterations / 10
    } else {
        1
    };
    i % every == 0 || (iterations > 0 && i == iterations - 1)
}

/// Without any iteration the model is the starting one, `(0, 0)`, whatever the
/// data and the learning rate.
pub proof fn lemma_no_iterations(s: Seq<(i64, i64)>, rate: int)
    ensures
        descent(s, rate, 0).0 == 0,
        descent(s, rate, 0).1 == 0,
{
}

/// With a learning rate of zero no step moves the model: after any number of
/// iterations it is still `(0, 0)`.
pub proof fn lemma_zero_rate(s: Seq<(i64, i64)>, k: nat)
    ensures
        descent(s, 0, k).0 == 0,
        descent(s, 0, k).1 == 0,
        descent(s, 0, k).2 == 0,
    decreases k,
{
    if k > 0 {
        lemma_zero_rate(s, (k - 1) as nat);
    }
}

/// The loss of the last accepted step never rises: after `j` iterations it is
/// at most what it was after any `k <= j`.
pub proof fn lemma_loss_non_increasing(s: Seq<(i64, i64)>, rate: int, k: nat, j: nat)
    requires
        k <= j,
    ensures
        descent(s, rate, j).3 <= descent(s, rate, k).3,
    decreases j - k,
{
    if k < j {
        lemma_loss_non_increasing(s, rate, k, (j - 1) as nat);
    }
}

/// The loss recorded by the descent is the loss of its current model, once a
/// step has been accepted, and the starting mark before.
pub proof fn lemma_recorded_loss(s: Seq<(i64, i64)>, rate: int, k: nat)
    ensures
        descent(s, rate, k).3 == NO_LOSS || descent(s, rate, k).3 == loss_spec(
            s,
            descent(s, rate, k).0,
            descent(s, rate, k).1,
        ),
    decreases k,
{
    if k > 0 {
        lemma_recorded_loss(s, rate, (k - 1) as nat);
    }
}

} // verus!
