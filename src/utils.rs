//! Mapping of dataset columns to and from the unit interval.
use vstd::prelude::*;
use crate::fixed::{clamp, div_floor, in_bounds, saturate, SCALE};
use vstd::arithmetic::div_mod::{lemma_fundamental_div_mod, lemma_mod_bound};

verus! {

/// `(v - lo) / (hi - lo)` in fixed point, rounded down and saturated.
/// A range that holds a single value (or none) maps everything to zero.
pub open spec fn normalize_spec(v: int, lo: int, hi: int) -> int {
    if hi <= lo {
        0
    } else {
        clamp((v - lo) * SCALE as int / (hi - lo))
    }
}

/// `v * (hi - lo) + lo` in fixed point, rounded down and saturated.
pub open spec fn denormalize_spec(v: int, lo: int, hi: int) -> int {
    clamp(v * (hi - lo) / SCALE as int + lo)
}

/// The mileage column of a dataset.
pub open spec fn mileages(s: Seq<(i64, i64)>) -> Seq<int> {
    s.map_values(|p: (i64, i64)| p.0 as int)
}

/// The price column of a dataset.
pub open spec fn prices(s: Seq<(i64, i64)>) -> Seq<int> {
    s.map_values(|p: (i64, i64)| p.1 as int)
}

/// Smallest value of a column; the largest `i64` for an empty one.
pub open spec fn column_min(s: Seq<int>) -> int
    decreases s.len(),
{
    if s.len() == 0 {
        i64::MAX as int
    } else {
        let m = column_min(s.drop_last());
        if s.last() < m {
            s.last()
        } else {
            m
        }
    }
}

/// Largest value of a column; the smallest `i64` for an empty one.
pub open spec fn column_max(s: Seq<int>) -> int
    decreases s.len(),
{
    if s.len() == 0 {
        i64::MIN as int
    } else {
        let m = column_max(s.drop_last());
        if s.last() > m {
            s.last()
        } else {
            m
        }
    }
}

/// `column_min` and `column_max` bound every value of a non-empty column and
/// are values of it.
pub proof fn lemma_column_range(s: Seq<int>)
    requires
        s.len() > 0,
        forall|i: int| 0 <= i < s.len() ==> i64::MIN <= #[trigger] s[i] <= i64::MAX,
    ensures
        forall|i: int| 0 <= i < s.len() ==> column_min(s) <= #[trigger] s[i] <= column_max(s),
        s.contains(column_min(s)),
        s.contains(column_max(s)),
    decreases s.len(),
{
    let t = s.drop_last();
    if t.len() > 0 {
        assert forall|i: int| 0 <= i < t.len() implies i64::MIN <= #[trigger] t[i] <= i64::MAX by {
            assert(t[i] == s[i]);
        }
        lemma_column_range(t);
        assert forall|i: int| 0 <= i < s.len() implies column_min(s) <= #[trigger] s[i] <= column_max(
            s,
        ) by {
            if i < t.len() {
                assert(s[i] == t[i]);
            }
        }
        let a = choose|j: int| 0 <= j < t.len() && t[j] == column_min(t);
        let b = choose|j: int| 0 <= j < t.len() && t[j] == column_max(t);
        assert(s[a] == t[a]);
        assert(s[b] == t[b]);
        assert(s[s.len() - 1] == s.last());
        if s.last() < column_min(t) {
            assert(s[s.len() - 1] == column_min(s));
        } else {
            assert(s[a] == column_min(s));
        }
        if s.last() > column_max(t) {
            assert(s[s.len() - 1] == column_max(s));
        } else {
            assert(s[b] == column_max(s));
        }
    } else {
        assert(s[0] == s.last());
        assert(i64::MIN <= s[0] <= i64::MAX);
        assert(column_min(t) == i64::MAX as int);
        assert(column_max(t) == i64::MIN as int);
        assert(s[0] == column_min(s));
        assert(s[0] == column_max(s));
    }
}

/// The (min, max) range of each column: mileage first, price second.
pub open spec fn ranges(s: Seq<(i64, i64)>) -> ((int, int), (int, int)) {
    (
        (column_min(mileages(s)), column_max(mileages(s))),
        (column_min(prices(s)), column_max(prices(s))),
    )
}

/// Each column mapped to the unit interval with its own range.
pub open spec fn normalized(s: Seq<(i64, i64)>) -> Seq<(int, int)> {
    let r = ranges(s);
    s.map_values(
        |p: (i64, i64)|
            (normalize_spec(p.0 as int, r.0.0, r.0.1), normalize_spec(p.1 as int, r.1.0, r.1.1)),
    )
}

/// Maps `elem` from the range `[min, max]` to the unit interval.
pub fn normalize_elem(elem: i64, min: i64, max: i64) -> (r: i64)
    ensures
        r == normalize_spec(elem as int, min as int, max as int),
        in_bounds(r as int),
{
    if max <= min {
        0
    } else {
        let diff: i128 = elem as i128 - min as i128;
        assert(-0x1_0000_0000_0000_0000 <= diff <= 0x1_0000_0000_0000_0000);
        let num: i128 = diff * 1_000_000i128;
        let q = div_floor(num, max as i128 - min as i128);
        saturate(q)
    }
}

/// Maps `elem` from the unit interval back to the range `[min, max]`.
pub fn denormalize_elem(elem: i64, min: i64, max: i64) -> (r: i64)
    requires
        in_bounds(elem as int),
    ensures
        r == denormalize_spec(elem as int, min as int, max as int),
        in_bounds(r as int),
{
    let width: i128 = max as i128 - min as i128;
    proof {
        assert(-0x1_0000_0000_0000_0000 <= width <= 0x1_0000_0000_0000_0000);
        assert(-0x4_0000_0000_0000_0000_0000_0000_0000 <= (elem as int) * (width as int)
            <= 0x4_0000_0000_0000_0000_0000_0000_0000) by (nonlinear_arith)
            requires
                -0x1_0000_0000_0000_0000 <= width <= 0x1_0000_0000_0000_0000,
                -0x4_0000_0000_0000 <= elem <= 0x4_0000_0000_0000,
        ;
    }
    let q = div_floor(elem as i128 * width, SCALE as i128);
    saturate(q + min as i128)
}

/// The (min, max) range of the mileage column and of the price column, in one
/// pass. An empty dataset gives `(i64::MAX, i64::MIN)` for each.
pub fn min_max(data: &Vec<(i64, i64)>) -> (r: ((i64, i64), (i64, i64)))
    ensures
        r.0.0 == ranges(data@).0.0,
        r.0.1 == ranges(data@).0.1,
        r.1.0 == ranges(data@).1.0,
        r.1.1 == ranges(data@).1.1,
{
    let mut min0: i64 = i64::MAX;
    let mut min1: i64 = i64::MAX;
    let mut max0: i64 = i64::MIN;
    let mut max1: i64 = i64::MIN;
    let n = data.len();
    let mut i: usize = 0;
    while i < n
        invariant
            n == data@.len(),
            0 <= i <= n,
            min0 == column_min(mileages(data@).take(i as int)),
            max0 == column_max(mileages(data@).take(i as int)),
            min1 == column_min(prices(data@).take(i as int)),
            max1 == column_max(prices(data@).take(i as int)),
        decreases n - i,
    {
        let (d0, d1) = data[i];
        proof {
            let m = mileages(data@);
            let p = prices(data@);
            assert(m.take(i + 1).drop_last() =~= m.take(i as int));
            assert(p.take(i + 1).drop_last() =~= p.take(i as int));
            assert(m.take(i + 1).last() == d0);
            assert(p.take(i + 1).last() == d1);
        }
        if d0 < min0 {
            min0 = d0;
        }
        if d0 > max0 {
            max0 = d0;
        }
        if d1 < min1 {
            min1 = d1;
        }
        if d1 > max1 {
            max1 = d1;
        }
        i = i + 1;
    }
    proof {
        assert(mileages(data@).take(n as int) =~= mileages(data@));
        assert(prices(data@).take(n as int) =~= prices(data@));
    }
    ((min0, max0), (min1, max1))
}

/// Maps each column of the dataset, in place, to the unit interval, each with
/// the range of its own column.
pub fn normalize_data(data: &mut Vec<(i64, i64)>)
    ensures
        final(data)@.len() == old(data)@.len(),
        forall|i: int|
            0 <= i < old(data)@.len() ==> {
                &&& (#[trigger] final(data)@[i]).0 == normalized(old(data)@)[i].0
                &&& final(data)@[i].1 == normalized(old(data)@)[i].1
            },
{
    let ((min0, max0), (min1, max1)) = min_max(data);
    let ghost orig = data@;
    let n = data.len();
    let mut i: usize = 0;
    while i < n
        invariant
            n == orig.len(),
            data@.len() == n,
            0 <= i <= n,
            min0 == ranges(orig).0.0,
            max0 == ranges(orig).0.1,
            min1 == ranges(orig).1.0,
            max1 == ranges(orig).1.1,
            forall|k: int| i <= k < n ==> data@[k] == orig[k],
            forall|k: int|
                0 <= k < i ==> {
                    &&& (#[trigger] data@[k]).0 == normalized(orig)[k].0
                    &&& data@[k].1 == normalized(orig)[k].1
                },
        decreases n - i,
    {
        let (d0, d1) = data[i];
        let e0 = normalize_elem(d0, min0, max0);
        let e1 = normalize_elem(d1, min1, max1);
        data.set(i, (e0, e1));
        i = i + 1;
    }
}

/// Mapping a value into the unit interval of a range and back gives the value
/// again, up to the rounding of the two steps: the result is never above `v`
/// and falls short of it by less than one plus the range's width over `SCALE`.
/// Holds wherever the normalized value is not saturated.
pub proof fn lemma_round_trip(v: int, lo: int, hi: int)
    requires
        lo < hi,
        in_bounds(v),
        in_bounds((v - lo) * SCALE as int / (hi - lo)),
    ensures
        denormalize_spec(normalize_spec(v, lo, hi), lo, hi) <= v,
        (v - denormalize_spec(normalize_spec(v, lo, hi), lo, hi)) * SCALE < (hi - lo) + SCALE,
{
    let d = hi - lo;
    let sc = SCALE as int;
    let x = (v - lo) * sc;
    let q = x / d;
    lemma_fundamental_div_mod(x, d);
    lemma_mod_bound(x, d);
    assert(normalize_spec(v, lo, hi) == q);
    let y = q * d;
    let t = y / sc;
    lemma_fundamental_div_mod(y, sc);
    lemma_mod_bound(y, sc);
    let rx = x % d;
    let ry = y % sc;
    assert(t <= v - lo && (v - lo - t) * sc < d + sc) by (nonlinear_arith)
        requires
            x == d * q + rx,
            0 <= rx < d,
            y == q * d,
            y == sc * t + ry,
            0 <= ry < sc,
            x == (v - lo) * sc,
            sc == 1_000_000,
    ;
}

} // verus!
