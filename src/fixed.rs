//! Saturating fixed-point arithmetic: a value counts millionths of a unit and
//! is kept within plus or minus one billion units.
use vstd::prelude::*;
use vstd::arithmetic::div_mod::{
    lemma_fundamental_div_mod,
    lemma_fundamental_div_mod_converse_div,
    lemma_mod_bound,
};

verus! {

/// Number of fixed-point steps in one unit.
pub const SCALE: i64 = 1_000_000;

/// Largest magnitude that a fixed-point value may have.
pub const LIMIT: i64 = 1_000_000_000_000_000;

/// A value that the fixed-point representation can hold.
pub open spec fn in_bounds(x: int) -> bool {
    -LIMIT <= x <= LIMIT
}

/// Saturation of an exact result into the representable range.
pub open spec fn clamp(x: int) -> int {
    if x < -LIMIT {
        -LIMIT as int
    } else if x > LIMIT {
        LIMIT as int
    } else {
        x
    }
}

/// Division rounded toward negative infinity by a positive divisor
/// (`/` on `int` is Euclidean, which is the same thing when `d > 0`).
pub fn div_floor(a: i128, d: i128) -> (r: i128)
    requires
        d > 0,
        a > i128::MIN,
    ensures
        r == a as int / d as int,
{
    if a >= 0 {
        a / d
    } else {
        let n: i128 = -a - 1;
        let q: i128 = n / d;
        proof {
            let ni = n as int;
            let di = d as int;
            lemma_fundamental_div_mod(ni, di);
            lemma_mod_bound(ni, di);
            let rem = ni % di;
            assert(q as int == ni / di);
            assert(0 <= q <= ni) by (nonlinear_arith)
                requires
                    ni == di * (q as int) + rem,
                    0 <= rem < di,
                    ni >= 0,
                    di >= 1,
            ;
            assert(a as int == (-(q as int) - 1) * di + (di - 1 - rem)) by (nonlinear_arith)
                requires
                    ni == di * (q as int) + rem,
                    a as int == -ni - 1,
            ;
            lemma_fundamental_div_mod_converse_div(a as int, di, -(q as int) - 1, di - 1 - rem);
        }
        -q - 1
    }
}

/// Saturates a wide intermediate result into a fixed-point value.
pub fn saturate(x: i128) -> (r: i64)
    ensures
        r == clamp(x as int),
        in_bounds(r as int),
{
    if x < -(LIMIT as i128) {
        -LIMIT
    } else if x > LIMIT as i128 {
        LIMIT
    } else {
        x as i64
    }
}

} // verus!
