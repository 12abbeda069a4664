//! Helpers for the fixed-point arithmetic the engine is built on.
//!
//! A raw `i64` value `v` stands for the real number `v / SCALE`.  All
//! intermediate products and quotients are taken in `i128`, and every
//! division rounds towards minus infinity (Euclidean division by a
//! positive divisor), which is exactly the `/` of specification
//! arithmetic.

use vstd::prelude::*;

verus! {

use vstd::arithmetic::div_mod::{
    lemma_fundamental_div_mod,
    lemma_div_nonincreasing,
    lemma_div_pos_is_pos,
    lemma_mod_bound,
    lemma_mod_pos_bound,
};
use crate::VAL_LIMIT;

/// A raw quantity the engine may store: it lies within the representable
/// working range `[-VAL_LIMIT, VAL_LIMIT]`.
pub open spec fn fits_val(x: int) -> bool {
    -(VAL_LIMIT as int) <= x <= VAL_LIMIT as int
}

/// Floor division by a positive divisor keeps the quotient between zero
/// and the dividend.
pub proof fn lemma_div_between(x: int, d: int)
    requires
        1 <= d,
    ensures
        x >= 0 ==> 0 <= x / d <= x,
        x < 0 ==> x <= x / d <= 0,
{
    if x >= 0 {
        lemma_div_pos_is_pos(x, d);
        lemma_div_nonincreasing(x, d);
    } else {
        lemma_fundamental_div_mod(x, d);
        lemma_mod_bound(x, d);
        assert(d * (x / d) == x - (x % d));
        assert(d * (x / d) <= x - 0);
        assert(x / d <= 0) by (nonlinear_arith)
            requires
                1 <= d,
                d * (x / d) <= x,
                x < 0,
        ;
        assert(x <= x / d) by (nonlinear_arith)
            requires
                1 <= d,
                d * (x / d) > x - d,
                x < 0,
        ;
        assert(d * (x / d) > x - d) by {
            assert(x % d < d);
        };
    }
}

/// A product of bounded factors is bounded by the product of the bounds.
pub proof fn lemma_mul_bounds(x: int, y: int, xb: int, yb: int)
    requires
        -xb <= x <= xb,
        -yb <= y <= yb,
        0 <= xb,
        0 <= yb,
    ensures
        -(xb * yb) <= x * y <= xb * yb,
{
    assert(-(xb * yb) <= x * y <= xb * yb) by (nonlinear_arith)
        requires
            -xb <= x <= xb,
            -yb <= y <= yb,
            0 <= xb,
            0 <= yb,
    ;
}

/// Floor division of a 128-bit value by a positive divisor.
pub fn div_floor(x: i128, d: i128) -> (q: i128)
    requires
        1 <= d,
    ensures
        q == x as int / d as int,
{
    proof {
        lemma_div_between(x as int, d as int);
    }
    let q = x.checked_div_euclid(d);
    q.unwrap()
}

/// Euclidean remainder of a non-negative 128-bit value.
pub fn mod_floor(x: i128, d: i128) -> (r: i128)
    requires
        0 <= x,
        1 <= d,
    ensures
        r == x as int % d as int,
{
    proof {
        lemma_mod_pos_bound(x as int, d as int);
    }
    let r = x.checked_rem_euclid(d);
    r.unwrap()
}

/// Narrows a 128-bit intermediate back to a storable raw value; `None`
/// exactly when the value falls outside the engine's working range.
pub fn narrow(x: i128) -> (r: Option<i64>)
    ensures
        fits_val(x as int) ==> r == Some(x as i64),
        !fits_val(x as int) ==> r is None,
{
    if -(VAL_LIMIT as i128) <= x && x <= VAL_LIMIT as i128 {
        Some(x as i64)
    } else {
        None
    }
}

} // verus!
