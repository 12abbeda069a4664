//! Per-node update of the characteristics scheme.
//!
//! At Courant number 1 the two Riemann invariants `ut -+ a * ux` are
//! transported exactly one node per step, so an interior node's new
//! derivative pair is the average of the invariants arriving from its
//! two neighbours, and a boundary node back-solves the missing
//! derivative from the one invariant leaving the interior.
//!
//! All formulas are written over raw fixed-point values and rounded once
//! by a single floor division, which the spec functions state exactly.

use vstd::prelude::*;

verus! {

use vstd::arithmetic::div_mod::lemma_div_multiples_vanish;
use crate::fixed::{div_floor, fits_val, lemma_div_between, lemma_mul_bounds, narrow};
use crate::params::UDiffType;
use crate::{SCALE, VAL_LIMIT};

/// The two tabulated first derivatives at one grid node.
#[derive(Clone, Copy, Debug, PartialEq, Eq, Structural)]
pub struct UPair {
    pub ut: i64,
    pub ux: i64,
}

/// The displacement and both derivatives at one grid node, as handed
/// out to a consumer.
#[derive(Clone, Copy, Debug, PartialEq, Eq, Structural)]
pub struct UTriplePoint {
    pub u: i64,
    pub ut: i64,
    pub ux: i64,
}

/// Mathematical (unbounded) value of a derivative pair, used by the
/// specification before the range check narrows it back to `UPair`.
pub struct UPairModel {
    pub ut: int,
    pub ux: int,
}

/// Both components lie in the engine's working range.
pub open spec fn fits_pair(p: UPairModel) -> bool {
    fits_val(p.ut) && fits_val(p.ux)
}

/// The mathematical value of a stored pair.
pub open spec fn pair_model(p: UPair) -> UPairModel {
    UPairModel { ut: p.ut as int, ux: p.ux as int }
}

/// Narrowing of an in-range model value back to storage.
pub open spec fn pair_store(p: UPairModel) -> UPair {
    UPair { ut: p.ut as i64, ux: p.ux as i64 }
}

/// Interior update: the average of the Riemann invariants incoming from
/// the left and right neighbours, each formula rounded by one floor
/// division.  In real terms
/// `ut' = (ut_l - a*ux_l + ut_r + a*ux_r) / 2` and
/// `ux' = (ux_l - ut_l/a + ux_r + ut_r/a) / 2`.
pub open spec fn interior_pair(a: int, left: UPairModel, right: UPairModel) -> UPairModel {
    UPairModel {
        ut: (left.ut * (SCALE as int) - left.ux * a + right.ut * (SCALE as int) + right.ux * a) / (2 * (SCALE as int)),
        ux: (left.ux * a + right.ux * a + (right.ut - left.ut) * (SCALE as int)) / (2 * a),
    }
}

/// Left-boundary update from the prescribed value `g` and the interior
/// neighbour `nb`: the prescribed derivative is taken as given and the
/// companion is back-solved from the invariant leaving through `x = 0`:
/// `ux' = ux_nb - (g - ut_nb)/a` for a prescribed time derivative, and
/// `ut' = ut_nb - (g - ux_nb)*a` for a prescribed space derivative.
pub open spec fn left_boundary_pair(a: int, ty: UDiffType, g: int, nb: UPairModel) -> UPairModel {
    match ty {
        UDiffType::Ut => UPairModel { ut: g, ux: nb.ux - ((g - nb.ut) * (SCALE as int)) / a },
        UDiffType::Ux => UPairModel { ut: nb.ut - ((g - nb.ux) * a) / (SCALE as int), ux: g },
    }
}

/// Right-boundary update, the mirror image of the left one:
/// `ux' = ux_nb + (g - ut_nb)/a` respectively
/// `ut' = ut_nb + (g - ux_nb)*a`.
pub open spec fn right_boundary_pair(a: int, ty: UDiffType, g: int, nb: UPairModel) -> UPairModel {
    match ty {
        UDiffType::Ut => UPairModel { ut: g, ux: nb.ux + ((g - nb.ut) * (SCALE as int)) / a },
        UDiffType::Ux => UPairModel { ut: nb.ut + ((g - nb.ux) * a) / (SCALE as int), ux: g },
    }
}

/// A node whose neighbours both carry its own state is a fixed point of
/// the interior update: uniform regions of the solution do not drift,
/// because both averaged invariants equal the node's own.
pub proof fn lemma_steady_interior(a: int, p: UPairModel)
    requires
        1 <= a,
    ensures
        interior_pair(a, p, p) == p,
{
    let m = interior_pair(a, p, p);
    assert(p.ut * (SCALE as int) - p.ux * a + p.ut * (SCALE as int) + p.ux * a == (2 * (SCALE as int)) * p.ut)
        by (nonlinear_arith);
    lemma_div_multiples_vanish(p.ut, 2 * (SCALE as int));
    assert(m.ut == p.ut);
    assert(p.ux * a + p.ux * a + (p.ut - p.ut) * SCALE == (2 * a) * p.ux) by (nonlinear_arith);
    lemma_div_multiples_vanish(p.ux, 2 * a);
    assert(m.ux == p.ux);
}

/// Computes the interior update; `None` exactly when the new pair
/// leaves the working range.
pub fn calc_point(a: i64, left: UPair, right: UPair) -> (r: Option<UPair>)
    requires
        1 <= a <= VAL_LIMIT,
        fits_pair(pair_model(left)),
        fits_pair(pair_model(right)),
    ensures
        ({
            let m = interior_pair(a as int, pair_model(left), pair_model(right));
            if fits_pair(m) {
                r == Some(pair_store(m))
            } else {
                r is None
            }
        }),
{
    let aw = a as i128;
    let s = SCALE as i128;
    proof {
        lemma_mul_bounds(left.ut as int, SCALE as int, VAL_LIMIT as int, VAL_LIMIT as int);
        lemma_mul_bounds(left.ux as int, a as int, VAL_LIMIT as int, VAL_LIMIT as int);
        lemma_mul_bounds(right.ut as int, SCALE as int, VAL_LIMIT as int, VAL_LIMIT as int);
        lemma_mul_bounds(right.ux as int, a as int, VAL_LIMIT as int, VAL_LIMIT as int);
        lemma_mul_bounds(
            (right.ut - left.ut) as int,
            SCALE as int,
            2 * VAL_LIMIT as int,
            VAL_LIMIT as int,
        );
    }
    let num_ut: i128 =
        left.ut as i128 * s - left.ux as i128 * aw + right.ut as i128 * s + right.ux as i128 * aw;
    let num_ux: i128 =
        left.ux as i128 * aw + right.ux as i128 * aw
        + (right.ut as i128 - left.ut as i128) * s;
    let q_ut: i128 = div_floor(num_ut, 2 * s);
    let q_ux: i128 = div_floor(num_ux, 2 * aw);
    let ut = narrow(q_ut);
    let ux = narrow(q_ux);
    match (ut, ux) {
        (Some(ut), Some(ux)) => Some(UPair { ut, ux }),
        _ => None,
    }
}

/// Computes the left-boundary update from the prescribed value `g`;
/// `None` exactly when the back-solved companion leaves the working
/// range.
pub fn left_calc_point(a: i64, ty: UDiffType, g: i64, nb: UPair) -> (r: Option<UPair>)
    requires
        1 <= a <= VAL_LIMIT,
        fits_val(g as int),
        fits_pair(pair_model(nb)),
    ensures
        ({
            let m = left_boundary_pair(a as int, ty, g as int, pair_model(nb));
            if fits_pair(m) {
                r == Some(pair_store(m))
            } else {
                r is None
            }
        }),
{
    match ty {
        UDiffType::Ut => {
            proof {
                lemma_mul_bounds(
                    (g - nb.ut) as int,
                    SCALE as int,
                    2 * VAL_LIMIT as int,
                    VAL_LIMIT as int,
                );
            }
            let q: i128 = div_floor((g as i128 - nb.ut as i128) * SCALE as i128, a as i128);
            proof {
                lemma_div_between(((g - nb.ut) as int) * (SCALE as int), a as int);
            }
            match narrow(nb.ux as i128 - q) {
                Some(ux) => Some(UPair { ut: g, ux }),
                None => None,
            }
        },
        UDiffType::Ux => {
            proof {
                lemma_mul_bounds(
                    (g - nb.ux) as int,
                    a as int,
                    2 * VAL_LIMIT as int,
                    VAL_LIMIT as int,
                );
            }
            let q: i128 = div_floor((g as i128 - nb.ux as i128) * a as i128, SCALE as i128);
            proof {
                lemma_div_between(((g - nb.ux) as int) * (a as int), SCALE as int);
            }
            match narrow(nb.ut as i128 - q) {
                Some(ut) => Some(UPair { ut, ux: g }),
                None => None,
            }
        },
    }
}

/// Computes the right-boundary update from the prescribed value `g`;
/// `None` exactly when the back-solved companion leaves the working
/// range.
pub fn right_calc_point(a: i64, ty: UDiffType, g: i64, nb: UPair) -> (r: Option<UPair>)
    requires
        1 <= a <= VAL_LIMIT,
        fits_val(g as int),
        fits_pair(pair_model(nb)),
    ensures
        ({
            let m = right_boundary_pair(a as int, ty, g as int, pair_model(nb));
            if fits_pair(m) {
                r == Some(pair_store(m))
            } else {
                r is None
            }
        }),
{
    match ty {
        UDiffType::Ut => {
            proof {
                lemma_mul_bounds(
                    (g - nb.ut) as int,
                    SCALE as int,
                    2 * VAL_LIMIT as int,
                    VAL_LIMIT as int,
                );
            }
            let q: i128 = div_floor((g as i128 - nb.ut as i128) * SCALE as i128, a as i128);
            proof {
                lemma_div_between(((g - nb.ut) as int) * (SCALE as int), a as int);
            }
            match narrow(nb.ux as i128 + q) {
                Some(ux) => Some(UPair { ut: g, ux }),
                None => None,
            }
        },
        UDiffType::Ux => {
            proof {
                lemma_mul_bounds(
                    (g - nb.ux) as int,
                    a as int,
                    2 * VAL_LIMIT as int,
                    VAL_LIMIT as int,
                );
            }
            let q: i128 = div_floor((g as i128 - nb.ux as i128) * a as i128, SCALE as i128);
            proof {
                lemma_div_between(((g - nb.ux) as int) * (a as int), SCALE as int);
            }
            match narrow(nb.ut as i128 + q) {
                Some(ut) => Some(UPair { ut, ux: g }),
                None => None,
            }
        },
    }
}

} // verus!
