//! Parameter bundles of the engine and the grid-sizing rule.
//!
//! `ConstParams` fixes a generation of the grid: wave speed, domain
//! length and the two initial-condition functions.  `VariableParams`
//! carries the two boundary conditions and may change between steps
//! without touching the grid.

use vstd::prelude::*;

verus! {

use vstd::arithmetic::div_mod::{lemma_fundamental_div_mod, lemma_mod_bound};
use crate::fixed::{lemma_div_between, lemma_mul_bounds};
use crate::real_fn::RealFunction;
use crate::{MIN_FRAMERATE, MIN_TABULATION_SIZE, VAL_LIMIT};

/// Which first derivative a boundary condition prescribes at its end of
/// the rod: the time derivative or the space derivative.
#[derive(Clone, Copy, Debug, PartialEq, Eq, Structural)]
pub enum UDiffType {
    Ut,
    Ux,
}

/// One boundary condition: the prescribed derivative kind together with
/// the function of simulation time that supplies its value.
#[derive(Debug)]
pub struct UDiff {
    pub ty: UDiffType,
    pub func: RealFunction,
}

impl UDiff {
    pub open spec fn wf(self) -> bool {
        self.func.wf()
    }
}

/// The two boundary conditions: `left` acts at `x = 0`, `right` at
/// `x = l`.
#[derive(Debug)]
pub struct VariableParams {
    pub left: UDiff,
    pub right: UDiff,
}

impl VariableParams {
    pub open spec fn wf(self) -> bool {
        self.left.wf() && self.right.wf()
    }
}

/// Parameters that fix one grid generation: wave speed `a`, domain
/// length `l` (both positive fixed-point numbers) and the initial
/// profile `bottom_u` and initial velocity `bottom_u_t`.
#[derive(Debug)]
pub struct ConstParams {
    pub bottom_u: RealFunction,
    pub bottom_u_t: RealFunction,
    pub a: i64,
    pub l: i64,
}

impl ConstParams {
    /// The speed and length are positive and representable, and both
    /// initial-condition functions are usable.
    pub open spec fn valid(self) -> bool {
        &&& 1 <= self.a <= VAL_LIMIT
        &&& 1 <= self.l <= VAL_LIMIT
        &&& self.bottom_u.wf()
        &&& self.bottom_u_t.wf()
    }
}

/// Number of grid nodes for speed `a` and length `l`: the larger of the
/// resolution floor and `ceil(2 * l / a * MIN_FRAMERATE) + 1`, which
/// guarantees at least `MIN_FRAMERATE` discrete steps per second of
/// simulated time.  (`a` and `l` are raw fixed-point values; their
/// common scale cancels in the quotient.)
pub open spec fn spec_tabulation_size(a: int, l: int) -> int {
    let forced = (2 * (MIN_FRAMERATE as int) * l + a - 1) / a + 1;
    if forced < MIN_TABULATION_SIZE as int {
        MIN_TABULATION_SIZE as int
    } else {
        forced
    }
}

/// The sizing never goes below the resolution floor nor below the
/// refresh-rate bound `ceil(2 * l * MIN_FRAMERATE / a) + 1`.
pub proof fn lemma_tabulation_size_bounds(a: int, l: int)
    requires
        1 <= a,
        1 <= l,
    ensures
        spec_tabulation_size(a, l) >= MIN_TABULATION_SIZE as int,
        spec_tabulation_size(a, l) >= (2 * (MIN_FRAMERATE as int) * l + a - 1) / a + 1,
{
    lemma_div_between(2 * (MIN_FRAMERATE as int) * l + a - 1, a);
}

/// The sizing rule enforces the stability budget behind the fixed step:
/// the grid traverses the domain fast enough that
/// `a * (n - 1) >= 2 * MIN_FRAMERATE * l`, which caps the discrete step
/// `dt = l * SCALE / (a * (n - 1))` at `SCALE / (2 * MIN_FRAMERATE)`.
pub proof fn lemma_tabulation_size_courant(a: int, l: int)
    requires
        1 <= a,
        1 <= l,
    ensures
        a * (spec_tabulation_size(a, l) - 1) >= 2 * (MIN_FRAMERATE as int) * l,
{
    let num = 2 * (MIN_FRAMERATE as int) * l + a - 1;
    let q = num / a;
    lemma_fundamental_div_mod(num, a);
    lemma_mod_bound(num, a);
    assert(a * q == num - num % a);
    assert(a * q >= 2 * (MIN_FRAMERATE as int) * l);
    let n = spec_tabulation_size(a, l);
    assert(n - 1 >= q);
    assert(a * (n - 1) >= a * q) by (nonlinear_arith)
        requires
            1 <= a,
            n - 1 >= q,
    ;
}

/// Grid size for one generation, when it is representable: `None`
/// exactly when the demanded node count does not fit a `usize`.
pub fn try_tabulation_size(a: i64, l: i64) -> (r: Option<usize>)
    requires
        1 <= a <= VAL_LIMIT,
        1 <= l <= VAL_LIMIT,
    ensures
        spec_tabulation_size(a as int, l as int) <= usize::MAX as int ==> r == Some(
            spec_tabulation_size(a as int, l as int) as usize,
        ),
        spec_tabulation_size(a as int, l as int) > usize::MAX as int ==> r is None,
{
    proof {
        lemma_mul_bounds(
            2 * (MIN_FRAMERATE as int),
            l as int,
            2 * (MIN_FRAMERATE as int),
            VAL_LIMIT as int,
        );
    }
    let num: i128 = 2 * MIN_FRAMERATE as i128 * l as i128 + a as i128 - 1;
    let q: i128 = crate::fixed::div_floor(num, a as i128);
    proof {
        lemma_div_between(num as int, a as int);
    }
    let forced: i128 = q + 1;
    let n: i128 = if forced < MIN_TABULATION_SIZE as i128 {
        MIN_TABULATION_SIZE as i128
    } else {
        forced
    };
    if n <= usize::MAX as i128 {
        Some(n as usize)
    } else {
        None
    }
}

/// Derives the tabulation resolution from wave speed and length, as the
/// grid generator uses it.  The result is `MIN_TABULATION_SIZE` or the
/// refresh-rate bound, whichever is larger.
pub fn calc_tabulation_size(a: i64, l: i64) -> (n: usize)
    requires
        1 <= a <= VAL_LIMIT,
        1 <= l <= VAL_LIMIT,
        spec_tabulation_size(a as int, l as int) <= usize::MAX as int,
    ensures
        n as int == spec_tabulation_size(a as int, l as int),
        n >= MIN_TABULATION_SIZE,
        n as int >= (2 * (MIN_FRAMERATE as int) * (l as int) + a - 1) / (a as int) + 1,
{
    proof {
        lemma_tabulation_size_bounds(a as int, l as int);
    }
    let r = try_tabulation_size(a, l);
    r.unwrap()
}

} // verus!
