//! User-supplied real functions: initial profile, initial velocity and
//! boundary forcing.
//!
//! The engine only ever sees such a function as a capability that maps a
//! fixed-point abscissa to a fixed-point value or fails.  Two concrete
//! shapes are provided: a constant, and a table of equally spaced samples
//! interpolated linearly, which is how a host hands an arbitrary function
//! to the engine as plain values.  Evaluating a table outside its sampled
//! range is the evaluation failure of the error model.

use vstd::prelude::*;

verus! {

use vstd::arithmetic::div_mod::{
    lemma_div_is_ordered,
    lemma_div_multiples_vanish,
    lemma_div_pos_is_pos,
    lemma_fundamental_div_mod,
    lemma_mod_pos_bound,
};
use crate::fixed::{div_floor, fits_val, lemma_div_between, lemma_mul_bounds};
use crate::{Error, VAL_LIMIT};

/// A table shape the constructor accepts: positive spacing within the
/// working range, at least two samples, and the whole sampled range and
/// every sample value representable.
pub open spec fn table_ok(start: int, step: int, values: Seq<i64>) -> bool {
    &&& 1 <= step <= VAL_LIMIT as int
    &&& 2 <= values.len() <= VAL_LIMIT as int
    &&& -(VAL_LIMIT as int) <= start
    &&& start + (values.len() - 1) * step <= VAL_LIMIT as int
    &&& forall|i: int| 0 <= i < values.len() ==> fits_val(#[trigger] values[i] as int)
}

/// A real function given as equally spaced samples, interpolated
/// linearly between neighbouring nodes.  It is defined on
/// `[first, last]` and nowhere else.
#[derive(Debug)]
pub struct TableFn {
    start: i64,
    step: i64,
    values: Vec<i64>,
}

impl TableFn {
    /// The table is usable: positive spacing, at least two samples, and
    /// both abscissas and ordinates inside the engine's working range.
    pub closed spec fn wf(self) -> bool {
        table_ok(self.start as int, self.step as int, self.values@)
    }

    /// Leftmost abscissa of the sampled range.
    pub closed spec fn first(self) -> int {
        self.start as int
    }

    /// Rightmost abscissa of the sampled range.
    pub closed spec fn last(self) -> int {
        self.start + (self.values@.len() - 1) * self.step
    }

    /// The table answers exactly on its sampled range.
    pub open spec fn defined_at(self, x: int) -> bool {
        self.first() <= x <= self.last()
    }

    /// Index of the interpolation cell holding `x`: the floor of
    /// `(x - first) / step`, clamped so that the cell has a right
    /// neighbour (the clamp only acts at `x == last`).
    pub closed spec fn cell_of(self, x: int) -> int {
        let k0 = (x - self.start) / (self.step as int);
        if k0 > self.values@.len() - 2 {
            self.values@.len() - 2
        } else {
            k0
        }
    }

    /// Exact interpolated value at `x` (meaningful when `defined_at(x)`):
    /// the left sample plus the floor-rounded linear correction.
    pub closed spec fn value_at(self, x: int) -> int {
        let k = self.cell_of(x);
        let x0 = self.start + k * self.step;
        let y0 = self.values@[k] as int;
        let y1 = self.values@[k + 1] as int;
        y0 + ((x - x0) * (y1 - y0)) / (self.step as int)
    }

    /// Builds a table; rejected as an invalid parameter unless the
    /// spacing is positive, there are at least two samples, and the
    /// whole sampled range and all sample values lie in the working
    /// range.
    pub fn new(start: i64, step: i64, values: Vec<i64>) -> (r: Result<TableFn, Error>)
        ensures
            r is Ok <==> table_ok(start as int, step as int, values@),
            r matches Ok(t) ==> t.wf() && t.first() == start && t@ == values@
                && t.spacing() == step,
            r is Err ==> r == Err::<TableFn, Error>(Error::InvalidParameter),
    {
        if step < 1 || step > VAL_LIMIT || values.len() < 2 {
            return Err(Error::InvalidParameter);
        }
        if values.len() as u128 > VAL_LIMIT as u128 {
            return Err(Error::InvalidParameter);
        }
        if start < -VAL_LIMIT {
            return Err(Error::InvalidParameter);
        }
        proof {
            lemma_mul_bounds(
                values@.len() - 1,
                step as int,
                VAL_LIMIT as int,
                VAL_LIMIT as int,
            );
        }
        let end: i128 = start as i128 + (values.len() - 1) as i128 * step as i128;
        if end > VAL_LIMIT as i128 {
            return Err(Error::InvalidParameter);
        }
        let mut i: usize = 0;
        while i < values.len()
            invariant
                0 <= i <= values.len(),
                forall|j: int| 0 <= j < i ==> fits_val(#[trigger] values@[j] as int),
            decreases values.len() - i,
        {
            let v = values[i];
            if v < -VAL_LIMIT || v > VAL_LIMIT {
                proof {
                    assert(!fits_val(values@[i as int] as int));
                }
                return Err(Error::InvalidParameter);
            }
            i = i + 1;
        }
        Ok(TableFn { start, step, values })
    }

    /// The sample values, for reasoning about what `new` stored.
    pub closed spec fn view(self) -> Seq<i64> {
        self.values@
    }

    /// The sample spacing.
    pub closed spec fn spacing(self) -> int {
        self.step as int
    }

    /// Decides well-formedness of an arbitrary table value at run time.
    pub fn check_wf(&self) -> (b: bool)
        ensures
            b == self.wf(),
    {
        if self.step < 1 || self.step > VAL_LIMIT {
            return false;
        }
        if self.values.len() < 2 || self.values.len() as u128 > VAL_LIMIT as u128 {
            return false;
        }
        if self.start < -VAL_LIMIT {
            return false;
        }
        proof {
            lemma_mul_bounds(
                self.values@.len() - 1,
                self.step as int,
                usize::MAX as int,
                VAL_LIMIT as int,
            );
        }
        let end: i128 = self.start as i128 + (self.values.len() - 1) as i128 * self.step as i128;
        if end > VAL_LIMIT as i128 {
            return false;
        }
        let mut i: usize = 0;
        while i < self.values.len()
            invariant
                0 <= i <= self.values@.len(),
                forall|j: int| 0 <= j < i ==> fits_val(#[trigger] self.values@[j] as int),
            decreases self.values@.len() - i,
        {
            let v = self.values[i];
            if v < -VAL_LIMIT || v > VAL_LIMIT {
                return false;
            }
            i = i + 1;
        }
        true
    }
}

/// The interpolated correction keeps the value between the two
/// neighbouring samples.
proof fn lemma_interp_between(dx: int, step: int, y0: int, y1: int)
    requires
        0 <= dx <= step,
        1 <= step,
    ensures
        y0 <= y1 ==> y0 <= y0 + ((dx * (y1 - y0)) / step) <= y1,
        y1 <= y0 ==> y1 <= y0 + ((dx * (y1 - y0)) / step) <= y0,
{
    let d = y1 - y0;
    if d >= 0 {
        assert(0 <= dx * d <= step * d) by (nonlinear_arith)
            requires
                0 <= dx <= step,
                0 <= d,
        ;
        lemma_div_pos_is_pos(dx * d, step);
        lemma_div_is_ordered(dx * d, step * d, step);
        lemma_div_multiples_vanish(d, step);
        assert(step * d == d * step) by (nonlinear_arith);
        assert((step * d) / step == d);
    } else {
        assert(step * d <= dx * d <= 0) by (nonlinear_arith)
            requires
                0 <= dx <= step,
                d < 0,
        ;
        lemma_div_is_ordered(step * d, dx * d, step);
        lemma_div_multiples_vanish(d, step);
        assert(step * d == d * step) by (nonlinear_arith);
        assert((step * d) / step == d);
        lemma_div_between(dx * d, step);
    }
}

/// On its sampled range a well-formed table stays inside the working
/// range: the interpolated value lies between the two neighbouring
/// samples.
pub proof fn lemma_table_value_bounded(t: TableFn, x: int)
    requires
        t.wf(),
        t.defined_at(x),
    ensures
        fits_val(t.value_at(x)),
{
    let step = t.spacing();
    let len = t@.len() as int;
    let k0 = (x - t.first()) / step;
    lemma_div_pos_is_pos(x - t.first(), step);
    assert((x - t.first()) <= (len - 1) * step);
    lemma_div_is_ordered(x - t.first(), (len - 1) * step, step);
    lemma_div_multiples_vanish(len - 1, step);
    assert((len - 1) * step == step * (len - 1)) by (nonlinear_arith);
    assert(k0 <= len - 1);
    let k = t.cell_of(x);
    assert(0 <= k <= len - 2);
    let x0 = t.first() + k * step;
    let dx = x - x0;
    assert(0 <= dx <= step) by {
        if k0 <= len - 2 {
            assert(k == k0);
            lemma_fundamental_div_mod(x - t.first(), step);
            lemma_mod_pos_bound(x - t.first(), step);
            assert(x - t.first() == step * k0 + (x - t.first()) % step);
            assert(step * k0 == k0 * step) by (nonlinear_arith);
        } else {
            assert(k0 == len - 1 && k == len - 2);
            lemma_fundamental_div_mod(x - t.first(), step);
            lemma_mod_pos_bound(x - t.first(), step);
            assert(x - t.first() == step * k0 + (x - t.first()) % step);
            assert(x - t.first() <= (len - 1) * step);
            assert(step * (len - 1) == (len - 1) * step) by (nonlinear_arith);
            assert((x - t.first()) % step == 0) by {
                if (x - t.first()) % step > 0 {
                    assert(x - t.first() > step * (len - 1));
                }
            };
            assert(dx == step) by {
                assert(x - t.first() == step * (len - 1));
                assert(k * step + dx == step * (len - 1));
                assert(k * step == step * (len - 2)) by (nonlinear_arith)
                    requires
                        k == len - 2,
                ;
                assert(step * (len - 1) - step * (len - 2) == step) by (nonlinear_arith);
            };
        }
    };
    let y0 = t@[k] as int;
    let y1 = t@[k + 1] as int;
    lemma_interp_between(dx, step, y0, y1);
    assert(fits_val(y0) && fits_val(y1));
}

/// A user-supplied real function, as the engine receives it: either a
/// constant or a linearly interpolated sample table.
#[derive(Debug)]
pub enum RealFunction {
    /// The function that answers `c` everywhere.
    Const(i64),
    /// A table of equally spaced samples, defined on its sampled range.
    Table(TableFn),
}

impl RealFunction {
    /// The function can be evaluated without leaving the engine's
    /// working range.
    pub open spec fn wf(self) -> bool {
        match self {
            RealFunction::Const(c) => fits_val(c as int),
            RealFunction::Table(t) => t.wf(),
        }
    }

    /// Where evaluation succeeds.
    pub open spec fn defined_at(self, x: int) -> bool {
        match self {
            RealFunction::Const(_) => true,
            RealFunction::Table(t) => t.defined_at(x),
        }
    }

    /// The value returned on success.
    pub open spec fn value_at(self, x: int) -> int {
        match self {
            RealFunction::Const(c) => c as int,
            RealFunction::Table(t) => t.value_at(x),
        }
    }

    /// Decides well-formedness of an arbitrary function value at run
    /// time.
    pub fn check_wf(&self) -> (b: bool)
        ensures
            b == self.wf(),
    {
        match self {
            RealFunction::Const(c) => -VAL_LIMIT <= *c && *c <= VAL_LIMIT,
            RealFunction::Table(t) => t.check_wf(),
        }
    }

    /// Evaluates the function at `x`; fails with the evaluation error
    /// exactly where the function is undefined.
    pub fn eval(&self, x: i64) -> (r: Result<i64, Error>)
        requires
            self.wf(),
        ensures
            r is Ok <==> self.defined_at(x as int),
            r matches Ok(v) ==> v as int == self.value_at(x as int) && fits_val(v as int),
            r is Err ==> r == Err::<i64, Error>(Error::Evaluation),
    {
        match self {
            RealFunction::Const(c) => Ok(*c),
            RealFunction::Table(t) => {
                let len = t.values.len();
                if x < t.start {
                    return Err(Error::Evaluation);
                }
                let off: i128 = x as i128 - t.start as i128;
                let span: i128 = (len - 1) as i128 * t.step as i128;
                proof {
                    lemma_mul_bounds(
                        len - 1,
                        t.step as int,
                        VAL_LIMIT as int,
                        VAL_LIMIT as int,
                    );
                }
                if off > span {
                    return Err(Error::Evaluation);
                }
                let k0: i128 = div_floor(off, t.step as i128);
                proof {
                    lemma_div_pos_is_pos(off as int, t.spacing());
                    lemma_div_is_ordered(off as int, span as int, t.spacing());
                    lemma_div_multiples_vanish(len - 1, t.spacing());
                    assert((len - 1) * t.spacing() == t.spacing() * (len - 1))
                        by (nonlinear_arith);
                }
                let k: usize = if k0 > (len - 2) as i128 {
                    len - 2
                } else {
                    k0 as usize
                };
                proof {
                    assert(k as int == t.cell_of(x as int));
                }
                proof {
                    lemma_mul_bounds(k as int, t.spacing(), VAL_LIMIT as int, VAL_LIMIT as int);
                }
                let x0: i128 = t.start as i128 + k as i128 * t.step as i128;
                let dx: i128 = x as i128 - x0;
                let y0 = t.values[k];
                let y1 = t.values[k + 1];
                proof {
                    lemma_table_cell_offset(*t, x as int);
                    lemma_mul_bounds(
                        dx as int,
                        y1 - y0,
                        2 * VAL_LIMIT as int,
                        2 * VAL_LIMIT as int,
                    );
                }
                let q: i128 = div_floor(dx * (y1 as i128 - y0 as i128), t.step as i128);
                proof {
                    lemma_interp_between(dx as int, t.spacing(), y0 as int, y1 as int);
                    lemma_table_value_bounded(*t, x as int);
                }
                Ok((y0 as i128 + q) as i64)
            },
        }
    }
}

/// Inside the sampled range, the offset from the chosen cell's left node
/// stays within one spacing.
proof fn lemma_table_cell_offset(t: TableFn, x: int)
    requires
        t.wf(),
        t.defined_at(x),
    ensures
        0 <= x - (t.first() + t.cell_of(x) * t.spacing()) <= t.spacing(),
        0 <= t.cell_of(x) <= t@.len() - 2,
{
    let step = t.spacing();
    let len = t@.len() as int;
    let k0 = (x - t.first()) / step;
    lemma_div_pos_is_pos(x - t.first(), step);
    lemma_div_is_ordered(x - t.first(), (len - 1) * step, step);
    lemma_div_multiples_vanish(len - 1, step);
    assert((len - 1) * step == step * (len - 1)) by (nonlinear_arith);
    let k = t.cell_of(x);
    if k0 <= len - 2 {
        lemma_fundamental_div_mod(x - t.first(), step);
        lemma_mod_pos_bound(x - t.first(), step);
        assert(step * k0 == k0 * step) by (nonlinear_arith);
    } else {
        assert(k0 == len - 1 && k == len - 2);
        lemma_fundamental_div_mod(x - t.first(), step);
        lemma_mod_pos_bound(x - t.first(), step);
        assert(step * k0 == k0 * step) by (nonlinear_arith);
        assert(x - t.first() <= (len - 1) * step);
        assert(k * step == (len - 2) * step);
        assert((len - 1) * step - (len - 2) * step == step) by (nonlinear_arith);
    }
}

} // verus!
