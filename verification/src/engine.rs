//! The engine: a tabulated wave-equation solution advanced by the
//! method of characteristics.
//!
//! The grid holds one displacement sample and one derivative pair per
//! node.  A generation of the grid is fixed by `ConstParams`; the two
//! boundary conditions can be replaced between steps.  Each step reads
//! only the previous step's derivative pairs — the new pairs are built
//! into a scratch buffer that is swapped with the primary one when the
//! whole step has succeeded, so a failed step leaves the state exactly
//! as it was.

use vstd::prelude::*;

verus! {

use vstd::arithmetic::div_mod::{
    lemma_div_is_ordered,
    lemma_fundamental_div_mod,
    lemma_mod_bound,
    lemma_div_is_ordered_by_denominator,
    lemma_div_multiples_vanish,
    lemma_div_of0,
    lemma_div_pos_is_pos,
};
use crate::fixed::{div_floor, fits_val, lemma_div_between, lemma_mul_bounds, narrow};
use crate::params::{
    spec_tabulation_size,
    UDiffType,
    try_tabulation_size,
    ConstParams,
    VariableParams,
};
use crate::stencil::{
    fits_pair,
    interior_pair,
    left_boundary_pair,
    pair_model,
    pair_store,
    right_boundary_pair,
    UPair,
    UPairModel,
    UTriplePoint,
};
use crate::{Error, MIN_FRAMERATE, SCALE, VAL_LIMIT};

/// The discrete step: the time in which a characteristic travels one
/// node spacing, `dt = l / (a * (n - 1))` in real terms, so the Courant
/// number is held at 1.
pub open spec fn spec_dt(a: int, l: int, n: int) -> int {
    (l * (SCALE as int)) / (a * (n - 1))
}

/// Physical position of node `i`: `x_i = i / (n - 1) * l`.
pub open spec fn spec_pos(l: int, n: int, i: int) -> int {
    (i * l) / (n - 1)
}

/// Node spacing `h = l / (n - 1)`.
pub open spec fn spec_h(l: int, n: int) -> int {
    l / (n - 1)
}

/// The endpoints of the grid land exactly on the ends of the rod:
/// node 0 sits at position 0 and node `n - 1` at position `l`.
pub proof fn lemma_grid_endpoints(l: int, n: int)
    requires
        1 <= l,
        2 <= n,
    ensures
        spec_pos(l, n, 0) == 0,
        spec_pos(l, n, n - 1) == l,
{
    lemma_div_of0(n - 1);
    lemma_div_multiples_vanish(l, n - 1);
}

/// A node position never leaves the rod.
pub proof fn lemma_pos_in_domain(l: int, n: int, i: int)
    requires
        1 <= l,
        2 <= n,
        0 <= i <= n - 1,
    ensures
        0 <= spec_pos(l, n, i) <= l,
{
    lemma_mul_bounds(i, l, n - 1, l);
    lemma_div_pos_is_pos(i * l, n - 1);
    lemma_div_is_ordered(i * l, (n - 1) * l, n - 1);
    lemma_div_multiples_vanish(l, n - 1);
    assert((n - 1) * l == (n - 1) * l);
}

/// Constant parameters the engine can actually tabulate: they are valid
/// in range, the demanded grid fits a `usize`, and neither the node
/// spacing nor the discrete step vanishes in the fixed-point
/// representation.
pub open spec fn params_ok(p: ConstParams) -> bool {
    &&& p.valid()
    &&& spec_tabulation_size(p.a as int, p.l as int) <= usize::MAX as int
    &&& 1 <= spec_h(p.l as int, spec_tabulation_size(p.a as int, p.l as int))
    &&& 1 <= spec_dt(p.a as int, p.l as int, spec_tabulation_size(p.a as int, p.l as int))
}

/// Initial estimate of `ux` at node `i`: the centred finite difference
/// of the initial profile over half-node offsets,
/// `(u0(x + h/2) - u0(x - h/2)) / h`.
pub open spec fn init_ux(p: ConstParams, n: int, i: int) -> int {
    let x = spec_pos(p.l as int, n, i);
    let h = spec_h(p.l as int, n);
    let h2 = h / 2;
    ((p.bottom_u.value_at(x + h2) - p.bottom_u.value_at(x - h2)) * (SCALE as int)) / h
}

/// Mathematical state of the engine: displacement and derivative pair
/// per node, and the current simulation time.
pub struct StateModel {
    pub u: Seq<int>,
    pub ud: Seq<UPairModel>,
    pub t: int,
}

/// The state a fresh generation tabulates from the initial conditions:
/// `u` from the profile, `ut` from the initial velocity, `ux` by the
/// centred finite difference, at time zero.
pub open spec fn init_state(p: ConstParams) -> StateModel {
    let n = spec_tabulation_size(p.a as int, p.l as int);
    StateModel {
        u: Seq::new(n as nat, |i: int| p.bottom_u.value_at(spec_pos(p.l as int, n, i))),
        ud: Seq::new(
            n as nat,
            |i: int| UPairModel {
                ut: p.bottom_u_t.value_at(spec_pos(p.l as int, n, i)),
                ux: init_ux(p, n, i),
            },
        ),
        t: 0,
    }
}

/// Every evaluation the tabulation makes is inside the domain of the
/// supplied initial-condition functions.
pub open spec fn init_defined(p: ConstParams) -> bool {
    let n = spec_tabulation_size(p.a as int, p.l as int);
    let h2 = spec_h(p.l as int, n) / 2;
    forall|i: int|
        0 <= i < n ==> {
            let x = #[trigger] spec_pos(p.l as int, n, i);
            &&& p.bottom_u.defined_at(x)
            &&& p.bottom_u_t.defined_at(x)
            &&& p.bottom_u.defined_at(x + h2)
            &&& p.bottom_u.defined_at(x - h2)
        }
}

/// Every initial slope estimate stays in the working range.
pub open spec fn init_fits(p: ConstParams) -> bool {
    let n = spec_tabulation_size(p.a as int, p.l as int);
    forall|i: int| 0 <= i < n ==> fits_val(#[trigger] init_ux(p, n, i))
}

/// Grid generation succeeds exactly on these parameters.
pub open spec fn gen_ok(p: ConstParams) -> bool {
    params_ok(p) && init_defined(p) && init_fits(p)
}

/// The engine: boundary parameters, one grid generation (primary and
/// scratch derivative buffers plus the displacement samples), and the
/// simulation clock with its step remainder.
pub struct CharacteristicsMethod {
    var_params: VariableParams,
    const_params: ConstParams,
    floor_u: Vec<i64>,
    floor_udiff: Vec<UPair>,
    floor_udiff_buffer: Vec<UPair>,
    cur_t: i64,
    rem_t: i64,
}

impl CharacteristicsMethod {
    /// Displacement samples, one per node.
    pub closed spec fn u_seq(self) -> Seq<i64> {
        self.floor_u@
    }

    /// Derivative pairs, one per node.
    pub closed spec fn ud_seq(self) -> Seq<UPair> {
        self.floor_udiff@
    }

    /// Current simulation time.
    pub closed spec fn t(self) -> int {
        self.cur_t as int
    }

    /// Carried remainder of the step accumulator.
    pub closed spec fn rem(self) -> int {
        self.rem_t as int
    }

    /// The constant parameters of the live generation.
    pub closed spec fn c_params(self) -> ConstParams {
        self.const_params
    }

    /// The current boundary parameters.
    pub closed spec fn v_params(self) -> VariableParams {
        self.var_params
    }

    /// Number of grid nodes.
    pub open spec fn size(self) -> int {
        self.u_seq().len() as int
    }

    /// The engine's fixed discrete step.
    pub open spec fn dt(self) -> int {
        spec_dt(self.c_params().a as int, self.c_params().l as int, self.size())
    }

    /// Mathematical state of the engine.
    pub open spec fn model(self) -> StateModel {
        StateModel {
            u: self.u_seq().map_values(|v: i64| v as int),
            ud: self.ud_seq().map_values(|p: UPair| pair_model(p)),
            t: self.t(),
        }
    }

    /// Well-formedness: the live generation matches its parameters, all
    /// stored samples are in range, and the clock and remainder are
    /// in their places.
    pub open spec fn wf(self) -> bool {
        &&& params_ok(self.c_params())
        &&& self.v_params().wf()
        &&& self.size() == spec_tabulation_size(
            self.c_params().a as int,
            self.c_params().l as int,
        )
        &&& self.ud_seq().len() == self.u_seq().len()
        &&& forall|i: int| 0 <= i < self.size() ==> fits_val(#[trigger] self.u_seq()[i] as int)
        &&& forall|i: int| 0 <= i < self.size() ==> fits_pair(pair_model(#[trigger] self.ud_seq()[i]))
        &&& 0 <= self.t() <= VAL_LIMIT
        &&& 0 <= self.rem() < self.dt()
    }
}

/// Decides `params_ok` at run time.
fn check_params(cp: &ConstParams) -> (b: bool)
    ensures
        b == params_ok(*cp),
{
    if cp.a < 1 || cp.a > VAL_LIMIT || cp.l < 1 || cp.l > VAL_LIMIT {
        return false;
    }
    if !cp.bottom_u.check_wf() || !cp.bottom_u_t.check_wf() {
        return false;
    }
    let n_opt = try_tabulation_size(cp.a, cp.l);
    match n_opt {
        None => false,
        Some(n) => {
            proof {
                crate::params::lemma_tabulation_size_bounds(cp.a as int, cp.l as int);
            }
            let h: i128 = div_floor(cp.l as i128, (n - 1) as i128);
            if h < 1 {
                return false;
            }
            proof {
                lemma_mul_bounds(cp.l as int, SCALE as int, VAL_LIMIT as int, SCALE as int);
                lemma_mul_bounds(cp.a as int, n - 1, VAL_LIMIT as int, usize::MAX as int);
                assert(1 <= (cp.a as int) * (n as int - 1)) by (nonlinear_arith)
                    requires
                        1 <= cp.a as int,
                        1 <= n as int - 1,
                ;
            }
            let dt: i128 = div_floor(
                cp.l as i128 * SCALE as i128,
                cp.a as i128 * (n - 1) as i128,
            );
            dt >= 1
        },
    }
}

/// One generation of grid contents, produced from the parameters; the
/// vectors hold, in node order, the displacements and derivative pairs
/// of `init_state`.
fn generate(cp: &ConstParams) -> (r: Result<(Vec<i64>, Vec<UPair>), Error>)
    ensures
        r matches Ok(g) ==> gen_ok(*cp) && g.0@.len() == spec_tabulation_size(
            cp.a as int,
            cp.l as int,
        ) && g.1@.len() == g.0@.len() && g.0@.map_values(|v: i64| v as int) == init_state(*cp).u
            && g.1@.map_values(|p: UPair| pair_model(p)) == init_state(*cp).ud && (forall|i: int|
            0 <= i < g.0@.len() ==> fits_val(#[trigger] g.0@[i] as int)) && (forall|i: int|
            0 <= i < g.1@.len() ==> fits_pair(pair_model(#[trigger] g.1@[i]))),
        r is Ok <==> gen_ok(*cp),
        r == Err::<(Vec<i64>, Vec<UPair>), Error>(Error::InvalidParameter) <==> !params_ok(*cp),
        r == Err::<(Vec<i64>, Vec<UPair>), Error>(Error::Evaluation) <==> params_ok(*cp)
            && !init_defined(*cp),
        r == Err::<(Vec<i64>, Vec<UPair>), Error>(Error::Overflow) <==> params_ok(*cp)
            && init_defined(*cp) && !init_fits(*cp),
{
    if !check_params(cp) {
        return Err(Error::InvalidParameter);
    }
    let n = try_tabulation_size(cp.a, cp.l).unwrap();
    proof {
        crate::params::lemma_tabulation_size_bounds(cp.a as int, cp.l as int);
    }
    let ghost nn = n as int;
    let ghost ll = cp.l as int;
    let h: i128 = div_floor(cp.l as i128, (n - 1) as i128);
    let h2: i64 = div_floor(h, 2) as i64;
    proof {
        lemma_div_between(cp.l as int, nn - 1);
        lemma_div_between(h as int, 2);
        assert(h as int == spec_h(ll, nn));
        assert(h2 as int == spec_h(ll, nn) / 2);
    }
    let mut u_vec: Vec<i64> = Vec::new();
    let mut ut_vec: Vec<i64> = Vec::new();
    let mut up_vec: Vec<i64> = Vec::new();
    let mut um_vec: Vec<i64> = Vec::new();
    let mut i: usize = 0;
    while i < n
        invariant
            params_ok(*cp),
            nn == spec_tabulation_size(cp.a as int, ll),
            ll == cp.l as int,
            n as int == nn,
            2 <= nn <= usize::MAX as int,
            1 <= ll <= VAL_LIMIT as int,
            h2 as int == spec_h(ll, nn) / 2,
            spec_h(ll, nn) <= ll,
            0 <= i <= n,
            u_vec@.len() == i && ut_vec@.len() == i && up_vec@.len() == i && um_vec@.len() == i,
            forall|j: int|
                0 <= j < i ==> {
                    let x = #[trigger] spec_pos(ll, nn, j);
                    &&& cp.bottom_u.defined_at(x)
                    &&& cp.bottom_u_t.defined_at(x)
                    &&& cp.bottom_u.defined_at(x + spec_h(ll, nn) / 2)
                    &&& cp.bottom_u.defined_at(x - spec_h(ll, nn) / 2)
                    &&& u_vec@[j] as int == cp.bottom_u.value_at(x)
                    &&& ut_vec@[j] as int == cp.bottom_u_t.value_at(x)
                    &&& up_vec@[j] as int == cp.bottom_u.value_at(x + spec_h(ll, nn) / 2)
                    &&& um_vec@[j] as int == cp.bottom_u.value_at(x - spec_h(ll, nn) / 2)
                    &&& fits_val(u_vec@[j] as int)
                    &&& fits_val(ut_vec@[j] as int)
                    &&& fits_val(up_vec@[j] as int)
                    &&& fits_val(um_vec@[j] as int)
                },
        decreases n - i,
    {
        proof {
            lemma_mul_bounds(i as int, ll, nn - 1, VAL_LIMIT as int);
            lemma_pos_in_domain(ll, nn, i as int);
        }
        let x: i64 = div_floor(i as i128 * cp.l as i128, (n - 1) as i128) as i64;
        proof {
            assert(x as int == spec_pos(ll, nn, i as int));
            assert(spec_h(ll, nn) <= ll) by {
                lemma_div_between(ll, nn - 1);
            };
        }
        let u = match cp.bottom_u.eval(x) {
            Ok(v) => v,
            Err(_) => {
                return Err(Error::Evaluation);
            },
        };
        let ut = match cp.bottom_u_t.eval(x) {
            Ok(v) => v,
            Err(_) => {
                return Err(Error::Evaluation);
            },
        };
        let up = match cp.bottom_u.eval(x + h2) {
            Ok(v) => v,
            Err(_) => {
                return Err(Error::Evaluation);
            },
        };
        let um = match cp.bottom_u.eval(x - h2) {
            Ok(v) => v,
            Err(_) => {
                return Err(Error::Evaluation);
            },
        };
        u_vec.push(u);
        ut_vec.push(ut);
        up_vec.push(up);
        um_vec.push(um);
        i = i + 1;
    }
    assert(init_defined(*cp));
    let mut ud_vec: Vec<UPair> = Vec::new();
    let mut i: usize = 0;
    while i < n
        invariant
            params_ok(*cp),
            init_defined(*cp),
            nn == spec_tabulation_size(cp.a as int, ll),
            ll == cp.l as int,
            n as int == nn,
            2 <= nn <= usize::MAX as int,
            1 <= ll <= VAL_LIMIT as int,
            1 <= spec_h(ll, nn),
            0 <= i <= n,
            u_vec@.len() == n && ut_vec@.len() == n && up_vec@.len() == n && um_vec@.len() == n,
            ud_vec@.len() == i,
            h as int == spec_h(ll, nn),
            1 <= h,
            forall|j: int|
                0 <= j < n ==> {
                    let x = #[trigger] spec_pos(ll, nn, j);
                    &&& u_vec@[j] as int == cp.bottom_u.value_at(x)
                    &&& ut_vec@[j] as int == cp.bottom_u_t.value_at(x)
                    &&& up_vec@[j] as int == cp.bottom_u.value_at(x + spec_h(ll, nn) / 2)
                    &&& um_vec@[j] as int == cp.bottom_u.value_at(x - spec_h(ll, nn) / 2)
                    &&& fits_val(u_vec@[j] as int)
                    &&& fits_val(ut_vec@[j] as int)
                    &&& fits_val(up_vec@[j] as int)
                    &&& fits_val(um_vec@[j] as int)
                },
            forall|j: int|
                0 <= j < i ==> {
                    &&& (#[trigger] ud_vec@[j]).ut as int == cp.bottom_u_t.value_at(
                        spec_pos(ll, nn, j),
                    )
                    &&& ud_vec@[j].ux as int == init_ux(*cp, nn, j)
                    &&& fits_pair(pair_model(ud_vec@[j]))
                },
        decreases n - i,
    {
        proof {
            let x = spec_pos(ll, nn, i as int);
            assert(fits_val(up_vec@[i as int] as int));
            assert(fits_val(um_vec@[i as int] as int));
        }
        let diff: i128 = up_vec[i] as i128 - um_vec[i] as i128;
        proof {
            lemma_mul_bounds(diff as int, SCALE as int, 2 * VAL_LIMIT as int, SCALE as int);
        }
        let num: i128 = diff * SCALE as i128;
        let q: i128 = div_floor(num, h);
        let ux = match narrow(q) {
            Some(v) => v,
            None => {
                assert(!init_fits(*cp)) by {
                    assert(!fits_val(init_ux(*cp, nn, i as int)));
                };
                return Err(Error::Overflow);
            },
        };
        ud_vec.push(UPair { ut: ut_vec[i], ux });
        i = i + 1;
    }
    proof {
        assert forall|j: int| 0 <= j < nn implies fits_val(#[trigger] init_ux(*cp, nn, j)) by {
            assert(fits_pair(pair_model(ud_vec@[j])));
        };
        assert(init_fits(*cp));
        assert forall|j: int| 0 <= j < u_vec@.len() implies fits_val(
            #[trigger] u_vec@[j] as int,
        ) by {
            let x = spec_pos(ll, nn, j);
        };
        assert(u_vec@.map_values(|v: i64| v as int) =~= init_state(*cp).u);
        assert(ud_vec@.map_values(|p: UPair| pair_model(p)) =~= init_state(*cp).ud);
    }
    Ok((u_vec, ud_vec))
}

impl CharacteristicsMethod {
    /// Builds an engine from boundary parameters and one generation of
    /// constant parameters.  Succeeds exactly when the boundary
    /// functions are usable and the generation succeeds; the grid then
    /// holds the tabulated initial state at time zero.
    pub fn new(var_params: VariableParams, const_params: ConstParams) -> (r: Result<
        CharacteristicsMethod,
        Error,
    >)
        ensures
            r matches Ok(e) ==> e.wf() && e.c_params() == const_params && e.v_params()
                == var_params && e.t() == 0 && e.rem() == 0 && e.model() == init_state(
                const_params,
            ),
            r is Ok <==> var_params.wf() && gen_ok(const_params),
            r == Err::<CharacteristicsMethod, Error>(Error::InvalidParameter) <==> !(
            var_params.wf() && params_ok(const_params)),
            r == Err::<CharacteristicsMethod, Error>(Error::Evaluation) <==> var_params.wf()
                && params_ok(const_params) && !init_defined(const_params),
            r == Err::<CharacteristicsMethod, Error>(Error::Overflow) <==> var_params.wf()
                && params_ok(const_params) && init_defined(const_params) && !init_fits(
                const_params,
            ),
    {
        if !var_params.left.func.check_wf() || !var_params.right.func.check_wf() {
            return Err(Error::InvalidParameter);
        }
        let (floor_u, floor_udiff) = match generate(&const_params) {
            Ok(g) => g,
            Err(e) => {
                return Err(e);
            },
        };
        let out = CharacteristicsMethod {
            var_params,
            const_params,
            floor_u,
            floor_udiff,
            floor_udiff_buffer: Vec::new(),
            cur_t: 0,
            rem_t: 0,
        };
        proof {
            lemma_dt_positive(out.c_params());
        }
        Ok(out)
    }

    /// Replaces the constant parameters and regenerates the grid from
    /// scratch, resetting the clock and the accumulator; on failure the
    /// previous generation stays untouched.
    pub fn reset(&mut self, const_params: ConstParams) -> (r: Result<(), Error>)
        requires
            old(self).wf(),
        ensures
            final(self).wf(),
            r matches Ok(()) ==> final(self).c_params() == const_params && final(self).v_params()
                == old(self).v_params() && final(self).t() == 0 && final(self).rem() == 0
                && final(self).model() == init_state(const_params),
            r is Ok <==> gen_ok(const_params),
            r is Err ==> *final(self) == *old(self),
            r == Err::<(), Error>(Error::InvalidParameter) <==> !params_ok(const_params),
            r == Err::<(), Error>(Error::Evaluation) <==> params_ok(const_params) && !init_defined(
                const_params,
            ),
            r == Err::<(), Error>(Error::Overflow) <==> params_ok(const_params) && init_defined(
                const_params,
            ) && !init_fits(const_params),
    {
        let (floor_u, floor_udiff) = match generate(&const_params) {
            Ok(g) => g,
            Err(e) => {
                return Err(e);
            },
        };
        self.const_params = const_params;
        self.floor_u = floor_u;
        self.floor_udiff = floor_udiff;
        self.cur_t = 0;
        self.rem_t = 0;
        proof {
            lemma_dt_positive(self.c_params());
        }
        Ok(())
    }

    /// Current simulation time.
    pub fn cur_t(&self) -> (t: i64)
        ensures
            t as int == self.t(),
    {
        self.cur_t
    }

    /// The constant parameters of the live generation.
    pub fn const_params(&self) -> (p: &ConstParams)
        ensures
            *p == self.c_params(),
    {
        &self.const_params
    }

    /// Number of grid nodes.
    pub fn len(&self) -> (n: usize)
        ensures
            n as int == self.size(),
    {
        self.floor_u.len()
    }

    /// Physical position of node `i`.
    pub fn node_position(&self, i: usize) -> (x: i64)
        requires
            self.wf(),
            i < self.size(),
        ensures
            x as int == spec_pos(self.c_params().l as int, self.size() as int, i as int),
            0 <= x <= self.c_params().l,
    {
        let n = self.floor_u.len();
        proof {
            lemma_mul_bounds(i as int, self.c_params().l as int, n as int, VAL_LIMIT as int);
            lemma_pos_in_domain(self.c_params().l as int, n as int, i as int);
        }
        div_floor(i as i128 * self.const_params.l as i128, (n - 1) as i128) as i64
    }

    /// Displacement and derivatives at node `i`, as tabulated.
    pub fn point(&self, i: usize) -> (p: UTriplePoint)
        requires
            self.wf(),
            i < self.size(),
        ensures
            p.u as int == self.model().u[i as int],
            p.ut as int == self.model().ud[i as int].ut,
            p.ux as int == self.model().ud[i as int].ux,
    {
        let ud = self.floor_udiff[i];
        UTriplePoint { u: self.floor_u[i], ut: ud.ut, ux: ud.ux }
    }
}

/// New displacement samples of one step: each gains `dt * ut`,
/// floor-rounded, read from the previous step's pairs.
pub open spec fn step_u_seq(cp: ConstParams, s: StateModel) -> Seq<int> {
    let dt = spec_dt(cp.a as int, cp.l as int, s.ud.len() as int);
    Seq::new(s.u.len(), |i: int| s.u[i] + (dt * s.ud[i].ut) / (SCALE as int))
}

/// New derivative pairs of one step: boundary extrapolation at the two
/// ends, Riemann-invariant averaging in the interior, all read from the
/// previous step's pairs.
pub open spec fn step_ud_seq(cp: ConstParams, vp: VariableParams, s: StateModel) -> Seq<
    UPairModel,
> {
    let n = s.ud.len() as int;
    let a = cp.a as int;
    let nt = s.t + spec_dt(a, cp.l as int, n);
    let gl = vp.left.func.value_at(nt);
    let gr = vp.right.func.value_at(nt);
    Seq::new(
        s.ud.len(),
        |i: int|
            if i == 0 {
                left_boundary_pair(a, vp.left.ty, gl, s.ud[1])
            } else if i == n - 1 {
                right_boundary_pair(a, vp.right.ty, gr, s.ud[n - 2])
            } else {
                interior_pair(a, s.ud[i - 1], s.ud[i + 1])
            },
    )
}

/// A step out of state `s` succeeds: the new time stays in the working
/// range, both boundary functions are defined at it, and every new
/// sample stays in the working range.
pub open spec fn step_ok(cp: ConstParams, vp: VariableParams, s: StateModel) -> bool {
    let nt = s.t + spec_dt(cp.a as int, cp.l as int, s.ud.len() as int);
    &&& nt <= VAL_LIMIT as int
    &&& vp.left.func.defined_at(nt)
    &&& vp.right.func.defined_at(nt)
    &&& forall|i: int| 0 <= i < s.u.len() ==> fits_val(#[trigger] step_u_seq(cp, s)[i])
    &&& forall|i: int| 0 <= i < s.ud.len() ==> fits_pair(#[trigger] step_ud_seq(cp, vp, s)[i])
}

/// One discrete step of the scheme on the mathematical state.
///
/// The new time is `t + dt`; the boundary functions are sampled at that
/// new time; every displacement gains `dt * ut` (floor-rounded); node 0
/// and node `n - 1` are extrapolated from their interior neighbours'
/// previous pairs, and every interior node averages its two neighbours'
/// previous Riemann invariants.  `None` exactly when the new time
/// leaves the working range, a boundary function is undefined at it, or
/// a computed sample leaves the working range.
pub open spec fn gstep(cp: ConstParams, vp: VariableParams, s: StateModel) -> Option<StateModel> {
    if step_ok(cp, vp, s) {
        Some(
            StateModel {
                u: step_u_seq(cp, s),
                ud: step_ud_seq(cp, vp, s),
                t: s.t + spec_dt(cp.a as int, cp.l as int, s.ud.len() as int),
            },
        )
    } else {
        None
    }
}

/// The error a failing step reports: overflow when the new time leaves
/// the working range; otherwise an evaluation failure when a boundary
/// function is undefined at the new time; otherwise overflow of a
/// computed sample.
pub open spec fn gstep_err(cp: ConstParams, vp: VariableParams, s: StateModel) -> Error {
    let nt = s.t + spec_dt(cp.a as int, cp.l as int, s.ud.len() as int);
    if nt > VAL_LIMIT as int {
        Error::Overflow
    } else if !(vp.left.func.defined_at(nt) && vp.right.func.defined_at(nt)) {
        Error::Evaluation
    } else {
        Error::Overflow
    }
}

/// `k` consecutive steps, or `None` as soon as one of them fails.
pub open spec fn grun(cp: ConstParams, vp: VariableParams, s: StateModel, k: nat) -> Option<
    StateModel,
>
    decreases k,
{
    if k == 0 {
        Some(s)
    } else {
        match gstep(cp, vp, s) {
            None => None,
            Some(s1) => grun(cp, vp, s1, (k - 1) as nat),
        }
    }
}

impl CharacteristicsMethod {
    /// The engine's fixed discrete step, `l / (a * (n - 1))` in real
    /// terms; never larger than one time unit.
    pub fn calc_dt(&self) -> (dt: i64)
        requires
            self.wf(),
        ensures
            dt as int == self.dt(),
            1 <= dt <= SCALE,
    {
        let n = self.floor_u.len();
        let a = self.const_params.a;
        let l = self.const_params.l;
        proof {
            lemma_mul_bounds(l as int, SCALE as int, VAL_LIMIT as int, SCALE as int);
            lemma_mul_bounds(a as int, n as int - 1, VAL_LIMIT as int, usize::MAX as int);
            assert(1 <= (a as int) * (n as int - 1)) by (nonlinear_arith)
                requires
                    1 <= a as int,
                    1 <= n as int - 1,
            ;
            crate::params::lemma_tabulation_size_courant(a as int, l as int);
            assert(2 * (MIN_FRAMERATE as int) * (l as int) >= l as int) by (nonlinear_arith)
                requires
                    1 <= l as int,
                    MIN_FRAMERATE == 60i64,
            ;
            assert((l as int) <= (a as int) * (n as int - 1));
            lemma_div_is_ordered_by_denominator(
                (l as int) * (SCALE as int),
                l as int,
                (a as int) * (n as int - 1),
            );
            lemma_div_multiples_vanish(SCALE as int, l as int);
            assert((l as int) * (SCALE as int) >= 0) by (nonlinear_arith)
                requires
                    1 <= l as int,
                    0 <= SCALE as int,
            ;
        }
        div_floor(l as i128 * SCALE as i128, a as i128 * (n - 1) as i128) as i64
    }

    /// Advances the tabulation by exactly one discrete step.
    ///
    /// On success the state is the stepped state; on failure the state
    /// is untouched, and the error tells why the step was impossible:
    /// the evaluation error when a boundary function was undefined at
    /// the new time, overflow when the new time or a computed sample
    /// left the working range.
    pub fn step_forward(&mut self) -> (r: Result<(), Error>)
        requires
            old(self).wf(),
        ensures
            final(self).wf(),
            final(self).c_params() == old(self).c_params(),
            final(self).v_params() == old(self).v_params(),
            final(self).rem() == old(self).rem(),
            final(self).size() == old(self).size(),
            r is Ok <==> gstep(old(self).c_params(), old(self).v_params(), old(self).model())
                is Some,
            r matches Ok(()) ==> gstep(
                old(self).c_params(),
                old(self).v_params(),
                old(self).model(),
            ) == Some(final(self).model()),
            r is Err ==> final(self).model() == old(self).model() && final(self).u_seq() == old(
                self,
            ).u_seq() && final(self).ud_seq() == old(self).ud_seq() && final(self).t() == old(
                self,
            ).t(),
            r matches Err(e) ==> e == gstep_err(
                old(self).c_params(),
                old(self).v_params(),
                old(self).model(),
            ),
    {
        let ghost cp = self.c_params();
        let ghost vp = self.v_params();
        let ghost s0 = self.model();
        let n = self.floor_u.len();
        let a = self.const_params.a;
        let dt = self.calc_dt();
        let nt128: i128 = self.cur_t as i128 + dt as i128;
        if nt128 > VAL_LIMIT as i128 {
            return Err(Error::Overflow);
        }
        let nt: i64 = nt128 as i64;
        let gl = match self.var_params.left.func.eval(nt) {
            Ok(v) => v,
            Err(_) => {
                return Err(Error::Evaluation);
            },
        };
        let gr = match self.var_params.right.func.eval(nt) {
            Ok(v) => v,
            Err(_) => {
                return Err(Error::Evaluation);
            },
        };
        let mut nu: Vec<i64> = Vec::new();
        let mut i: usize = 0;
        while i < n
            invariant
                old(self).wf(),
                *self == *old(self),
                cp == self.c_params(),
                vp == self.v_params(),
                s0 == self.model(),
                n as int == self.size(),
                dt as int == self.dt(),
                1 <= dt <= SCALE,
                nt as int == s0.t + self.dt(),
                nt as int <= VAL_LIMIT as int,
                vp.left.func.defined_at(nt as int),
                vp.right.func.defined_at(nt as int),
                0 <= i <= n,
                nu@.len() == i,
                forall|j: int|
                    0 <= j < i ==> (#[trigger] nu@[j]) as int == step_u_seq(cp, s0)[j] && fits_val(
                        nu@[j] as int,
                    ),
            decreases n - i,
        {
            let ud_i = self.floor_udiff[i];
            proof {
                lemma_mul_bounds(dt as int, ud_i.ut as int, SCALE as int, VAL_LIMIT as int);
            }
            let q: i128 = div_floor(dt as i128 * ud_i.ut as i128, SCALE as i128);
            proof {
                lemma_div_between((dt as int) * (ud_i.ut as int), SCALE as int);
                assert(step_u_seq(cp, s0)[i as int] == self.floor_u@[i as int] as int + q as int);
            }
            let nv = match narrow(self.floor_u[i] as i128 + q) {
                Some(v) => v,
                None => {
                    return Err(Error::Overflow);
                },
            };
            nu.push(nv);
            i = i + 1;
        }
        self.floor_udiff_buffer.clear();
        proof {
            assert(step_ud_seq(cp, vp, s0)[0] == left_boundary_pair(
                cp.a as int,
                vp.left.ty,
                gl as int,
                s0.ud[1],
            ));
        }
        let first = match crate::stencil::left_calc_point(
            a,
            self.var_params.left.ty,
            gl,
            self.floor_udiff[1],
        ) {
            Some(p) => p,
            None => {
                return Err(Error::Overflow);
            },
        };
        self.floor_udiff_buffer.push(first);
        let mut i: usize = 1;
        while i < n - 1
            invariant
                old(self).wf(),
                self.floor_u == old(self).floor_u,
                self.floor_udiff == old(self).floor_udiff,
                self.cur_t == old(self).cur_t,
                self.rem_t == old(self).rem_t,
                self.const_params == old(self).const_params,
                self.var_params == old(self).var_params,
                cp == self.c_params(),
                vp == self.v_params(),
                s0 == self.model(),
                a as int == cp.a as int,
                1 <= a <= VAL_LIMIT,
                n as int == self.size(),
                257 <= n,
                dt as int == self.dt(),
                nt as int == s0.t + self.dt(),
                nt as int <= VAL_LIMIT as int,
                gl as int == vp.left.func.value_at(nt as int),
                gr as int == vp.right.func.value_at(nt as int),
                vp.left.func.defined_at(nt as int),
                vp.right.func.defined_at(nt as int),
                fits_val(gl as int),
                fits_val(gr as int),
                nu@.len() == n,
                forall|j: int|
                    0 <= j < n ==> (#[trigger] nu@[j]) as int == step_u_seq(cp, s0)[j] && fits_val(
                        nu@[j] as int,
                    ),
                1 <= i <= n - 1,
                self.floor_udiff_buffer@.len() == i,
                forall|j: int|
                    0 <= j < i ==> fits_pair(#[trigger] step_ud_seq(cp, vp, s0)[j])
                        && self.floor_udiff_buffer@[j] == pair_store(step_ud_seq(cp, vp, s0)[j]),
            decreases n - 1 - i,
        {
            proof {
                assert(step_ud_seq(cp, vp, s0)[i as int] == interior_pair(
                    cp.a as int,
                    s0.ud[i as int - 1],
                    s0.ud[i as int + 1],
                ));
            }
            let p = match crate::stencil::calc_point(
                a,
                self.floor_udiff[i - 1],
                self.floor_udiff[i + 1],
            ) {
                Some(p) => p,
                None => {
                    return Err(Error::Overflow);
                },
            };
            self.floor_udiff_buffer.push(p);
            i = i + 1;
        }
        proof {
            assert(step_ud_seq(cp, vp, s0)[n as int - 1] == right_boundary_pair(
                cp.a as int,
                vp.right.ty,
                gr as int,
                s0.ud[n as int - 2],
            ));
        }
        let last = match crate::stencil::right_calc_point(
            a,
            self.var_params.right.ty,
            gr,
            self.floor_udiff[n - 2],
        ) {
            Some(p) => p,
            None => {
                return Err(Error::Overflow);
            },
        };
        self.floor_udiff_buffer.push(last);
        proof {
            assert forall|j: int| 0 <= j < n as int implies fits_val(
                #[trigger] step_u_seq(cp, s0)[j],
            ) by {
                assert(nu@[j] as int == step_u_seq(cp, s0)[j]);
            };
            assert forall|j: int| 0 <= j < n as int implies fits_pair(
                #[trigger] step_ud_seq(cp, vp, s0)[j],
            ) by {
                assert(self.floor_udiff_buffer@[j] == pair_store(step_ud_seq(cp, vp, s0)[j]));
            };
            assert(step_ok(cp, vp, s0));
        }
        self.floor_u = nu;
        core::mem::swap(&mut self.floor_udiff, &mut self.floor_udiff_buffer);
        self.cur_t = nt;
        proof {
            assert forall|j: int| 0 <= j < n as int implies self.model().u[j] == step_u_seq(
                cp,
                s0,
            )[j] by {
                assert(self.model().u[j] == nu@[j] as int);
            };
            assert(self.model().u =~= step_u_seq(cp, s0));
            assert forall|j: int| 0 <= j < n as int implies self.model().ud[j] == step_ud_seq(
                cp,
                vp,
                s0,
            )[j] by {
                assert(self.model().ud[j] == pair_model(self.floor_udiff@[j]));
                assert(fits_pair(step_ud_seq(cp, vp, s0)[j]));
            };
            assert(self.model().ud =~= step_ud_seq(cp, vp, s0));
            assert(gstep(cp, vp, s0) == Some(self.model()));
            assert forall|j: int| 0 <= j < n as int implies fits_val(
                #[trigger] self.u_seq()[j] as int,
            ) by {
                assert(self.u_seq()[j] == nu@[j]);
            };
            assert forall|j: int| 0 <= j < n as int implies fits_pair(
                pair_model(#[trigger] self.ud_seq()[j]),
            ) by {
                assert(self.ud_seq()[j] == pair_store(step_ud_seq(cp, vp, s0)[j]));
                assert(fits_pair(step_ud_seq(cp, vp, s0)[j]));
            };
        }
        Ok(())
    }
}

/// The step the accumulator divides elapsed time by, as the model sees
/// it.
impl StateModel {
    /// The discrete step belonging to this state under parameters `cp`.
    pub open spec fn dt_of(self, cp: ConstParams) -> int {
        spec_dt(cp.a as int, cp.l as int, self.ud.len() as int)
    }
}


/// Along a successful run the grid keeps its shape and the clock
/// advances by exactly one step per application.
pub proof fn lemma_grun_shape(cp: ConstParams, vp: VariableParams, s: StateModel, k: nat)
    ensures
        grun(cp, vp, s, k) matches Some(m) ==> m.u.len() == s.u.len() && m.ud.len() == s.ud.len()
            && m.t == s.t + k * spec_dt(cp.a as int, cp.l as int, s.ud.len() as int),
    decreases k,
{
    if k > 0 {
        match gstep(cp, vp, s) {
            None => {},
            Some(s1) => {
                lemma_grun_shape(cp, vp, s1, (k - 1) as nat);
                let dt = spec_dt(cp.a as int, cp.l as int, s.ud.len() as int);
                assert(s.t + dt + (k - 1) * dt == s.t + k * dt) by (nonlinear_arith);
            },
        }
    }
}

/// Unrolling a run from its far end: one more step is one application
/// of `gstep` after the whole run.
pub proof fn lemma_grun_snoc(cp: ConstParams, vp: VariableParams, s: StateModel, k: nat)
    ensures
        grun(cp, vp, s, (k + 1) as nat) == (match grun(cp, vp, s, k) {
            Some(m) => gstep(cp, vp, m),
            None => None::<StateModel>,
        }),
    decreases k,
{
    reveal_with_fuel(grun, 3);
    if k > 0 {
        match gstep(cp, vp, s) {
            None => {},
            Some(s1) => {
                lemma_grun_snoc(cp, vp, s1, (k - 1) as nat);
            },
        }
    }
}

/// Runs compose: `j + k` steps are `j` steps followed by `k` steps.
pub proof fn lemma_grun_add(cp: ConstParams, vp: VariableParams, s: StateModel, j: nat, k: nat)
    ensures
        grun(cp, vp, s, (j + k) as nat) == (match grun(cp, vp, s, j) {
            Some(m) => grun(cp, vp, m, k),
            None => None::<StateModel>,
        }),
    decreases j,
{
    reveal_with_fuel(grun, 3);
    if j > 0 {
        match gstep(cp, vp, s) {
            None => {},
            Some(s1) => {
                lemma_grun_add(cp, vp, s1, (j - 1) as nat, k);
            },
        }
    }
}

impl CharacteristicsMethod {
    /// Runs `steps` consecutive discrete steps; stops at the first
    /// failing one, leaving the state after the steps that succeeded.
    fn run_steps(&mut self, steps: u64) -> (r: Result<(), Error>)
        requires
            old(self).wf(),
        ensures
            final(self).wf(),
            final(self).c_params() == old(self).c_params(),
            final(self).v_params() == old(self).v_params(),
            final(self).rem() == old(self).rem(),
            final(self).size() == old(self).size(),
            r is Ok <==> grun(
                old(self).c_params(),
                old(self).v_params(),
                old(self).model(),
                steps as nat,
            ) is Some,
            r matches Ok(()) ==> grun(
                old(self).c_params(),
                old(self).v_params(),
                old(self).model(),
                steps as nat,
            ) == Some(final(self).model()),
            r matches Err(e) ==> exists|j: nat|
                j < steps as nat && #[trigger] grun(
                    old(self).c_params(),
                    old(self).v_params(),
                    old(self).model(),
                    j,
                ) == Some(final(self).model()) && gstep(
                    old(self).c_params(),
                    old(self).v_params(),
                    final(self).model(),
                ) is None && e == gstep_err(
                    old(self).c_params(),
                    old(self).v_params(),
                    final(self).model(),
                ),
    {
        let ghost cp = self.c_params();
        let ghost vp = self.v_params();
        let ghost s0 = self.model();
        let mut k: u64 = 0;
        while k < steps
            invariant
                self.wf(),
                cp == self.c_params(),
                vp == self.v_params(),
                s0 == old(self).model(),
                self.c_params() == old(self).c_params(),
                self.v_params() == old(self).v_params(),
                self.rem() == old(self).rem(),
                self.size() == old(self).size(),
                0 <= k <= steps,
                grun(cp, vp, s0, k as nat) == Some(self.model()),
            decreases steps - k,
        {
            let ghost prev = self.model();
            match self.step_forward() {
                Ok(()) => {
                    proof {
                        lemma_grun_snoc(cp, vp, s0, k as nat);
                    }
                },
                Err(e) => {
                    proof {
                        lemma_grun_add(cp, vp, s0, k as nat, (steps - k) as nat);
                        assert(grun(cp, vp, prev, (steps - k) as nat) is None);
                        assert(grun(cp, vp, s0, k as nat) == Some(self.model()));
                    }
                    return Err(e);
                },
            }
            k = k + 1;
        }
        Ok(())
    }

    /// Advances the engine so that `cur_t` tracks `t` by whole multiples
    /// of the fixed step: `floor((t - cur_t) / dt)` steps are run.
    ///
    /// A target less than one step ahead of the clock (in particular any
    /// target the engine has already reached, and any repetition of a
    /// target just synchronised to) demands zero steps and leaves the
    /// engine exactly as it is; a target behind the clock is not
    /// rewound.
    pub fn sync_to(&mut self, t: i64) -> (r: Result<(), Error>)
        requires
            old(self).wf(),
        ensures
            final(self).wf(),
            final(self).c_params() == old(self).c_params(),
            final(self).v_params() == old(self).v_params(),
            final(self).rem() == old(self).rem(),
            final(self).size() == old(self).size(),
            t < old(self).t() + old(self).dt() ==> r is Ok && *final(self) == *old(self),
            ({
                let k = (t - old(self).t()) / old(self).dt();
                &&& (r is Ok <==> (k <= 0 || grun(
                    old(self).c_params(),
                    old(self).v_params(),
                    old(self).model(),
                    k as nat,
                ) is Some))
                &&& (k <= 0 ==> *final(self) == *old(self))
                &&& (k > 0 && r is Ok ==> grun(
                    old(self).c_params(),
                    old(self).v_params(),
                    old(self).model(),
                    k as nat,
                ) == Some(final(self).model()))
            }),
            r is Ok && old(self).t() <= t ==> final(self).t() <= t < final(self).t() + old(self).dt(),
            r matches Err(e) ==> exists|j: nat|
                #[trigger] grun(
                    old(self).c_params(),
                    old(self).v_params(),
                    old(self).model(),
                    j,
                ) == Some(final(self).model()) && gstep(
                    old(self).c_params(),
                    old(self).v_params(),
                    final(self).model(),
                ) is None && e == gstep_err(
                    old(self).c_params(),
                    old(self).v_params(),
                    final(self).model(),
                ),
    {
        let ghost cp = self.c_params();
        let ghost vp = self.v_params();
        let ghost s0 = self.model();
        let dt = self.calc_dt();
        let diff: i128 = t as i128 - self.cur_t as i128;
        let steps: i128 = div_floor(diff, dt as i128);
        proof {
            lemma_div_between(diff as int, dt as int);
            lemma_fundamental_div_mod(diff as int, dt as int);
            lemma_mod_bound(diff as int, dt as int);
        }
        if steps <= 0 {
            proof {
                if old(self).t() <= t as int {
                    assert(diff as int >= 0);
                    assert(steps as int == 0);
                    vstd::arithmetic::div_mod::lemma_small_div_converse(diff as int, dt as int);
                    assert((diff as int) < (dt as int));
                }
            }
            return Ok(());
        }
        proof {
            assert((dt as int) * (steps as int) >= dt as int) by (nonlinear_arith)
                requires
                    1 <= dt as int,
                    1 <= steps as int,
            ;
            assert((dt as int) <= (diff as int));
        }
        let r = self.run_steps(steps as u64);
        proof {
            if r is Ok {
                lemma_grun_shape(cp, vp, s0, steps as nat);
                assert((steps as int) * (dt as int) == (dt as int) * (steps as int))
                    by (nonlinear_arith);
            }
        }
        r
    }

    /// Adds `delta_t` to the carried remainder, converts the total into
    /// whole steps of the fixed `dt`, runs them, and keeps the new
    /// remainder.  Equivalent to `sync_to` driven by the same
    /// monotonically accumulated deltas.
    pub fn advance(&mut self, delta_t: i64) -> (r: Result<(), Error>)
        requires
            old(self).wf(),
            0 <= delta_t,
        ensures
            final(self).wf(),
            final(self).c_params() == old(self).c_params(),
            final(self).v_params() == old(self).v_params(),
            final(self).size() == old(self).size(),
            final(self).rem() == (old(self).rem() + delta_t) % old(self).dt(),
            ({
                let k = (old(self).rem() + delta_t) / old(self).dt();
                &&& (r is Ok <==> grun(
                    old(self).c_params(),
                    old(self).v_params(),
                    old(self).model(),
                    k as nat,
                ) is Some)
                &&& (r matches Ok(()) ==> grun(
                    old(self).c_params(),
                    old(self).v_params(),
                    old(self).model(),
                    k as nat,
                ) == Some(final(self).model()))
            }),
            r matches Err(e) ==> exists|j: nat|
                #[trigger] grun(
                    old(self).c_params(),
                    old(self).v_params(),
                    old(self).model(),
                    j,
                ) == Some(final(self).model()) && gstep(
                    old(self).c_params(),
                    old(self).v_params(),
                    final(self).model(),
                ) is None && e == gstep_err(
                    old(self).c_params(),
                    old(self).v_params(),
                    final(self).model(),
                ),
    {
        let dt = self.calc_dt();
        let total: i128 = self.rem_t as i128 + delta_t as i128;
        let steps: i128 = div_floor(total, dt as i128);
        let rem: i128 = crate::fixed::mod_floor(total, dt as i128);
        proof {
            lemma_div_between(total as int, dt as int);
            lemma_mod_bound(total as int, dt as int);
        }
        self.rem_t = rem as i64;
        self.run_steps(steps as u64)
    }

    /// Replaces the boundary conditions, leaving the grid and the clock
    /// untouched; the change takes effect on the next step.  Rejected
    /// as an invalid parameter when a supplied function is outside the
    /// working range.
    pub fn set_var_params(&mut self, var_params: VariableParams) -> (r: Result<(), Error>)
        requires
            old(self).wf(),
        ensures
            final(self).wf(),
            r is Ok <==> var_params.wf(),
            r matches Ok(()) ==> final(self).v_params() == var_params
                && final(self).c_params() == old(self).c_params()
                && final(self).u_seq() == old(self).u_seq()
                && final(self).ud_seq() == old(self).ud_seq()
                && final(self).t() == old(self).t()
                && final(self).rem() == old(self).rem(),
            r is Err ==> *final(self) == *old(self) && r == Err::<(), Error>(
                Error::InvalidParameter,
            ),
    {
        if !var_params.left.func.check_wf() || !var_params.right.func.check_wf() {
            return Err(Error::InvalidParameter);
        }
        self.var_params = var_params;
        Ok(())
    }
}

/// Feeding the accumulator two deltas one after the other runs the same
/// total number of steps, reaches the same state, and leaves the same
/// remainder as feeding their sum at once: the accumulator law behind
/// `advance`.
pub proof fn lemma_advance_additive(
    cp: ConstParams,
    vp: VariableParams,
    s: StateModel,
    r0: int,
    d1: int,
    d2: int,
    dt: int,
)
    requires
        1 <= dt,
        0 <= r0 < dt,
        0 <= d1,
        0 <= d2,
    ensures
        ({
            let k1 = (r0 + d1) / dt;
            let r1 = (r0 + d1) % dt;
            let k2 = (r1 + d2) / dt;
            let k = (r0 + d1 + d2) / dt;
            &&& k1 + k2 == k
            &&& (r1 + d2) % dt == (r0 + d1 + d2) % dt
            &&& (match grun(cp, vp, s, k1 as nat) {
                Some(m) => grun(cp, vp, m, k2 as nat),
                None => None::<StateModel>,
            }) == grun(cp, vp, s, k as nat)
        }),
{
    let k1 = (r0 + d1) / dt;
    let r1 = (r0 + d1) % dt;
    let k2 = (r1 + d2) / dt;
    let k = (r0 + d1 + d2) / dt;
    lemma_fundamental_div_mod(r0 + d1, dt);
    lemma_mod_bound(r0 + d1, dt);
    lemma_fundamental_div_mod(r1 + d2, dt);
    lemma_mod_bound(r1 + d2, dt);
    lemma_div_between(r0 + d1, dt);
    lemma_div_between(r1 + d2, dt);
    assert(r0 + d1 + d2 == dt * (k1 + k2) + (r1 + d2) % dt) by (nonlinear_arith)
        requires
            r0 + d1 == dt * k1 + r1,
            r1 + d2 == dt * k2 + (r1 + d2) % dt,
    ;
    vstd::arithmetic::div_mod::lemma_fundamental_div_mod_converse(
        r0 + d1 + d2,
        dt,
        k1 + k2,
        (r1 + d2) % dt,
    );
    lemma_grun_add(cp, vp, s, k1 as nat, k2 as nat);
}

/// Horizontal coordinate of node `i` as a fraction of the rod,
/// `i / (n - 1)`, as a fixed-point value in `[0, 1]`.
pub open spec fn spec_pos_frac(n: int, i: int) -> int {
    (i * (SCALE as int)) / (n - 1)
}

/// Clamping of an unbounded quantity into the `i64` range.
pub open spec fn clamp_i64(x: int) -> int {
    if x < i64::MIN as int {
        i64::MIN as int
    } else if x > i64::MAX as int {
        i64::MAX as int
    } else {
        x
    }
}

/// Vertical coordinate of a sample: `2 * value / l`, the fixed
/// normalisation tying the visual scale to the domain length, saturated
/// at the `i64` range so that projection never fails.
pub open spec fn spec_val_frac(l: int, v: int) -> int {
    clamp_i64((2 * v * (SCALE as int)) / l)
}

impl CharacteristicsMethod {
    /// Renders the current state as three normalised coordinate
    /// sequences, one `(position fraction, value fraction)` pair per
    /// node in node order: displacement, time derivative and space
    /// derivative.  Projection only reads valid state and never fails.
    pub fn samples(&self) -> (r: (Vec<(i64, i64)>, Vec<(i64, i64)>, Vec<(i64, i64)>))
        requires
            self.wf(),
        ensures
            r.0@.len() == self.size(),
            r.1@.len() == self.size(),
            r.2@.len() == self.size(),
            forall|i: int|
                0 <= i < self.size() ==> (#[trigger] r.0@[i]).0 as int == spec_pos_frac(
                    self.size(),
                    i,
                ) && r.0@[i].1 as int == spec_val_frac(
                    self.c_params().l as int,
                    self.model().u[i],
                ),
            forall|i: int|
                0 <= i < self.size() ==> (#[trigger] r.1@[i]).0 as int == spec_pos_frac(
                    self.size(),
                    i,
                ) && r.1@[i].1 as int == spec_val_frac(
                    self.c_params().l as int,
                    self.model().ud[i].ut,
                ),
            forall|i: int|
                0 <= i < self.size() ==> (#[trigger] r.2@[i]).0 as int == spec_pos_frac(
                    self.size(),
                    i,
                ) && r.2@[i].1 as int == spec_val_frac(
                    self.c_params().l as int,
                    self.model().ud[i].ux,
                ),
    {
        let n = self.floor_u.len();
        let l = self.const_params.l;
        let mut su: Vec<(i64, i64)> = Vec::new();
        let mut st: Vec<(i64, i64)> = Vec::new();
        let mut sx: Vec<(i64, i64)> = Vec::new();
        let mut i: usize = 0;
        while i < n
            invariant
                self.wf(),
                n as int == self.size(),
                l == self.c_params().l,
                0 <= i <= n,
                su@.len() == i && st@.len() == i && sx@.len() == i,
                forall|j: int|
                    0 <= j < i ==> (#[trigger] su@[j]).0 as int == spec_pos_frac(n as int, j)
                        && su@[j].1 as int == spec_val_frac(l as int, self.model().u[j]),
                forall|j: int|
                    0 <= j < i ==> (#[trigger] st@[j]).0 as int == spec_pos_frac(n as int, j)
                        && st@[j].1 as int == spec_val_frac(l as int, self.model().ud[j].ut),
                forall|j: int|
                    0 <= j < i ==> (#[trigger] sx@[j]).0 as int == spec_pos_frac(n as int, j)
                        && sx@[j].1 as int == spec_val_frac(l as int, self.model().ud[j].ux),
            decreases n - i,
        {
            proof {
                lemma_mul_bounds(i as int, SCALE as int, n as int, SCALE as int);
                lemma_pos_in_domain(SCALE as int, n as int, i as int);
            }
            let pf: i64 = div_floor(i as i128 * SCALE as i128, (n - 1) as i128) as i64;
            let ud_i = self.floor_udiff[i];
            let vu = project_value(l, self.floor_u[i]);
            let vt = project_value(l, ud_i.ut);
            let vx = project_value(l, ud_i.ux);
            su.push((pf, vu));
            st.push((pf, vt));
            sx.push((pf, vx));
            i = i + 1;
        }
        (su, st, sx)
    }
}

/// Projects one sample onto the normalised vertical scale.
fn project_value(l: i64, v: i64) -> (r: i64)
    requires
        1 <= l <= VAL_LIMIT,
        fits_val(v as int),
    ensures
        r as int == spec_val_frac(l as int, v as int),
{
    proof {
        lemma_mul_bounds(2 * (v as int), SCALE as int, 2 * (VAL_LIMIT as int), SCALE as int);
    }
    let num: i128 = 2 * v as i128 * SCALE as i128;
    let q: i128 = div_floor(num, l as i128);
    proof {
        lemma_div_between(num as int, l as int);
    }
    if q < i64::MIN as i128 {
        i64::MIN
    } else if q > i64::MAX as i128 {
        i64::MAX
    } else {
        q as i64
    }
}

/// Conservation under zero velocity: when every tabulated time
/// derivative is zero, one step leaves every displacement sample
/// exactly unchanged — the explicit integration adds `dt * ut = 0` and
/// even the floor rounding vanishes.
pub proof fn lemma_zero_velocity_preserves_u(cp: ConstParams, s: StateModel)
    requires
        s.u.len() == s.ud.len(),
        forall|i: int| 0 <= i < s.ud.len() ==> (#[trigger] s.ud[i]).ut == 0,
    ensures
        step_u_seq(cp, s) == s.u,
{
    let dt = spec_dt(cp.a as int, cp.l as int, s.ud.len() as int);
    assert forall|i: int| 0 <= i < s.u.len() implies step_u_seq(cp, s)[i] == s.u[i] by {
        assert(dt * s.ud[i].ut == 0);
        assert((0int) / (SCALE as int) == 0);
    };
    assert(step_u_seq(cp, s) =~= s.u);
}

/// A quiescent state is a fixed point of the step: with zero samples
/// everywhere and both ends prescribing a zero time derivative, the
/// step succeeds and changes nothing but the clock.
pub proof fn lemma_quiescent_step(cp: ConstParams, vp: VariableParams, s: StateModel)
    requires
        1 <= cp.a,
        2 <= s.ud.len(),
        s.u.len() == s.ud.len(),
        vp.left.ty == UDiffType::Ut,
        vp.right.ty == UDiffType::Ut,
        forall|x: int| #[trigger] vp.left.func.defined_at(x),
        forall|x: int| #[trigger] vp.right.func.defined_at(x),
        forall|x: int| #[trigger] vp.left.func.value_at(x) == 0,
        forall|x: int| #[trigger] vp.right.func.value_at(x) == 0,
        forall|i: int| 0 <= i < s.u.len() ==> (#[trigger] s.u[i]) == 0,
        forall|i: int|
            0 <= i < s.ud.len() ==> (#[trigger] s.ud[i]).ut == 0 && s.ud[i].ux == 0,
        s.t + spec_dt(cp.a as int, cp.l as int, s.ud.len() as int) <= VAL_LIMIT as int,
    ensures
        gstep(cp, vp, s) == Some(
            StateModel {
                u: s.u,
                ud: s.ud,
                t: s.t + spec_dt(cp.a as int, cp.l as int, s.ud.len() as int),
            },
        ),
{
    let n = s.ud.len() as int;
    let a = cp.a as int;
    let dt = spec_dt(a, cp.l as int, n);
    let nt = s.t + dt;
    lemma_zero_velocity_preserves_u(cp, s);
    assert forall|i: int| 0 <= i < n implies step_ud_seq(cp, vp, s)[i] == s.ud[i] by {
        lemma_div_of0(a);
        lemma_div_of0(2 * a);
        lemma_div_of0(2 * (SCALE as int));
        lemma_div_of0(SCALE as int);
        if i == 0 {
            assert(vp.left.func.value_at(nt) == 0);
            assert(step_ud_seq(cp, vp, s)[i] == left_boundary_pair(a, UDiffType::Ut, 0, s.ud[1]));
        } else if i == n - 1 {
            assert(vp.right.func.value_at(nt) == 0);
            assert(step_ud_seq(cp, vp, s)[i] == right_boundary_pair(
                a,
                UDiffType::Ut,
                0,
                s.ud[n - 2],
            ));
        } else {
            assert(step_ud_seq(cp, vp, s)[i] == interior_pair(a, s.ud[i - 1], s.ud[i + 1]));
        }
    };
    assert(step_ud_seq(cp, vp, s) =~= s.ud);
    assert forall|i: int| 0 <= i < n implies fits_pair(#[trigger] step_ud_seq(cp, vp, s)[i]) by {
        assert(step_ud_seq(cp, vp, s)[i] == s.ud[i]);
    };
    assert forall|i: int| 0 <= i < n implies fits_val(#[trigger] step_u_seq(cp, s)[i]) by {
        assert(step_u_seq(cp, s)[i] == s.u[i]);
    };
    assert(step_ok(cp, vp, s));
}

/// The all-zero scenario generalised to every step count: from a
/// quiescent state with zero boundary forcing, any number of steps
/// succeeds and every sample is still exactly zero; only the clock has
/// moved.
pub proof fn lemma_quiescent_run(cp: ConstParams, vp: VariableParams, s: StateModel, k: nat)
    requires
        1 <= cp.a,
        2 <= s.ud.len(),
        s.u.len() == s.ud.len(),
        vp.left.ty == UDiffType::Ut,
        vp.right.ty == UDiffType::Ut,
        forall|x: int| #[trigger] vp.left.func.defined_at(x),
        forall|x: int| #[trigger] vp.right.func.defined_at(x),
        forall|x: int| #[trigger] vp.left.func.value_at(x) == 0,
        forall|x: int| #[trigger] vp.right.func.value_at(x) == 0,
        forall|i: int| 0 <= i < s.u.len() ==> (#[trigger] s.u[i]) == 0,
        forall|i: int|
            0 <= i < s.ud.len() ==> (#[trigger] s.ud[i]).ut == 0 && s.ud[i].ux == 0,
        0 <= spec_dt(cp.a as int, cp.l as int, s.ud.len() as int),
        s.t + k * spec_dt(cp.a as int, cp.l as int, s.ud.len() as int) <= VAL_LIMIT as int,
    ensures
        grun(cp, vp, s, k) == Some(
            StateModel {
                u: s.u,
                ud: s.ud,
                t: s.t + k * spec_dt(cp.a as int, cp.l as int, s.ud.len() as int),
            },
        ),
    decreases k,
{
    let dt = spec_dt(cp.a as int, cp.l as int, s.ud.len() as int);
    if k == 0 {
        assert(s.t + 0 * dt == s.t) by (nonlinear_arith);
        assert(grun(cp, vp, s, 0) == Some(s));
        assert(s == (StateModel { u: s.u, ud: s.ud, t: s.t }));
    } else {
        assert(dt <= k * dt) by (nonlinear_arith)
            requires
                0 <= dt,
                1 <= k,
        ;
        lemma_quiescent_step(cp, vp, s);
        let s1 = StateModel { u: s.u, ud: s.ud, t: s.t + dt };
        assert(s.t + dt + (k - 1) * dt == s.t + k * dt) by (nonlinear_arith);
        lemma_quiescent_run(cp, vp, s1, (k - 1) as nat);
    }
}

/// On parameters the engine accepts, the discrete step is positive.
pub proof fn lemma_dt_positive(p: ConstParams)
    requires
        params_ok(p),
    ensures
        1 <= spec_dt(p.a as int, p.l as int, spec_tabulation_size(p.a as int, p.l as int)),
{
}

} // verus!
