//! End-to-end behaviour of the characteristics engine.

use wave_engine::{
    CharacteristicsMethod, ConstParams, Error, RealFunction, TableFn, UDiff, UDiffType,
    VariableParams, SCALE,
};

fn var_params(ty: UDiffType, g: i64) -> VariableParams {
    VariableParams {
        left: UDiff { ty, func: RealFunction::Const(g) },
        right: UDiff { ty, func: RealFunction::Const(g) },
    }
}

/// Samples `f` (given in real units) on `[-h2, l + h2]` with spacing
/// `step` (raw), producing a table the engine evaluates exactly at the
/// tabulation's query points.
fn table_of(f: impl Fn(f64) -> f64, start: i64, step: i64, count: usize) -> RealFunction {
    let mut values = Vec::new();
    for k in 0..count {
        let x = (start + k as i64 * step) as f64 / SCALE as f64;
        values.push((f(x) * SCALE as f64).round() as i64);
    }
    RealFunction::Table(TableFn::new(start, step, values).unwrap())
}

fn engine_state(e: &CharacteristicsMethod) -> Vec<(i64, i64, i64)> {
    (0..e.len()).map(|i| {
        let p = e.point(i);
        (p.u, p.ut, p.ux)
    }).collect()
}

#[test]
fn zero_data_stays_zero() {
    // a = 1, l = 1, u0 = v0 = 0, both ends prescribe Ut = 0: the size
    // floor dominates and every sample stays exactly zero forever.
    let params = ConstParams {
        bottom_u: RealFunction::Const(0),
        bottom_u_t: RealFunction::Const(0),
        a: SCALE,
        l: SCALE,
    };
    let mut e = CharacteristicsMethod::new(var_params(UDiffType::Ut, 0), params).unwrap();
    assert_eq!(e.len(), 257);
    for k in 1..=5 {
        e.sync_to(k * SCALE / 2).unwrap();
        for i in 0..e.len() {
            let p = e.point(i);
            assert_eq!((p.u, p.ut, p.ux), (0, 0, 0));
        }
    }
    let (su, st, sx) = e.samples();
    for i in 0..e.len() {
        assert_eq!(su[i].1, 0);
        assert_eq!(st[i].1, 0);
        assert_eq!(sx[i].1, 0);
    }
}

#[test]
fn zero_velocity_keeps_displacement_over_one_step() {
    // With v0 = 0 and zero boundary forcing, the first step integrates
    // a zero time derivative: u is exactly unchanged.
    let l = SCALE;
    let h2 = SCALE / 512;
    let u0 = table_of(|x| x * (1.0 - x), -h2, h2, 515);
    let params = ConstParams {
        bottom_u: u0,
        bottom_u_t: RealFunction::Const(0),
        a: SCALE,
        l,
    };
    let mut e = CharacteristicsMethod::new(var_params(UDiffType::Ut, 0), params).unwrap();
    let before: Vec<i64> = (0..e.len()).map(|i| e.point(i).u).collect();
    let dt = e.calc_dt();
    e.sync_to(dt).unwrap();
    let after: Vec<i64> = (0..e.len()).map(|i| e.point(i).u).collect();
    assert_eq!(before, after);
}

#[test]
fn uniform_state_is_a_fixed_point() {
    // u0(x) = x gives ux = 1 and ut = 0 at every node; with the slope
    // prescribed at both ends, stepping changes nothing at all.
    let l = SCALE;
    let h2 = SCALE / 512;
    let u0 = table_of(|x| x, -h2, h2, 515);
    let params = ConstParams {
        bottom_u: u0,
        bottom_u_t: RealFunction::Const(0),
        a: 2 * SCALE,
        l,
    };
    let mut e = CharacteristicsMethod::new(var_params(UDiffType::Ux, SCALE), params).unwrap();
    for i in 0..e.len() {
        let p = e.point(i);
        assert_eq!(p.ut, 0);
        assert_eq!(p.ux, SCALE);
    }
    let before = engine_state(&e);
    e.sync_to(3 * SCALE).unwrap();
    assert_eq!(before, engine_state(&e));
}

#[test]
fn sync_to_is_idempotent() {
    let params = ConstParams {
        bottom_u: RealFunction::Const(0),
        bottom_u_t: RealFunction::Const(SCALE / 4),
        a: SCALE,
        l: SCALE,
    };
    let mut e = CharacteristicsMethod::new(var_params(UDiffType::Ut, SCALE / 4), params).unwrap();
    let t = 7 * SCALE / 9;
    e.sync_to(t).unwrap();
    let t_after = e.cur_t();
    let state = engine_state(&e);
    // The same target again: zero additional steps, nothing moves.
    e.sync_to(t).unwrap();
    assert_eq!(e.cur_t(), t_after);
    assert_eq!(state, engine_state(&e));
}

#[test]
fn sync_to_ignores_backward_targets() {
    let params = ConstParams {
        bottom_u: RealFunction::Const(0),
        bottom_u_t: RealFunction::Const(SCALE / 4),
        a: SCALE,
        l: SCALE,
    };
    let mut e = CharacteristicsMethod::new(var_params(UDiffType::Ut, SCALE / 4), params).unwrap();
    e.sync_to(SCALE).unwrap();
    let t_after = e.cur_t();
    let state = engine_state(&e);
    e.sync_to(SCALE / 2).unwrap();
    e.sync_to(-3 * SCALE).unwrap();
    assert_eq!(e.cur_t(), t_after);
    assert_eq!(state, engine_state(&e));
}

#[test]
fn advance_splits_across_calls() {
    // Feeding the accumulator dt/2 twice runs the same step at the same
    // boundary samples as feeding dt once.
    let params = || ConstParams {
        bottom_u: RealFunction::Const(0),
        bottom_u_t: RealFunction::Const(SCALE / 8),
        a: SCALE,
        l: SCALE,
    };
    let vp = || var_params(UDiffType::Ut, SCALE / 8);
    let mut once = CharacteristicsMethod::new(vp(), params()).unwrap();
    let mut split = CharacteristicsMethod::new(vp(), params()).unwrap();
    let dt = once.calc_dt();
    assert_eq!(dt % 2, 0);
    once.advance(dt).unwrap();
    split.advance(dt / 2).unwrap();
    split.advance(dt / 2).unwrap();
    assert_eq!(once.cur_t(), split.cur_t());
    assert_eq!(engine_state(&once), engine_state(&split));
    // And again over several whole steps with a ragged split.
    once.advance(3 * dt).unwrap();
    split.advance(dt + 1).unwrap();
    split.advance(2 * dt - 1).unwrap();
    assert_eq!(once.cur_t(), split.cur_t());
    assert_eq!(engine_state(&once), engine_state(&split));
}

#[test]
fn advance_matches_sync_to_under_a_monotone_clock() {
    let params = || ConstParams {
        bottom_u: RealFunction::Const(0),
        bottom_u_t: RealFunction::Const(SCALE / 8),
        a: SCALE,
        l: SCALE,
    };
    let vp = || var_params(UDiffType::Ut, SCALE / 8);
    let mut absolute = CharacteristicsMethod::new(vp(), params()).unwrap();
    let mut relative = CharacteristicsMethod::new(vp(), params()).unwrap();
    let ticks = [0i64, 12_345_678, 400_000_000, 401_000_000, 999_999_999];
    let mut last = 0i64;
    for t in ticks {
        absolute.sync_to(t).unwrap();
        relative.advance(t - last).unwrap();
        last = t;
        assert_eq!(absolute.cur_t(), relative.cur_t());
        assert_eq!(engine_state(&absolute), engine_state(&relative));
    }
}

#[test]
fn standing_wave_recurs_after_whole_periods() {
    // a = 2, l = 4, u0(x) = sin(pi x / 4), v0 = 0, slope pinned to 0 at
    // both ends: the state is periodic with period 2 l / a = 4.  The
    // grid is 257 nodes, dt = 1/128, so a period is exactly 512 steps.
    let l = 4 * SCALE;
    let a = 2 * SCALE;
    let h2 = SCALE / 128;
    let u0 = table_of(|x| (std::f64::consts::PI * x / 4.0).sin(), -h2, h2, 515);
    let params = ConstParams { bottom_u: u0, bottom_u_t: RealFunction::Const(0), a, l };
    let mut e = CharacteristicsMethod::new(var_params(UDiffType::Ux, 0), params).unwrap();
    assert_eq!(e.len(), 257);
    assert_eq!(e.calc_dt(), SCALE / 128);
    let mid = 128;
    let u_start = e.point(mid).u as f64 / SCALE as f64;
    assert!((u_start - 1.0).abs() < 1e-3);
    // Midway through the first period the midpoint has moved far away.
    e.sync_to(SCALE).unwrap();
    let u_quarter = e.point(mid).u as f64 / SCALE as f64;
    assert!((u_quarter - u_start).abs() > 0.5);
    // After each whole period the midpoint returns to its start.
    for period in 1..=2 {
        e.sync_to(period * 4 * SCALE).unwrap();
        assert_eq!(e.cur_t(), period * 4 * SCALE);
        let u_now = e.point(mid).u as f64 / SCALE as f64;
        assert!(
            (u_now - u_start).abs() < 0.05,
            "period {}: {} vs {}",
            period,
            u_now,
            u_start
        );
    }
}

#[test]
fn boundary_back_solve_has_mirrored_signs() {
    // a = 2, l = 1, u0 = 0, v0 = c, both ends prescribe Ut = 0.  One
    // step: the interior keeps (ut, ux) = (c, 0); the ends back-solve
    // ux from the outgoing invariant, +c/(2) on the left and -c/2 on
    // the right (a = 2); u everywhere gains floor(dt * c) = 1.
    let c = 1000i64;
    let params = ConstParams {
        bottom_u: RealFunction::Const(0),
        bottom_u_t: RealFunction::Const(c),
        a: 2 * SCALE,
        l: SCALE,
    };
    let mut e = CharacteristicsMethod::new(var_params(UDiffType::Ut, 0), params).unwrap();
    let dt = e.calc_dt();
    assert_eq!(dt, SCALE / 512);
    e.sync_to(dt).unwrap();
    let left = e.point(0);
    assert_eq!((left.ut, left.ux), (0, c / 2));
    let right = e.point(e.len() - 1);
    assert_eq!((right.ut, right.ux), (0, -c / 2));
    let inner = e.point(100);
    assert_eq!((inner.ut, inner.ux), (c, 0));
    for i in 0..e.len() {
        assert_eq!(e.point(i).u, 1);
    }
    // The space-derivative kind back-solves ut instead, with the same
    // mirrored signs scaled by a.
    let params = ConstParams {
        bottom_u: RealFunction::Const(0),
        bottom_u_t: RealFunction::Const(0),
        a: 2 * SCALE,
        l: SCALE,
    };
    let mut e = CharacteristicsMethod::new(var_params(UDiffType::Ux, 4), params).unwrap();
    e.sync_to(e.calc_dt()).unwrap();
    let left = e.point(0);
    assert_eq!((left.ut, left.ux), (-8, 4));
    let right = e.point(e.len() - 1);
    assert_eq!((right.ut, right.ux), (8, 4));
}

#[test]
fn runaway_displacement_overflows_a_step() {
    // The displacement starts at the edge of the working range and
    // would leave it on the first step: the step fails and the state
    // stays at its pre-step value.
    let lim = 1_000_000_000_000_000_000i64;
    let params = ConstParams {
        bottom_u: RealFunction::Const(lim),
        bottom_u_t: RealFunction::Const(lim),
        a: SCALE,
        l: SCALE,
    };
    let mut e = CharacteristicsMethod::new(var_params(UDiffType::Ut, 0), params).unwrap();
    let dt = e.calc_dt();
    let r = e.sync_to(dt);
    assert_eq!(r.err(), Some(Error::Overflow));
    assert_eq!(e.cur_t(), 0);
    assert_eq!(e.point(0).u, lim);
}

#[test]
fn invalid_parameters_are_rejected() {
    let vp = var_params(UDiffType::Ut, 0);
    let bad = ConstParams {
        bottom_u: RealFunction::Const(0),
        bottom_u_t: RealFunction::Const(0),
        a: 0,
        l: SCALE,
    };
    assert_eq!(CharacteristicsMethod::new(vp, bad).err(), Some(Error::InvalidParameter));
    let vp = var_params(UDiffType::Ut, 0);
    let bad = ConstParams {
        bottom_u: RealFunction::Const(0),
        bottom_u_t: RealFunction::Const(0),
        a: SCALE,
        l: -SCALE,
    };
    assert_eq!(CharacteristicsMethod::new(vp, bad).err(), Some(Error::InvalidParameter));
}

#[test]
fn undefined_initial_profile_is_an_evaluation_error() {
    // A table covering only half the rod: tabulation must fail and
    // leave nothing constructed.
    let half_table = table_of(|x| x, 0, SCALE / 512, 200);
    let params = ConstParams {
        bottom_u: half_table,
        bottom_u_t: RealFunction::Const(0),
        a: SCALE,
        l: SCALE,
    };
    let r = CharacteristicsMethod::new(var_params(UDiffType::Ut, 0), params);
    assert_eq!(r.err(), Some(Error::Evaluation));
}

#[test]
fn undefined_boundary_forcing_aborts_the_step() {
    // The boundary table covers only the first instants of simulated
    // time: the first steps succeed, then a step fails without moving
    // the clock, and the state stays at its last good value.
    let dt = SCALE / 256;
    let g = RealFunction::Table(TableFn::new(0, dt, vec![0, 0, 0, 0]).unwrap());
    let vp = VariableParams {
        left: UDiff { ty: UDiffType::Ut, func: g },
        right: UDiff { ty: UDiffType::Ut, func: RealFunction::Const(0) },
    };
    let params = ConstParams {
        bottom_u: RealFunction::Const(0),
        bottom_u_t: RealFunction::Const(0),
        a: SCALE,
        l: SCALE,
    };
    let mut e = CharacteristicsMethod::new(vp, params).unwrap();
    assert_eq!(e.calc_dt(), dt);
    // Three steps stay inside the table's domain.
    e.sync_to(3 * dt).unwrap();
    assert_eq!(e.cur_t(), 3 * dt);
    // The fourth step would sample g at 4 * dt, outside the table.
    let r = e.sync_to(5 * dt);
    assert_eq!(r.err(), Some(Error::Evaluation));
    assert_eq!(e.cur_t(), 3 * dt);
}

#[test]
fn runaway_slope_is_an_overflow_error() {
    // Adjacent profile samples a working-range apart make the centred
    // difference leave the representable range.
    let h2 = SCALE / 512;
    let lim = 1_000_000_000_000_000_000i64;
    let mut values = vec![0i64; 515];
    values[2] = lim;
    let u0 = RealFunction::Table(TableFn::new(-h2, h2, values).unwrap());
    let params = ConstParams {
        bottom_u: u0,
        bottom_u_t: RealFunction::Const(0),
        a: SCALE,
        l: SCALE,
    };
    let r = CharacteristicsMethod::new(var_params(UDiffType::Ut, 0), params);
    assert_eq!(r.err(), Some(Error::Overflow));
}

#[test]
fn reset_regenerates_and_rewinds_the_clock() {
    let params = ConstParams {
        bottom_u: RealFunction::Const(0),
        bottom_u_t: RealFunction::Const(SCALE / 4),
        a: SCALE,
        l: SCALE,
    };
    let mut e = CharacteristicsMethod::new(var_params(UDiffType::Ut, SCALE / 4), params).unwrap();
    e.sync_to(2 * SCALE).unwrap();
    assert!(e.cur_t() > 0);
    let fresh = ConstParams {
        bottom_u: RealFunction::Const(7),
        bottom_u_t: RealFunction::Const(0),
        a: SCALE,
        l: 3 * SCALE,
    };
    e.reset(fresh).unwrap();
    assert_eq!(e.cur_t(), 0);
    assert_eq!(e.len(), 361);
    for i in 0..e.len() {
        assert_eq!(e.point(i).u, 7);
    }
    // A failing reset leaves the engine as it was.
    let bad = ConstParams {
        bottom_u: RealFunction::Const(0),
        bottom_u_t: RealFunction::Const(0),
        a: -1,
        l: SCALE,
    };
    assert_eq!(e.reset(bad).err(), Some(Error::InvalidParameter));
    assert_eq!(e.len(), 361);
    assert_eq!(e.point(0).u, 7);
}

#[test]
fn set_var_params_changes_future_steps_only() {
    let params = ConstParams {
        bottom_u: RealFunction::Const(0),
        bottom_u_t: RealFunction::Const(0),
        a: SCALE,
        l: SCALE,
    };
    let mut e = CharacteristicsMethod::new(var_params(UDiffType::Ut, 0), params).unwrap();
    let dt = e.calc_dt();
    e.sync_to(dt).unwrap();
    let quiet = engine_state(&e);
    // New forcing: nothing moves until the next step runs.
    e.set_var_params(var_params(UDiffType::Ut, SCALE / 2)).unwrap();
    assert_eq!(quiet, engine_state(&e));
    e.sync_to(2 * dt).unwrap();
    let p0 = e.point(0);
    assert_eq!(p0.ut, SCALE / 2);
}
