//! Grid sizing and projection behaviour of the engine.

use wave_engine::{
    calc_tabulation_size, CharacteristicsMethod, ConstParams, RealFunction, UDiff, UDiffType,
    VariableParams, SCALE,
};

fn zero_var_params() -> VariableParams {
    VariableParams {
        left: UDiff { ty: UDiffType::Ut, func: RealFunction::Const(0) },
        right: UDiff { ty: UDiffType::Ut, func: RealFunction::Const(0) },
    }
}

fn const_params(a: i64, l: i64) -> ConstParams {
    ConstParams {
        bottom_u: RealFunction::Const(0),
        bottom_u_t: RealFunction::Const(0),
        a,
        l,
    }
}

#[test]
fn tabulation_size_floor_dominates() {
    // a = 1.0, l = 1.0: the refresh bound asks for 121 nodes, the floor wins.
    assert_eq!(calc_tabulation_size(SCALE, SCALE), 257);
}

#[test]
fn tabulation_size_refresh_bound_dominates() {
    // a = 1.0, l = 10.0: ceil(120 * 10) + 1 = 1201.
    assert_eq!(calc_tabulation_size(SCALE, 10 * SCALE), 1201);
    // a = 7.0, l = 100.0: ceil(12000 / 7) + 1 = 1716.
    assert_eq!(calc_tabulation_size(7 * SCALE, 100 * SCALE), 1716);
}

#[test]
fn tabulation_size_bounds_hold() {
    let cases = [(SCALE, SCALE), (2 * SCALE, 4 * SCALE), (3 * SCALE, 50 * SCALE), (1, 1)];
    for (a, l) in cases {
        let n = calc_tabulation_size(a, l) as i128;
        assert!(n >= 257);
        let ceil = (2 * 60 * l as i128 + a as i128 - 1) / a as i128;
        assert!(n >= ceil + 1);
    }
}

#[test]
fn grid_endpoints_are_exact() {
    let e = CharacteristicsMethod::new(zero_var_params(), const_params(SCALE, SCALE)).unwrap();
    let n = e.len();
    assert_eq!(n, 257);
    assert_eq!(e.node_position(0), 0);
    assert_eq!(e.node_position(n - 1), SCALE);
}

#[test]
fn grid_positions_are_evenly_spaced() {
    // l = 1.0 over 257 nodes: h = SCALE / 256 exactly.
    let e = CharacteristicsMethod::new(zero_var_params(), const_params(SCALE, SCALE)).unwrap();
    let h = SCALE / 256;
    for i in 0..e.len() {
        assert_eq!(e.node_position(i), i as i64 * h);
    }
}

#[test]
fn samples_are_normalised() {
    // u = 1.0 everywhere on a rod of length 2.0: value fraction 2*u/l = 1.0.
    let params = ConstParams {
        bottom_u: RealFunction::Const(SCALE),
        bottom_u_t: RealFunction::Const(0),
        a: SCALE,
        l: 2 * SCALE,
    };
    let e = CharacteristicsMethod::new(zero_var_params(), params).unwrap();
    let (su, st, sx) = e.samples();
    let n = e.len();
    assert_eq!(su.len(), n);
    assert_eq!(st.len(), n);
    assert_eq!(sx.len(), n);
    assert_eq!(su[0].0, 0);
    assert_eq!(su[n - 1].0, SCALE);
    for i in 0..n {
        assert_eq!(su[i].1, SCALE);
        assert_eq!(st[i].1, 0);
        assert_eq!(sx[i].1, 0);
    }
    // Position fractions are shared across the three channels.
    for i in 0..n {
        assert_eq!(su[i].0, st[i].0);
        assert_eq!(su[i].0, sx[i].0);
    }
}

#[test]
fn point_reads_tabulated_state() {
    let params = ConstParams {
        bottom_u: RealFunction::Const(3 * SCALE),
        bottom_u_t: RealFunction::Const(5),
        a: SCALE,
        l: SCALE,
    };
    let e = CharacteristicsMethod::new(zero_var_params(), params).unwrap();
    for i in 0..e.len() {
        let p = e.point(i);
        assert_eq!(p.u, 3 * SCALE);
        assert_eq!(p.ut, 5);
        assert_eq!(p.ux, 0);
    }
}
