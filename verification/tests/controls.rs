//! Animation bookkeeping and the function capabilities.

use wave_engine::{
    cancel_animation_frame, Animation, AnimationState, CharacteristicsMethod, ConstParams, Error,
    Method, RealFunction, TableFn, UDiff, UDiffType, VariableParams, SCALE,
};

/// Drives any integration strategy through the capability it exposes.
fn drive<M: Method>(t: i64) -> (i64, Vec<(i64, i64)>) {
    let vp = VariableParams {
        left: UDiff { ty: UDiffType::Ut, func: RealFunction::Const(SCALE / 4) },
        right: UDiff { ty: UDiffType::Ut, func: RealFunction::Const(SCALE / 4) },
    };
    let cp = ConstParams {
        bottom_u: RealFunction::Const(0),
        bottom_u_t: RealFunction::Const(SCALE / 4),
        a: SCALE,
        l: SCALE,
    };
    let mut m = M::new(vp, cp).unwrap();
    m.sync_to(t).unwrap();
    let (su, _st, _sx) = m.samples();
    (m.cur_t(), su)
}

#[test]
fn method_trait_drives_the_engine() {
    let (t, su) = drive::<CharacteristicsMethod>(SCALE);
    assert!(t > 0 && t <= SCALE);
    assert_eq!(su.len(), 257);
    // Uniform unit velocity for one second of simulated time: the
    // displacement fraction 2 * u / l approaches half the rod.
    let u_mid = su[128].1 as f64 / SCALE as f64;
    assert!((u_mid - 0.5).abs() < 0.01);
}

#[test]
fn animation_starts_paused_at_zero() {
    let a = Animation::new();
    assert!(a.is_paused());
    assert_eq!(a.state, AnimationState::Pause { stopped_at: 0 });
    assert_eq!(cancel_animation_frame(&a), None);
}

#[test]
fn animation_resume_restores_the_time_origin() {
    let mut a = Animation::new();
    a.resume(1000, 7);
    assert!(!a.is_paused());
    assert_eq!(a.state, AnimationState::Running { t0: 1000, handle: 7 });
    assert_eq!(cancel_animation_frame(&a), Some(7));
    // Resuming a running animation changes nothing.
    a.resume(2000, 8);
    assert_eq!(a.state, AnimationState::Running { t0: 1000, handle: 7 });
}

#[test]
fn animation_pause_keeps_elapsed_time() {
    let mut a = Animation::new();
    a.resume(1000, 7);
    // 500 ticks of simulated time elapse before the pause.
    assert_eq!(a.pause(1500), Some(7));
    assert_eq!(a.state, AnimationState::Pause { stopped_at: 500 });
    // Pausing again is a no-op.
    assert_eq!(a.pause(1600), None);
    assert_eq!(a.state, AnimationState::Pause { stopped_at: 500 });
    // A later resume places the origin so the clock continues at 500.
    a.resume(9000, 9);
    assert_eq!(a.state, AnimationState::Running { t0: 8500, handle: 9 });
}

#[test]
fn animation_reset_rewinds_and_cancels() {
    let mut a = Animation::new();
    a.resume(1000, 7);
    assert_eq!(a.reset(), Some(7));
    assert_eq!(a.state, AnimationState::Pause { stopped_at: 0 });
    assert_eq!(a.reset(), None);
}

#[test]
fn animation_request_turns_over_the_handle() {
    let mut a = Animation::new();
    a.resume(1000, 7);
    let (stale, t0) = a.request(8);
    assert_eq!((stale, t0), (7, 1000));
    assert_eq!(a.state, AnimationState::Running { t0: 1000, handle: 8 });
    assert_eq!(cancel_animation_frame(&a), Some(8));
}

#[test]
fn table_interpolates_linearly() {
    let t = TableFn::new(0, 1000, vec![0, 1000, 3000]).unwrap();
    let f = RealFunction::Table(t);
    assert_eq!(f.eval(0), Ok(0));
    assert_eq!(f.eval(500), Ok(500));
    assert_eq!(f.eval(1000), Ok(1000));
    assert_eq!(f.eval(1500), Ok(2000));
    assert_eq!(f.eval(2000), Ok(3000));
    // Floor rounding of the linear correction.
    let t = TableFn::new(0, 3, vec![0, 2]).unwrap();
    let f = RealFunction::Table(t);
    assert_eq!(f.eval(1), Ok(0));
    assert_eq!(f.eval(2), Ok(1));
}

#[test]
fn table_rejects_out_of_domain_points() {
    let t = TableFn::new(-500, 1000, vec![1, 2, 3]).unwrap();
    let f = RealFunction::Table(t);
    assert_eq!(f.eval(-501), Err(Error::Evaluation));
    assert_eq!(f.eval(1501), Err(Error::Evaluation));
    assert_eq!(f.eval(-500), Ok(1));
    assert_eq!(f.eval(1500), Ok(3));
}

#[test]
fn table_construction_validates_its_shape() {
    assert!(matches!(TableFn::new(0, 0, vec![1, 2]), Err(Error::InvalidParameter)));
    assert!(matches!(TableFn::new(0, -5, vec![1, 2]), Err(Error::InvalidParameter)));
    assert!(matches!(TableFn::new(0, 1, vec![1]), Err(Error::InvalidParameter)));
    let lim = 1_000_000_000_000_000_000i64;
    assert!(matches!(TableFn::new(0, 1, vec![0, lim + 1]), Err(Error::InvalidParameter)));
    assert!(matches!(TableFn::new(lim, SCALE, vec![0, 0]), Err(Error::InvalidParameter)));
    assert!(TableFn::new(0, 1, vec![0, lim]).is_ok());
}

#[test]
fn constant_function_answers_everywhere() {
    let f = RealFunction::Const(42);
    assert_eq!(f.eval(i64::MIN), Ok(42));
    assert_eq!(f.eval(0), Ok(42));
    assert_eq!(f.eval(i64::MAX), Ok(42));
}
