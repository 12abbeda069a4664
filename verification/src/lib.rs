//! Integration engine for the one-dimensional wave equation
//! `u_tt = a^2 * u_xx` on a rod of length `l`, driven by the method of
//! characteristics at Courant number 1 together with explicit Euler
//! integration of the displacement.
//!
//! All quantities are fixed-point numbers: an `i64` raw value stands for
//! the real number `raw / SCALE`.  Every arithmetic step rounds by floor
//! division, and every contract states the exact rounded result, so the
//! whole scheme is deterministic and its algebraic laws (steady states,
//! time-synchronisation idempotence, accumulator splitting) are proved
//! rather than approximated.

use vstd::prelude::*;

pub mod fixed;
pub mod real_fn;
pub mod params;
pub mod stencil;
pub mod engine;
pub mod method;
pub mod animation;

pub use animation::{cancel_animation_frame, Animation, AnimationState};
pub use engine::CharacteristicsMethod;
pub use method::Method;
pub use params::{calc_tabulation_size, ConstParams, UDiff, UDiffType, VariableParams};
pub use real_fn::{RealFunction, TableFn};
pub use stencil::{UPair, UTriplePoint};

verus! {

/// Denominator of the fixed-point representation: a raw value `v` stands
/// for the real number `v / SCALE`.
pub const SCALE: i64 = 1_000_000_000;

/// Largest raw magnitude the engine works with.  Every stored value
/// (parameters, grid samples, times) is kept within `[-VAL_LIMIT, VAL_LIMIT]`
/// so that each stencil computation fits comfortably in 128-bit
/// intermediates.
pub const VAL_LIMIT: i64 = 1_000_000_000_000_000_000;

/// Smallest grid the tabulation ever uses.
pub const MIN_TABULATION_SIZE: usize = 257;

/// Least number of discrete steps per second of simulated time that the
/// grid sizing guarantees.
pub const MIN_FRAMERATE: i64 = 60;

/// How an engine operation can fail.  A buffer-shape hazard needs no
/// variant: each step rebuilds the scratch buffer in full and swaps it
/// in whole, and the grid invariant ties every buffer the engine reads
/// to its tabulation size, so the mismatch such a hazard would signal
/// cannot arise.
#[derive(Clone, Copy, Debug, PartialEq, Eq, Structural)]
pub enum Error {
    /// A wave speed or domain length outside the representable positive
    /// range, or a function capability outside the working range, was
    /// supplied to construction or reset.
    InvalidParameter,
    /// A user-supplied function was evaluated outside its domain.
    Evaluation,
    /// A computed sample or time left the engine's representable working
    /// range.
    Overflow,
}

} // verus!
