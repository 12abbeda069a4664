//! The strategy capability an integration method exposes to a driver:
//! construction from parameters, time synchronisation, render-ready
//! samples, reset and boundary-condition updates.
//!
//! The characteristics engine is the one concrete strategy; a driver
//! written against this trait can swap it for another integrator.

use vstd::prelude::*;

verus! {

use crate::engine::CharacteristicsMethod;
use crate::params::{ConstParams, VariableParams};
use crate::Error;

pub trait Method: Sized {
    /// The strategy's own well-formedness; every operation preserves
    /// it.
    spec fn m_wf(&self) -> bool;

    /// Builds the strategy from boundary and constant parameters.
    fn new(var_params: VariableParams, const_params: ConstParams) -> (r: Result<Self, Error>)
        ensures
            r matches Ok(m) ==> m.m_wf(),
    ;

    /// Advances the strategy so that its clock tracks `t` in whole
    /// internal steps.
    fn sync_to(&mut self, t: i64) -> (r: Result<(), Error>)
        requires
            old(self).m_wf(),
        ensures
            final(self).m_wf(),
    ;

    /// Feeds elapsed time to the strategy's step accumulator.
    fn advance(&mut self, delta_t: i64) -> (r: Result<(), Error>)
        requires
            old(self).m_wf(),
            0 <= delta_t,
        ensures
            final(self).m_wf(),
    ;

    /// Normalised render samples per channel: displacement, time
    /// derivative, space derivative.
    fn samples(&self) -> (r: (Vec<(i64, i64)>, Vec<(i64, i64)>, Vec<(i64, i64)>))
        requires
            self.m_wf(),
    ;

    /// Replaces the constant parameters and restarts from the initial
    /// state.
    fn reset(&mut self, const_params: ConstParams) -> (r: Result<(), Error>)
        requires
            old(self).m_wf(),
        ensures
            final(self).m_wf(),
    ;

    /// Replaces the boundary conditions.
    fn set_var_params(&mut self, var_params: VariableParams) -> (r: Result<(), Error>)
        requires
            old(self).m_wf(),
        ensures
            final(self).m_wf(),
    ;

    /// Current simulation time.
    fn cur_t(&self) -> i64
        requires
            self.m_wf(),
    ;
}

impl Method for CharacteristicsMethod {
    open spec fn m_wf(&self) -> bool {
        self.wf()
    }

    fn new(var_params: VariableParams, const_params: ConstParams) -> (r: Result<Self, Error>) {
        CharacteristicsMethod::new(var_params, const_params)
    }

    fn sync_to(&mut self, t: i64) -> (r: Result<(), Error>) {
        CharacteristicsMethod::sync_to(self, t)
    }

    fn advance(&mut self, delta_t: i64) -> (r: Result<(), Error>) {
        CharacteristicsMethod::advance(self, delta_t)
    }

    fn samples(&self) -> (r: (Vec<(i64, i64)>, Vec<(i64, i64)>, Vec<(i64, i64)>)) {
        CharacteristicsMethod::samples(self)
    }

    fn reset(&mut self, const_params: ConstParams) -> (r: Result<(), Error>) {
        CharacteristicsMethod::reset(self, const_params)
    }

    fn set_var_params(&mut self, var_params: VariableParams) -> (r: Result<(), Error>) {
        CharacteristicsMethod::set_var_params(self, var_params)
    }

    fn cur_t(&self) -> i64 {
        CharacteristicsMethod::cur_t(self)
    }
}

} // verus!
