//! Implementations of different branch predictors.

use vstd::prelude::*;

pub mod btb;
pub mod counter;
pub mod perceptron;
pub mod pht;
pub mod ras;
pub mod simple;
pub mod table;
pub mod tage;

use crate::branch::Outcome;

verus! {

/// Interface to a "trivial" predictor that guesses an outcome without
/// accepting feedback from the rest of the machine.
pub trait SimplePredictor {
    fn name(&self) -> &'static str;

    fn predict(&self) -> Outcome;
}

/// Interface to a predictor with some internal state which is only subject to
/// change by the correct branch outcome.
pub trait StatefulPredictor {
    fn name(&self) -> &'static str;

    /// Reset the internal state of the predictor.
    fn reset(&mut self);

    /// Return the current predicted outcome.
    fn predict(&self) -> Outcome;

    /// Update the internal state of the predictor with the correct outcome.
    fn update(&mut self, outcome: Outcome);
}

/// Implemented on types that represent some *configuration* for a predictor.
pub trait PredictorConfiguration {
    /// The type of object that will be created using this configuration.
    type Predictor;

    /// Return the [approximate] number of storage bits used to implement
    /// this predictor.
    fn storage_bits(&self) -> usize;

    /// Use this configuration to build an instance of the predictor.
    fn build(self) -> Self::Predictor;
}

/// The state of the machine that a predictor reads.
pub enum InputState {
    ProgramCounter(usize),
}

} // verus!
