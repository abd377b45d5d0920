//! Predictors without any state.

use vstd::prelude::*;

use crate::branch::Outcome;
use crate::chance::random_bit;
use crate::predictor::SimplePredictor;

verus! {

/// A simple predictor with no state: randomly predict an outcome.
pub struct RandomPredictor;

impl SimplePredictor for RandomPredictor {
    fn name(&self) -> (r: &'static str)
        ensures
            r@ == "RandomPredictor"@,
    {
        "RandomPredictor"
    }

    fn predict(&self) -> Outcome {
        Outcome::from_bool(random_bit())
    }
}

/// A simple predictor with no state: always predict 'taken'.
pub struct TakenPredictor;

impl SimplePredictor for TakenPredictor {
    fn name(&self) -> (r: &'static str)
        ensures
            r@ == "TakenPredictor"@,
    {
        "TakenPredictor"
    }

    fn predict(&self) -> (r: Outcome)
        ensures
            r == Outcome::T,
    {
        Outcome::T
    }
}

/// A simple predictor with no state: always predict 'not-taken'.
pub struct NotTakenPredictor;

impl SimplePredictor for NotTakenPredictor {
    fn name(&self) -> (r: &'static str)
        ensures
            r@ == "NotTakenPredictor"@,
    {
        "NotTakenPredictor"
    }

    fn predict(&self) -> (r: Outcome)
        ensures
            r == Outcome::N,
    {
        Outcome::N
    }
}

} // verus!
