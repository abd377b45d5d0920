//! For classifying conditional branch behavior.

use vstd::prelude::*;

use crate::analysis::runlength::RunPair;
use crate::branch::Outcome;

verus! {

/// Classifications for conditional branch behavior.
#[derive(Debug, Hash)]
pub enum BranchClass {
    Unknown,
    /// A branch where the outcome is always the same.
    Static(Outcome),
    /// A branch where the outcome changes only once.
    SinglePair(RunPair),
    /// A branch where the "head" of each pair is always the same length,
    /// and only the "tail" length is variable
    StaticHead(Vec<RunPair>),
    /// A branch where the "tail" of each pair is always the same length,
    /// and only the "head" length is variable
    StaticTail(Vec<RunPair>),
    /// A branch with a totally uniform repeating pattern of outcomes
    /// that divides the entire local history.
    UniformPattern(Vec<RunPair>),
    UniformPatternPrefixed(usize, Vec<Outcome>),
}

} // verus!
