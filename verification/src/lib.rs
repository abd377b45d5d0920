//! Branch-prediction models driven by execution traces, centred on a TAGE
//! (tagged geometric history length) conditional-branch predictor.
//!
//! - [`branch`]: outcomes, kinds and records of branches.
//! - [`bits`]: sequences of bits, kept in a bit-vector.
//! - [`history`]: the register of global history, and the register that
//!   folds a window of it into a few bits.
//! - [`predictor`]: saturating counters, tables of predictors, the TAGE
//!   predictor with its components, configurations and statistics, and a
//!   few simpler predictors.
//! - [`driver`]: the order in which a predictor and the global history
//!   take up the branches of a trace.
//! - [`chance`]: the random draws that an allocation may need.
//! - [`trace`], [`sim`]: recorded traces, and the assembly of synthetic
//!   ones.
//! - [`analysis`]: runs and patterns in the outcomes of a branch.
//!
//! Executable functions state in their contracts, over the views of the
//! data that they work on, what they return and change. What is known of
//! the bit-vector and of the random draws is stated, not proved: see
//! [`bits`] and [`chance`].

pub mod analysis;
pub mod bits;
pub mod branch;
pub mod chance;
pub mod driver;
pub mod history;
pub mod predictor;
pub mod sim;
pub mod trace;

pub use analysis::classify::BranchClass;
pub use analysis::runlength::{Run, RunPair};
pub use analysis::stats::BranchStats;
pub use analysis::{BranchData, BranchOutcomes};
pub use bits::Bits;
pub use branch::{BranchFlags, BranchKind, BranchRecord, Outcome};
pub use history::{FoldedHistoryRegister, HistoryRegister};
pub use predictor::btb::{SimpleBTB, SimpleBTBEntry};
pub use predictor::counter::{SaturatingCounter, SaturatingCounterConfig};
pub use predictor::perceptron::Perceptron;
pub use predictor::pht::SimplePHT;
pub use predictor::ras::UnboundedRAS;
pub use predictor::simple::{NotTakenPredictor, RandomPredictor, TakenPredictor};
pub use predictor::table::{IndexStrategy, PredictorTable, TagStrategy, TaggedPredictorTable};
pub use predictor::tage::component::{TAGEBaseComponent, TAGEComponent, TAGEEntry};
pub use predictor::tage::config::{
    TAGEBaseConfig, TAGEComponentConfig, TAGEConfig, TAGEConfigError,
};
pub use predictor::tage::stat::{TAGEEntryStats, TAGEStats};
pub use predictor::tage::{TAGEInputs, TAGEPrediction, TAGEPredictor, TAGEProvider};
pub use predictor::{InputState, PredictorConfiguration, SimplePredictor, StatefulPredictor};
pub use trace::{BinaryTrace, BinaryTraceSet};
