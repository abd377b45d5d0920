//! Statistics that a TAGE predictor gathers while it runs.

use std::collections::BTreeSet;
use vstd::prelude::*;
use vstd::std_specs::btree::group_btree_axioms;

verus! {

broadcast use group_btree_axioms;

/// Container for [TAGEPredictor](super::TAGEPredictor) runtime stats.
#[derive(Debug)]
pub struct TAGEStats {
    /// Successful allocations
    pub alcs: usize,
    /// Failed allocations
    pub failed_alcs: usize,
    /// Misses in the base component
    pub base_miss: usize,
    /// Hits in the base component
    pub base_hits: usize,
    /// Misses in the tagged components
    pub comp_miss: Vec<usize>,
    /// Hits in the tagged components
    pub comp_hits: Vec<usize>,
    /// Number of 'useful' counter resets
    pub resets: usize,
    /// Number of updates
    pub clk: usize,
}

/// What a [`TAGEStats`] holds.
pub struct StatsView {
    pub alcs: usize,
    pub failed_alcs: usize,
    pub base_miss: usize,
    pub base_hits: usize,
    pub comp_miss: Seq<usize>,
    pub comp_hits: Seq<usize>,
    pub resets: usize,
    pub clk: usize,
}

impl StatsView {
    /// The statistics of a predictor with `num_comp` tagged components that
    /// has not run yet.
    pub open spec fn fresh(num_comp: nat) -> StatsView {
        StatsView {
            alcs: 0,
            failed_alcs: 0,
            base_miss: 0,
            base_hits: 0,
            comp_miss: Seq::new(num_comp, |i: int| 0usize),
            comp_hits: Seq::new(num_comp, |i: int| 0usize),
            resets: 0,
            clk: 0,
        }
    }

    /// The statistics are those of a predictor with `num_comp` tagged
    /// components.
    pub open spec fn shaped(self, num_comp: nat) -> bool {
        &&& self.comp_miss.len() == num_comp
        &&& self.comp_hits.len() == num_comp
    }

    /// No count is above `limit`.
    pub open spec fn bounded(self, limit: int) -> bool {
        &&& self.alcs <= limit
        &&& self.failed_alcs <= limit
        &&& self.base_miss <= limit
        &&& self.base_hits <= limit
        &&& self.resets <= limit
        &&& forall|i: int| 0 <= i < self.comp_miss.len() ==> #[trigger] self.comp_miss[i] <= limit
        &&& forall|i: int| 0 <= i < self.comp_hits.len() ==> #[trigger] self.comp_hits[i] <= limit
    }

    /// The statistics are those of a predictor with `num_comp` tagged
    /// components, and no count is ahead of the number of updates.
    pub open spec fn wf(self, num_comp: nat) -> bool {
        &&& self.shaped(num_comp)
        &&& self.bounded(self.clk as int)
    }
}

impl View for TAGEStats {
    type V = StatsView;

    open spec fn view(&self) -> StatsView {
        StatsView {
            alcs: self.alcs,
            failed_alcs: self.failed_alcs,
            base_miss: self.base_miss,
            base_hits: self.base_hits,
            comp_miss: self.comp_miss@,
            comp_hits: self.comp_hits@,
            resets: self.resets,
            clk: self.clk,
        }
    }
}

impl TAGEStats {
    /// Make the statistics of a predictor with `num_comp` tagged components
    /// that has not run yet.
    pub fn new(num_comp: usize) -> (r: Self)
        ensures
            r@ == StatsView::fresh(num_comp as nat),
            r@.wf(num_comp as nat),
    {
        let r = Self {
            alcs: 0,
            failed_alcs: 0,
            base_miss: 0,
            base_hits: 0,
            comp_miss: vec![0; num_comp],
            comp_hits: vec![0; num_comp],
            resets: 0,
            clk: 0,
        };
        assert(r@.comp_miss =~= StatsView::fresh(num_comp as nat).comp_miss);
        assert(r@.comp_hits =~= StatsView::fresh(num_comp as nat).comp_hits);
        r
    }
}

/// Container for [TAGEEntry](super::component::TAGEEntry) runtime stats.
#[derive(Clone, Debug)]
pub struct TAGEEntryStats {
    /// Number of updates
    pub updates: usize,
    /// Number of invalidations
    pub invalidations: usize,
    /// Set of unique program counter values for branches that were
    /// allocated/tracked in this entry
    pub branches: BTreeSet<usize>,
    /// Number of predictor updates at the last invalidation.
    pub clk: usize,
}

/// What a [`TAGEEntryStats`] holds.
pub struct EntryStatsView {
    pub updates: usize,
    pub invalidations: usize,
    pub branches: Set<usize>,
    pub clk: usize,
}

impl EntryStatsView {
    /// The statistics of an entry that nothing has happened to.
    pub open spec fn fresh() -> EntryStatsView {
        EntryStatsView { updates: 0, invalidations: 0, branches: Set::empty(), clk: 0 }
    }
}

impl View for TAGEEntryStats {
    type V = EntryStatsView;

    open spec fn view(&self) -> EntryStatsView {
        EntryStatsView {
            updates: self.updates,
            invalidations: self.invalidations,
            branches: self.branches@,
            clk: self.clk,
        }
    }
}

impl TAGEEntryStats {
    /// Make the statistics of an entry that nothing has happened to.
    pub fn new() -> (r: Self)
        ensures
            r@ == EntryStatsView::fresh(),
    {
        Self { updates: 0, invalidations: 0, branches: BTreeSet::new(), clk: 0 }
    }

    /// Returns true if no branch was ever allocated in this entry.
    pub fn was_unused(&self) -> (r: bool)
        ensures
            r == self@.branches.is_empty(),
    {
        self.branches.is_empty()
    }

    /// Returns the number of unique branches that were allocated in this
    /// entry.
    pub fn num_aliasing_branches(&self) -> (r: usize)
        ensures
            r == self@.branches.len(),
    {
        self.branches.len()
    }
}

} // verus!
