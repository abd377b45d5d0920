//! Implementations of a pattern history table (PHT).

use vstd::prelude::*;

use crate::predictor::counter::{SaturatingCounter, SaturatingCounterConfig};
use crate::predictor::table::{is_table_size, lemma_masked_index, IndexStrategy, PredictorTable};

verus! {

/// A table of [SaturatingCounter] indexed by the program counter.
pub struct SimplePHT {
    /// Saturating counter configuration
    cfg: SaturatingCounterConfig,
    /// Table of counters
    data: Vec<SaturatingCounter>,
    /// Number of entries
    size: usize,
    /// Strategy for indexing into the table
    index_strat: IndexStrategy,
}

impl SimplePHT {
    /// The counters of the table.
    pub closed spec fn counters(&self) -> Seq<SaturatingCounter> {
        self.data@
    }

    /// The number of entries that the table was made with.
    pub closed spec fn entries(&self) -> usize {
        self.size
    }

    /// The strategy for indexing into the table.
    pub closed spec fn strategy(&self) -> IndexStrategy {
        self.index_strat
    }

    /// The index of the counter for the branch at `pc`. The table has no
    /// history: it hashes as a table whose folded history reads zero.
    pub open spec fn index(&self, pc: usize) -> usize {
        self.strategy().raw(pc, 0) & (self.entries() - 1) as usize
    }

    /// The table has a power of two of counters.
    pub open spec fn wf(&self) -> bool {
        &&& self.counters().len() == self.entries()
        &&& is_table_size(self.entries())
    }

    /// Make a table of `size` counters as `cfg` builds them.
    pub fn new(size: usize, index_strat: IndexStrategy, cfg: SaturatingCounterConfig) -> (r: Self)
        ensures
            r.entries() == size,
            r.strategy() == index_strat,
            r.counters() == Seq::new(size as nat, |i: int| cfg.built()),
            is_table_size(size) ==> r.wf(),
    {
        let data = vec![cfg.build(); size];
        assert(data@ =~= Seq::new(size as nat, |i: int| cfg.built()));
        Self { cfg, data, size, index_strat }
    }
}

impl PredictorTable for SimplePHT {
    type Input = usize;

    type Index = usize;

    type Entry = SaturatingCounter;

    open spec fn table_wf(&self) -> bool {
        self.wf()
    }

    open spec fn table_size(&self) -> usize {
        self.entries()
    }

    fn size(&self) -> (r: usize) {
        self.size
    }

    fn get_index(&self, pc: usize) -> (r: usize)
        ensures
            r == self.index(pc),
            r < self.entries(),
    {
        let res = match self.index_strat {
            IndexStrategy::FromPc => pc,
            IndexStrategy::FromPcAndHistory => pc ^ 0,
        };
        proof {
            lemma_masked_index(res, self.size);
        }
        res & self.index_mask()
    }

    fn get_entry(&self, idx: usize) -> (r: &SaturatingCounter)
        ensures
            *r == self.counters()[(idx & (self.entries() - 1) as usize) as int],
    {
        let index = idx & self.index_mask();
        proof {
            lemma_masked_index(idx, self.size);
        }
        &self.data[index]
    }

    fn get_entry_mut(&mut self, idx: usize) -> (r: &mut SaturatingCounter)
        ensures
            *r == old(self).counters()[(idx & (old(self).entries() - 1) as usize) as int],
            final(self).counters() == old(self).counters().update(
                (idx & (old(self).entries() - 1) as usize) as int,
                *final(r),
            ),
            final(self).entries() == old(self).entries(),
            final(self).strategy() == old(self).strategy(),
            final(self).wf(),
    {
        let index = idx & self.index_mask();
        proof {
            lemma_masked_index(idx, self.size);
        }
        &mut self.data[index]
    }
}

} // verus!
