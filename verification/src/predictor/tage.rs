//! Implementations of a "Tagged GEometric history length" (TAGE) predictor.

use vstd::prelude::*;

pub mod component;
pub mod config;
pub mod laws;
pub mod model;
pub mod preset;
pub mod stat;

use crate::branch::Outcome;
use crate::chance::{lemma_total_weight, weight_of, weighted_index, weights_of};
use crate::history::HistoryRegister;
use crate::predictor::table::{PredictorTable, TaggedPredictorTable};
use crate::predictor::tage::component::{TAGEBaseComponent, TAGEComponent};
use crate::predictor::tage::config::TAGEConfig;
use crate::predictor::tage::model::{
    component_views, lemma_components_update, lemma_index_twice, lemma_mask_twice, TageView,
};
use crate::predictor::tage::stat::{StatsView, TAGEStats};

verus! {

/// Container for inputs passed to a [`TAGEPredictor`] and its components.
#[derive(Clone, Copy, Debug)]
pub struct TAGEInputs {
    /// Program counter associated with a predicted branch
    pub pc: usize,
}

/// Identifies a particular component in a [`TAGEPredictor`].
#[derive(Clone, Copy, Debug, PartialEq, Eq, Structural)]
pub enum TAGEProvider {
    /// The base component
    Base,
    /// A tagged component
    Tagged(usize),
}

/// Container for output from [`TAGEPredictor::predict`], including the
/// predicted outcome and other metadata about how the prediction was made.
#[derive(Clone, Copy, Debug, PartialEq, Eq, Structural)]
pub struct TAGEPrediction {
    /// The component providing the prediction
    pub provider: TAGEProvider,
    /// A predicted direction
    pub outcome: Outcome,
    /// The index identifying the entry used to make this prediction
    pub idx: usize,
    /// The tag matching the entry used to make this prediction
    pub tag: usize,
    /// Alternate component used to provide a prediction
    pub alt_provider: TAGEProvider,
    /// Predicted direction from the alternate component
    pub alt_outcome: Outcome,
    /// The index identifying the entry from the alternate component
    pub alt_idx: usize,
    /// The tag matching the entry from the alternate component
    pub alt_tag: usize,
}

/// The "TAgged GEometric history length" predictor.
///
/// See the following:
///  - "A case for (partially) TAgged GEometric history length branch prediction"
///  (Seznec, 2006).
pub struct TAGEPredictor {
    /// The configuration used to create this object
    pub cfg: TAGEConfig,
    /// Runtime stats
    pub stat: TAGEStats,
    /// Base component
    pub base: TAGEBaseComponent,
    /// Tagged components
    pub comp: Vec<TAGEComponent>,
    /// Counter used to periodically reset all 'useful' counters
    pub reset_ctr: u8,
}

impl View for TAGEPredictor {
    type V = TageView;

    open spec fn view(&self) -> TageView {
        TageView {
            base: self.base@,
            comps: component_views(self.comp@),
            reset_ctr: self.reset_ctr,
            stat: self.stat@,
        }
    }
}

impl TAGEPredictor {
    /// Every table is well formed, as [`TageView::shaped`] asks.
    pub open spec fn shaped(&self) -> bool {
        &&& self@.shaped()
        &&& forall|i: int| 0 <= i < self.comp@.len() ==> (#[trigger] self.comp@[i]).wf()
    }

    /// The state of a predictor that its methods accept and keep.
    pub open spec fn wf(&self) -> bool {
        &&& self@.wf()
        &&& forall|i: int| 0 <= i < self.comp@.len() ==> (#[trigger] self.comp@[i]).wf()
    }

    /// Return the number of tagged components.
    pub fn num_tagged_components(&self) -> (r: usize)
        ensures
            r == self@.comps.len(),
    {
        self.comp.len()
    }

    /// Return the index of the tagged component with the shortest associated
    /// history length.
    pub fn shortest_tagged_component(&self) -> (r: usize)
        requires
            self@.comps.len() > 0,
        ensures
            r == self@.comps.len() - 1,
    {
        self.num_tagged_components() - 1
    }

    /// Access the base component using the provided input.
    fn get_base_entry(&self, input: TAGEInputs) -> (r: (usize, Outcome))
        requires
            self.wf(),
        ensures
            r.0 == self@.base.index(input.pc),
            r.1 == self@.base.counter(input.pc).direction(),
    {
        let idx = self.base.get_index(input);
        let entry = self.base.get_entry(idx);
        proof {
            lemma_mask_twice(input.pc, self@.base);
        }
        (idx, entry.predict())
    }

    /// List the tagged components in which an entry for the branch may be
    /// allocated after `provider` has mispredicted it: those with a longer
    /// history whose entry for the branch has a 'useful' counter of zero.
    pub fn candidates(&self, input: TAGEInputs, provider: TAGEProvider) -> (r: Vec<usize>)
        requires
            self.shaped(),
            self@.provider_ok(provider),
        ensures
            r@ == self@.eligible(input.pc, provider),
    {
        // Get the indexes of all components whose associated history length
        // is longer than the provider.
        let end = match provider {
            TAGEProvider::Base => self.comp.len(),
            TAGEProvider::Tagged(idx) => idx,
        };

        // A component is only eligible when the entry associated with this
        // program counter has its 'useful' bits set to zero.
        let mut candidates: Vec<usize> = Vec::new();
        let mut idx: usize = 0;
        while idx < end
            invariant
                self.shaped(),
                idx <= end <= self.comp@.len(),
                candidates@ == self@.eligible_below(input.pc, idx as int),
            decreases end - idx,
        {
            let index = self.comp[idx].get_index(input);
            let entry = self.comp[idx].get_entry(index);
            proof {
                lemma_index_twice(input.pc, self.comp@[idx as int]@);
            }
            if entry.useful == 0 {
                candidates.push(idx);
            }
            idx = idx + 1;
        }
        candidates
    }

    /// List the weights with which the candidates for an allocation are
    /// drawn: the candidate at position `j` has the weight two to the power
    /// of `j`.
    pub fn candidate_weights(candidates: &Vec<usize>) -> (r: Vec<usize>)
        requires
            forall|i: int| 0 <= i < candidates@.len() ==> #[trigger] candidates@[i] < usize::BITS,
        ensures
            r@.len() == candidates@.len(),
            forall|i: int| 0 <= i < r@.len() ==> #[trigger] r@[i] == weight_of(candidates@[i]),
    {
        let mut weights: Vec<usize> = Vec::new();
        let mut k: usize = 0;
        while k < candidates.len()
            invariant
                k <= candidates@.len(),
                weights@.len() == k,
                forall|i: int|
                    0 <= i < candidates@.len() ==> #[trigger] candidates@[i] < usize::BITS,
                forall|i: int| 0 <= i < k ==> #[trigger] weights@[i] == weight_of(candidates@[i]),
            decreases candidates@.len() - k,
        {
            weights.push(1usize << candidates[k]);
            k = k + 1;
        }
        weights
    }

    /// Choose among the candidates for an allocation with the draw `pick`:
    /// none where there is none, and the only one where there is one.
    pub fn select_candidate(candidates: &Vec<usize>, pick: usize) -> (r: Option<usize>)
        ensures
            r == (if candidates@.len() == 0 {
                None
            } else if candidates@.len() == 1 {
                Some(candidates@[0])
            } else {
                Some(candidates@[pick as int % candidates@.len() as int])
            }),
    {
        // Easy case: we failed allocate a new entry
        if candidates.is_empty() {
            return None;
        }
        // Easy case: there's only a single candidate.
        if candidates.len() == 1 {
            return Some(candidates[0]);
        }
        Some(candidates[pick % candidates.len()])
    }

    /// Given a program counter value and the provider of an incorrect
    /// prediction, select the tagged component that will be used to allocate
    /// a new entry, with `pick` as the draw that chooses among several.
    ///
    /// Returns [None] if we fail to allocate a new entry.
    pub fn allocate_with(&self, input: TAGEInputs, provider: TAGEProvider, pick: usize) -> (r:
        Option<usize>)
        requires
            self.shaped(),
            self@.provider_ok(provider),
        ensures
            r == self@.allocation(input.pc, provider, pick),
    {
        let candidates = self.candidates(input, provider);
        Self::select_candidate(&candidates, pick)
    }

    /// Given a program counter value and the provider of an incorrect
    /// prediction, try to select a tagged component that will be used to
    /// allocate a new entry. Among several candidates one is drawn at
    /// random; the candidate at position `j` has the weight two to the
    /// power of `j`.
    ///
    /// Returns [None] if we fail to allocate a new entry.
    pub fn allocate(&self, input: TAGEInputs, provider: TAGEProvider) -> (r: Option<usize>)
        requires
            self.shaped(),
            self@.provider_ok(provider),
        ensures
            exists|pick: usize| r == self@.allocation(input.pc, provider, pick),
    {
        let candidates = self.candidates(input, provider);
        if candidates.len() < 2 {
            let only = Self::select_candidate(&candidates, 0);
            assert(only == self@.allocation(input.pc, provider, 0));
            return only;
        }
        // Otherwise, we need some strategy for selecting between multiple
        // candidates.
        proof {
            self@.lemma_eligible(input.pc, self@.candidates_end(provider));
        }
        let weights = Self::candidate_weights(&candidates);
        proof {
            assert(weights_of(weights@, candidates@, self@.comps.len()));
            lemma_total_weight(weights@, candidates@, self@.comps.len());
        }
        let pick = weighted_index(&weights);
        let drawn = Self::select_candidate(&candidates, pick);
        assert(drawn == self@.allocation(input.pc, provider, pick));
        drawn
    }

    /// Update the entry in the component that provided the prediction.
    fn train(&mut self, input: TAGEInputs, prediction: TAGEPrediction, outcome: Outcome)
        requires
            old(self).shaped(),
            old(self)@.provider_ok(prediction.provider),
            old(self)@.stat.bounded(old(self)@.stat.clk as int),
            old(self)@.stat.clk < usize::MAX,
        ensures
            final(self)@ == old(self)@.trained(input.pc, prediction, outcome),
            final(self).shaped(),
    {
        let hit = prediction.outcome == outcome;
        match prediction.provider {
            TAGEProvider::Base => {
                let index = self.base.get_index(input);
                proof {
                    lemma_mask_twice(input.pc, self@.base);
                }
                let entry = self.base.get_entry_mut(index);
                entry.update(outcome);
                if hit {
                    self.stat.base_hits = self.stat.base_hits + 1;
                } else {
                    self.stat.base_miss = self.stat.base_miss + 1;
                }
            },
            TAGEProvider::Tagged(idx) => {
                proof {
                    lemma_components_update(self.comp@, idx as int);
                    lemma_index_twice(input.pc, self.comp@[idx as int]@);
                }
                let index = self.comp[idx].get_index(input);
                let entry = self.comp[idx].get_entry_mut(index);

                // Increment when the alternate prediction is incorrect
                if hit && prediction.alt_outcome != outcome {
                    entry.increment_useful();
                }
                entry.ctr.update(outcome);
                if hit {
                    let n = self.stat.comp_hits[idx];
                    self.stat.comp_hits[idx] = n + 1;
                } else {
                    let n = self.stat.comp_miss[idx];
                    self.stat.comp_miss[idx] = n + 1;
                }
            },
        }
    }

    /// Update the predictor to account for a misprediction: train the
    /// provider, then try to allocate a new entry. `pick` is the draw that
    /// chooses among several candidates; without one, a draw is made.
    fn update_incorrect(
        &mut self,
        input: TAGEInputs,
        prediction: TAGEPrediction,
        outcome: Outcome,
        pick: Option<usize>,
    )
        requires
            old(self).wf(),
            old(self)@.provider_ok(prediction.provider),
            old(self)@.stat.clk < usize::MAX,
        ensures
            exists|drawn: usize|
                {
                    &&& pick matches Some(given) ==> drawn == given
                    &&& #[trigger] final(self)@.same_as_settled(
                        old(self)@,
                        input.pc,
                        prediction,
                        outcome,
                        drawn,
                    )
                },
            final(self).shaped(),
    {
        // Update the entry in the component that provided the prediction
        self.train(input, prediction, outcome);

        // Try to allocate a new entry.
        // If we've succeeded, initialize the new entry with the correct
        // outcome [in the weakest state] and reset the 'useful' counter.
        //
        // All allocation attempts are tracked with an 8-bit counter which is
        // incremented on success and decremented on failure.
        // When this counter saturates, we reset the state of all 'useful'
        // counters in an attempt to free up some entries.
        let ghost trained = self@;
        let ghost drawn: usize;
        let choice = match pick {
            Some(given) => {
                proof {
                    drawn = given;
                }
                self.allocate_with(input, prediction.provider, given)
            },
            None => {
                let choice = self.allocate(input, prediction.provider);
                proof {
                    drawn = choose|p: usize|
                        choice == trained.allocation(input.pc, prediction.provider, p);
                }
                choice
            },
        };
        proof {
            trained.lemma_eligible(input.pc, trained.candidates_end(prediction.provider));
            old(self)@.lemma_trained_invalidations(input.pc, prediction, outcome);
        }
        self.install(input, choice, outcome);
        assert(self@.same_as_settled(old(self)@, input.pc, prediction, outcome, drawn));
    }

    /// Carry out the choice that an attempt at an allocation has made: a
    /// new entry in the chosen component, or none.
    fn install(&mut self, input: TAGEInputs, choice: Option<usize>, outcome: Outcome)
        requires
            old(self).shaped(),
            choice matches Some(idx) ==> idx < old(self)@.comps.len(),
            old(self)@.stat.alcs < usize::MAX,
            old(self)@.stat.failed_alcs < usize::MAX,
            old(self)@.invalidations_bounded(),
            old(self)@.stat.clk < usize::MAX,
        ensures
            final(self)@ == old(self)@.allocated(input.pc, choice, outcome),
            final(self).shaped(),
    {
        if let Some(idx) = choice {
            proof {
                lemma_components_update(self.comp@, idx as int);
                lemma_index_twice(input.pc, self.comp@[idx as int]@);
                self.comp@[idx as int]@.lemma_index_in_range(input.pc);
            }
            let new_index = self.comp[idx].get_index(input);
            let new_tag = self.comp[idx].get_tag(input);
            let clk = self.stat.clk;
            let new_entry = self.comp[idx].get_entry_mut(new_index);
            assert(new_entry@.stat.invalidations <= clk);
            new_entry.invalidate(clk);
            new_entry.tag = Some(new_tag);
            new_entry.useful = 0;
            new_entry.ctr.set_direction(outcome);
            new_entry.ctr.set_strength(0);

            new_entry.stat.branches.insert(input.pc);
            self.stat.alcs = self.stat.alcs + 1;
            self.reset_ctr = self.reset_ctr.saturating_add(1);
        } else {
            self.stat.failed_alcs = self.stat.failed_alcs + 1;
            self.reset_ctr = self.reset_ctr.saturating_sub(1);
        }
    }

    /// Reset *all* of the 'useful' counters across all tagged components,
    /// when the reset counter stands at its greatest value.
    fn age(&mut self)
        requires
            old(self).shaped(),
            old(self)@.stat.resets < usize::MAX,
        ensures
            final(self)@ == old(self)@.aged(),
            final(self).shaped(),
    {
        if self.reset_ctr == u8::MAX {
            self.reset_ctr = 0;
            self.stat.resets = self.stat.resets + 1;
            let n = self.comp.len();
            let mut i: usize = 0;
            while i < n
                invariant
                    i <= n,
                    n == self.comp@.len(),
                    n == old(self).comp@.len(),
                    self.base == old(self).base,
                    self.stat@ == (StatsView {
                        resets: (old(self)@.stat.resets + 1) as usize,
                        ..old(self)@.stat
                    }),
                    self.reset_ctr == 0,
                    old(self).shaped(),
                    forall|j: int|
                        0 <= j < i ==> {
                            &&& (#[trigger] self.comp@[j])@ == old(self).comp@[j]@.useless()
                            &&& self.comp@[j].wf()
                        },
                    forall|j: int| i <= j < n ==> #[trigger] self.comp@[j] == old(self).comp@[j],
                decreases n - i,
            {
                self.comp[i].reset_useful_bits();
                i = i + 1;
            }
            assert(self@.comps =~= old(self)@.aged().comps);
        }
    }

    /// Update the predictor to account for a correct prediction.
    fn update_correct(&mut self, input: TAGEInputs, prediction: TAGEPrediction, outcome: Outcome)
        requires
            old(self).wf(),
            old(self)@.provider_ok(prediction.provider),
            old(self)@.stat.clk < usize::MAX,
            prediction.outcome == outcome,
        ensures
            final(self)@ == old(self)@.trained(input.pc, prediction, outcome),
            final(self).shaped(),
    {
        self.train(input, prediction, outcome);
    }

    /// Periodically reset *all* of the 'useful' counters across all tagged
    /// components, and count the update.
    fn finish_update(&mut self)
        requires
            old(self).shaped(),
            old(self)@.stat.resets < usize::MAX,
            old(self)@.stat.clk < usize::MAX,
        ensures
            final(self)@ == old(self)@.aged().ticked(),
            final(self).shaped(),
    {
        self.age();
        self.stat.clk = self.stat.clk + 1;
    }

    /// Given a particular prediction and the resolved outcome, update the
    /// state of the predictor. `pick` is the draw that chooses among several
    /// candidates for an allocation.
    pub fn update_with(
        &mut self,
        input: TAGEInputs,
        prediction: TAGEPrediction,
        outcome: Outcome,
        pick: usize,
    )
        requires
            old(self).wf(),
            old(self)@.provider_ok(prediction.provider),
            old(self)@.stat.clk < usize::MAX,
        ensures
            final(self)@ == old(self)@.updated(input.pc, prediction, outcome, pick),
            final(self).wf(),
            forall|len: nat| #[trigger] old(self)@.fits(len) ==> final(self)@.fits(len),
    {
        proof {
            self@.lemma_updated_wf(input.pc, prediction, outcome, pick);
            self@.lemma_trained_wf(input.pc, prediction, outcome);
            self@.lemma_updated_fits(input.pc, prediction, outcome, pick);
        }
        if prediction.outcome != outcome {
            self.update_incorrect(input, prediction, outcome, Some(pick));
        } else {
            self.update_correct(input, prediction, outcome);
        }
        self.finish_update();
    }

    /// Given a particular prediction and the resolved outcome, update the
    /// state of the predictor. Where an allocation has several candidates,
    /// one is drawn at random.
    pub fn update(&mut self, input: TAGEInputs, prediction: TAGEPrediction, outcome: Outcome)
        requires
            old(self).wf(),
            old(self)@.provider_ok(prediction.provider),
            old(self)@.stat.clk < usize::MAX,
        ensures
            exists|pick: usize| #[trigger]
                final(self)@ == old(self)@.updated(input.pc, prediction, outcome, pick),
            final(self).wf(),
            forall|len: nat| #[trigger] old(self)@.fits(len) ==> final(self)@.fits(len),
    {
        proof {
            self@.lemma_trained_wf(input.pc, prediction, outcome);
        }
        if prediction.outcome != outcome {
            self.update_incorrect(input, prediction, outcome, None);
            let ghost drawn = choose|drawn: usize| #[trigger]
                self@.same_as_settled(old(self)@, input.pc, prediction, outcome, drawn);
            self.finish_update();
            proof {
                old(self)@.lemma_updated_wf(input.pc, prediction, outcome, drawn);
                old(self)@.lemma_updated_fits(input.pc, prediction, outcome, drawn);
                assert(self@ == old(self)@.updated(input.pc, prediction, outcome, drawn));
            }
        } else {
            self.update_correct(input, prediction, outcome);
            self.finish_update();
            proof {
                old(self)@.lemma_updated_wf(input.pc, prediction, outcome, 0);
                old(self)@.lemma_updated_fits(input.pc, prediction, outcome, 0);
                assert(self@ == old(self)@.updated(input.pc, prediction, outcome, 0));
            }
        }
    }

    /// Given some reference to a [`HistoryRegister`], fold the window of
    /// history of each tagged component from scratch. This is the way to
    /// take up a history that has moved on by more than one bit.
    pub fn refold_history(&mut self, ghr: &HistoryRegister)
        requires
            old(self).wf(),
            old(self)@.fits(ghr@.len()),
        ensures
            final(self)@.refolded_from(old(self)@, ghr@),
            final(self).wf(),
    {
        let n = self.comp.len();
        let mut i: usize = 0;
        while i < n
            invariant
                i <= n,
                n == self.comp@.len(),
                n == old(self).comp@.len(),
                self.base == old(self).base,
                self.stat == old(self).stat,
                self.reset_ctr == old(self).reset_ctr,
                old(self).wf(),
                old(self)@.fits(ghr@.len()),
                forall|j: int|
                    0 <= j < i ==> {
                        &&& (#[trigger] self.comp@[j])@.refolded_from(old(self).comp@[j]@, ghr@)
                        &&& self.comp@[j].wf()
                    },
                forall|j: int| i <= j < n ==> #[trigger] self.comp@[j] == old(self).comp@[j],
            decreases n - i,
        {
            assert(old(self)@.comps[i as int].hi < ghr@.len());
            assert(old(self)@.comps[i as int].wf());
            self.comp[i].csr.refold(ghr);
            i = i + 1;
        }
        proof {
            let before = old(self)@;
            let after = self@;
            assert forall|i: int| 0 <= i < after.comps.len() implies (#[trigger] after.comps[i]).wf() by {
                assert(self.comp@[i]@.refolded_from(old(self).comp@[i]@, ghr@));
                assert(before.comps[i].wf());
            }
            assert forall|i: int, j: int| 0 <= i <= j < after.comps.len() implies (
            #[trigger] after.comps[i]).history_len() >= (#[trigger] after.comps[j]).history_len() by {
                assert(self.comp@[i]@.refolded_from(old(self).comp@[i]@, ghr@));
                assert(self.comp@[j]@.refolded_from(old(self).comp@[j]@, ghr@));
                assert(before.comps[i].history_len() >= before.comps[j].history_len());
            }
            assert forall|i: int, j: int|
                0 <= i < after.comps.len() && 0 <= j < after.comps[i].entries.len() implies (
            #[trigger] after.comps[i].entries[j]).stat.invalidations <= after.stat.clk by {
                assert(self.comp@[i]@.refolded_from(old(self).comp@[i]@, ghr@));
                assert(before.comps[i].entries[j].stat.invalidations <= before.stat.clk);
            }
            assert forall|i: int| 0 <= i < before.comps.len() implies (
            #[trigger] after.comps[i]).refolded_from(before.comps[i], ghr@) by {
                assert(self.comp@[i]@.refolded_from(old(self).comp@[i]@, ghr@));
            }
        }
    }

    /// Tell whether `provider` names a component of this predictor, as it
    /// does in every prediction that this predictor has made.
    pub fn has_provider(&self, provider: TAGEProvider) -> (r: bool)
        ensures
            r == self@.provider_ok(provider),
    {
        match provider {
            TAGEProvider::Base => true,
            TAGEProvider::Tagged(idx) => idx < self.comp.len(),
        }
    }

    /// Tell whether every tagged component folds a window of history that
    /// lies inside a register of `len` bits.
    pub fn fits_history(&self, len: usize) -> (r: bool)
        ensures
            r == self@.fits(len as nat),
    {
        let n = self.comp.len();
        let mut i: usize = 0;
        while i < n
            invariant
                i <= n,
                n == self.comp@.len(),
                forall|j: int| 0 <= j < i ==> (#[trigger] self@.comps[j]).hi < len,
            decreases n - i,
        {
            if self.comp[i].csr.window().1 >= len {
                assert(!(self@.comps[i as int].hi < len));
                return false;
            }
            i = i + 1;
        }
        true
    }

    /// Given some reference to a [`HistoryRegister`], update the state
    /// of the folded history register in each tagged component.
    pub fn update_history(&mut self, ghr: &HistoryRegister)
        requires
            old(self).wf(),
            old(self)@.fits(ghr@.len()),
        ensures
            final(self)@ == old(self)@.with_history(ghr@),
            final(self).wf(),
            final(self)@.fits(ghr@.len()),
    {
        let n = self.comp.len();
        let mut i: usize = 0;
        while i < n
            invariant
                i <= n,
                n == self.comp@.len(),
                n == old(self).comp@.len(),
                self.base == old(self).base,
                self.stat == old(self).stat,
                self.reset_ctr == old(self).reset_ctr,
                old(self).wf(),
                old(self)@.fits(ghr@.len()),
                forall|j: int|
                    0 <= j < i ==> {
                        &&& (#[trigger] self.comp@[j])@ == old(self).comp@[j]@.with_csr(
                            old(self).comp@[j]@.stepped(ghr@),
                        )
                        &&& self.comp@[j].wf()
                    },
                forall|j: int| i <= j < n ==> #[trigger] self.comp@[j] == old(self).comp@[j],
            decreases n - i,
        {
            assert(old(self)@.comps[i as int].hi < ghr@.len());
            self.comp[i].csr.update(ghr);
            i = i + 1;
        }
        assert(self@.comps =~= old(self)@.with_history(ghr@).comps);
        proof {
            old(self)@.lemma_history_wf(ghr@);
        }
    }

    /// Make a prediction for the provided input.
    pub fn predict(&self, input: TAGEInputs) -> (r: TAGEPrediction)
        requires
            self.wf(),
        ensures
            r == self@.predict(input.pc),
            self@.provider_ok(r.provider),
    {
        proof {
            self@.lemma_first_hit(input.pc, 0);
        }
        // The base component provides the default predicted outcome
        // for cases where we miss in all tagged components
        let (base_idx, default_outcome) = self.get_base_entry(input);
        let mut result = TAGEPrediction {
            provider: TAGEProvider::Base,
            outcome: default_outcome,
            idx: base_idx,
            tag: 0,
            alt_provider: TAGEProvider::Base,
            alt_outcome: default_outcome,
            alt_idx: base_idx,
            alt_tag: 0,
        };

        // Find the longest-length tagged component that yields a match
        let n = self.comp.len();
        let mut comp_idx: usize = 0;
        while comp_idx < n
            invariant_except_break
                result == self@.base_prediction(input.pc),
                self@.first_hit(input.pc, 0) == self@.first_hit(input.pc, comp_idx as int),
            invariant
                self.wf(),
                n == self.comp@.len(),
                comp_idx <= n,
            ensures
                result == self@.predict(input.pc),
            decreases n - comp_idx,
        {
            let component = &self.comp[comp_idx];
            let entry_idx = component.get_index(input);
            let tag = component.get_tag(input);
            let entry = component.get_entry(entry_idx);
            proof {
                lemma_index_twice(input.pc, component@);
            }
            if entry.tag_matches(tag) {
                result.alt_provider = result.provider;
                result.alt_outcome = result.outcome;
                result.alt_idx = result.idx;
                result.alt_tag = result.tag;

                result.provider = TAGEProvider::Tagged(comp_idx);
                result.outcome = entry.predict();
                result.idx = entry_idx;
                result.tag = tag;
                break ;
            }
            comp_idx = comp_idx + 1;
        }
        result
    }
}

} // verus!
