//! What a TAGE predictor holds, and what becomes of it: the predictor as a
//! value, and predictions, allocations and updates as functions of it.

use vstd::prelude::*;

use crate::branch::Outcome;
use crate::predictor::tage::component::{BaseView, ComponentView, TAGEComponent};
use crate::predictor::tage::stat::StatsView;
use crate::predictor::tage::{TAGEPrediction, TAGEProvider};

verus! {

/// The views of a list of tagged components.
pub open spec fn component_views(comps: Seq<TAGEComponent>) -> Seq<ComponentView> {
    comps.map_values(|c: TAGEComponent| c@)
}

/// Replacing one component of a list replaces its view among the views.
pub proof fn lemma_components_update(comps: Seq<TAGEComponent>, idx: int)
    requires
        0 <= idx < comps.len(),
    ensures
        forall|c: TAGEComponent| #[trigger]
            component_views(comps.update(idx, c)) == component_views(comps).update(idx, c@),
{
    assert forall|c: TAGEComponent| #[trigger]
        component_views(comps.update(idx, c)) == component_views(comps).update(idx, c@) by {
        assert(component_views(comps.update(idx, c)) =~= component_views(comps).update(idx, c@));
    }
}

/// What a [`TAGEPredictor`] holds.
pub struct TageView {
    /// The base component
    pub base: BaseView,
    /// The tagged components, the one with the longest history first
    pub comps: Seq<ComponentView>,
    /// Counter used to periodically reset all 'useful' counters
    pub reset_ctr: u8,
    /// Runtime stats
    pub stat: StatsView,
}

impl TageView {
    /// The tagged components stand in the order of their history lengths,
    /// the longest first.
    pub open spec fn longest_first(self) -> bool {
        forall|i: int, j: int|
            0 <= i <= j < self.comps.len() ==> (#[trigger] self.comps[i]).history_len() >= (
            #[trigger] self.comps[j]).history_len()
    }

    /// No entry has been invalidated more often than the predictor was
    /// updated.
    pub open spec fn invalidations_bounded(self) -> bool {
        forall|i: int, j: int|
            0 <= i < self.comps.len() && 0 <= j < self.comps[i].entries.len() ==> (
            #[trigger] self.comps[i].entries[j]).stat.invalidations <= self.stat.clk
    }

    /// Every table is well formed, there are no more tagged components than
    /// a machine word has bits, and the statistics count as many.
    pub open spec fn shaped(self) -> bool {
        &&& self.base.wf()
        &&& self.comps.len() <= usize::BITS
        &&& forall|i: int| 0 <= i < self.comps.len() ==> (#[trigger] self.comps[i]).wf()
        &&& self.stat.shaped(self.comps.len())
    }

    /// The state of a predictor that its methods accept and keep.
    pub open spec fn wf(self) -> bool {
        &&& self.shaped()
        &&& self.longest_first()
        &&& self.stat.bounded(self.stat.clk as int)
        &&& self.invalidations_bounded()
    }

    /// Whether `provider` names a component of this predictor.
    pub open spec fn provider_ok(self, provider: TAGEProvider) -> bool {
        match provider {
            TAGEProvider::Base => true,
            TAGEProvider::Tagged(i) => i < self.comps.len(),
        }
    }

    /// The number of tagged components with a longer history than
    /// `provider`: they stand before it.
    pub open spec fn candidates_end(self, provider: TAGEProvider) -> int {
        match provider {
            TAGEProvider::Base => self.comps.len() as int,
            TAGEProvider::Tagged(i) => i as int,
        }
    }

    /// The positions below `end` of the tagged components whose entry for
    /// the branch at `pc` has a 'useful' counter of zero, in rising order.
    pub open spec fn eligible_below(self, pc: usize, end: int) -> Seq<usize>
        decreases end,
    {
        if end <= 0 {
            Seq::empty()
        } else if self.comps[end - 1].entry(pc).useful == 0 {
            self.eligible_below(pc, end - 1).push((end - 1) as usize)
        } else {
            self.eligible_below(pc, end - 1)
        }
    }

    /// The positions of the tagged components in which a new entry for the
    /// branch at `pc` may be allocated after `provider` has mispredicted it.
    pub open spec fn eligible(self, pc: usize, provider: TAGEProvider) -> Seq<usize> {
        self.eligible_below(pc, self.candidates_end(provider))
    }

    /// The tagged component in which a new entry is allocated, for the draw
    /// `pick`: none where none is eligible, and the only one where one is.
    pub open spec fn allocation(self, pc: usize, provider: TAGEProvider, pick: usize) -> Option<
        usize,
    > {
        let eligible = self.eligible(pc, provider);
        if eligible.len() == 0 {
            None
        } else if eligible.len() == 1 {
            Some(eligible[0])
        } else {
            Some(eligible[pick as int % eligible.len() as int])
        }
    }

    /// The predictor after the entry that provided `prediction` for the
    /// branch at `pc` has learnt that the branch went the way of `outcome`:
    /// the entry's counter is updated. Where a tagged component was right
    /// and its alternate would have been wrong, the entry's 'useful' counter
    /// goes up first. The statistics count a hit or a miss for the provider.
    pub open spec fn trained(self, pc: usize, prediction: TAGEPrediction, outcome: Outcome)
        -> TageView {
        let hit = prediction.outcome == outcome;
        match prediction.provider {
            TAGEProvider::Base => TageView {
                base: self.base.updated(pc, outcome),
                stat: if hit {
                    StatsView { base_hits: (self.stat.base_hits + 1) as usize, ..self.stat }
                } else {
                    StatsView { base_miss: (self.stat.base_miss + 1) as usize, ..self.stat }
                },
                ..self
            },
            TAGEProvider::Tagged(i) => {
                let comp = self.comps[i as int];
                let entry = comp.entry(pc);
                let rewarded = if hit && prediction.alt_outcome != outcome {
                    entry.useful_incremented()
                } else {
                    entry
                };
                TageView {
                    comps: self.comps.update(
                        i as int,
                        comp.with_entry(comp.index(pc) as int, rewarded.counted(outcome)),
                    ),
                    stat: if hit {
                        StatsView {
                            comp_hits: self.stat.comp_hits.update(
                                i as int,
                                (self.stat.comp_hits[i as int] + 1) as usize,
                            ),
                            ..self.stat
                        }
                    } else {
                        StatsView {
                            comp_miss: self.stat.comp_miss.update(
                                i as int,
                                (self.stat.comp_miss[i as int] + 1) as usize,
                            ),
                            ..self.stat
                        }
                    },
                    ..self
                }
            },
        }
    }

    /// The predictor after an attempt to allocate an entry for the branch
    /// at `pc`, which has gone the way of `outcome`. Where the attempt chose
    /// the tagged component at `j`, the entry for the branch in it is
    /// allocated anew and the reset counter goes up; where it chose none,
    /// the reset counter goes down. The reset counter stays where it is at
    /// either end of its range.
    pub open spec fn allocated(self, pc: usize, choice: Option<usize>, outcome: Outcome)
        -> TageView {
        match choice {
            Some(j) => {
                let comp = self.comps[j as int];
                TageView {
                    comps: self.comps.update(
                        j as int,
                        comp.with_entry(
                            comp.index(pc) as int,
                            comp.entry(pc).allocated(comp.tag(pc), outcome, pc, self.stat.clk),
                        ),
                    ),
                    stat: StatsView { alcs: (self.stat.alcs + 1) as usize, ..self.stat },
                    reset_ctr: if self.reset_ctr < 255 {
                        (self.reset_ctr + 1) as u8
                    } else {
                        255
                    },
                    ..self
                }
            },
            None => TageView {
                stat: StatsView { failed_alcs: (self.stat.failed_alcs + 1) as usize, ..self.stat },
                reset_ctr: if self.reset_ctr > 0 {
                    (self.reset_ctr - 1) as u8
                } else {
                    0
                },
                ..self
            },
        }
    }

    /// The predictor after its periodic reset has had its turn: where the
    /// reset counter stands at its greatest value, it goes back to zero and
    /// the 'useful' counter of every entry with it.
    pub open spec fn aged(self) -> TageView {
        if self.reset_ctr == 255 {
            TageView {
                comps: Seq::new(self.comps.len(), |i: int| self.comps[i].useless()),
                reset_ctr: 0,
                stat: StatsView { resets: (self.stat.resets + 1) as usize, ..self.stat },
                ..self
            }
        } else {
            self
        }
    }

    /// The predictor with one more update on its clock.
    pub open spec fn ticked(self) -> TageView {
        TageView { stat: StatsView { clk: (self.stat.clk + 1) as usize, ..self.stat }, ..self }
    }

    /// The predictor after it has learnt that the branch at `pc`, for which
    /// it had made `prediction`, went the way of `outcome`. The provider of
    /// the prediction is trained. After a misprediction an entry is
    /// allocated in a tagged component with a longer history, if one is
    /// eligible; `pick` is the draw that chooses among several. Then the
    /// periodic reset has its turn, and the clock goes on.
    pub open spec fn updated(
        self,
        pc: usize,
        prediction: TAGEPrediction,
        outcome: Outcome,
        pick: usize,
    ) -> TageView {
        let trained = self.trained(pc, prediction, outcome);
        let settled = if prediction.outcome != outcome {
            trained.allocated(
                pc,
                trained.allocation(pc, prediction.provider, pick),
                outcome,
            )
        } else {
            trained
        };
        settled.aged().ticked()
    }

    /// The position of the first tagged component, from `from` on, that
    /// holds an entry for the context of the branch at `pc`.
    pub open spec fn first_hit(self, pc: usize, from: int) -> Option<int>
        decreases self.comps.len() - from,
    {
        if from < 0 || from >= self.comps.len() {
            None
        } else if self.comps[from].hits(pc) {
            Some(from)
        } else {
            self.first_hit(pc, from + 1)
        }
    }

    /// The prediction for the branch at `pc`, when the base component alone
    /// provides it.
    pub open spec fn base_prediction(self, pc: usize) -> TAGEPrediction {
        TAGEPrediction {
            provider: TAGEProvider::Base,
            outcome: self.base.counter(pc).direction(),
            idx: self.base.index(pc),
            tag: 0,
            alt_provider: TAGEProvider::Base,
            alt_outcome: self.base.counter(pc).direction(),
            alt_idx: self.base.index(pc),
            alt_tag: 0,
        }
    }

    /// The prediction for the branch at `pc`. The first tagged component
    /// that holds an entry for the branch's context provides it; its
    /// alternate is the base component. Where no tagged component holds
    /// such an entry, the base component is both.
    pub open spec fn predict(self, pc: usize) -> TAGEPrediction {
        match self.first_hit(pc, 0) {
            None => self.base_prediction(pc),
            Some(i) => TAGEPrediction {
                provider: TAGEProvider::Tagged(i as usize),
                outcome: self.comps[i].entry(pc).predict(),
                idx: self.comps[i].index(pc),
                tag: self.comps[i].tag(pc),
                ..self.base_prediction(pc)
            },
        }
    }

    /// Every tagged component folds a window of history that lies inside a
    /// register of `len` bits.
    pub open spec fn fits(self, len: nat) -> bool {
        forall|i: int| 0 <= i < self.comps.len() ==> (#[trigger] self.comps[i]).hi < len
    }

    /// The predictor after every tagged component has taken up the history
    /// in `ghr`, which has just moved on by one bit.
    pub open spec fn with_history(self, ghr: Seq<bool>) -> TageView {
        TageView {
            comps: Seq::new(
                self.comps.len(),
                |i: int| self.comps[i].with_csr(self.comps[i].stepped(ghr)),
            ),
            ..self
        }
    }

    /// This predictor is `before` with the folded history of every tagged
    /// component folded from scratch out of `ghr`.
    pub open spec fn refolded_from(self, before: TageView, ghr: Seq<bool>) -> bool {
        &&& self.base == before.base
        &&& self.reset_ctr == before.reset_ctr
        &&& self.stat == before.stat
        &&& self.comps.len() == before.comps.len()
        &&& forall|i: int|
            0 <= i < before.comps.len() ==> (#[trigger] self.comps[i]).refolded_from(
                before.comps[i],
                ghr,
            )
    }

    /// Taking up history keeps the predictor well formed.
    pub proof fn lemma_history_wf(self, ghr: Seq<bool>)
        requires
            self.wf(),
        ensures
            self.with_history(ghr).wf(),
    {
        let after = self.with_history(ghr);
        assert forall|i: int| 0 <= i < after.comps.len() implies (#[trigger] after.comps[i]).wf() by {
            assert(self.comps[i].wf());
        }
        assert forall|i: int, j: int| 0 <= i <= j < after.comps.len() implies (
        #[trigger] after.comps[i]).history_len() >= (#[trigger] after.comps[j]).history_len() by {
            assert(after.comps[i].history_len() == self.comps[i].history_len());
            assert(after.comps[j].history_len() == self.comps[j].history_len());
        }
        assert forall|i: int, j: int|
            0 <= i < after.comps.len() && 0 <= j < after.comps[i].entries.len() implies (
        #[trigger] after.comps[i].entries[j]).stat.invalidations <= after.stat.clk by {
            assert(self.comps[i].entries[j].stat.invalidations <= self.stat.clk);
        }
    }

    /// This predictor is what `before` has become after the provider of a
    /// misprediction was trained and an allocation was attempted with the
    /// draw `pick`.
    pub open spec fn same_as_settled(
        self,
        before: TageView,
        pc: usize,
        prediction: TAGEPrediction,
        outcome: Outcome,
        pick: usize,
    ) -> bool {
        let trained = before.trained(pc, prediction, outcome);
        self == trained.allocated(
            pc,
            trained.allocation(pc, prediction.provider, pick),
            outcome,
        )
    }

    /// Training the provider keeps a well-formed predictor in shape and its
    /// tagged components in their order, and sets no count ahead of the
    /// next tick of the clock.
    pub proof fn lemma_trained_wf(self, pc: usize, prediction: TAGEPrediction, outcome: Outcome)
        requires
            self.wf(),
            self.provider_ok(prediction.provider),
            self.stat.clk < usize::MAX,
        ensures
            self.trained(pc, prediction, outcome).shaped(),
            self.trained(pc, prediction, outcome).longest_first(),
            self.trained(pc, prediction, outcome).stat.bounded(self.stat.clk + 1),
            self.trained(pc, prediction, outcome).invalidations_bounded(),
            self.trained(pc, prediction, outcome).stat.clk == self.stat.clk,
            self.trained(pc, prediction, outcome).comps.len() == self.comps.len(),
            self.trained(pc, prediction, outcome).reset_ctr == self.reset_ctr,
    {
        let after = self.trained(pc, prediction, outcome);
        self.lemma_trained_invalidations(pc, prediction, outcome);
        match prediction.provider {
            TAGEProvider::Base => {
                self.base.lemma_index_in_range(pc);
                self.base.counter(pc).lemma_wf_kept(outcome, 0);
                assert(after.base.wf());
                assert(after.comps == self.comps);
            },
            TAGEProvider::Tagged(p) => {
                let comp = self.comps[p as int];
                comp.lemma_index_in_range(pc);
                let entry = comp.entry(pc);
                entry.ctr.lemma_wf_kept(outcome, 0);
                assert(entry.wf());
                assert(after.comps[p as int].wf());
                assert forall|i: int| 0 <= i < after.comps.len() implies (
                #[trigger] after.comps[i]).wf() by {
                    if i != p {
                        assert(after.comps[i] == self.comps[i]);
                    }
                }
                assert forall|i: int, j: int| 0 <= i <= j < after.comps.len() implies (
                #[trigger] after.comps[i]).history_len() >= (
                #[trigger] after.comps[j]).history_len() by {
                    assert(after.comps[i].history_len() == self.comps[i].history_len());
                    assert(after.comps[j].history_len() == self.comps[j].history_len());
                }
            },
        }
    }

    /// An allocation keeps a predictor in shape and its tagged components
    /// in their order, and sets no count ahead of the next tick of the
    /// clock.
    pub proof fn lemma_allocated_wf(self, pc: usize, choice: Option<usize>, outcome: Outcome)
        requires
            self.shaped(),
            self.longest_first(),
            self.invalidations_bounded(),
            self.stat.clk < usize::MAX,
            self.stat.bounded(self.stat.clk + 1),
            self.stat.alcs <= self.stat.clk,
            self.stat.failed_alcs <= self.stat.clk,
            choice matches Some(j) ==> j < self.comps.len(),
        ensures
            self.allocated(pc, choice, outcome).shaped(),
            self.allocated(pc, choice, outcome).longest_first(),
            self.allocated(pc, choice, outcome).stat.bounded(self.stat.clk + 1),
            self.allocated(pc, choice, outcome).stat.clk == self.stat.clk,
            forall|i: int, j: int|
                0 <= i < self.allocated(pc, choice, outcome).comps.len() && 0 <= j
                    < self.allocated(pc, choice, outcome).comps[i].entries.len() ==> (
                #[trigger] self.allocated(pc, choice, outcome).comps[i].entries[j]).stat.invalidations
                    <= self.stat.clk + 1,
    {
        let after = self.allocated(pc, choice, outcome);
        match choice {
            None => {
                assert(after.comps == self.comps);
                assert forall|i: int, j: int|
                    0 <= i < after.comps.len() && 0 <= j < after.comps[i].entries.len() implies (
                #[trigger] after.comps[i].entries[j]).stat.invalidations <= self.stat.clk + 1 by {
                    assert(self.comps[i].entries[j].stat.invalidations <= self.stat.clk);
                }
            },
            Some(c) => {
                let comp = self.comps[c as int];
                comp.lemma_index_in_range(pc);
                let entry = comp.entry(pc);
                entry.ctr.lemma_wf_kept(outcome, 0);
                entry.ctr.cleared().lemma_wf_kept(outcome, 0);
                assert(entry.stat.invalidations <= self.stat.clk);
                assert(after.comps[c as int].wf());
                assert forall|i: int| 0 <= i < after.comps.len() implies (
                #[trigger] after.comps[i]).wf() by {
                    if i != c {
                        assert(after.comps[i] == self.comps[i]);
                    }
                }
                assert forall|i: int, j: int| 0 <= i <= j < after.comps.len() implies (
                #[trigger] after.comps[i]).history_len() >= (
                #[trigger] after.comps[j]).history_len() by {
                    assert(after.comps[i].history_len() == self.comps[i].history_len());
                    assert(after.comps[j].history_len() == self.comps[j].history_len());
                }
                assert forall|i: int, j: int|
                    0 <= i < after.comps.len() && 0 <= j < after.comps[i].entries.len() implies (
                #[trigger] after.comps[i].entries[j]).stat.invalidations <= self.stat.clk + 1 by {
                    if i == c {
                        if j != comp.index(pc) {
                            assert(after.comps[i].entries[j] == comp.entries[j]);
                        }
                    } else {
                        assert(after.comps[i] == self.comps[i]);
                    }
                    assert(self.comps[i].entries[j].stat.invalidations <= self.stat.clk);
                }
            },
        }
    }

    /// The periodic reset and the tick of the clock keep a predictor in
    /// shape and its tagged components in their order, and set the counts
    /// right with the clock.
    pub proof fn lemma_aged_wf(self, limit: int)
        requires
            self.shaped(),
            self.longest_first(),
            self.stat.clk < usize::MAX,
            limit == self.stat.clk + 1,
            self.stat.bounded(limit),
            self.stat.resets <= self.stat.clk,
            forall|i: int, j: int|
                0 <= i < self.comps.len() && 0 <= j < self.comps[i].entries.len() ==> (
                #[trigger] self.comps[i].entries[j]).stat.invalidations <= limit,
        ensures
            self.aged().ticked().wf(),
    {
        let after = self.aged().ticked();
        assert forall|i: int| 0 <= i < after.comps.len() implies (#[trigger] after.comps[i]).wf() by {
            assert(self.comps[i].wf());
            if self.reset_ctr == 255 {
                assert forall|j: int| 0 <= j < after.comps[i].entries.len() implies (
                #[trigger] after.comps[i].entries[j]).wf() by {
                    assert(self.comps[i].entries[j].wf());
                }
            }
        }
        assert forall|i: int, j: int| 0 <= i <= j < after.comps.len() implies (
        #[trigger] after.comps[i]).history_len() >= (#[trigger] after.comps[j]).history_len() by {
            assert(after.comps[i].history_len() == self.comps[i].history_len());
            assert(after.comps[j].history_len() == self.comps[j].history_len());
        }
        assert forall|i: int, j: int|
            0 <= i < after.comps.len() && 0 <= j < after.comps[i].entries.len() implies (
        #[trigger] after.comps[i].entries[j]).stat.invalidations <= after.stat.clk by {
            assert(self.comps[i].entries[j].stat.invalidations <= limit);
        }
    }

    /// An update keeps the predictor well formed. In particular the tagged
    /// components stay in the order of their history lengths, the longest
    /// first.
    pub proof fn lemma_updated_wf(
        self,
        pc: usize,
        prediction: TAGEPrediction,
        outcome: Outcome,
        pick: usize,
    )
        requires
            self.wf(),
            self.provider_ok(prediction.provider),
            self.stat.clk < usize::MAX,
        ensures
            self.updated(pc, prediction, outcome, pick).wf(),
            self.updated(pc, prediction, outcome, pick).comps.len() == self.comps.len(),
            forall|i: int|
                0 <= i < self.comps.len() ==> (#[trigger] self.updated(
                    pc,
                    prediction,
                    outcome,
                    pick,
                ).comps[i]).history_len() == self.comps[i].history_len(),
    {
        let trained = self.trained(pc, prediction, outcome);
        self.lemma_trained_wf(pc, prediction, outcome);
        if prediction.outcome != outcome {
            let choice = trained.allocation(pc, prediction.provider, pick);
            trained.lemma_eligible(pc, trained.candidates_end(prediction.provider));
            assert(trained.stat.alcs == self.stat.alcs);
            assert(trained.stat.failed_alcs == self.stat.failed_alcs);
            trained.lemma_allocated_wf(pc, choice, outcome);
            let settled = trained.allocated(pc, choice, outcome);
            assert(settled.stat.resets == self.stat.resets);
            settled.lemma_aged_wf(self.stat.clk + 1);
        } else {
            assert(trained.stat.resets == self.stat.resets);
            assert forall|i: int, j: int|
                0 <= i < trained.comps.len() && 0 <= j < trained.comps[i].entries.len() implies (
            #[trigger] trained.comps[i].entries[j]).stat.invalidations <= self.stat.clk + 1 by {
                assert(trained.comps[i].entries[j].stat.invalidations <= trained.stat.clk);
            }
            trained.lemma_aged_wf(self.stat.clk + 1);
        }
    }

    /// This predictor has as many tagged components as `other`, and each
    /// folds the window of history that its counterpart folds.
    pub open spec fn same_windows(self, other: TageView) -> bool {
        &&& self.comps.len() == other.comps.len()
        &&& forall|i: int|
            0 <= i < self.comps.len() ==> (#[trigger] self.comps[i]).lo == other.comps[i].lo
                && self.comps[i].hi == other.comps[i].hi
    }

    /// An update moves no window of history: a predictor that fits a
    /// register of global history still fits it after an update.
    pub proof fn lemma_updated_fits(
        self,
        pc: usize,
        prediction: TAGEPrediction,
        outcome: Outcome,
        pick: usize,
    )
        requires
            self.wf(),
            self.provider_ok(prediction.provider),
        ensures
            self.updated(pc, prediction, outcome, pick).same_windows(self),
            forall|len: nat| #[trigger]
                self.fits(len) ==> self.updated(pc, prediction, outcome, pick).fits(len),
    {
        let trained = self.trained(pc, prediction, outcome);
        assert(trained.comps.len() == self.comps.len());
        assert forall|i: int| 0 <= i < trained.comps.len() implies (#[trigger] trained.comps[i]).hi
            == self.comps[i].hi && trained.comps[i].lo == self.comps[i].lo by {}
        let settled = if prediction.outcome != outcome {
            trained.allocated(pc, trained.allocation(pc, prediction.provider, pick), outcome)
        } else {
            trained
        };
        trained.lemma_eligible(pc, trained.candidates_end(prediction.provider));
        assert(settled.comps.len() == self.comps.len());
        assert forall|i: int| 0 <= i < settled.comps.len() implies (#[trigger] settled.comps[i]).hi
            == self.comps[i].hi && settled.comps[i].lo == self.comps[i].lo by {
            assert(trained.comps[i].hi == self.comps[i].hi);
        }
        let after = self.updated(pc, prediction, outcome, pick);
        assert(after == settled.aged().ticked());
        assert forall|i: int| 0 <= i < after.comps.len() implies (#[trigger] after.comps[i]).hi
            == self.comps[i].hi && after.comps[i].lo == self.comps[i].lo by {
            assert(settled.comps[i].hi == self.comps[i].hi);
        }
        assert forall|len: nat| #[trigger] self.fits(len) implies after.fits(len) by {
            assert forall|i: int| 0 <= i < after.comps.len() implies (#[trigger] after.comps[i]).hi
                < len by {
                assert(self.comps[i].hi < len);
            }
        }
    }

    /// Training the provider leaves the statistics of every entry alone.
    pub proof fn lemma_trained_invalidations(
        self,
        pc: usize,
        prediction: TAGEPrediction,
        outcome: Outcome,
    )
        requires
            self.shaped(),
            self.provider_ok(prediction.provider),
            self.invalidations_bounded(),
        ensures
            self.trained(pc, prediction, outcome).invalidations_bounded(),
    {
        let after = self.trained(pc, prediction, outcome);
        assert forall|i: int, j: int|
            0 <= i < after.comps.len() && 0 <= j < after.comps[i].entries.len() implies (
        #[trigger] after.comps[i].entries[j]).stat.invalidations <= after.stat.clk by {
            assert(after.stat.clk == self.stat.clk);
            assert(after.comps.len() == self.comps.len());
            match prediction.provider {
                TAGEProvider::Base => {
                    assert(after.comps[i] == self.comps[i]);
                },
                TAGEProvider::Tagged(p) => {
                    if i == p {
                        let comp = self.comps[i];
                        comp.lemma_index_in_range(pc);
                        assert(after.comps[i].entries.len() == comp.entries.len());
                        if j == comp.index(pc) {
                            assert(after.comps[i].entries[j].stat == comp.entries[j].stat);
                        } else {
                            assert(after.comps[i].entries[j] == comp.entries[j]);
                        }
                    } else {
                        assert(after.comps[i] == self.comps[i]);
                    }
                },
            }
            assert(self.comps[i].entries[j].stat.invalidations <= self.stat.clk);
        }
    }

    /// What [`Self::eligible_below`] holds: positions below `end`, in
    /// strictly rising order, of components whose entry for the branch has
    /// a 'useful' counter of zero; and every such position.
    pub proof fn lemma_eligible(self, pc: usize, end: int)
        requires
            0 <= end <= self.comps.len() <= usize::BITS,
        ensures
            self.eligible_below(pc, end).len() <= end,
            forall|k: int|
                0 <= k < self.eligible_below(pc, end).len() ==> {
                    &&& (#[trigger] self.eligible_below(pc, end)[k]) < end
                    &&& self.comps[self.eligible_below(pc, end)[k] as int].entry(pc).useful == 0
                },
            forall|j: int, k: int|
                0 <= j < k < self.eligible_below(pc, end).len() ==> (
                #[trigger] self.eligible_below(pc, end)[j]) < (#[trigger] self.eligible_below(
                    pc,
                    end,
                )[k]),
            forall|i: int|
                0 <= i < end && self.comps[i].entry(pc).useful == 0 ==> self.eligible_below(
                    pc,
                    end,
                ).contains(i as usize),
        decreases end,
    {
        if end > 0 {
            self.lemma_eligible(pc, end - 1);
            let rest = self.eligible_below(pc, end - 1);
            let all = self.eligible_below(pc, end);
            assert forall|k: int| 0 <= k < all.len() implies {
                &&& (#[trigger] all[k]) < end
                &&& self.comps[all[k] as int].entry(pc).useful == 0
            } by {
                if k < rest.len() {
                    assert(all[k] == rest[k]);
                }
            }
            assert forall|j: int, k: int| 0 <= j < k < all.len() implies (#[trigger] all[j]) < (
            #[trigger] all[k]) by {
                assert(all[j] == rest[j]);
                if k < rest.len() {
                    assert(all[k] == rest[k]);
                }
            }
            assert forall|i: int|
                0 <= i < end && self.comps[i].entry(pc).useful == 0 implies all.contains(
                i as usize,
            ) by {
                if i < end - 1 {
                    assert(rest.contains(i as usize));
                    let k = choose|k: int| 0 <= k < rest.len() && rest[k] == i as usize;
                    assert(all[k] == i as usize);
                } else {
                    assert(all[all.len() - 1] == i as usize);
                }
            }
        }
    }

    /// What [`Self::first_hit`] finds: the component that it names holds an
    /// entry for the branch's context, and none between `from` and it does.
    pub proof fn lemma_first_hit(self, pc: usize, from: int)
        requires
            0 <= from,
        ensures
            match self.first_hit(pc, from) {
                Some(i) => {
                    &&& from <= i < self.comps.len()
                    &&& self.comps[i].hits(pc)
                    &&& forall|j: int| from <= j < i ==> !(#[trigger] self.comps[j]).hits(pc)
                },
                None => forall|j: int|
                    from <= j < self.comps.len() ==> !(#[trigger] self.comps[j]).hits(pc),
            },
        decreases self.comps.len() - from,
    {
        if from < self.comps.len() && !self.comps[from].hits(pc) {
            self.lemma_first_hit(pc, from + 1);
        }
    }
}

/// Cutting an index down to the size of the base table a second time
/// changes nothing.
pub proof fn lemma_mask_twice(pc: usize, base: BaseView)
    ensures
        (base.index(pc) & (base.size - 1) as usize) == base.index(pc),
{
    let raw = base.index_strat.raw(pc, 0);
    let mask = (base.size - 1) as usize;
    assert((raw & mask) & mask == raw & mask) by (bit_vector);
}

/// Cutting an index down to the size of a tagged table a second time
/// changes nothing.
pub proof fn lemma_index_twice(pc: usize, comp: ComponentView)
    ensures
        (comp.index(pc) & (comp.size - 1) as usize) == comp.index(pc),
{
    let raw = comp.index_strat.raw(pc, comp.history());
    let mask = (comp.size - 1) as usize;
    assert((raw & mask) & mask == raw & mask) by (bit_vector);
}

} // verus!
