//! What holds of every TAGE predictor, whatever it has seen.

use vstd::prelude::*;

use crate::branch::Outcome;
use crate::predictor::tage::component::ComponentView;
use crate::predictor::tage::model::TageView;
use crate::predictor::tage::{TAGEPrediction, TAGEProvider};

verus! {

/// An empty entry never matches: a tagged component whose entry for a
/// branch holds no tag does not hit that branch.
pub proof fn lemma_empty_entry_never_hits(comp: ComponentView, pc: usize)
    requires
        comp.entry(pc).tag is None,
    ensures
        !comp.hits(pc),
        forall|tag: usize| !comp.entry(pc).tag_matches(tag),
{
}

/// Where no tagged component holds an entry for the context of a branch, the
/// predictor predicts what its base component alone would predict: the base
/// component is the provider and the alternate, and the outcome is the
/// direction of its counter for the branch.
pub proof fn lemma_miss_predicts_base(view: TageView, pc: usize)
    requires
        forall|i: int| 0 <= i < view.comps.len() ==> !(#[trigger] view.comps[i]).hits(pc),
    ensures
        view.predict(pc) == view.base_prediction(pc),
        view.predict(pc).provider == TAGEProvider::Base,
        view.predict(pc).outcome == view.base.counter(pc).direction(),
{
    view.lemma_first_hit(pc, 0);
}

/// Two predictors whose base components are alike, and whose tagged
/// components hold no entry for the context of a branch, stay alike in their
/// base components when they learn the outcome of the branch, whatever
/// their tagged components are and whatever is allocated in them. So a
/// predictor whose tagged components never match predicts a branch as
/// its base component alone would, time after time.
pub proof fn lemma_base_evolves_alike(
    one: TageView,
    other: TageView,
    pc: usize,
    outcome: Outcome,
    pick_one: usize,
    pick_other: usize,
)
    requires
        one.base == other.base,
        forall|i: int| 0 <= i < one.comps.len() ==> !(#[trigger] one.comps[i]).hits(pc),
        forall|i: int| 0 <= i < other.comps.len() ==> !(#[trigger] other.comps[i]).hits(pc),
    ensures
        one.predict(pc) == other.predict(pc),
        one.updated(pc, one.predict(pc), outcome, pick_one).base == other.updated(
            pc,
            other.predict(pc),
            outcome,
            pick_other,
        ).base,
        one.updated(pc, one.predict(pc), outcome, pick_one).base == one.base.updated(pc, outcome),
{
    lemma_miss_predicts_base(one, pc);
    lemma_miss_predicts_base(other, pc);
    let prediction = one.predict(pc);
    let trained_one = one.trained(pc, prediction, outcome);
    let trained_other = other.trained(pc, prediction, outcome);
    assert(trained_one.base == one.base.updated(pc, outcome));
    assert(trained_other.base == other.base.updated(pc, outcome));
    let settled_one = if prediction.outcome != outcome {
        trained_one.allocated(
            pc,
            trained_one.allocation(pc, prediction.provider, pick_one),
            outcome,
        )
    } else {
        trained_one
    };
    let settled_other = if prediction.outcome != outcome {
        trained_other.allocated(
            pc,
            trained_other.allocation(pc, prediction.provider, pick_other),
            outcome,
        )
    } else {
        trained_other
    };
    assert(settled_one.base == trained_one.base);
    assert(settled_other.base == trained_other.base);
    assert(one.updated(pc, prediction, outcome, pick_one) == settled_one.aged().ticked());
    assert(other.updated(pc, prediction, outcome, pick_other) == settled_other.aged().ticked());
}

/// The longest history wins: the provider of a prediction is the first
/// tagged component, in the order from the longest history down, that holds
/// an entry for the context of the branch.
pub proof fn lemma_longest_history_provides(view: TageView, pc: usize, i: int)
    requires
        0 <= i < view.comps.len(),
        view.comps[i].hits(pc),
        forall|j: int| 0 <= j < i ==> !(#[trigger] view.comps[j]).hits(pc),
    ensures
        view.predict(pc).provider == TAGEProvider::Tagged(i as usize),
        view.predict(pc).outcome == view.comps[i].entry(pc).predict(),
        view.predict(pc).alt_provider == TAGEProvider::Base,
{
    view.lemma_first_hit(pc, 0);
    match view.first_hit(pc, 0) {
        Some(k) => {
            if k < i {
                assert(!view.comps[k].hits(pc));
            }
        },
        None => {
            assert(!view.comps[i].hits(pc));
        },
    }
}

/// An update trains the provider once: after it, the counter of the entry
/// that provided the prediction is the counter from before, updated once by
/// the resolved outcome. Neither an allocation nor the periodic reset
/// touches that counter.
pub proof fn lemma_update_trains_provider(
    view: TageView,
    pc: usize,
    prediction: TAGEPrediction,
    outcome: Outcome,
    pick: usize,
)
    requires
        view.wf(),
        view.provider_ok(prediction.provider),
    ensures
        match prediction.provider {
            TAGEProvider::Base => view.updated(pc, prediction, outcome, pick).base.counter(pc)
                == view.base.counter(pc).updated(outcome),
            TAGEProvider::Tagged(i) => {
                &&& view.updated(pc, prediction, outcome, pick).comps[i as int].index(pc)
                    == view.comps[i as int].index(pc)
                &&& view.updated(pc, prediction, outcome, pick).comps[i as int].entry(pc).ctr
                    == view.comps[i as int].entry(pc).ctr.updated(outcome)
            },
        },
{
    let trained = view.trained(pc, prediction, outcome);
    let settled = if prediction.outcome != outcome {
        trained.allocated(pc, trained.allocation(pc, prediction.provider, pick), outcome)
    } else {
        trained
    };
    let after = view.updated(pc, prediction, outcome, pick);
    assert(after == settled.aged().ticked());
    match prediction.provider {
        TAGEProvider::Base => {
            view.base.lemma_index_in_range(pc);
            assert(settled.base == trained.base);
            assert(after.base == trained.base);
        },
        TAGEProvider::Tagged(i) => {
            let comp = view.comps[i as int];
            comp.lemma_index_in_range(pc);
            let idx = comp.index(pc) as int;
            assert(trained.comps[i as int].entries[idx].ctr == comp.entry(pc).ctr.updated(outcome));
            assert(trained.comps[i as int].csr == comp.csr);
            trained.lemma_eligible(pc, trained.candidates_end(prediction.provider));
            if prediction.outcome != outcome {
                match trained.allocation(pc, prediction.provider, pick) {
                    Some(j) => {
                        assert(j < i);
                        assert(settled.comps[i as int] == trained.comps[i as int]);
                    },
                    None => {
                        assert(settled.comps == trained.comps);
                    },
                }
            }
            assert(settled.comps[i as int] == trained.comps[i as int]);
            assert(after.comps[i as int].csr == comp.csr);
            assert(after.comps[i as int].entries[idx].ctr == trained.comps[i as int].entries[idx].ctr);
        },
    }
}

/// The reset counter never rests at its greatest value: an update that
/// brings it there sets it back to zero, and the 'useful' counter of every
/// entry with it. So it does where the counter stood one below and an
/// allocation has succeeded.
pub proof fn lemma_reset_fires(
    view: TageView,
    pc: usize,
    prediction: TAGEPrediction,
    outcome: Outcome,
    pick: usize,
)
    requires
        view.wf(),
        view.provider_ok(prediction.provider),
        view.stat.clk < usize::MAX,
    ensures
        view.updated(pc, prediction, outcome, pick).reset_ctr < 255,
        view.reset_ctr >= 254 && prediction.outcome != outcome && view.trained(
            pc,
            prediction,
            outcome,
        ).allocation(pc, prediction.provider, pick) is Some ==> {
            &&& view.updated(pc, prediction, outcome, pick).reset_ctr == 0
            &&& forall|i: int, j: int|
                0 <= i < view.comps.len() && 0 <= j < view.comps[i].entries.len() ==> (
                #[trigger] view.updated(pc, prediction, outcome, pick).comps[i].entries[j]).useful
                    == 0
        },
{
    let trained = view.trained(pc, prediction, outcome);
    view.lemma_trained_wf(pc, prediction, outcome);
    let after = view.updated(pc, prediction, outcome, pick);
    if prediction.outcome != outcome {
        let choice = trained.allocation(pc, prediction.provider, pick);
        trained.lemma_eligible(pc, trained.candidates_end(prediction.provider));
        trained.lemma_allocated_wf(pc, choice, outcome);
        let settled = trained.allocated(pc, choice, outcome);
        assert(after == settled.aged().ticked());
        if view.reset_ctr >= 254 && choice is Some {
            assert(settled.reset_ctr == 255);
            assert forall|i: int, j: int|
                0 <= i < view.comps.len() && 0 <= j < view.comps[i].entries.len() implies (
            #[trigger] after.comps[i].entries[j]).useful == 0 by {
                assert(settled.comps[i].wf());
                assert(settled.comps[i].entries.len() == view.comps[i].entries.len()) by {
                    assert(trained.comps[i].wf());
                    assert(view.comps[i].wf());
                    assert(trained.comps[i].size == view.comps[i].size);
                    assert(settled.comps[i].size == trained.comps[i].size);
                }
            }
        }
    } else {
        assert(after == trained.aged().ticked());
    }
}

/// Without a dead entry there is no allocation: where the entry for a
/// branch has a 'useful' counter above zero in every tagged component with
/// a longer history than the provider, no draw allocates anything. So it is
/// where the provider is the tagged component with the longest history.
pub proof fn lemma_no_dead_entry_no_allocation(
    view: TageView,
    pc: usize,
    provider: TAGEProvider,
    pick: usize,
)
    requires
        view.shaped(),
        view.provider_ok(provider),
        forall|i: int|
            0 <= i < view.candidates_end(provider) ==> (#[trigger] view.comps[i]).entry(pc).useful
                != 0,
    ensures
        view.allocation(pc, provider, pick) is None,
{
    view.lemma_eligible(pc, view.candidates_end(provider));
    let eligible = view.eligible(pc, provider);
    if eligible.len() > 0 {
        assert(view.comps[eligible[0] as int].entry(pc).useful == 0);
    }
}

/// An allocation picks a dead entry in a longer history: the component
/// that it chooses stands before the provider, and its entry for the branch
/// has a 'useful' counter of zero. Where a component has such an entry, an
/// allocation does choose one.
pub proof fn lemma_allocation_is_eligible(
    view: TageView,
    pc: usize,
    provider: TAGEProvider,
    pick: usize,
)
    requires
        view.shaped(),
        view.provider_ok(provider),
    ensures
        view.allocation(pc, provider, pick) matches Some(j) ==> {
            &&& j < view.candidates_end(provider)
            &&& view.comps[j as int].entry(pc).useful == 0
        },
        (exists|i: int|
            0 <= i < view.candidates_end(provider) && (#[trigger] view.comps[i]).entry(pc).useful
                == 0) ==> view.allocation(pc, provider, pick) is Some,
{
    view.lemma_eligible(pc, view.candidates_end(provider));
    let eligible = view.eligible(pc, provider);
    if eligible.len() >= 2 {
        let k = pick as int % eligible.len() as int;
        assert(0 <= k < eligible.len());
        assert(eligible[k] < view.candidates_end(provider));
    }
    if exists|i: int|
        0 <= i < view.candidates_end(provider) && (#[trigger] view.comps[i]).entry(pc).useful == 0 {
        let i = choose|i: int|
            0 <= i < view.candidates_end(provider) && (#[trigger] view.comps[i]).entry(pc).useful
                == 0;
        assert(eligible.contains(i as usize));
    }
}

/// A failed allocation fires no reset: where a misprediction finds nothing
/// to allocate, the reset counter goes down by one, or stays at zero, and
/// no 'useful' counter changes.
pub proof fn lemma_failed_allocation_ages_nothing(
    view: TageView,
    pc: usize,
    prediction: TAGEPrediction,
    outcome: Outcome,
    pick: usize,
)
    requires
        view.wf(),
        view.provider_ok(prediction.provider),
        prediction.outcome != outcome,
        view.trained(pc, prediction, outcome).allocation(pc, prediction.provider, pick) is None,
    ensures
        view.updated(pc, prediction, outcome, pick).reset_ctr == if view.reset_ctr > 0 {
            view.reset_ctr - 1
        } else {
            0
        },
        view.updated(pc, prediction, outcome, pick).stat.resets == view.stat.resets,
        forall|i: int, j: int|
            0 <= i < view.comps.len() && 0 <= j < view.comps[i].entries.len() ==> (
            #[trigger] view.updated(pc, prediction, outcome, pick).comps[i].entries[j]).useful
                == view.comps[i].entries[j].useful,
{
    let trained = view.trained(pc, prediction, outcome);
    let settled = trained.allocated(pc, None, outcome);
    let after = view.updated(pc, prediction, outcome, pick);
    assert(after == settled.aged().ticked());
    assert(settled.reset_ctr < 255);
    assert(after.comps == trained.comps);
    assert forall|i: int, j: int|
        0 <= i < view.comps.len() && 0 <= j < view.comps[i].entries.len() implies (
    #[trigger] after.comps[i].entries[j]).useful == view.comps[i].entries[j].useful by {
        match prediction.provider {
            TAGEProvider::Base => {},
            TAGEProvider::Tagged(p) => {
                if i == p {
                    view.comps[i].lemma_index_in_range(pc);
                }
            },
        }
    }
}

} // verus!
