//! Driving a TAGE predictor through the branches of a trace.
//!
//! For each branch, in the order of the trace: a conditional branch is
//! predicted, and the predictor is updated with its outcome; then the
//! outcome of the branch (taken, for an unconditional one) is shifted into
//! the global history, and the predictor takes up the history.

use vstd::prelude::*;

use crate::bits::shifted_up;
use crate::branch::{BranchKind, BranchRecord, Outcome};
use crate::history::HistoryRegister;
use crate::predictor::tage::model::TageView;
use crate::predictor::tage::{TAGEInputs, TAGEPredictor};

verus! {

/// What becomes of a predictor, of the global history and of the score when
/// one branch retires.
pub struct Retired {
    /// The predictor after the branch
    pub tage: TageView,
    /// The global history after the branch
    pub ghr: Seq<bool>,
    /// For a conditional branch, whether it was predicted right
    pub hit: Option<bool>,
}

/// The global history after a branch with the given outcome has retired:
/// every bit moves up by one place, and the outcome becomes bit 0.
pub open spec fn history_after(ghr: Seq<bool>, outcome: Outcome) -> Seq<bool> {
    shifted_up(ghr, 1).update(0, outcome.bit())
}

/// What becomes of `tage` and `ghr` when the branch of `record` retires,
/// with `pick` as the draw for an allocation. A record whose flags stand
/// for no kind of branch changes nothing.
pub open spec fn retired(tage: TageView, ghr: Seq<bool>, record: BranchRecord, pick: usize)
    -> Retired {
    match record.flags.spec_kind() {
        None => Retired { tage, ghr, hit: None },
        Some(BranchKind::DirectBranch) => {
            let outcome = record.flags.spec_outcome();
            let prediction = tage.predict(record.pc);
            let ghr = history_after(ghr, outcome);
            Retired {
                tage: tage.updated(record.pc, prediction, outcome, pick).with_history(ghr),
                ghr,
                hit: Some(prediction.outcome == outcome),
            }
        },
        Some(_) => {
            let ghr = history_after(ghr, Outcome::T);
            Retired { tage: tage.with_history(ghr), ghr, hit: None }
        },
    }
}

/// What becomes of `tage` and `ghr` when the branches of the first `n`
/// records retire one after the other, with `picks` as the draws.
pub open spec fn replayed(
    tage: TageView,
    ghr: Seq<bool>,
    records: Seq<BranchRecord>,
    picks: Seq<usize>,
    n: int,
) -> Retired
    decreases n,
{
    if n <= 0 {
        Retired { tage, ghr, hit: None }
    } else {
        let before = replayed(tage, ghr, records, picks, n - 1);
        retired(before.tage, before.ghr, records[n - 1], picks[n - 1])
    }
}

/// The number of conditional branches among the first `n` records that
/// were predicted right, if `hits` is false of those that were not.
pub open spec fn scored(
    tage: TageView,
    ghr: Seq<bool>,
    records: Seq<BranchRecord>,
    picks: Seq<usize>,
    n: int,
    hits: bool,
) -> nat
    decreases n,
{
    if n <= 0 {
        0
    } else {
        scored(tage, ghr, records, picks, n - 1, hits) + if replayed(
            tage,
            ghr,
            records,
            picks,
            n,
        ).hit == Some(hits) {
            1nat
        } else {
            0nat
        }
    }
}

/// The score of a run: the conditional branches that were met, and those
/// among them that were predicted right.
#[derive(Clone, Copy, Debug, PartialEq, Eq, Structural)]
pub struct Score {
    /// Number of correct predictions
    pub hits: usize,
    /// Number of conditional branches
    pub brns: usize,
}

/// Shift the outcome of a branch into the global history, and let the
/// predictor take up the history.
pub fn record_history(tage: &mut TAGEPredictor, ghr: &mut HistoryRegister, outcome: Outcome)
    requires
        old(tage).wf(),
        old(tage)@.fits(old(ghr)@.len()),
        old(ghr)@.len() > 0,
    ensures
        final(ghr)@ == history_after(old(ghr)@, outcome),
        final(tage)@ == old(tage)@.with_history(final(ghr)@),
        final(tage).wf(),
        final(tage)@.fits(final(ghr)@.len()),
{
    ghr.shift_by(1);
    ghr.data_mut().set(0, outcome.into());
    tage.update_history(ghr);
}

/// Let one branch retire, with `pick` as the draw for an allocation, or
/// with a random draw where there is none. Returns whether a conditional
/// branch was predicted right.
fn retire_one(
    tage: &mut TAGEPredictor,
    ghr: &mut HistoryRegister,
    record: &BranchRecord,
    pick: Option<usize>,
) -> (r: Option<bool>)
    requires
        old(tage).wf(),
        old(tage)@.fits(old(ghr)@.len()),
        old(ghr)@.len() > 0,
        old(tage)@.stat.clk < usize::MAX,
    ensures
        exists|drawn: usize|
            {
                &&& pick matches Some(given) ==> drawn == given
                &&& #[trigger] retired(old(tage)@, old(ghr)@, *record, drawn) == (Retired {
                    tage: final(tage)@,
                    ghr: final(ghr)@,
                    hit: r,
                })
            },
        final(tage).wf(),
        final(tage)@.fits(final(ghr)@.len()),
        final(ghr)@.len() == old(ghr)@.len(),
        final(tage)@.stat.clk <= old(tage)@.stat.clk + 1,
{
    match record.kind() {
        None => {
            let ghost drawn = match pick {
                Some(given) => given,
                None => 0,
            };
            assert(retired(old(tage)@, old(ghr)@, *record, drawn) == (Retired {
                tage: tage@,
                ghr: ghr@,
                hit: None,
            }));
            None
        },
        // Use the TAGE predictor to evaluate conditional branches
        Some(BranchKind::DirectBranch) => {
            let inputs = TAGEInputs { pc: record.pc };
            let outcome = record.outcome();
            let prediction = tage.predict(inputs);
            let hit = outcome == prediction.outcome;
            proof {
                old(tage)@.lemma_first_hit(record.pc, 0);
            }
            let ghost drawn: usize;
            match pick {
                Some(given) => {
                    tage.update_with(inputs, prediction, outcome, given);
                    proof {
                        drawn = given;
                    }
                },
                None => {
                    tage.update(inputs, prediction, outcome);
                    proof {
                        drawn = choose|p: usize| #[trigger]
                            tage@ == old(tage)@.updated(record.pc, prediction, outcome, p);
                    }
                },
            }
            proof {
                old(tage)@.lemma_updated_wf(record.pc, prediction, outcome, drawn);
                old(tage)@.lemma_updated_fits(record.pc, prediction, outcome, drawn);
            }

            // Update the global history register.
            // Use the GHR to update the folded history registers in
            // each of the tagged components.
            record_history(tage, ghr, outcome);
            assert(retired(old(tage)@, old(ghr)@, *record, drawn) == (Retired {
                tage: tage@,
                ghr: ghr@,
                hit: Some(hit),
            }));
            Some(hit)
        },
        // Record all unconditionally taken branches in the GHR and
        // propagate updates to the TAGE folded history registers
        Some(_) => {
            let ghost drawn = match pick {
                Some(given) => given,
                None => 0,
            };
            record_history(tage, ghr, Outcome::T);
            assert(retired(old(tage)@, old(ghr)@, *record, drawn) == (Retired {
                tage: tage@,
                ghr: ghr@,
                hit: None,
            }));
            None
        },
    }
}

/// Let one branch retire, with `pick` as the draw for an allocation.
/// Returns whether a conditional branch was predicted right.
pub fn retire_with(
    tage: &mut TAGEPredictor,
    ghr: &mut HistoryRegister,
    record: &BranchRecord,
    pick: usize,
) -> (r: Option<bool>)
    requires
        old(tage).wf(),
        old(tage)@.fits(old(ghr)@.len()),
        old(ghr)@.len() > 0,
        old(tage)@.stat.clk < usize::MAX,
    ensures
        retired(old(tage)@, old(ghr)@, *record, pick) == (Retired {
            tage: final(tage)@,
            ghr: final(ghr)@,
            hit: r,
        }),
        final(tage).wf(),
        final(tage)@.fits(final(ghr)@.len()),
        final(ghr)@.len() == old(ghr)@.len(),
{
    retire_one(tage, ghr, record, Some(pick))
}

/// Let one branch retire; where an allocation has several candidates, one
/// is drawn at random. Returns whether a conditional branch was predicted
/// right.
pub fn retire(tage: &mut TAGEPredictor, ghr: &mut HistoryRegister, record: &BranchRecord) -> (r:
    Option<bool>)
    requires
        old(tage).wf(),
        old(tage)@.fits(old(ghr)@.len()),
        old(ghr)@.len() > 0,
        old(tage)@.stat.clk < usize::MAX,
    ensures
        exists|pick: usize| #[trigger]
            retired(old(tage)@, old(ghr)@, *record, pick) == (Retired {
                tage: final(tage)@,
                ghr: final(ghr)@,
                hit: r,
            }),
        final(tage).wf(),
        final(tage)@.fits(final(ghr)@.len()),
        final(ghr)@.len() == old(ghr)@.len(),
{
    retire_one(tage, ghr, record, None)
}

/// Let the branches of a trace retire one after the other, and count the
/// conditional ones and those among them that were predicted right.
pub fn run(tage: &mut TAGEPredictor, ghr: &mut HistoryRegister, records: &Vec<BranchRecord>) -> (r:
    Score)
    requires
        old(tage).wf(),
        old(tage)@.fits(old(ghr)@.len()),
        old(ghr)@.len() > 0,
        old(tage)@.stat.clk + records@.len() <= usize::MAX,
    ensures
        exists|picks: Seq<usize>|
            {
                &&& picks.len() == records@.len()
                &&& #[trigger] replayed(
                    old(tage)@,
                    old(ghr)@,
                    records@,
                    picks,
                    records@.len() as int,
                ).tage == final(tage)@
                &&& replayed(old(tage)@, old(ghr)@, records@, picks, records@.len() as int).ghr
                    == final(ghr)@
                &&& r.hits == scored(
                    old(tage)@,
                    old(ghr)@,
                    records@,
                    picks,
                    records@.len() as int,
                    true,
                )
                &&& r.brns == r.hits + scored(
                    old(tage)@,
                    old(ghr)@,
                    records@,
                    picks,
                    records@.len() as int,
                    false,
                )
            },
        r.hits <= r.brns <= records@.len(),
        final(tage).wf(),
        final(tage)@.fits(final(ghr)@.len()),
        final(ghr)@.len() == old(ghr)@.len(),
{
    let n = records.len();
    let mut hits: usize = 0;
    let mut brns: usize = 0;
    let mut i: usize = 0;
    let ghost mut picks: Seq<usize> = Seq::empty();
    while i < n
        invariant
            i <= n,
            n == records@.len(),
            picks.len() == i,
            tage.wf(),
            tage@.fits(ghr@.len()),
            ghr@.len() == old(ghr)@.len(),
            ghr@.len() > 0,
            old(tage)@.stat.clk + n <= usize::MAX,
            tage@.stat.clk <= old(tage)@.stat.clk + i,
            hits <= brns <= i,
            replayed(old(tage)@, old(ghr)@, records@, picks, i as int).tage == tage@,
            replayed(old(tage)@, old(ghr)@, records@, picks, i as int).ghr == ghr@,
            hits == scored(old(tage)@, old(ghr)@, records@, picks, i as int, true),
            brns == hits + scored(old(tage)@, old(ghr)@, records@, picks, i as int, false),
        decreases n - i,
    {
        let ghost tage_before = tage@;
        let ghost ghr_before = ghr@;
        let result = retire_one(tage, ghr, &records[i], None);
        proof {
            let drawn = choose|drawn: usize| #[trigger]
                retired(tage_before, ghr_before, records@[i as int], drawn) == (Retired {
                    tage: tage@,
                    ghr: ghr@,
                    hit: result,
                });
            let longer = picks.push(drawn);
            lemma_replay_prefix(old(tage)@, old(ghr)@, records@, picks, longer, i as int);
            picks = longer;
        }
        match result {
            Some(true) => {
                hits = hits + 1;
                brns = brns + 1;
            },
            Some(false) => {
                brns = brns + 1;
            },
            None => {},
        }
        i = i + 1;
    }
    Score { hits, brns }
}

/// A replay reads no more draws than it has records.
pub proof fn lemma_replay_prefix(
    tage: TageView,
    ghr: Seq<bool>,
    records: Seq<BranchRecord>,
    picks: Seq<usize>,
    longer: Seq<usize>,
    n: int,
)
    requires
        0 <= n <= picks.len() <= longer.len(),
        forall|i: int| 0 <= i < n ==> picks[i] == longer[i],
    ensures
        replayed(tage, ghr, records, picks, n) == replayed(tage, ghr, records, longer, n),
        scored(tage, ghr, records, picks, n, true) == scored(tage, ghr, records, longer, n, true),
        scored(tage, ghr, records, picks, n, false) == scored(
            tage,
            ghr,
            records,
            longer,
            n,
            false,
        ),
    decreases n,
{
    if n > 0 {
        lemma_replay_prefix(tage, ghr, records, picks, longer, n - 1);
    }
}

} // verus!
