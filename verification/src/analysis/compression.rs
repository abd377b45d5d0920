//! Run-length encoding of the outcomes of a branch.

use vstd::prelude::*;

use crate::analysis::runlength::{pair_views, pairs_of, run_views, runs_of, Run, RunPair, RunView};
use crate::branch::Outcome;

verus! {

/// A block of pairs of runs, repeated a number of times.
#[derive(Debug)]
pub struct Block {
    /// The number of times the block is repeated.
    pub len: usize,
    /// The pairs of runs of the block.
    pub data: Vec<RunPair>,
}

/// What a [`Block`] holds.
pub struct BlockView {
    /// The number of times the block is repeated.
    pub len: usize,
    /// The pairs of runs of the block.
    pub data: Seq<(RunView, RunView)>,
}

impl View for Block {
    type V = BlockView;

    open spec fn view(&self) -> BlockView {
        BlockView { len: self.len, data: pair_views(self.data@) }
    }
}

/// The views of a list of blocks.
pub open spec fn block_views(blocks: Seq<Block>) -> Seq<BlockView> {
    blocks.map_values(|b: Block| b@)
}

/// The `p` items of `s` from `at` on are its first `p` items.
pub open spec fn chunk_repeats<A>(s: Seq<A>, p: int, at: int) -> bool {
    &&& at + p <= s.len()
    &&& forall|j: int| 0 <= j < p ==> #[trigger] s[at + j] == s[j]
}

/// The number of chunks of `p` items, from `at` on and one behind the
/// other, that are the first `p` items of `s`.
pub open spec fn repeats_from<A>(s: Seq<A>, p: int, at: int) -> nat
    decreases s.len() - at,
{
    if p > 0 && at >= 0 && chunk_repeats(s, p, at) {
        1 + repeats_from(s, p, at + p)
    } else {
        0
    }
}

/// The chunks that repeat take up no more than the list.
pub proof fn lemma_repeats_fit<A>(s: Seq<A>, p: int, at: int)
    requires
        0 < p,
        0 <= at <= s.len(),
    ensures
        at + repeats_from(s, p, at) * p <= s.len(),
    decreases s.len() - at,
{
    if chunk_repeats(s, p, at) {
        lemma_repeats_fit(s, p, at + p);
        assert((1 + repeats_from(s, p, at + p)) * p == p + repeats_from(s, p, at + p) * p)
            by (nonlinear_arith);
    } else {
        assert(0 * p == 0);
    }
}

/// The blocks of a list of pairs of runs from `cur` on, for chunks of `p`
/// pairs: where the chunk at `cur` is repeated at least `thresh` times, one
/// block stands for the repeats; where it is not, or where fewer than `p`
/// pairs are left, the pair at `cur` is passed over.
pub open spec fn blocks_from(s: Seq<(RunView, RunView)>, p: int, thresh: int, cur: int) -> Seq<
    BlockView,
>
    decreases s.len() - cur,
{
    if p <= 0 || cur < 0 || cur >= s.len() {
        Seq::empty()
    } else {
        let window = s.skip(cur);
        let runlen = repeats_from(window, p, 0);
        let step: int = runlen * p;
        if p <= window.len() && runlen >= thresh && 0 < step <= window.len() {
            blocks_from(s, p, thresh, cur + step).insert(
                0,
                BlockView { len: runlen as usize, data: window.take(p) },
            )
        } else {
            blocks_from(s, p, thresh, cur + 1)
        }
    }
}

/// Encodes the outcomes of a branch by the lengths of their runs.
pub struct RunLengthEncoder;

impl RunLengthEncoder {
    /// Scan for repeated elements in the list
    pub fn encode(input: &Vec<Outcome>) -> (r: Vec<Run>)
        requires
            input@.len() > 0,
        ensures
            run_views(r@) == runs_of(input@),
            r@.len() > 0,
    {
        let runs = Run::new_vec(input.as_slice());
        proof {
            lemma_runs_not_empty(input@);
            assert(run_views(runs@).len() == runs@.len());
        }
        runs
    }

    /// Count the chunks of `chunk_len` pairs at the start of the window, one
    /// behind the other, that are the first chunk.
    pub fn scan(window: &[RunPair], chunk_len: usize) -> (r: usize)
        requires
            0 < chunk_len <= window@.len(),
        ensures
            r == repeats_from(pair_views(window@), chunk_len as int, 0),
            r >= 1,
            r * chunk_len <= window@.len(),
    {
        let ghost s = pair_views(window@);
        let len = window.len();
        let mut count: usize = 0;
        let mut at: usize = 0;
        proof {
            lemma_repeats_fit(s, chunk_len as int, 0);
        }
        loop
            invariant
                0 < chunk_len <= len,
                len == window@.len(),
                s == pair_views(window@),
                at <= len,
                at == count * chunk_len,
                count + repeats_from(s, chunk_len as int, at as int) == repeats_from(
                    s,
                    chunk_len as int,
                    0,
                ),
                repeats_from(s, chunk_len as int, 0) * chunk_len <= len,
                count == 0 ==> at == 0,
            ensures
                count == repeats_from(s, chunk_len as int, 0),
                count >= 1,
            decreases len - at,
        {
            if len - at < chunk_len {
                assert(!chunk_repeats(s, chunk_len as int, at as int));
                assert(count >= 1) by {
                    if count == 0 {
                        assert(chunk_repeats(s, chunk_len as int, 0));
                    }
                }
                break ;
            }
            let mut same = true;
            let mut j: usize = 0;
            while j < chunk_len
                invariant
                    j <= chunk_len,
                    0 < chunk_len <= len,
                    at + chunk_len <= len,
                    len == window@.len(),
                    s == pair_views(window@),
                    same ==> forall|k: int| 0 <= k < j ==> #[trigger] s[at + k] == s[k],
                    !same ==> !chunk_repeats(s, chunk_len as int, at as int),
                decreases chunk_len - j,
            {
                if !window[at + j].same(&window[j]) {
                    assert(s[at + j] != s[j as int]);
                    same = false;
                }
                j = j + 1;
            }
            if !same {
                assert(count >= 1) by {
                    if count == 0 {
                        assert(chunk_repeats(s, chunk_len as int, 0));
                    }
                }
                break ;
            }
            assert(chunk_repeats(s, chunk_len as int, at as int));
            assert((count + 1) * chunk_len == count * chunk_len + chunk_len) by (nonlinear_arith);
            assert(count < len) by (nonlinear_arith)
                requires
                    count * chunk_len + chunk_len <= len,
                    chunk_len >= 1,
            ;
            count = count + 1;
            at = at + chunk_len;
        }
        count
    }

    /// Tell whether the first chunk of the window is repeated at least
    /// `thresh` times, and give the block that stands for the repeats.
    pub fn scan_window(window: &[RunPair], chunk_len: usize, thresh: usize) -> (r: Option<Block>)
        requires
            0 < chunk_len <= window@.len(),
        ensures
            match r {
                Some(block) => {
                    &&& block@.len == repeats_from(pair_views(window@), chunk_len as int, 0)
                    &&& block@.len >= thresh
                    &&& block@.data == pair_views(window@).take(chunk_len as int)
                },
                None => repeats_from(pair_views(window@), chunk_len as int, 0) < thresh,
            },
    {
        let runlen = Self::scan(window, chunk_len);
        if runlen >= thresh {
            let mut data: Vec<RunPair> = Vec::new();
            let mut k: usize = 0;
            while k < chunk_len
                invariant
                    k <= chunk_len <= window@.len(),
                    pair_views(data@) == pair_views(window@).take(k as int),
                decreases chunk_len - k,
            {
                let ghost before = pair_views(data@);
                data.push(window[k].clone());
                assert(pair_views(data@) =~= before.push(pair_views(window@)[k as int]));
                assert(pair_views(window@).take(k + 1) =~= pair_views(window@).take(k as int).push(
                    pair_views(window@)[k as int],
                ));
                k = k + 1;
            }
            return Some(Block { len: runlen, data });
        }
        None
    }

    /// Cut a list of pairs of runs into blocks of `chunk_len` pairs that
    /// are repeated at least `thresh` times; pairs outside such blocks are
    /// passed over.
    pub fn encode_block(input: &Vec<RunPair>, chunk_len: usize, thresh: usize) -> (r: Vec<Block>)
        requires
            0 < chunk_len,
        ensures
            block_views(r@) == blocks_from(pair_views(input@), chunk_len as int, thresh as int, 0),
    {
        let ghost s = pair_views(input@);
        let mut res: Vec<Block> = Vec::new();
        let mut cur: usize = 0;
        let len = input.len();
        assert(block_views(res@) =~= Seq::<BlockView>::empty());
        while cur < len
            invariant
                0 < chunk_len,
                len == input@.len(),
                s == pair_views(input@),
                cur <= len,
                block_views(res@) + blocks_from(s, chunk_len as int, thresh as int, cur as int)
                    == blocks_from(s, chunk_len as int, thresh as int, 0),
            decreases len - cur,
        {
            let ghost rest = blocks_from(s, chunk_len as int, thresh as int, cur as int);
            if len - cur >= chunk_len {
                let window = vstd::slice::slice_subrange(input.as_slice(), cur, len);
                assert(pair_views(window@) =~= s.skip(cur as int));
                match Self::scan_window(window, chunk_len, thresh) {
                    Some(run) => {
                        proof {
                            lemma_repeats_fit(s.skip(cur as int), chunk_len as int, 0);
                            assert(run.data@.len() == chunk_len) by {
                                assert(pair_views(run.data@).len() == run.data@.len());
                            }
                            assert(run.len * chunk_len > 0) by (nonlinear_arith)
                                requires
                                    run.len >= 1,
                                    chunk_len >= 1,
                            ;
                        }
                        let ghost before = block_views(res@);
                        let ghost view = run@;
                        cur = cur + run.len * run.data.len();
                        res.push(run);
                        proof {
                            assert(block_views(res@) =~= before.push(view));
                            assert(rest =~= seq![view] + blocks_from(
                                s,
                                chunk_len as int,
                                thresh as int,
                                cur as int,
                            ));
                            assert(before.push(view) + blocks_from(
                                s,
                                chunk_len as int,
                                thresh as int,
                                cur as int,
                            ) =~= before + rest);
                        }
                    },
                    None => {
                        cur = cur + 1;
                    },
                }
            } else {
                cur = cur + 1;
            }
        }
        res
    }

    /// Pair the runs of a list two by two; a last run without a partner is
    /// left out.
    pub fn encode_pairs(input: &Vec<Run>) -> (r: Vec<RunPair>)
        requires
            input@.len() > 1,
        ensures
            pair_views(r@) == pairs_of(run_views(input@)),
            r@.len() > 0,
    {
        let pairs = RunPair::vec_from_runs(input.as_slice());
        assert(pair_views(pairs@).len() == pairs@.len());
        pairs
    }
}

/// A list of outcomes that is not empty has a run.
pub proof fn lemma_runs_not_empty(s: Seq<Outcome>)
    requires
        s.len() > 0,
    ensures
        runs_of(s).len() > 0,
{
}

} // verus!
