//! Runs of branch outcomes.

use vstd::prelude::*;

use crate::branch::Outcome;

verus! {

/// Describes a repeating sequence of outcomes.
#[derive(Debug, Hash)]
pub struct Run {
    /// The number of times this sequence is repeated.
    cnt: usize,
    /// The repeating sequence.
    data: Vec<Outcome>,
}

/// What a [`Run`] holds.
pub struct RunView {
    /// The number of times the sequence is repeated.
    pub cnt: usize,
    /// The repeating sequence.
    pub data: Seq<Outcome>,
}

impl View for Run {
    type V = RunView;

    closed spec fn view(&self) -> RunView {
        RunView { cnt: self.cnt, data: self.data@ }
    }
}

impl Clone for Run {
    fn clone(&self) -> (r: Self)
        ensures
            r@ == self@,
    {
        let mut data: Vec<Outcome> = Vec::new();
        let mut i: usize = 0;
        while i < self.data.len()
            invariant
                i <= self.data@.len(),
                data@ == self.data@.take(i as int),
            decreases self.data@.len() - i,
        {
            data.push(self.data[i]);
            assert(self.data@.take(i + 1) == self.data@.take(i as int).push(self.data@[i as int]));
            i = i + 1;
        }
        assert(self.data@.take(self.data@.len() as int) == self.data@);
        Run { cnt: self.cnt, data }
    }
}

impl Run {
    /// Make the run that repeats `data` `cnt` times.
    pub fn new(cnt: usize, data: Vec<Outcome>) -> (r: Self)
        requires
            cnt != 0,
        ensures
            r@ == (RunView { cnt, data: data@ }),
    {
        Self { cnt, data }
    }

    /// Return the length of the repeating sequence.
    pub fn len(&self) -> (r: usize)
        ensures
            r == self@.data.len(),
    {
        self.data.len()
    }

    /// Return the number of times that the sequence is repeated.
    pub fn count(&self) -> (r: usize)
        ensures
            r == self@.cnt,
    {
        self.cnt
    }

    /// Return the repeating sequence.
    pub fn data(&self) -> (r: &Vec<Outcome>)
        ensures
            r@ == self@.data,
    {
        &self.data
    }

    /// Return the number of outcomes that the run stands for.
    pub fn total_len(&self) -> (r: usize)
        requires
            self@.data.len() * self@.cnt <= usize::MAX,
        ensures
            r == self@.data.len() * self@.cnt,
    {
        self.len() * self.cnt
    }

    /// Tell whether two runs repeat the same sequence as often.
    pub fn same(&self, other: &Run) -> (r: bool)
        ensures
            r == (self@ == other@),
    {
        if self.cnt != other.cnt || self.data.len() != other.data.len() {
            return false;
        }
        let mut i: usize = 0;
        while i < self.data.len()
            invariant
                i <= self.data@.len(),
                self.data@.len() == other.data@.len(),
                self.cnt == other.cnt,
                forall|j: int| 0 <= j < i ==> self.data@[j] == other.data@[j],
            decreases self.data@.len() - i,
        {
            if self.data[i] != other.data[i] {
                return false;
            }
            i = i + 1;
        }
        assert(self.data@ =~= other.data@);
        true
    }

    /// Cut a list of outcomes into runs: each run holds one outcome, as
    /// often as it follows itself in the list.
    pub fn new_vec(input: &[Outcome]) -> (r: Vec<Self>)
        requires
            input@.len() > 0,
        ensures
            run_views(r@) == runs_of(input@),
    {
        let mut res: Vec<Run> = Vec::new();
        let mut cur = input[0];
        let mut cnt: usize = 0;
        let mut i: usize = 0;
        while i < input.len()
            invariant
                i <= input@.len(),
                input@.len() > 0,
                cnt <= i,
                i == 0 ==> cnt == 0 && cur == input@[0] && res@.len() == 0,
                i > 0 ==> cnt > 0 && runs_of(input@.take(i as int)) == run_views(res@).push(
                    single(cur, cnt),
                ),
            decreases input@.len() - i,
        {
            let x = input[i];
            proof {
                assert(input@.take(i + 1).drop_last() == input@.take(i as int));
                assert(input@.take(i + 1).last() == x);
            }
            let ghost sofar = runs_of(input@.take(i as int));
            let ghost longer = runs_of(input@.take(i + 1));
            if x != cur {
                let ghost before = run_views(res@);
                let data = vec![cur];
                assert(data@ =~= seq![cur]);
                res.push(Self::new(cnt, data));
                assert(run_views(res@) =~= before.push(single(cur, cnt)));
                proof {
                    assert(i > 0);
                    assert(sofar.last().data[0] == cur);
                    assert(seq![x][0] == x);
                    assert(sofar.last().data != seq![x]);
                    assert(longer == sofar.push(single(x, 1)));
                }
                cur = x;
                cnt = 1;
            } else {
                proof {
                    if i == 0 {
                        assert(input@.take(0).len() == 0);
                        assert(sofar.len() == 0);
                        assert(longer == sofar.push(single(x, 1)));
                        assert(run_views(res@) =~= Seq::<RunView>::empty());
                        assert(longer =~= run_views(res@).push(single(x, 1)));
                    } else {
                        assert(sofar.last() == single(cur, cnt));
                        assert(sofar.drop_last() =~= run_views(res@));
                        assert(longer == sofar.drop_last().push(single(x, (cnt + 1) as usize)));
                    }
                }
                cnt = cnt + 1;
            }
            i = i + 1;
        }
        let ghost before = run_views(res@);
        let data = vec![cur];
        assert(data@ =~= seq![cur]);
        res.push(Self::new(cnt, data));
        proof {
            assert(input@.take(input@.len() as int) == input@);
            assert(run_views(res@) =~= before.push(single(cur, cnt)));
        }
        res
    }
}

/// The run that repeats the one outcome `outcome` `cnt` times.
pub open spec fn single(outcome: Outcome, cnt: usize) -> RunView {
    RunView { cnt, data: seq![outcome] }
}

/// The views of a list of runs.
pub open spec fn run_views(runs: Seq<Run>) -> Seq<RunView> {
    runs.map_values(|r: Run| r@)
}

/// The runs of a list of outcomes: the list is read from its start, and an
/// outcome that follows itself makes its run longer, while another begins
/// a new run.
pub open spec fn runs_of(s: Seq<Outcome>) -> Seq<RunView>
    decreases s.len(),
{
    if s.len() == 0 {
        Seq::empty()
    } else {
        let before = runs_of(s.drop_last());
        if before.len() > 0 && before.last().data == seq![s.last()] {
            before.drop_last().push(single(s.last(), (before.last().cnt + 1) as usize))
        } else {
            before.push(single(s.last(), 1))
        }
    }
}

/// A pair of [`Run`].
#[derive(Debug, Hash)]
pub struct RunPair {
    head: Run,
    tail: Run,
}

impl View for RunPair {
    type V = (RunView, RunView);

    closed spec fn view(&self) -> (RunView, RunView) {
        (self.head@, self.tail@)
    }
}

impl Clone for RunPair {
    fn clone(&self) -> (r: Self)
        ensures
            r@ == self@,
    {
        RunPair { head: self.head.clone(), tail: self.tail.clone() }
    }
}

/// The views of a list of pairs of runs.
pub open spec fn pair_views(pairs: Seq<RunPair>) -> Seq<(RunView, RunView)> {
    pairs.map_values(|p: RunPair| p@)
}

/// The runs of a list, two by two; a last run without a partner is left
/// out.
pub open spec fn pairs_of(runs: Seq<RunView>) -> Seq<(RunView, RunView)> {
    Seq::new(runs.len() / 2, |i: int| (runs[2 * i], runs[2 * i + 1]))
}

impl RunPair {
    /// Make the pair of two runs.
    pub fn new(head: Run, tail: Run) -> (r: Self)
        ensures
            r@ == (head@, tail@),
    {
        Self { head, tail }
    }

    /// Return the first run of the pair.
    pub fn head(&self) -> (r: &Run)
        ensures
            r@ == self@.0,
    {
        &self.head
    }

    /// Return the second run of the pair.
    pub fn tail(&self) -> (r: &Run)
        ensures
            r@ == self@.1,
    {
        &self.tail
    }

    /// Tell whether two pairs hold the same runs.
    pub fn same(&self, other: &RunPair) -> (r: bool)
        ensures
            r == (self@ == other@),
    {
        self.head.same(&other.head) && self.tail.same(&other.tail)
    }

    /// Pair the runs of a list two by two; a last run without a partner is
    /// left out.
    pub fn vec_from_runs(input: &[Run]) -> (r: Vec<Self>)
        ensures
            pair_views(r@) == pairs_of(run_views(input@)),
    {
        let mut res: Vec<RunPair> = Vec::new();
        let n = input.len() / 2;
        let mut i: usize = 0;
        while i < n
            invariant
                i <= n,
                n == input@.len() / 2,
                input@.len() <= usize::MAX,
                res@.len() == i,
                forall|j: int|
                    0 <= j < i ==> (#[trigger] res@[j])@ == (input@[2 * j]@, input@[2 * j + 1]@),
            decreases n - i,
        {
            assert(2 * i + 1 < input@.len());
            res.push(RunPair::new(input[2 * i].clone(), input[2 * i + 1].clone()));
            i = i + 1;
        }
        assert(pair_views(res@) =~= pairs_of(run_views(input@)));
        res
    }
}

} // verus!
