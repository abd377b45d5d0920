//! Tools for analyzing traces and branch behavior.

use vstd::prelude::*;

pub mod classify;
pub mod compression;
pub mod runlength;
pub mod stats;

use crate::analysis::classify::BranchClass;
use crate::analysis::runlength::{pair_views, pairs_of, run_views, runs_of, Run, RunPair};
use crate::bits::{lemma_ones, max_bits, ones, Bits};
use crate::branch::Outcome;

verus! {

/// `s` is its first `p` items, over and over: `p` divides the length of
/// `s`, and each item is the item `p` places before it.
pub open spec fn repeats<A>(s: Seq<A>, p: int) -> bool {
    &&& 0 < p
    &&& s.len() % (p as nat) == 0
    &&& forall|i: int| 0 <= i < s.len() ==> #[trigger] s[i] == s[i % p]
}

/// The least length from `from` on, and below half the length of `s`, of a
/// pattern that `s` repeats.
pub open spec fn pattern_len<A>(s: Seq<A>, from: int) -> Option<int>
    decreases s.len() / 2 - from,
{
    if from < 1 || from >= s.len() / 2 {
        None
    } else if repeats(s, from) {
        Some(from)
    } else {
        pattern_len(s, from + 1)
    }
}

/// Every bit is as the first.
pub open spec fn uniform(bits: Seq<bool>) -> bool {
    forall|i: int| 0 <= i < bits.len() ==> #[trigger] bits[i] == bits[0]
}

/// The outcomes that a list of bits stands for.
pub open spec fn outcomes_of(bits: Seq<bool>) -> Seq<Outcome> {
    bits.map_values(|b: bool| Outcome::of_bit(b))
}

/// A bitvector storing a set of branch outcomes.
pub struct BranchOutcomes {
    pub data: Bits,
}

impl View for BranchOutcomes {
    type V = Seq<bool>;

    open spec fn view(&self) -> Seq<bool> {
        self.data@
    }
}

impl BranchOutcomes {
    /// Make an empty list of outcomes.
    pub fn new() -> (r: Self)
        ensures
            r@.len() == 0,
    {
        Self { data: Bits::new() }
    }

    /// Return the number of outcomes.
    pub fn len(&self) -> (r: usize)
        ensures
            r == self@.len(),
    {
        self.data.len()
    }

    /// Add an outcome to the list.
    pub fn push(&mut self, outcome: Outcome)
        requires
            old(self)@.len() < max_bits(),
        ensures
            final(self)@ == old(self)@.push(outcome.bit()),
    {
        self.data.push(outcome.into());
    }

    /// Return a reference to the underlying bits.
    pub fn as_bitvec(&self) -> (r: &Bits)
        ensures
            r@ == self@,
    {
        &self.data
    }

    /// Return a reference to the underlying bits.
    pub fn as_bitslice(&self) -> (r: &Bits)
        ensures
            r@ == self@,
    {
        &self.data
    }

    /// Return a mutable reference to the underlying bits.
    pub fn bitvec_mut(&mut self) -> (r: &mut Bits)
        ensures
            r@ == old(self)@,
            final(self)@ == final(r)@,
    {
        &mut self.data
    }

    /// Returns `Some(outcome)` when all outcomes are the same.
    pub fn is_static(&self) -> (r: Option<Outcome>)
        requires
            self@.len() > 0,
        ensures
            r == (if uniform(self@) {
                Some(Outcome::of_bit(self@[0]))
            } else {
                None
            }),
    {
        let first = self.data.get(0);
        let n = self.data.len();
        let mut i: usize = 0;
        while i < n
            invariant
                i <= n,
                n == self@.len(),
                first == self@[0],
                forall|j: int| 0 <= j < i ==> #[trigger] self@[j] == self@[0],
            decreases n - i,
        {
            if self.data.get(i) != first {
                return None;
            }
            i = i + 1;
        }
        Some(Outcome::from_bool(first))
    }

    /// Returns true when all outcomes are "taken".
    pub fn is_always_taken(&self) -> (r: bool)
        ensures
            r == forall|i: int| 0 <= i < self@.len() ==> self@[i],
    {
        proof {
            lemma_ones(self@);
        }
        self.data.count_ones() == self.data.len()
    }

    /// Returns true when all outcomes are "not-taken".
    pub fn is_never_taken(&self) -> (r: bool)
        ensures
            r == forall|i: int| 0 <= i < self@.len() ==> !self@[i],
    {
        proof {
            lemma_ones(self@);
        }
        self.data.count_zeros() == self.data.len()
    }

    /// Returns the number of "taken" outcomes.
    pub fn num_taken(&self) -> (r: usize)
        ensures
            r == ones(self@),
    {
        self.data.count_ones()
    }

    /// Returns the number of "not-taken" outcomes.
    pub fn num_not_taken(&self) -> (r: usize)
        ensures
            r == self@.len() - ones(self@),
    {
        self.data.count_zeros()
    }

    /// List the outcomes.
    pub fn into_outcomes(&self) -> (r: Vec<Outcome>)
        ensures
            r@ == outcomes_of(self@),
    {
        Outcome::vec_from_bitvec(&self.data)
    }

    /// Cut the outcomes into runs.
    pub fn into_runs(&self) -> (r: Vec<Run>)
        requires
            self@.len() > 0,
        ensures
            run_views(r@) == runs_of(outcomes_of(self@)),
    {
        let outcomes = self.into_outcomes();
        Run::new_vec(outcomes.as_slice())
    }

    /// Cut the outcomes into runs, and pair the runs two by two.
    pub fn into_pairs(&self) -> (r: Vec<RunPair>)
        requires
            self@.len() > 0,
        ensures
            pair_views(r@) == pairs_of(runs_of(outcomes_of(self@))),
    {
        let runs = self.into_runs();
        RunPair::vec_from_runs(runs.as_slice())
    }

    /// Try to find the shortest pattern, from the bit at `start` on, that
    /// perfectly divides the rest of the outcomes.
    fn uniform_pattern_from(&self, start: usize) -> (r: Option<Vec<Outcome>>)
        requires
            start <= self@.len(),
        ensures
            match pattern_len(self@.skip(start as int), 1) {
                Some(p) => r matches Some(pattern) && pattern@ == outcomes_of(
                    self@.skip(start as int).take(p),
                ),
                None => r is None,
            },
    {
        let total = self.data.len();
        let len = total - start;
        let ghost window = self@.skip(start as int);
        let mut pattern_len: usize = 1;
        while pattern_len < len / 2
            invariant
                1 <= pattern_len,
                start <= total,
                total == self@.len(),
                len == total - start,
                window == self@.skip(start as int),
                crate::analysis::pattern_len(window, 1) == crate::analysis::pattern_len(
                    window,
                    pattern_len as int,
                ),
            decreases len / 2 - pattern_len,
        {
            if len % pattern_len == 0 {
                let mut uniform = true;
                let mut i: usize = 0;
                while i < len
                    invariant
                        i <= len,
                        0 < pattern_len < len,
                        start <= total,
                        len == total - start,
                        total == self@.len(),
                        window == self@.skip(start as int),
                        uniform ==> forall|j: int|
                            0 <= j < i ==> #[trigger] window[j] == window[j % (pattern_len as int)],
                        !uniform ==> !repeats(window, pattern_len as int),
                    decreases len - i,
                {
                    if self.data.get(start + i) != self.data.get(start + i % pattern_len) {
                        assert(window[i as int] != window[(i % pattern_len) as int]);
                        uniform = false;
                    }
                    i = i + 1;
                }
                if uniform {
                    assert(repeats(window, pattern_len as int));
                    let mut pattern: Vec<Outcome> = Vec::new();
                    let mut k: usize = 0;
                    while k < pattern_len
                        invariant
                            k <= pattern_len <= len,
                            start <= total,
                            len == total - start,
                            total == self@.len(),
                            window == self@.skip(start as int),
                            pattern@ == outcomes_of(window.take(k as int)),
                        decreases pattern_len - k,
                    {
                        pattern.push(Outcome::from_bool(self.data.get(start + k)));
                        assert(outcomes_of(window.take(k + 1)) =~= outcomes_of(
                            window.take(k as int),
                        ).push(Outcome::of_bit(window[k as int])));
                        k = k + 1;
                    }
                    return Some(pattern);
                }
            } else {
                assert(!repeats(window, pattern_len as int));
            }
            pattern_len = pattern_len + 1;
        }
        None
    }

    /// Try to find the shortest pattern that perfectly divides the
    /// entire set of outcomes.
    pub fn has_uniform_pattern(&self) -> (r: Option<Vec<Outcome>>)
        ensures
            match pattern_len(self@, 1) {
                Some(p) => r matches Some(pattern) && pattern@ == outcomes_of(self@.take(p)),
                None => r is None,
            },
    {
        assert(self@.skip(0) == self@);
        self.uniform_pattern_from(0)
    }

    /// Try to find the shortest pattern that perfectly divides the
    /// outcomes behind the first.
    pub fn has_uniform_pattern_prefixed(&self) -> (r: Option<Vec<Outcome>>)
        requires
            self@.len() > 0,
        ensures
            match pattern_len(self@.skip(1), 1) {
                Some(p) => r matches Some(pattern) && pattern@ == outcomes_of(
                    self@.skip(1).take(p),
                ),
                None => r is None,
            },
    {
        self.uniform_pattern_from(1)
    }
}

/// Simple container for per-branch statistics.
pub struct BranchData {
    /// Number of times this branch was encountered.
    pub occ: usize,
    /// Number of correct predictions for this branch.
    pub hits: usize,
    /// Record of all observed outcomes for this branch.
    pub outcomes: BranchOutcomes,
}

/// How a branch with the given outcomes has behaved.
pub enum Behavior {
    /// The outcome is always the same.
    Static(Outcome),
    /// The runs of outcomes, taken two by two, repeat the pattern of this
    /// many pairs.
    Uniform(int),
    /// Nothing is known.
    Unknown,
}

/// How a branch with the outcomes that `bits` stands for has behaved.
pub open spec fn behavior_of(bits: Seq<bool>) -> Behavior {
    if uniform(bits) {
        Behavior::Static(Outcome::of_bit(bits[0]))
    } else {
        match pattern_len(pairs_of(runs_of(outcomes_of(bits))), 1) {
            Some(p) => Behavior::Uniform(p),
            None => Behavior::Unknown,
        }
    }
}

impl BranchData {
    /// Make the statistics of a branch that was not met yet.
    pub fn new() -> (r: Self)
        ensures
            r.occ == 0,
            r.hits == 0,
            r.outcomes@.len() == 0,
    {
        Self { occ: 0, hits: 0, outcomes: BranchOutcomes::new() }
    }

    /// Try to find the shortest pattern of pairs that perfectly divides
    /// the list of pairs.
    pub fn has_uniform_runs(pairs: &[RunPair]) -> (r: Option<Vec<RunPair>>)
        ensures
            match pattern_len(pair_views(pairs@), 1) {
                Some(p) => r matches Some(pattern) && pair_views(pattern@) == pair_views(
                    pairs@,
                ).take(p),
                None => r is None,
            },
    {
        let len = pairs.len();
        let ghost window = pair_views(pairs@);
        let mut pattern_len: usize = 1;
        while pattern_len < len / 2
            invariant
                1 <= pattern_len,
                len == pairs@.len(),
                window == pair_views(pairs@),
                crate::analysis::pattern_len(window, 1) == crate::analysis::pattern_len(
                    window,
                    pattern_len as int,
                ),
            decreases len / 2 - pattern_len,
        {
            if len % pattern_len == 0 {
                let mut uniform = true;
                let mut i: usize = 0;
                while i < len
                    invariant
                        i <= len,
                        0 < pattern_len < len,
                        len == pairs@.len(),
                        window == pair_views(pairs@),
                        uniform ==> forall|j: int|
                            0 <= j < i ==> #[trigger] window[j] == window[j % (pattern_len as int)],
                        !uniform ==> !repeats(window, pattern_len as int),
                    decreases len - i,
                {
                    if !pairs[i].same(&pairs[i % pattern_len]) {
                        assert(window[i as int] != window[(i % pattern_len) as int]);
                        uniform = false;
                    }
                    i = i + 1;
                }
                if uniform {
                    assert(repeats(window, pattern_len as int));
                    let mut pattern: Vec<RunPair> = Vec::new();
                    let mut k: usize = 0;
                    while k < pattern_len
                        invariant
                            k <= pattern_len <= len,
                            len == pairs@.len(),
                            window == pair_views(pairs@),
                            pair_views(pattern@) == window.take(k as int),
                        decreases pattern_len - k,
                    {
                        let ghost before = pair_views(pattern@);
                        pattern.push(pairs[k].clone());
                        assert(pair_views(pattern@) =~= before.push(window[k as int]));
                        assert(window.take(k + 1) =~= window.take(k as int).push(window[k as int]));
                        k = k + 1;
                    }
                    return Some(pattern);
                }
            } else {
                assert(!repeats(window, pattern_len as int));
            }
            pattern_len = pattern_len + 1;
        }
        None
    }

    /// Classify this branch using the observed outcomes.
    pub fn classify(&self) -> (r: BranchClass)
        requires
            self.outcomes@.len() > 0,
        ensures
            match behavior_of(self.outcomes@) {
                Behavior::Static(outcome) => r matches BranchClass::Static(o) && o == outcome,
                Behavior::Uniform(p) => r matches BranchClass::UniformPattern(pattern)
                    && pair_views(pattern@) == pairs_of(runs_of(outcomes_of(self.outcomes@))).take(
                    p,
                ),
                Behavior::Unknown => r is Unknown,
            },
    {
        // The outcome is always the same
        if let Some(outcome) = self.outcomes.is_static() {
            return BranchClass::Static(outcome);
        }
        let pairs = self.outcomes.into_pairs();
        if let Some(pattern) = Self::has_uniform_runs(pairs.as_slice()) {
            return BranchClass::UniformPattern(pattern);
        }
        BranchClass::Unknown
    }
}

} // verus!
