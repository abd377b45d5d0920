//! A return-address stack (RAS) predictor.

use std::collections::VecDeque;
use vstd::prelude::*;

use crate::branch::{BranchKind, BranchRecord};

verus! {

/// A simulated return-address stack (RAS) predictor [with unlimited capacity].
pub struct UnboundedRAS {
    /// Storage for return addresses
    stack: VecDeque<usize>,
    /// Running total of mispredictions
    miss: usize,
    /// Maximum observed stack depth
    max_size: usize,
}

/// What an [`UnboundedRAS`] holds.
pub struct RasView {
    /// The return addresses, the youngest last
    pub stack: Seq<usize>,
    /// Running total of mispredictions
    pub miss: usize,
    /// Maximum observed stack depth
    pub max_size: usize,
}

impl RasView {
    /// The stack with `return_addr` on top.
    pub open spec fn pushed(self, return_addr: usize) -> RasView {
        RasView {
            stack: self.stack.push(return_addr),
            max_size: if self.stack.len() + 1 > self.max_size {
                (self.stack.len() + 1) as usize
            } else {
                self.max_size
            },
            ..self
        }
    }

    /// The stack after a return to `tgt`: the youngest address is taken
    /// off, and counts as a misprediction if it is not `tgt`.
    pub open spec fn returned(self, tgt: usize) -> RasView {
        RasView {
            stack: self.stack.drop_last(),
            miss: if self.stack.last() != tgt {
                (self.miss + 1) as usize
            } else {
                self.miss
            },
            ..self
        }
    }

    /// The stack after the call or return that `record` holds; `None` for a
    /// record of another kind, a call whose return address no machine word
    /// holds, and a return that finds the stack empty.
    pub open spec fn stepped(self, record: BranchRecord) -> Option<RasView> {
        match record.flags.spec_kind() {
            Some(BranchKind::DirectCall) | Some(BranchKind::IndirectCall) => {
                if record.pc + record.flags.spec_ilen() <= usize::MAX {
                    Some(self.pushed((record.pc + record.flags.spec_ilen()) as usize))
                } else {
                    None
                }
            },
            Some(BranchKind::Return) => {
                if self.stack.len() > 0 {
                    Some(self.returned(record.tgt))
                } else {
                    None
                }
            },
            _ => None,
        }
    }

    /// The stack after the calls and returns among the first `n` records;
    /// `None` where one of them cannot be taken up.
    pub open spec fn replayed(self, records: Seq<BranchRecord>, n: int) -> Option<RasView>
        decreases n,
    {
        if n <= 0 {
            Some(self)
        } else {
            match self.replayed(records, n - 1) {
                None => None,
                Some(before) => {
                    let record = records[n - 1];
                    if record.flags.has(crate::branch::CALL_FLAG) || record.flags.has(
                        crate::branch::RET_FLAG,
                    ) {
                        before.stepped(record)
                    } else {
                        Some(before)
                    }
                },
            }
        }
    }
}

impl View for UnboundedRAS {
    type V = RasView;

    closed spec fn view(&self) -> RasView {
        RasView { stack: self.stack@, miss: self.miss, max_size: self.max_size }
    }
}

impl UnboundedRAS {
    /// Make an empty stack.
    pub fn new() -> (r: Self)
        ensures
            r@ == (RasView { stack: Seq::empty(), miss: 0, max_size: 0 }),
    {
        Self { stack: VecDeque::new(), miss: 0, max_size: 0 }
    }

    /// Push a return address onto the stack
    pub fn push(&mut self, return_addr: usize)
        ensures
            final(self)@ == old(self)@.pushed(return_addr),
    {
        self.stack.push_back(return_addr);
        if self.stack.len() > self.max_size {
            self.max_size = self.stack.len();
        }
    }

    /// Remove the youngest element from the stack
    pub fn pop(&mut self) -> (r: Option<usize>)
        ensures
            old(self)@.stack.len() == 0 ==> r is None && final(self)@ == old(self)@,
            old(self)@.stack.len() > 0 ==> r == Some(old(self)@.stack.last()) && final(self)@ == (
            RasView { stack: old(self)@.stack.drop_last(), ..old(self)@ }),
    {
        self.stack.pop_back()
    }

    /// Return the program counter of the youngest element on the stack
    pub fn predict(&self) -> (r: Option<usize>)
        ensures
            r == (if self@.stack.len() > 0 {
                Some(self@.stack.last())
            } else {
                None
            }),
    {
        let n = self.stack.len();
        if n > 0 {
            Some(self.stack[n - 1])
        } else {
            None
        }
    }

    /// Register a misprediction
    pub fn inc_miss(&mut self)
        requires
            old(self)@.miss < usize::MAX,
        ensures
            final(self)@ == (RasView { miss: (old(self)@.miss + 1) as usize, ..old(self)@ }),
    {
        self.miss = self.miss + 1;
    }

    /// Return the running total of mispredictions.
    pub fn misses(&self) -> (r: usize)
        ensures
            r == self@.miss,
    {
        self.miss
    }

    /// Return the maximum observed stack depth.
    pub fn max_depth(&self) -> (r: usize)
        ensures
            r == self@.max_size,
    {
        self.max_size
    }

    /// Take up one call or return: a call pushes its return address, and
    /// a return is checked against the youngest address, which it takes off.
    /// Returns `false`, and leaves the stack alone, where the record cannot
    /// be taken up.
    pub fn step(&mut self, record: &BranchRecord) -> (r: bool)
        requires
            old(self)@.miss < usize::MAX,
        ensures
            r == old(self)@.stepped(*record) is Some,
            r ==> Some(final(self)@) == old(self)@.stepped(*record),
            !r ==> final(self)@ == old(self)@,
    {
        match record.kind() {
            // When we encounter a CALL, compute the return address and
            // push it onto the RAS
            Some(BranchKind::DirectCall) | Some(BranchKind::IndirectCall) => {
                let ilen = record.ilen();
                if record.pc > usize::MAX - ilen {
                    return false;
                }
                let return_addr = record.pc + ilen;
                self.push(return_addr);
                true
            },
            // When we encounter a RET, check the resolved target against
            // the predicted return address [and remove it from the stack]
            Some(BranchKind::Return) => {
                match self.predict() {
                    Some(return_addr) => {
                        let miss = return_addr != record.tgt;
                        if miss {
                            self.inc_miss();
                        }
                        self.pop();
                        true
                    },
                    None => false,
                }
            },
            _ => false,
        }
    }

    /// Take up the calls and returns among `records`, in their order.
    /// Returns `false` at the first that cannot be taken up, and keeps what
    /// the records before it have left.
    pub fn replay(&mut self, records: &Vec<BranchRecord>) -> (r: bool)
        requires
            old(self)@.miss + records@.len() <= usize::MAX,
        ensures
            r == old(self)@.replayed(records@, records@.len() as int) is Some,
            r ==> Some(final(self)@) == old(self)@.replayed(records@, records@.len() as int),
            !r ==> exists|n: int|
                {
                    &&& 0 <= n < records@.len()
                    &&& #[trigger] old(self)@.replayed(records@, n) == Some(final(self)@)
                    &&& old(self)@.replayed(records@, n + 1) is None
                },
    {
        let n = records.len();
        let mut i: usize = 0;
        while i < n
            invariant
                i <= n,
                n == records@.len(),
                old(self)@.miss + n <= usize::MAX,
                self@.miss <= old(self)@.miss + i,
                Some(self@) == old(self)@.replayed(records@, i as int),
            decreases n - i,
        {
            let record = &records[i];
            if record.is_procedural() {
                if !self.step(record) {
                    proof {
                        lemma_replay_stays_failed(old(self)@, records@, i + 1, n as int);
                    }
                    return false;
                }
            }
            i = i + 1;
        }
        true
    }
}

/// A replay that has failed stays failed.
pub proof fn lemma_replay_stays_failed(view: RasView, records: Seq<BranchRecord>, m: int, n: int)
    requires
        0 <= m <= n,
        view.replayed(records, m) is None,
    ensures
        view.replayed(records, n) is None,
    decreases n - m,
{
    if m < n {
        lemma_replay_stays_failed(view, records, m, n - 1);
    }
}

} // verus!
