//! Helpers for collecting statistics.

use std::collections::BTreeMap;
use vstd::prelude::*;
use vstd::std_specs::btree::group_btree_axioms;
use vstd::std_specs::iter::IteratorSpec;

use crate::analysis::BranchData;
use crate::bits::max_bits;
use crate::branch::{BranchRecord, Outcome};

verus! {

broadcast use group_btree_axioms;

/// The number of items among the first `n` of `s` of which `f` holds.
pub open spec fn count_of(s: Seq<usize>, f: spec_fn(usize) -> bool, n: int) -> nat
    decreases n,
{
    if n <= 0 {
        0
    } else {
        count_of(s, f, n - 1) + if f(s[n - 1]) {
            1nat
        } else {
            0nat
        }
    }
}

/// In a list without duplicates, as many items satisfy `f` as the set of
/// its items holds members that do.
pub proof fn lemma_count_of(s: Seq<usize>, f: spec_fn(usize) -> bool)
    requires
        s.no_duplicates(),
    ensures
        count_of(s, f, s.len() as int) == s.to_set().filter(f).len(),
        s.to_set().finite(),
    decreases s.len(),
{
    vstd::seq_lib::seq_to_set_is_finite(s);
    if s.len() == 0 {
        assert(s.to_set().filter(f) =~= Set::<usize>::empty());
    } else {
        let rest = s.drop_last();
        let x = s.last();
        lemma_count_of(rest, f);
        lemma_count_prefix(s, rest, f, rest.len() as int);
        assert(!rest.to_set().contains(x)) by {
            if rest.to_set().contains(x) {
                let i = choose|i: int| 0 <= i < rest.len() && rest[i] == x;
                assert(s[i] == s[s.len() - 1]);
            }
        }
        assert(s.to_set() =~= rest.to_set().insert(x)) by {
            assert forall|y: usize| s.to_set().contains(y) implies rest.to_set().insert(
                x,
            ).contains(y) by {
                let i = choose|i: int| 0 <= i < s.len() && s[i] == y;
                if i < rest.len() {
                    assert(rest[i] == y);
                }
            }
            assert forall|y: usize| rest.to_set().insert(x).contains(y) implies s.to_set().contains(
                y,
            ) by {
                if y == x {
                    assert(s[s.len() - 1] == y);
                } else {
                    let i = choose|i: int| 0 <= i < rest.len() && rest[i] == y;
                    assert(s[i] == y);
                }
            }
        }
        if f(x) {
            assert(s.to_set().filter(f) =~= rest.to_set().filter(f).insert(x));
        } else {
            assert(s.to_set().filter(f) =~= rest.to_set().filter(f));
        }
        vstd::seq_lib::seq_to_set_is_finite(rest);
    }
}

/// A count reads no more of a list than it is told to.
pub proof fn lemma_count_prefix(s: Seq<usize>, t: Seq<usize>, f: spec_fn(usize) -> bool, n: int)
    requires
        0 <= n <= s.len(),
        n <= t.len(),
        forall|i: int| 0 <= i < n ==> s[i] == t[i],
    ensures
        count_of(s, f, n) == count_of(t, f, n),
    decreases n,
{
    if n > 0 {
        lemma_count_prefix(s, t, f, n - 1);
    }
}

/// `BTreeMap::get_mut` returns a mutable reference to the value that
/// belongs to a key, or `None` where the map has no such key. Nothing but
/// that value can change through the reference.
#[verifier::external_body]
fn value_mut(map: &mut BTreeMap<usize, BranchData>, pc: usize) -> (r: Option<&mut BranchData>)
    ensures
        match r {
            Some(data) => {
                &&& old(map)@.contains_key(pc)
                &&& *data == old(map)@[pc]
                &&& final(map)@ == old(map)@.insert(pc, *final(data))
            },
            None => !old(map)@.contains_key(pc) && final(map)@ == old(map)@,
        },
{
    map.get_mut(&pc)
}

/// Container for recording simple statistics while iterating over a trace.
pub struct BranchStats {
    /// Per-branch data (indexed by program counter value)
    pub data: BTreeMap<usize, BranchData>,
    /// Number of correct predictions
    pub global_hits: usize,
    /// Number of times any branch instruction was executed
    pub global_brns: usize,
}

impl BranchStats {
    /// Make statistics that have counted nothing.
    pub fn new() -> (r: Self)
        ensures
            r.data@ == Map::<usize, BranchData>::empty(),
            r.global_hits == 0,
            r.global_brns == 0,
    {
        Self { data: BTreeMap::new(), global_hits: 0, global_brns: 0 }
    }

    /// Return the global hit count.
    pub fn global_hits(&self) -> (r: usize)
        ensures
            r == self.global_hits,
    {
        self.global_hits
    }

    /// Return the global miss count.
    pub fn global_miss(&self) -> (r: usize)
        requires
            self.global_hits <= self.global_brns,
        ensures
            r == self.global_brns - self.global_hits,
    {
        self.global_brns - self.global_hits
    }

    /// Return the total branch count.
    pub fn global_brns(&self) -> (r: usize)
        ensures
            r == self.global_brns,
    {
        self.global_brns
    }

    /// Update global statistics.
    pub fn update_global(&mut self, record: &BranchRecord, outcome: Outcome)
        requires
            old(self).global_hits <= old(self).global_brns < usize::MAX,
        ensures
            final(self).data == old(self).data,
            final(self).global_brns == old(self).global_brns + 1,
            final(self).global_hits == old(self).global_hits + if outcome
                == record.flags.spec_outcome() {
                1int
            } else {
                0int
            },
    {
        let hit = outcome == record.outcome();
        self.global_brns = self.global_brns + 1;
        if hit {
            self.global_hits = self.global_hits + 1;
        }
    }

    /// Returns a reference to data collected for a particular branch.
    pub fn get(&self, pc: usize) -> (r: Option<&BranchData>)
        ensures
            match r {
                Some(data) => self.data@.contains_key(pc) && *data == self.data@[pc],
                None => !self.data@.contains_key(pc),
            },
    {
        self.data.get(&pc)
    }

    /// Returns a mutable reference to data collected for a particular branch.
    /// Creates a new entry if one doesn't already exist.
    pub fn get_mut(&mut self, pc: usize) -> (r: &mut BranchData)
        ensures
            old(self).data@.contains_key(pc) ==> *r == old(self).data@[pc],
            !old(self).data@.contains_key(pc) ==> r.occ == 0 && r.hits == 0 && r.outcomes@.len()
                == 0,
            final(self).data@ == old(self).data@.insert(pc, *final(r)),
            final(self).global_hits == old(self).global_hits,
            final(self).global_brns == old(self).global_brns,
    {
        if !self.data.contains_key(&pc) {
            self.data.insert(pc, BranchData::new());
        }
        value_mut(&mut self.data, pc).unwrap()
    }

    /// Update per-branch statistics.
    pub fn update_per_branch(&mut self, record: &BranchRecord, outcome: Outcome)
        requires
            old(self).data@.contains_key(record.pc) ==> {
                &&& old(self).data@[record.pc].occ < usize::MAX
                &&& old(self).data@[record.pc].hits < usize::MAX
                &&& old(self).data@[record.pc].outcomes@.len() < max_bits()
            },
        ensures
            final(self).global_hits == old(self).global_hits,
            final(self).global_brns == old(self).global_brns,
            final(self).data@.dom() == old(self).data@.dom().insert(record.pc),
            forall|pc: usize|
                pc != record.pc && old(self).data@.contains_key(pc) ==> final(self).data@[pc]
                    == old(self).data@[pc],
            ({
                let after = final(self).data@[record.pc];
                let hit = if outcome == record.flags.spec_outcome() {
                    1int
                } else {
                    0int
                };
                if old(self).data@.contains_key(record.pc) {
                    let before = old(self).data@[record.pc];
                    &&& after.occ == before.occ + 1
                    &&& after.hits == before.hits + hit
                    &&& after.outcomes@ == before.outcomes@.push(outcome.bit())
                } else {
                    &&& after.occ == 1
                    &&& after.hits == hit
                    &&& after.outcomes@ == seq![outcome.bit()]
                }
            }),
    {
        let hit = outcome == record.outcome();
        let data = self.get_mut(record.pc);
        data.occ = data.occ + 1;
        data.outcomes.push(outcome);
        if hit {
            data.hits = data.hits + 1;
        }
    }

    /// The branches that were met exactly once.
    pub open spec fn met_once(&self) -> Set<usize> {
        self.data@.dom().filter(|pc: usize| self.data@[pc].outcomes@.len() == 1)
    }

    /// The branches that were taken whenever they were met.
    pub open spec fn always_taken(&self) -> Set<usize> {
        self.data@.dom().filter(
            |pc: usize|
                forall|i: int|
                    0 <= i < self.data@[pc].outcomes@.len() ==> self.data@[pc].outcomes@[i],
        )
    }

    /// The branches that were never taken when they were met.
    pub open spec fn never_taken(&self) -> Set<usize> {
        self.data@.dom().filter(
            |pc: usize|
                forall|i: int|
                    0 <= i < self.data@[pc].outcomes@.len() ==> !self.data@[pc].outcomes@[i],
        )
    }

    /// Returns the number of branches that only occur once.
    pub fn num_single_occurence(&self) -> (r: usize)
        ensures
            r == self.met_once().len(),
    {
        let ghost f = |pc: usize| self.data@[pc].outcomes@.len() == 1;
        let mut count: usize = 0;
        let n = self.data.len();
        let keys = self.data.keys();
        let ghost all = keys.remaining().unref();
        proof {
            vstd::std_specs::btree::axiom_spec_keys_iter(&self.data);
        }
        for pc in it: keys
            invariant
                all == it.seq().unref(),
                all.no_duplicates(),
                all.to_set() == self.data@.dom(),
                all.len() == n,
                count == count_of(all, f, it.index()),
                count <= it.index(),
                f == |pc: usize| self.data@[pc].outcomes@.len() == 1,
        {
            assert(all.to_set().contains(*pc)) by {
                assert(all[it.index()] == *pc);
            }
            let entry = self.data.get(pc).unwrap();
            if entry.outcomes.len() == 1 {
                count = count + 1;
            }
        }
        proof {
            lemma_count_of(all, f);
        }
        count
    }

    /// Returns the number of branches that are always taken.
    pub fn num_always_taken(&self) -> (r: usize)
        ensures
            r == self.always_taken().len(),
    {
        let ghost f = |pc: usize|
            forall|i: int| 0 <= i < self.data@[pc].outcomes@.len() ==> self.data@[pc].outcomes@[i];
        let mut count: usize = 0;
        let n = self.data.len();
        let keys = self.data.keys();
        let ghost all = keys.remaining().unref();
        proof {
            vstd::std_specs::btree::axiom_spec_keys_iter(&self.data);
        }
        for pc in it: keys
            invariant
                all == it.seq().unref(),
                all.no_duplicates(),
                all.to_set() == self.data@.dom(),
                all.len() == n,
                count == count_of(all, f, it.index()),
                count <= it.index(),
                f == |pc: usize|
            forall|i: int| 0 <= i < self.data@[pc].outcomes@.len() ==> self.data@[pc].outcomes@[i],
        {
            assert(all.to_set().contains(*pc)) by {
                assert(all[it.index()] == *pc);
            }
            let entry = self.data.get(pc).unwrap();
            if entry.outcomes.is_always_taken() {
                count = count + 1;
            }
        }
        proof {
            lemma_count_of(all, f);
        }
        count
    }

    /// Returns the number of branches that are never taken.
    pub fn num_never_taken(&self) -> (r: usize)
        ensures
            r == self.never_taken().len(),
    {
        let ghost f = |pc: usize|
            forall|i: int| 0 <= i < self.data@[pc].outcomes@.len() ==> !self.data@[pc].outcomes@[i];
        let mut count: usize = 0;
        let n = self.data.len();
        let keys = self.data.keys();
        let ghost all = keys.remaining().unref();
        proof {
            vstd::std_specs::btree::axiom_spec_keys_iter(&self.data);
        }
        for pc in it: keys
            invariant
                all == it.seq().unref(),
                all.no_duplicates(),
                all.to_set() == self.data@.dom(),
                all.len() == n,
                count == count_of(all, f, it.index()),
                count <= it.index(),
                f == |pc: usize|
            forall|i: int| 0 <= i < self.data@[pc].outcomes@.len() ==> !self.data@[pc].outcomes@[i],
        {
            assert(all.to_set().contains(*pc)) by {
                assert(all[it.index()] == *pc);
            }
            let entry = self.data.get(pc).unwrap();
            if entry.outcomes.is_never_taken() {
                count = count + 1;
            }
        }
        proof {
            lemma_count_of(all, f);
        }
        count
    }

    /// Returns the number of unique observed branch instructions.
    pub fn num_unique_branches(&self) -> (r: usize)
        ensures
            r == self.data@.dom().len(),
    {
        self.data.len()
    }
}

} // verus!
