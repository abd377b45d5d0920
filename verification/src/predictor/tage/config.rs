//! Configurations that TAGE components and predictors are built from.

use std::ops::RangeInclusive;
use vstd::prelude::*;

use crate::bits::max_bits;
use crate::history::FoldedHistoryRegister;
use crate::predictor::counter::SaturatingCounterConfig;
use crate::predictor::table::{
    index_bits, is_table_size, lemma_size_bits, size_bits, table_bits, IndexStrategy, TagStrategy,
};
use crate::predictor::tage::component::{
    BaseView, ComponentView, EntryView, TAGEBaseComponent, TAGEComponent, TAGEEntry,
};
use crate::predictor::tage::stat::{StatsView, TAGEStats};
use crate::predictor::tage::model::TageView;
use crate::predictor::tage::TAGEPredictor;

verus! {

/// `RangeInclusive::is_empty` tells whether the range holds no items: its
/// bounds are out of order, or an iteration has used it up.
#[verifier::external_body]
fn range_is_empty(range: &RangeInclusive<usize>) -> (r: bool)
    ensures
        r == (range@.exhausted || range@.start > range@.end),
{
    range.is_empty()
}

/// What is wrong with a configuration.
#[derive(Clone, Copy, Debug, PartialEq, Eq, Structural)]
pub enum TAGEConfigError {
    /// The number of entries of a table is no power of two, or a tagged
    /// table has fewer than two entries.
    TableSize,
    /// A tagged component folds an empty window of history.
    EmptyWindow,
    /// A tag has more bits than a machine word.
    TagWidth,
    /// There are more tagged components than a machine word has bits.
    TooManyComponents,
    /// The tagged components do not stand in the order of their history
    /// lengths, the longest first.
    ComponentOrder,
    /// A tagged component folds a window of history that ends beyond the
    /// register of global history.
    WindowBeyondHistory,
}

/// Configuration for a [`TAGEBaseComponent`].
#[derive(Clone, Copy, Debug)]
pub struct TAGEBaseConfig {
    /// Parameters for the saturating counters
    pub ctr: SaturatingCounterConfig,
    /// Number of entries
    pub size: usize,
    /// Strategy for indexing into the table.
    pub index_strat: IndexStrategy,
}

impl TAGEBaseConfig {
    /// The table has a power of two of entries.
    pub open spec fn valid(&self) -> bool {
        is_table_size(self.size)
    }

    /// The [approximate] number of storage bits: those of one counter, for
    /// each entry.
    pub open spec fn spec_storage_bits(&self) -> nat {
        self.ctr.spec_storage_bits() * self.size as nat
    }

    /// The base component as this configuration builds it.
    pub open spec fn built(&self) -> BaseView {
        BaseView {
            size: self.size,
            index_strat: self.index_strat,
            counters: Seq::new(self.size as nat, |i: int| self.ctr.built()),
        }
    }

    /// Get the [approximate] number of storage bits.
    pub fn storage_bits(&self) -> (r: usize)
        requires
            self.spec_storage_bits() <= usize::MAX,
        ensures
            r == self.spec_storage_bits(),
    {
        let per_entry = self.ctr.storage_bits();
        assert(per_entry * self.size == self.spec_storage_bits());
        per_entry * self.size
    }

    /// Tell whether [`Self::build`] accepts this configuration.
    pub fn check(&self) -> (r: Result<(), TAGEConfigError>)
        ensures
            r is Ok <==> self.valid(),
            r is Err ==> r == Err::<(), _>(TAGEConfigError::TableSize),
    {
        match index_bits(self.size) {
            Some(_) => Ok(()),
            None => Err(TAGEConfigError::TableSize),
        }
    }

    /// Use this configuration to create a new [`TAGEBaseComponent`].
    pub fn build(self) -> (r: TAGEBaseComponent)
        requires
            self.valid(),
        ensures
            r@ == self.built(),
            r.config() == self,
            r@.wf(),
    {
        TAGEBaseComponent::from_config(self)
    }
}

/// Configuration for a [`TAGEComponent`].
#[derive(Debug)]
pub struct TAGEComponentConfig {
    /// Number of entries
    pub size: usize,
    /// Relevant slice in global history
    pub ghr_range: RangeInclusive<usize>,
    /// Number of tag bits
    pub tag_bits: usize,
    /// Number of bits in the 'useful' counter
    pub useful_bits: usize,
    /// Strategy for indexing into the table
    pub index_strat: IndexStrategy,
    /// Strategy for creating tags
    pub tag_strat: TagStrategy,
    /// Parameters for the saturating counters
    pub ctr: SaturatingCounterConfig,
}

impl Clone for TAGEComponentConfig {
    fn clone(&self) -> (r: Self)
        ensures
            !self.ghr_range@.exhausted ==> r.same_as(self),
    {
        TAGEComponentConfig {
            size: self.size,
            ghr_range: RangeInclusive::new(*self.ghr_range.start(), *self.ghr_range.end()),
            tag_bits: self.tag_bits,
            useful_bits: self.useful_bits,
            index_strat: self.index_strat,
            tag_strat: self.tag_strat,
            ctr: self.ctr,
        }
    }
}

impl TAGEComponentConfig {
    /// The two configurations ask for the same component.
    pub open spec fn same_as(&self, other: &TAGEComponentConfig) -> bool {
        &&& self.size == other.size
        &&& self.ghr_range@ == other.ghr_range@
        &&& self.tag_bits == other.tag_bits
        &&& self.useful_bits == other.useful_bits
        &&& self.index_strat == other.index_strat
        &&& self.tag_strat == other.tag_strat
        &&& self.ctr == other.ctr
    }

    /// The window of history is fresh and not empty.
    pub open spec fn window_ok(&self) -> bool {
        &&& !self.ghr_range@.exhausted
        &&& self.ghr_range@.start <= self.ghr_range@.end
    }

    /// The length of the window of history: the distance between its ends.
    pub open spec fn history_len(&self) -> int {
        self.ghr_range@.end - self.ghr_range@.start
    }

    /// What is wrong with the configuration, if anything: the first of a
    /// table size that is no power of two or is below two, an empty window
    /// of history, and a tag wider than a machine word.
    pub open spec fn defect(&self) -> Option<TAGEConfigError> {
        if !is_table_size(self.size) || self.size < 2 {
            Some(TAGEConfigError::TableSize)
        } else if !self.window_ok() {
            Some(TAGEConfigError::EmptyWindow)
        } else if self.tag_bits > usize::BITS {
            Some(TAGEConfigError::TagWidth)
        } else {
            None
        }
    }

    /// Nothing is wrong with the configuration.
    pub open spec fn valid(&self) -> bool {
        self.defect() is None
    }

    /// The number of bits of the folded history: the base-2 logarithm of the
    /// number of entries, where that number is a power of two.
    pub open spec fn history_bits(&self) -> nat {
        if is_table_size(self.size) {
            size_bits(self.size) as nat
        } else {
            0
        }
    }

    /// The number of storage bits of one entry: those of its counter, of its
    /// 'useful' counter and of its tag.
    pub open spec fn entry_bits(&self) -> nat {
        self.ctr.spec_storage_bits() + self.useful_bits as nat + self.tag_bits as nat
    }

    /// The [approximate] number of storage bits: those of every entry, and
    /// those of the folded history.
    pub open spec fn spec_storage_bits(&self) -> nat {
        self.entry_bits() * self.size as nat + self.history_bits()
    }

    /// Get the [approximate] number of storage bits.
    pub fn storage_bits(&self) -> (r: usize)
        requires
            self.entry_bits() <= usize::MAX,
            self.spec_storage_bits() <= usize::MAX,
        ensures
            r == self.spec_storage_bits(),
    {
        let entry_size = self.ctr.storage_bits() + self.useful_bits + self.tag_bits;
        let history = match index_bits(self.size) {
            Some(bits) => bits,
            None => 0,
        };
        assert(entry_size * self.size == self.entry_bits() * self.size as nat);
        entry_size * self.size + history
    }

    /// Tell what is wrong with the configuration, if anything.
    pub fn check(&self) -> (r: Result<(), TAGEConfigError>)
        ensures
            r == (match self.defect() {
                Some(e) => Err::<(), _>(e),
                None => Ok(()),
            }),
    {
        match index_bits(self.size) {
            None => {
                return Err(TAGEConfigError::TableSize);
            },
            Some(_) => {},
        }
        if self.size < 2 {
            return Err(TAGEConfigError::TableSize);
        }
        if range_is_empty(&self.ghr_range) {
            return Err(TAGEConfigError::EmptyWindow);
        }
        if self.tag_bits > usize::BITS as usize {
            return Err(TAGEConfigError::TagWidth);
        }
        Ok(())
    }

    /// The component as this configuration builds it: every entry is empty,
    /// and the folded history is clear.
    pub open spec fn built(&self) -> ComponentView {
        ComponentView {
            size: self.size,
            tag_bits: self.tag_bits,
            index_strat: self.index_strat,
            tag_strat: self.tag_strat,
            lo: self.ghr_range@.start,
            hi: self.ghr_range@.end,
            csr: Seq::new(size_bits(self.size) as nat, |i: int| false),
            entries: Seq::new(
                self.size as nat,
                |i: int| EntryView::fresh(self.ctr.built(), self.useful_bits),
            ),
        }
    }

    /// Use this configuration to create a new [`TAGEComponent`].
    pub fn build(self) -> (r: TAGEComponent)
        requires
            self.valid(),
        ensures
            r.wf(),
            r@ == self.built(),
            r.cfg == self,
    {

        let bits = match index_bits(self.size) {
            Some(bits) => bits,
            None => {
                assert(false);
                0
            },
        };
        proof {
            lemma_size_bits(self.size, bits);
        }
        assert(usize::BITS <= max_bits()) by {
            assert(usize::BITS == 32 || usize::BITS == 64);
        }
        let csr = FoldedHistoryRegister::new(
            bits,
            RangeInclusive::new(*self.ghr_range.start(), *self.ghr_range.end()),
        );
        let mut data: Vec<TAGEEntry> = Vec::new();
        let mut i: usize = 0;
        while i < self.size
            invariant
                i <= self.size,
                data@.len() == i,
                forall|j: int|
                    0 <= j < i ==> (#[trigger] data@[j])@ == EntryView::fresh(
                        self.ctr.built(),
                        self.useful_bits,
                    ),
            decreases self.size - i,
        {
            data.push(TAGEEntry::new(self.ctr.build(), self.useful_bits));
            i = i + 1;
        }
        let r = TAGEComponent { cfg: self, data, csr };
        assert(r@.entries =~= self.built().entries);
        assert(r@.csr =~= self.built().csr);
        r
    }
}

/// Configuration for a [`TAGEPredictor`].
#[derive(Clone, Debug)]
pub struct TAGEConfig {
    /// Base component configuration
    pub base: TAGEBaseConfig,
    /// Tagged component configurations
    pub comp: Vec<TAGEComponentConfig>,
}

/// The number of entries that the first `n` of the configurations ask for.
pub open spec fn entries_of(comps: Seq<TAGEComponentConfig>, n: int) -> nat
    decreases n,
{
    if n <= 0 {
        0
    } else {
        entries_of(comps, n - 1) + comps[n - 1].size as nat
    }
}

/// The number of storage bits that the first `n` of the configurations ask
/// for.
pub open spec fn storage_of(comps: Seq<TAGEComponentConfig>, n: int) -> nat
    decreases n,
{
    if n <= 0 {
        0
    } else {
        storage_of(comps, n - 1) + comps[n - 1].spec_storage_bits()
    }
}

/// What is wrong with the first of the configurations from `from` on with
/// which anything is wrong.
pub open spec fn first_defect(comps: Seq<TAGEComponentConfig>, from: int) -> Option<
    TAGEConfigError,
>
    decreases comps.len() - from,
{
    if from < 0 || from >= comps.len() {
        None
    } else if comps[from].defect() is Some {
        comps[from].defect()
    } else {
        first_defect(comps, from + 1)
    }
}

/// Nothing is wrong with any of the configurations from `from` on, where
/// [`first_defect`] finds nothing.
pub proof fn lemma_first_defect(comps: Seq<TAGEComponentConfig>, from: int)
    requires
        0 <= from,
    ensures
        first_defect(comps, from) is None <==> forall|i: int|
            from <= i < comps.len() ==> (#[trigger] comps[i]).valid(),
    decreases comps.len() - from,
{
    if from < comps.len() {
        lemma_first_defect(comps, from + 1);
        if comps[from].defect() is Some {
            assert(!comps[from].valid());
        }
    }
}

/// The configurations stand in the order of their history lengths, the
/// longest first.
pub open spec fn longest_first(comps: Seq<TAGEComponentConfig>) -> bool {
    forall|i: int, j: int|
        0 <= i <= j < comps.len() ==> (#[trigger] comps[i]).history_len() >= (
        #[trigger] comps[j]).history_len()
}

impl TAGEConfig {
    /// The tagged components stand in the order of their history lengths,
    /// the longest first, and each has a window of history that is fresh
    /// and not empty.
    pub open spec fn ordered(&self) -> bool {
        &&& longest_first(self.comp@)
        &&& forall|i: int| 0 <= i < self.comp@.len() ==> (#[trigger] self.comp@[i]).window_ok()
    }

    /// What is wrong with the configuration, if anything: the first of a
    /// defect of the base component, one of the first tagged component that
    /// has any, too many tagged components, and tagged components out of
    /// order.
    pub open spec fn defect(&self) -> Option<TAGEConfigError> {
        if !self.base.valid() {
            Some(TAGEConfigError::TableSize)
        } else if first_defect(self.comp@, 0) is Some {
            first_defect(self.comp@, 0)
        } else if self.comp@.len() > usize::BITS {
            Some(TAGEConfigError::TooManyComponents)
        } else if !longest_first(self.comp@) {
            Some(TAGEConfigError::ComponentOrder)
        } else {
            None
        }
    }

    /// Nothing is wrong with the configuration.
    pub open spec fn valid(&self) -> bool {
        self.defect() is None
    }

    /// Every tagged component folds a window of history that lies inside a
    /// register of `len` bits.
    pub open spec fn fits(&self, len: nat) -> bool {
        forall|i: int| 0 <= i < self.comp@.len() ==> (#[trigger] self.comp@[i]).ghr_range@.end < len
    }

    /// What is wrong with the configuration, if anything, for use with a
    /// register of global history of `len` bits: what is wrong with it as
    /// such, or else a window of history that ends beyond the register.
    pub open spec fn defect_for(&self, len: nat) -> Option<TAGEConfigError> {
        if self.defect() is Some {
            self.defect()
        } else if !self.fits(len) {
            Some(TAGEConfigError::WindowBeyondHistory)
        } else {
            None
        }
    }

    /// The number of entries in all tables.
    pub open spec fn spec_total_entries(&self) -> nat {
        self.base.size as nat + entries_of(self.comp@, self.comp@.len() as int)
    }

    /// The [approximate] number of storage bits of all tables and folded
    /// histories.
    pub open spec fn spec_storage_bits(&self) -> nat {
        storage_of(self.comp@, self.comp@.len() as int) + self.base.spec_storage_bits()
    }

    /// The predictor as this configuration builds it.
    pub open spec fn built(&self) -> TageView {
        TageView {
            base: self.base.built(),
            comps: Seq::new(self.comp@.len(), |i: int| self.comp@[i].built()),
            reset_ctr: 0,
            stat: StatsView::fresh(self.comp@.len()),
        }
    }

    /// Make the configuration of a predictor without tagged components.
    pub fn new(base: TAGEBaseConfig) -> (r: Self)
        ensures
            r.base == base,
            r.comp@.len() == 0,
            r.ordered(),
    {
        Self { base, comp: Vec::new() }
    }

    /// Return the number of entries in all tables.
    pub fn total_entries(&self) -> (r: usize)
        requires
            self.spec_total_entries() <= usize::MAX,
        ensures
            r == self.spec_total_entries(),
    {
        let n = self.comp.len();
        let mut c: usize = 0;
        let mut i: usize = 0;
        while i < n
            invariant
                i <= n,
                n == self.comp@.len(),
                c == entries_of(self.comp@, i as int),
                entries_of(self.comp@, n as int) <= usize::MAX,
            decreases n - i,
        {
            proof {
                lemma_entries_monotonic(self.comp@, i + 1, n as int);
            }
            c = c + self.comp[i].size;
            i = i + 1;
        }
        self.base.size + c
    }

    /// Get the [approximate] number of storage bits.
    pub fn storage_bits(&self) -> (r: usize)
        requires
            self.spec_storage_bits() <= usize::MAX,
            forall|i: int|
                0 <= i < self.comp@.len() ==> (#[trigger] self.comp@[i]).entry_bits() <= usize::MAX,
        ensures
            r == self.spec_storage_bits(),
    {
        let n = self.comp.len();
        let mut c: usize = 0;
        let mut i: usize = 0;
        while i < n
            invariant
                i <= n,
                n == self.comp@.len(),
                c == storage_of(self.comp@, i as int),
                storage_of(self.comp@, n as int) <= usize::MAX,
                forall|i: int|
                    0 <= i < self.comp@.len() ==> (#[trigger] self.comp@[i]).entry_bits()
                        <= usize::MAX,
            decreases n - i,
        {
            proof {
                lemma_storage_monotonic(self.comp@, i + 1, n as int);
            }
            c = c + self.comp[i].storage_bits();
            i = i + 1;
        }
        c + self.base.storage_bits()
    }

    /// Add a tagged component to the predictor. The components are kept in
    /// the order of their history lengths, the longest first; the new one
    /// comes behind those that are as long.
    pub fn add_component(&mut self, c: TAGEComponentConfig)
        requires
            old(self).ordered(),
            c.window_ok(),
        ensures
            final(self).base == old(self).base,
            final(self).ordered(),
            exists|at: int|
                {
                    &&& 0 <= at <= old(self).comp@.len()
                    &&& #[trigger] final(self).comp@ == old(self).comp@.insert(at, c)
                    &&& forall|i: int|
                        0 <= i < at ==> (#[trigger] old(self).comp@[i]).history_len()
                            >= c.history_len()
                    &&& forall|i: int|
                        at <= i < old(self).comp@.len() ==> (
                        #[trigger] old(self).comp@[i]).history_len() < c.history_len()
                },
    {
        let len = *c.ghr_range.end() - *c.ghr_range.start();
        let n = self.comp.len();
        let mut at: usize = 0;
        while at < n
            invariant
                at <= n,
                n == self.comp@.len(),
                *self == *old(self),
                self.ordered(),
                len == c.history_len(),
                forall|i: int| 0 <= i < at ==> (#[trigger] self.comp@[i]).history_len() >= len,
            ensures
                at <= n,
                forall|i: int| 0 <= i < at ==> (#[trigger] self.comp@[i]).history_len() >= len,
                at < n ==> self.comp@[at as int].history_len() < len,
            decreases n - at,
        {
            let other = &self.comp[at];
            assert(other.window_ok());
            let other_len = *other.ghr_range.end() - *other.ghr_range.start();
            if other_len < len {
                break ;
            }
            at = at + 1;
        }
        self.comp.insert(at, c);
        proof {
            let before = old(self).comp@;
            let after = self.comp@;
            assert forall|i: int| at <= i < before.len() implies (
            #[trigger] before[i]).history_len() < c.history_len() by {
                assert(before[at as int].history_len() >= before[i].history_len());
            }
            assert forall|i: int, j: int| 0 <= i <= j < after.len() implies (
            #[trigger] after[i]).history_len() >= (#[trigger] after[j]).history_len() by {
                let a = if i < at {
                    before[i]
                } else if i == at {
                    c
                } else {
                    before[i - 1]
                };
                let b = if j < at {
                    before[j]
                } else if j == at {
                    c
                } else {
                    before[j - 1]
                };
                assert(after[i] == a && after[j] == b);
                if i < at && j > at {
                    assert(before[i].history_len() >= c.history_len());
                    assert(before[j - 1].history_len() < c.history_len());
                }
            }
            assert forall|i: int| 0 <= i < after.len() implies (#[trigger] after[i]).window_ok() by {
                if i < at {
                    assert(after[i] == before[i]);
                } else if i > at {
                    assert(after[i] == before[i - 1]);
                }
            }
            assert(self.comp@ == old(self).comp@.insert(at as int, c));
        }
    }

    /// Tell what is wrong with the configuration, if anything, for use with
    /// a register of global history of `ghr_len` bits.
    pub fn check_for(&self, ghr_len: usize) -> (r: Result<(), TAGEConfigError>)
        ensures
            r == (match self.defect_for(ghr_len as nat) {
                Some(e) => Err::<(), _>(e),
                None => Ok(()),
            }),
            r is Ok <==> self.valid() && self.fits(ghr_len as nat),
    {
        match self.check() {
            Err(e) => {
                return Err(e);
            },
            Ok(_) => {},
        }
        proof {
            lemma_first_defect(self.comp@, 0);
        }
        let n = self.comp.len();
        let mut i: usize = 0;
        while i < n
            invariant
                i <= n,
                n == self.comp@.len(),
                self.valid(),
                forall|j: int| 0 <= j < n ==> (#[trigger] self.comp@[j]).valid(),
                forall|j: int| 0 <= j < i ==> (#[trigger] self.comp@[j]).ghr_range@.end < ghr_len,
            decreases n - i,
        {
            assert(self.comp@[i as int].valid());
            if *self.comp[i].ghr_range.end() >= ghr_len {
                assert(!self.fits(ghr_len as nat));
                return Err(TAGEConfigError::WindowBeyondHistory);
            }
            i = i + 1;
        }
        Ok(())
    }

    /// A predictor that is built for a register of global history fits it.
    pub proof fn lemma_built_fits(&self, len: nat)
        requires
            self.fits(len),
        ensures
            self.built().fits(len),
    {
        assert forall|i: int| 0 <= i < self.built().comps.len() implies (
        #[trigger] self.built().comps[i]).hi < len by {
            assert(self.comp@[i].ghr_range@.end < len);
        }
    }

    /// A configuration with which nothing is wrong builds a well-formed
    /// predictor, whose tagged components stand in the order of their
    /// history lengths, the longest first.
    pub proof fn lemma_built_wf(&self)
        requires
            self.valid(),
        ensures
            self.built().wf(),
    {

        let view = self.built();
        lemma_first_defect(self.comp@, 0);
        assert forall|i: int| 0 <= i < view.comps.len() implies (#[trigger] view.comps[i]).wf() by {
            let c = self.comp@[i];
            assert(c.valid());
            let bits = choose|bits: usize| table_bits(c.size, bits);
            lemma_size_bits(c.size, bits);
        }
        assert forall|i: int, j: int| 0 <= i <= j < view.comps.len() implies (
        #[trigger] view.comps[i]).history_len() >= (#[trigger] view.comps[j]).history_len() by {
            assert(self.comp@[i].history_len() >= self.comp@[j].history_len());
        }
    }

    /// Use this configuration to create a new [`TAGEPredictor`].
    pub fn build(self) -> (r: TAGEPredictor)
        requires
            self.valid(),
        ensures
            r@ == self.built(),
            r.wf(),
            r.cfg == self,
    {
        proof {
            self.lemma_built_wf();
            lemma_first_defect(self.comp@, 0);
        }
        let n = self.comp.len();
        let mut comp: Vec<TAGEComponent> = Vec::new();
        let mut i: usize = 0;
        while i < n
            invariant
                i <= n,
                n == self.comp@.len(),
                comp@.len() == i,
                forall|j: int| 0 <= j < n ==> (#[trigger] self.comp@[j]).valid(),
                forall|j: int|
                    0 <= j < i ==> {
                        &&& (#[trigger] comp@[j]).wf()
                        &&& comp@[j]@ == self.comp@[j].built()
                    },
            decreases n - i,
        {
            assert(self.comp@[i as int].valid());
            let c = self.comp[i].clone();
            comp.push(c.build());
            i = i + 1;
        }
        let base = self.base.build();
        let stat = TAGEStats::new(n);
        let r = TAGEPredictor { cfg: self, base, comp, stat, reset_ctr: 0 };
        assert(r@.comps =~= self.built().comps);
        r
    }

    /// Tell what is wrong with the configuration, if anything.
    pub fn check(&self) -> (r: Result<(), TAGEConfigError>)
        ensures
            r == (match self.defect() {
                Some(e) => Err::<(), _>(e),
                None => Ok(()),
            }),
            r is Ok <==> self.valid(),
    {
        if self.base.check().is_err() {
            return Err(TAGEConfigError::TableSize);
        }
        let n = self.comp.len();
        let mut i: usize = 0;
        while i < n
            invariant
                i <= n,
                n == self.comp@.len(),
                self.base.valid(),
                first_defect(self.comp@, 0) == first_defect(self.comp@, i as int),
            decreases n - i,
        {
            match self.comp[i].check() {
                Err(e) => {
                    assert(first_defect(self.comp@, i as int) == Some(e));
                    return Err(e);
                },
                Ok(_) => {},
            }
            i = i + 1;
        }
        if n > usize::BITS as usize {
            return Err(TAGEConfigError::TooManyComponents);
        }
        proof {
            lemma_first_defect(self.comp@, 0);
        }
        let mut k: usize = 1;
        while k < n
            invariant
                1 <= k,
                n == self.comp@.len(),
                n > 0 ==> k <= n,
                n <= usize::BITS,
                self.base.valid(),
                first_defect(self.comp@, 0) is None,
                forall|i: int| 0 <= i < n ==> (#[trigger] self.comp@[i]).valid(),
                forall|i: int, j: int|
                    0 <= i <= j < k && j < n ==> (#[trigger] self.comp@[i]).history_len() >= (
                    #[trigger] self.comp@[j]).history_len(),
            decreases n - k,
        {
            let prev = &self.comp[k - 1];
            let next = &self.comp[k];
            assert(prev.valid() && next.valid());
            let prev_len = *prev.ghr_range.end() - *prev.ghr_range.start();
            let next_len = *next.ghr_range.end() - *next.ghr_range.start();
            if prev_len < next_len {
                assert(!longest_first(self.comp@)) by {
                    assert(self.comp@[k - 1].history_len() < self.comp@[k as int].history_len());
                }
                return Err(TAGEConfigError::ComponentOrder);
            }
            assert forall|i: int, j: int| 0 <= i <= j < k + 1 && j < n implies (
            #[trigger] self.comp@[i]).history_len() >= (#[trigger] self.comp@[j]).history_len() by {
                if j == k && i < k {
                    assert(self.comp@[i].history_len() >= self.comp@[k - 1].history_len());
                }
            }
            k = k + 1;
        }
        Ok(())
    }
}

/// The number of entries grows with the number of configurations.
pub proof fn lemma_entries_monotonic(comps: Seq<TAGEComponentConfig>, m: int, n: int)
    requires
        m <= n,
    ensures
        entries_of(comps, m) <= entries_of(comps, n),
    decreases n - m,
{
    if m < n {
        lemma_entries_monotonic(comps, m, n - 1);
    }
}

/// The number of storage bits grows with the number of configurations.
pub proof fn lemma_storage_monotonic(comps: Seq<TAGEComponentConfig>, m: int, n: int)
    requires
        m <= n,
    ensures
        storage_of(comps, m) <= storage_of(comps, n),
    decreases n - m,
{
    if m < n {
        lemma_storage_monotonic(comps, m, n - 1);
    }
}

} // verus!
