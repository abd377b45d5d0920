//! The tables that make up a TAGE predictor.

use vstd::prelude::*;
use vstd::std_specs::btree::group_btree_axioms;

use crate::bits::le_value;
use crate::branch::Outcome;
use crate::history::{folded_step, xor_fold, FoldedHistoryRegister};
use crate::predictor::counter::SaturatingCounter;
use crate::predictor::table::{
    is_table_size, lemma_masked_index, low_mask, mask_of, table_bits, IndexStrategy,
    PredictorTable, TagStrategy, TaggedPredictorTable,
};
use crate::predictor::tage::config::{TAGEBaseConfig, TAGEComponentConfig};
use crate::predictor::tage::stat::{EntryStatsView, TAGEEntryStats};
use crate::predictor::tage::TAGEInputs;

verus! {

broadcast use group_btree_axioms;

/// The greatest value of a 'useful' counter of `bits` bits, which is kept
/// in a byte: two to the power of `bits`, less one, and at most 255.
pub open spec fn useful_limit(bits: usize) -> u8 {
    if bits >= 8 {
        255
    } else {
        low_mask(bits) as u8
    }
}

/// Compute [`useful_limit`].
pub fn useful_limit_of(bits: usize) -> (r: u8)
    ensures
        r == useful_limit(bits),
{
    if bits >= 8 {
        255
    } else {
        let mask = mask_of(bits);
        assert(((1usize << bits) - 1) as usize <= 127) by (bit_vector)
            requires
                bits < 8,
        ;
        mask as u8
    }
}

/// An entry in some [TAGEComponent].
#[derive(Clone, Debug)]
pub struct TAGEEntry {
    /// The prediction
    pub ctr: SaturatingCounter,
    /// Number of bits in the 'useful' counter
    pub useful_bits: usize,
    /// The 'useful' counter
    pub useful: u8,
    /// The tag; an empty entry has none
    pub tag: Option<usize>,
    /// Runtime stats
    pub stat: TAGEEntryStats,
}

/// What a [`TAGEEntry`] holds.
pub struct EntryView {
    pub ctr: SaturatingCounter,
    pub useful_bits: usize,
    pub useful: u8,
    pub tag: Option<usize>,
    pub stat: EntryStatsView,
}

impl View for TAGEEntry {
    type V = EntryView;

    open spec fn view(&self) -> EntryView {
        EntryView {
            ctr: self.ctr,
            useful_bits: self.useful_bits,
            useful: self.useful,
            tag: self.tag,
            stat: self.stat@,
        }
    }
}

impl EntryView {
    /// An empty entry with the given counter.
    pub open spec fn fresh(ctr: SaturatingCounter, useful_bits: usize) -> EntryView {
        EntryView { ctr, useful_bits, useful: 0, tag: None, stat: EntryStatsView::fresh() }
    }

    /// The greatest value of this entry's 'useful' counter.
    pub open spec fn limit(self) -> u8 {
        useful_limit(self.useful_bits)
    }

    /// The counter is within its limit, and so is the 'useful' counter.
    pub open spec fn wf(self) -> bool {
        &&& self.ctr.wf()
        &&& self.useful <= self.limit()
    }

    /// The outcome that the entry predicts.
    pub open spec fn predict(self) -> Outcome {
        self.ctr.direction()
    }

    /// Whether the entry stands for the context that `tag` names. An empty
    /// entry stands for none.
    pub open spec fn tag_matches(self, tag: usize) -> bool {
        self.tag == Some(tag)
    }

    /// The entry with its 'useful' counter one higher, unless it is at its
    /// limit.
    pub open spec fn useful_incremented(self) -> EntryView {
        EntryView {
            useful: if self.useful < self.limit() {
                (self.useful + 1) as u8
            } else {
                self.limit()
            },
            ..self
        }
    }

    /// The entry with its 'useful' counter one lower, unless it is at zero.
    /// A counter above its limit comes down to the limit.
    pub open spec fn useful_decremented(self) -> EntryView {
        EntryView {
            useful: if self.useful == 0 {
                0
            } else if self.useful - 1 <= self.limit() {
                (self.useful - 1) as u8
            } else {
                self.limit()
            },
            ..self
        }
    }

    /// The entry with its counter updated by `outcome`.
    pub open spec fn counted(self, outcome: Outcome) -> EntryView {
        EntryView { ctr: self.ctr.updated(outcome), ..self }
    }

    /// The entry after it has seen `outcome`: the 'useful' counter goes up
    /// when the entry predicted it and down when it did not, and the counter
    /// is updated.
    pub open spec fn updated(self, outcome: Outcome) -> EntryView {
        if self.predict() == outcome {
            self.useful_incremented().counted(outcome)
        } else {
            self.useful_decremented().counted(outcome)
        }
    }

    /// The entry made empty at the time `clk`.
    pub open spec fn invalidated(self, clk: usize) -> EntryView {
        EntryView {
            ctr: self.ctr.cleared(),
            useful: 0,
            tag: None,
            stat: EntryStatsView {
                invalidations: (self.stat.invalidations + 1) as usize,
                clk,
                ..self.stat
            },
            ..self
        }
    }

    /// The entry given at the time `clk` to the branch at `pc`, whose context
    /// `tag` names and which has just gone the way of `outcome`: it is made
    /// empty, takes the tag, and predicts `outcome` with the least strength.
    pub open spec fn allocated(self, tag: usize, outcome: Outcome, pc: usize, clk: usize)
        -> EntryView {
        let cleared = self.invalidated(clk);
        EntryView {
            ctr: cleared.ctr.with_direction(outcome).with_strength(0),
            useful: 0,
            tag: Some(tag),
            stat: EntryStatsView { branches: cleared.stat.branches.insert(pc), ..cleared.stat },
            ..cleared
        }
    }

    /// The entry with its 'useful' counter at zero.
    pub open spec fn useless(self) -> EntryView {
        EntryView { useful: 0, ..self }
    }
}

impl TAGEEntry {
    /// Make an empty entry with the given counter.
    pub fn new(ctr: SaturatingCounter, useful_bits: usize) -> (r: Self)
        ensures
            r@ == EntryView::fresh(ctr, useful_bits),
            ctr.wf() ==> r@.wf(),
    {
        Self { ctr, useful_bits, useful: 0, tag: None, stat: TAGEEntryStats::new() }
    }

    /// Get the current predicted outcome.
    pub fn predict(&self) -> (r: Outcome)
        ensures
            r == self@.predict(),
    {
        self.ctr.predict()
    }

    /// Update the saturating counter associated with this entry.
    pub fn update(&mut self, outcome: Outcome)
        ensures
            final(self)@ == old(self)@.updated(outcome),
            old(self)@.wf() ==> final(self)@.wf(),
    {
        let prediction = self.predict();
        if prediction == outcome {
            self.increment_useful();
        } else {
            self.decrement_useful();
        }
        self.ctr.update(outcome);
    }

    /// Returns true if the provided tag matches this entry.
    pub fn tag_matches(&self, tag: usize) -> (r: bool)
        ensures
            r == self@.tag_matches(tag),
            self@.tag is None ==> !r,
    {
        if let Some(val) = self.tag {
            val == tag
        } else {
            false
        }
    }

    /// Increment the 'useful' counter.
    pub fn increment_useful(&mut self)
        ensures
            final(self)@ == old(self)@.useful_incremented(),
            old(self)@.ctr.wf() ==> final(self)@.wf(),
    {
        let lim = useful_limit_of(self.useful_bits);
        self.useful = if self.useful < lim {
            self.useful + 1
        } else {
            lim
        };
    }

    /// Decrement the 'useful' counter.
    pub fn decrement_useful(&mut self)
        ensures
            final(self)@ == old(self)@.useful_decremented(),
            old(self)@.ctr.wf() ==> final(self)@.wf(),
    {
        let lim = useful_limit_of(self.useful_bits);
        self.useful = if self.useful == 0 {
            0
        } else if self.useful - 1 <= lim {
            self.useful - 1
        } else {
            lim
        };
    }

    /// Invalidate this entry.
    pub fn invalidate(&mut self, clk: usize)
        requires
            old(self).stat.invalidations < usize::MAX,
        ensures
            final(self)@ == old(self)@.invalidated(clk),
            final(self)@.wf(),
    {
        self.ctr.reset();
        self.useful = 0;
        self.tag = None;
        self.stat.invalidations = self.stat.invalidations + 1;
        self.stat.clk = clk;
    }
}

/// What a [`TAGEBaseComponent`] holds.
pub struct BaseView {
    /// Number of entries
    pub size: usize,
    /// Strategy for indexing into the table
    pub index_strat: IndexStrategy,
    /// The table of counters
    pub counters: Seq<SaturatingCounter>,
}

impl BaseView {
    /// The table has a power of two of counters, each within its limit.
    pub open spec fn wf(self) -> bool {
        &&& self.counters.len() == self.size
        &&& is_table_size(self.size)
        &&& forall|i: int| 0 <= i < self.counters.len() ==> (#[trigger] self.counters[i]).wf()
    }

    /// The index of the counter for the branch at `pc`. The base table has
    /// no history: it hashes as a table whose folded history reads zero.
    pub open spec fn index(self, pc: usize) -> usize {
        self.index_strat.raw(pc, 0) & (self.size - 1) as usize
    }

    /// The counter for the branch at `pc`.
    pub open spec fn counter(self, pc: usize) -> SaturatingCounter {
        self.counters[self.index(pc) as int]
    }

    /// The table with another counter at `idx`.
    pub open spec fn with_counter(self, idx: int, ctr: SaturatingCounter) -> BaseView {
        BaseView { counters: self.counters.update(idx, ctr), ..self }
    }

    /// The table after the branch at `pc` has gone the way of `outcome`.
    pub open spec fn updated(self, pc: usize, outcome: Outcome) -> BaseView {
        self.with_counter(self.index(pc) as int, self.counter(pc).updated(outcome))
    }

    /// The index of every branch lies inside the table.
    pub proof fn lemma_index_in_range(self, pc: usize)
        requires
            self.wf(),
        ensures
            self.index(pc) < self.size,
    {
        lemma_masked_index(self.index_strat.raw(pc, 0), self.size);
    }
}

/// A base component in the TAGE predictor.
#[derive(Clone, Debug)]
pub struct TAGEBaseComponent {
    cfg: TAGEBaseConfig,
    /// A table of saturating counters
    data: Vec<SaturatingCounter>,
}

impl View for TAGEBaseComponent {
    type V = BaseView;

    closed spec fn view(&self) -> BaseView {
        BaseView { size: self.cfg.size, index_strat: self.cfg.index_strat, counters: self.data@ }
    }
}

impl TAGEBaseComponent {
    /// The configuration that the table was built from.
    pub closed spec fn config(&self) -> TAGEBaseConfig {
        self.cfg
    }

    /// Make a table of `cfg.size` counters as `cfg.ctr` builds them.
    pub(crate) fn from_config(cfg: TAGEBaseConfig) -> (r: Self)
        requires
            is_table_size(cfg.size),
        ensures
            r.config() == cfg,
            r@.size == cfg.size,
            r@.index_strat == cfg.index_strat,
            r@.counters == Seq::new(cfg.size as nat, |i: int| cfg.ctr.built()),
            r@.wf(),
    {
        let ctr = cfg.ctr.build();
        let r = TAGEBaseComponent { data: vec![ctr; cfg.size], cfg };
        assert(r@.counters =~= Seq::new(cfg.size as nat, |i: int| cfg.ctr.built()));
        r
    }
}

impl PredictorTable for TAGEBaseComponent {
    type Input = TAGEInputs;

    type Index = usize;

    type Entry = SaturatingCounter;

    open spec fn table_wf(&self) -> bool {
        self@.wf()
    }

    open spec fn table_size(&self) -> usize {
        self@.size
    }

    fn size(&self) -> (r: usize) {
        self.cfg.size
    }

    fn get_index(&self, input: TAGEInputs) -> (r: usize)
        ensures
            r == self@.index(input.pc),
            r < self@.size,
    {
        let res = match self.cfg.index_strat {
            IndexStrategy::FromPc => input.pc,
            IndexStrategy::FromPcAndHistory => input.pc ^ 0,
        };
        proof {
            self@.lemma_index_in_range(input.pc);
        }
        res & self.index_mask()
    }

    fn get_entry(&self, idx: usize) -> (r: &SaturatingCounter)
        ensures
            *r == self@.counters[(idx & (self@.size - 1) as usize) as int],
            r.wf(),
    {
        let index = idx & self.index_mask();
        proof {
            lemma_masked_index(idx, self.cfg.size);
        }
        &self.data[index]
    }

    fn get_entry_mut(&mut self, idx: usize) -> (r: &mut SaturatingCounter)
        ensures
            *r == old(self)@.counters[(idx & (old(self)@.size - 1) as usize) as int],
            final(self)@ == old(self)@.with_counter(
                (idx & (old(self)@.size - 1) as usize) as int,
                *final(r),
            ),
            final(self).config() == old(self).config(),
    {
        let index = idx & self.index_mask();
        proof {
            lemma_masked_index(idx, self.cfg.size);
        }
        &mut self.data[index]
    }
}

/// The views of a table of entries.
pub open spec fn entry_views(entries: Seq<TAGEEntry>) -> Seq<EntryView> {
    entries.map_values(|e: TAGEEntry| e@)
}

/// Replacing one entry of a table replaces its view among the views.
pub proof fn lemma_entries_update(entries: Seq<TAGEEntry>, idx: int)
    requires
        0 <= idx < entries.len(),
    ensures
        forall|e: TAGEEntry| #[trigger]
            entry_views(entries.update(idx, e)) == entry_views(entries).update(idx, e@),
{
    assert forall|e: TAGEEntry| #[trigger]
        entry_views(entries.update(idx, e)) == entry_views(entries).update(idx, e@) by {
        assert(entry_views(entries.update(idx, e)) =~= entry_views(entries).update(idx, e@));
    }
}

/// The number of entries among the first `n` that hold a tag.
pub open spec fn tagged_below(entries: Seq<EntryView>, n: int) -> nat
    decreases n,
{
    if n <= 0 {
        0
    } else {
        tagged_below(entries, n - 1) + if entries[n - 1].tag is Some {
            1nat
        } else {
            0nat
        }
    }
}

/// What a [`TAGEComponent`] holds.
pub struct ComponentView {
    /// Number of entries
    pub size: usize,
    /// Number of tag bits
    pub tag_bits: usize,
    /// Strategy for indexing into the table
    pub index_strat: IndexStrategy,
    /// Strategy for creating tags
    pub tag_strat: TagStrategy,
    /// The index in global history of the newest bit that the table folds
    pub lo: usize,
    /// The index in global history of the oldest bit that the table folds
    pub hi: usize,
    /// The folded history
    pub csr: Seq<bool>,
    /// The table of entries
    pub entries: Seq<EntryView>,
}

impl ComponentView {
    /// The table has two to the power of the folded history's width of
    /// entries, at least two of them and each within its limits, and folds
    /// a window of history that is not empty.
    pub open spec fn wf(self) -> bool {
        &&& self.entries.len() == self.size
        &&& self.csr.len() > 0
        &&& table_bits(self.size, self.csr.len() as usize)
        &&& self.lo <= self.hi
        &&& forall|i: int| 0 <= i < self.entries.len() ==> (#[trigger] self.entries[i]).wf()
    }

    /// The length of the window of history that the table folds.
    pub open spec fn history_len(self) -> int {
        self.hi - self.lo
    }

    /// The folded history, read as a number.
    pub open spec fn history(self) -> usize {
        le_value(self.csr) as usize
    }

    /// The index of the entry for the branch at `pc`.
    pub open spec fn index(self, pc: usize) -> usize {
        self.index_strat.raw(pc, self.history()) & (self.size - 1) as usize
    }

    /// The tag that names the context of the branch at `pc`.
    pub open spec fn tag(self, pc: usize) -> usize {
        self.tag_strat.raw(pc, self.history()) & low_mask(self.tag_bits)
    }

    /// The entry for the branch at `pc`.
    pub open spec fn entry(self, pc: usize) -> EntryView {
        self.entries[self.index(pc) as int]
    }

    /// Whether the table holds an entry for the context of the branch at `pc`.
    pub open spec fn hits(self, pc: usize) -> bool {
        self.entry(pc).tag_matches(self.tag(pc))
    }

    /// The table with another entry at `idx`.
    pub open spec fn with_entry(self, idx: int, entry: EntryView) -> ComponentView {
        ComponentView { entries: self.entries.update(idx, entry), ..self }
    }

    /// The table with another folded history.
    pub open spec fn with_csr(self, csr: Seq<bool>) -> ComponentView {
        ComponentView { csr, ..self }
    }

    /// The folded history after it has taken up the history in `ghr`, which
    /// has just moved on by one bit.
    pub open spec fn stepped(self, ghr: Seq<bool>) -> Seq<bool> {
        folded_step(
            self.csr,
            ghr[self.lo as int],
            ghr[self.hi as int],
            (self.hi - self.lo) % (self.csr.len() as int),
        )
    }

    /// This table is `before` with its folded history folded from scratch
    /// out of `ghr`: the folded history reads the XOR of the chunks of the
    /// window, each as wide as the folded history.
    pub open spec fn refolded_from(self, before: ComponentView, ghr: Seq<bool>) -> bool {
        &&& self == before.with_csr(self.csr)
        &&& self.csr.len() == before.csr.len()
        &&& self.history() == xor_fold(
            ghr.subrange(before.lo as int, before.hi + 1),
            before.csr.len() as usize,
        )
    }

    /// The table with the 'useful' counter of every entry at zero.
    pub open spec fn useless(self) -> ComponentView {
        ComponentView {
            entries: Seq::new(self.entries.len(), |i: int| self.entries[i].useless()),
            ..self
        }
    }

    /// The index of every branch lies inside the table.
    pub proof fn lemma_index_in_range(self, pc: usize)
        requires
            self.wf(),
        ensures
            self.index(pc) < self.size,
    {
        assert(table_bits(self.size, self.csr.len() as usize));
        lemma_masked_index(self.index_strat.raw(pc, self.history()), self.size);
    }
}

/// A tagged component in the TAGE predictor.
#[derive(Debug)]
pub struct TAGEComponent {
    /// The configuration used to create this object
    pub cfg: TAGEComponentConfig,
    /// Table of entries
    pub data: Vec<TAGEEntry>,
    /// Folded global history
    pub csr: FoldedHistoryRegister,
}

impl View for TAGEComponent {
    type V = ComponentView;

    open spec fn view(&self) -> ComponentView {
        ComponentView {
            size: self.cfg.size,
            tag_bits: self.cfg.tag_bits,
            index_strat: self.cfg.index_strat,
            tag_strat: self.cfg.tag_strat,
            lo: self.csr.window_start(),
            hi: self.csr.window_end(),
            csr: self.csr.bits(),
            entries: entry_views(self.data@),
        }
    }
}

impl TAGEComponent {
    /// The table is as [`ComponentView::wf`] asks, and its register of
    /// folded history holds as many bits as its output has.
    pub open spec fn wf(&self) -> bool {
        &&& self@.wf()
        &&& self.csr.wf()
    }

    /// Zero the 'useful' counter of every entry.
    pub fn reset_useful_bits(&mut self)
        requires
            old(self).wf(),
        ensures
            final(self)@ == old(self)@.useless(),
            final(self).wf(),
            final(self).cfg == old(self).cfg,
            final(self).csr == old(self).csr,
    {
        let n = self.data.len();
        let mut i: usize = 0;
        while i < n
            invariant
                i <= n,
                n == self.data@.len(),
                n == old(self).data@.len(),
                self.cfg == old(self).cfg,
                self.csr == old(self).csr,
                forall|j: int| 0 <= j < i ==> (#[trigger] self.data@[j])@ == old(self).data@[j]@.useless(),
                forall|j: int| i <= j < n ==> #[trigger] self.data@[j] == old(self).data@[j],
            decreases n - i,
        {
            self.data[i].useful = 0;
            i = i + 1;
        }
        assert(self@.entries =~= old(self)@.useless().entries);
    }

    /// Count the entries that hold a tag, and all entries: the second over
    /// the first is the utilization of the table.
    pub fn occupancy(&self) -> (r: (usize, usize))
        ensures
            r.0 == tagged_below(self@.entries, self@.entries.len() as int),
            r.1 == self@.entries.len(),
            r.0 <= r.1,
    {
        let n = self.data.len();
        let mut used: usize = 0;
        let mut i: usize = 0;
        while i < n
            invariant
                i <= n,
                n == self.data@.len(),
                used == tagged_below(self@.entries, i as int),
                used <= i,
            decreases n - i,
        {
            if self.data[i].tag.is_some() {
                used = used + 1;
            }
            i = i + 1;
        }
        (used, n)
    }
}

impl PredictorTable for TAGEComponent {
    type Input = TAGEInputs;

    type Index = usize;

    type Entry = TAGEEntry;

    open spec fn table_wf(&self) -> bool {
        self.wf()
    }

    open spec fn table_size(&self) -> usize {
        self@.size
    }

    fn size(&self) -> (r: usize) {
        assert(table_bits(self@.size, self@.csr.len() as usize));
        self.cfg.size
    }

    fn get_index(&self, input: TAGEInputs) -> (r: usize)
        ensures
            r == self@.index(input.pc),
            r < self@.size,
    {
        let res = match self.cfg.index_strat {
            IndexStrategy::FromPc => input.pc,
            IndexStrategy::FromPcAndHistory => input.pc ^ self.csr.output_usize(),
        };
        proof {
            self@.lemma_index_in_range(input.pc);
        }
        res & self.index_mask()
    }

    fn get_entry(&self, idx: usize) -> (r: &TAGEEntry)
        ensures
            r@ == self@.entries[(idx & (self@.size - 1) as usize) as int],
            r@.wf(),
    {
        let index = idx & self.index_mask();
        proof {
            assert(table_bits(self@.size, self@.csr.len() as usize));
            lemma_masked_index(idx, self.cfg.size);
        }
        &self.data[index]
    }

    fn get_entry_mut(&mut self, idx: usize) -> (r: &mut TAGEEntry)
        ensures
            r@ == old(self)@.entries[(idx & (old(self)@.size - 1) as usize) as int],
            final(self)@ == old(self)@.with_entry(
                (idx & (old(self)@.size - 1) as usize) as int,
                final(r)@,
            ),
            final(self).cfg == old(self).cfg,
            final(self).csr == old(self).csr,
    {
        let index = idx & self.index_mask();
        proof {
            assert(table_bits(self@.size, self@.csr.len() as usize));
            lemma_masked_index(idx, self.cfg.size);
        }
        proof {
            lemma_entries_update(self.data@, index as int);
        }
        &mut self.data[index]
    }
}

impl TaggedPredictorTable for TAGEComponent {
    fn get_tag(&self, input: TAGEInputs) -> (r: usize)
        ensures
            r == self@.tag(input.pc),
    {
        let res = match self.cfg.tag_strat {
            TagStrategy::FromPc => input.pc,
            TagStrategy::FromPcAndHistory => {
                let ghist0_bits = self.csr.output_usize();
                let ghist1_bits = ghist0_bits << 1;
                input.pc ^ ghist0_bits ^ ghist1_bits
            },
        };
        res & mask_of(self.cfg.tag_bits)
    }
}

} // verus!
