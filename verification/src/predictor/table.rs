//! Types for implementing a table of predictors.

use vstd::prelude::*;

verus! {

/// `size` is two to the power of `bits`, and fits in a machine word.
pub open spec fn table_bits(size: usize, bits: usize) -> bool {
    bits < usize::BITS && size == 1usize << bits
}

/// `size` is a power of two.
pub open spec fn is_table_size(size: usize) -> bool {
    exists|bits: usize| table_bits(size, bits)
}

/// The base-2 logarithm of a table's size.
pub open spec fn size_bits(size: usize) -> usize {
    choose|bits: usize| table_bits(size, bits)
}

/// A table's size is two to the power of one number only.
pub proof fn lemma_size_bits(size: usize, bits: usize)
    requires
        table_bits(size, bits),
    ensures
        size_bits(size) == bits,
        is_table_size(size),
        size >= 2 <==> bits > 0,
{
    let other = size_bits(size);
    assert(other == bits) by (bit_vector)
        requires
            other < usize::BITS,
            bits < usize::BITS,
            1usize << other == 1usize << bits,
    ;
    assert((1usize << bits) >= 2 <==> bits > 0) by (bit_vector)
        requires
            bits < usize::BITS,
    ;
}

/// The mask that keeps the low `n` bits of a word; every bit, when `n` is
/// the width of the word or more.
pub open spec fn low_mask(n: usize) -> usize {
    if n < usize::BITS {
        ((1usize << n) - 1) as usize
    } else {
        usize::MAX
    }
}

/// Compute the base-2 logarithm of a table's size: `None` when the size is no
/// power of two.
pub fn index_bits(size: usize) -> (r: Option<usize>)
    ensures
        match r {
            Some(bits) => table_bits(size, bits) && bits == size_bits(size),
            None => !is_table_size(size),
        },
{
    let mut bits: usize = 0;
    while bits < usize::BITS as usize
        invariant
            bits <= usize::BITS,
            forall|k: usize| k < bits ==> !table_bits(size, k),
        decreases usize::BITS - bits,
    {
        if size == 1usize << bits {
            proof {
                lemma_size_bits(size, bits);
            }
            return Some(bits);
        }
        bits = bits + 1;
    }
    None
}

/// Compute the mask that keeps the low `n` bits of a word.
pub fn mask_of(n: usize) -> (r: usize)
    ensures
        r == low_mask(n),
{
    if n < usize::BITS as usize {
        assert(1usize << n >= 1) by (bit_vector)
            requires
                n < usize::BITS,
        ;
        (1usize << n) - 1
    } else {
        usize::MAX
    }
}

/// A word masked with a power of two less one is an index below that power.
pub proof fn lemma_masked_index(raw: usize, size: usize)
    requires
        is_table_size(size),
    ensures
        size >= 1,
        (raw & (size - 1) as usize) < size,
{
    let bits = choose|bits: usize| table_bits(size, bits);
    assert(1usize << bits >= 1 && (raw & ((1usize << bits) - 1) as usize) < 1usize << bits)
        by (bit_vector)
        requires
            bits < usize::BITS,
    ;
}

/// A user-provided strategy for indexing into a [PredictorTable].
#[derive(Clone, Copy, Debug, PartialEq, Eq, Structural)]
pub enum IndexStrategy {
    /// Index by the program counter alone.
    FromPc,
    /// Index by the program counter, XOR the folded history of the table.
    FromPcAndHistory,
}

/// A user-provided strategy for generating a tag associated with some
/// entry in a [PredictorTable].
#[derive(Clone, Copy, Debug, PartialEq, Eq, Structural)]
pub enum TagStrategy {
    /// Tag by the program counter alone.
    FromPc,
    /// Tag by the program counter, XOR the folded history of the table, XOR
    /// that history moved up by one bit.
    FromPcAndHistory,
}

impl IndexStrategy {
    /// The index before it is cut down to the size of a table, for a table
    /// whose folded history reads `history`.
    pub open spec fn raw(self, pc: usize, history: usize) -> usize {
        match self {
            IndexStrategy::FromPc => pc,
            IndexStrategy::FromPcAndHistory => pc ^ history,
        }
    }

    /// Whether the strategy reads the folded history.
    pub open spec fn uses_history(self) -> bool {
        self == IndexStrategy::FromPcAndHistory
    }
}

impl TagStrategy {
    /// The tag before it is cut down to the width of a tag, for a table
    /// whose folded history reads `history`.
    pub open spec fn raw(self, pc: usize, history: usize) -> usize {
        match self {
            TagStrategy::FromPc => pc,
            TagStrategy::FromPcAndHistory => pc ^ history ^ (history << 1),
        }
    }

    /// Whether the strategy reads the folded history.
    pub open spec fn uses_history(self) -> bool {
        self == TagStrategy::FromPcAndHistory
    }
}

/// Interface to a table of predictors.
pub trait PredictorTable: Sized {
    /// The type of input to the table used to form an index.
    type Input;

    /// The type of an index into the table.
    type Index;

    /// The type of entry in the table.
    type Entry;

    /// The table is in a state that its methods accept.
    spec fn table_wf(&self) -> bool;

    /// The number of entries in the table.
    spec fn table_size(&self) -> usize;

    /// Returns the number of entries in the table.
    fn size(&self) -> (r: usize)
        requires
            self.table_wf(),
        ensures
            r == self.table_size(),
            is_table_size(r),
    ;

    /// Given some input, generate an index into the table.
    fn get_index(&self, input: Self::Input) -> Self::Index
        requires
            self.table_wf(),
    ;

    /// Returns a reference to an entry in the table.
    fn get_entry(&self, idx: Self::Index) -> &Self::Entry
        requires
            self.table_wf(),
    ;

    /// Returns a mutable reference to an entry in the table.
    fn get_entry_mut(&mut self, idx: Self::Index) -> &mut Self::Entry
        requires
            old(self).table_wf(),
    ;

    /// Returns a bitmask corresponding to the number of entries in the table.
    fn index_mask(&self) -> (r: usize)
        requires
            self.table_wf(),
        ensures
            r == self.table_size() - 1,
    {
        let size = self.size();
        proof {
            lemma_masked_index(0, size);
        }
        size - 1
    }
}

/// Interface to a *tagged* table of predictors.
pub trait TaggedPredictorTable: PredictorTable {
    /// Given some input, generate a tag used to match an entry in the table.
    fn get_tag(&self, input: Self::Input) -> usize
        requires
            self.table_wf(),
    ;
}

} // verus!
