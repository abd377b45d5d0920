//! Branch target buffer (BTB) implementations.

use vstd::prelude::*;

use crate::branch::BranchKind;
use crate::predictor::table::is_table_size;

verus! {

/// An entry of a [`SimpleBTB`]: the target of a branch, and its kind.
#[derive(Clone, Copy, Debug, PartialEq, Eq, Structural)]
pub struct SimpleBTBEntry {
    /// Cached target address for this branch
    pub tgt: usize,
    /// The type of branch
    pub kind: BranchKind,
}

impl SimpleBTBEntry {
    /// Make an entry for a branch of the given kind that went to `tgt`.
    pub fn new(tgt: usize, kind: BranchKind) -> (r: Self)
        ensures
            r == (SimpleBTBEntry { tgt, kind }),
    {
        Self { tgt, kind }
    }

    /// Return the cached target address.
    pub fn target(&self) -> (r: usize)
        ensures
            r == self.tgt,
    {
        self.tgt
    }

    /// Return the type of branch.
    pub fn kind(&self) -> (r: BranchKind)
        ensures
            r == self.kind,
    {
        self.kind
    }
}

/// A table of branch targets.
pub struct SimpleBTB {
    size: usize,
    data: Vec<Option<SimpleBTBEntry>>,
}

impl View for SimpleBTB {
    type V = Seq<Option<SimpleBTBEntry>>;

    closed spec fn view(&self) -> Seq<Option<SimpleBTBEntry>> {
        self.data@
    }
}

impl SimpleBTB {
    /// The number of entries that the buffer was made with.
    pub closed spec fn entries(&self) -> usize {
        self.size
    }

    /// Make a buffer of `size` entries, all of them empty.
    pub fn new(size: usize) -> (r: Self)
        requires
            is_table_size(size),
        ensures
            r.entries() == size,
            r@ == Seq::new(size as nat, |i: int| None::<SimpleBTBEntry>),
    {
        let data = vec![None; size];
        assert(data@ =~= Seq::new(size as nat, |i: int| None::<SimpleBTBEntry>));
        Self { size, data }
    }
}

} // verus!
