//! Tools for synthesizing execution traces.
//!
//! Intermediate Representation
//! ===========================
//!
//! In this intermediate language, we really only need the ability to:
//!
//! - Set the program counter to a particular value
//! - Emit a control-flow instruction whose program counter, target address,
//!   and outcomes are all statically pre-determined
//!
//! An interpreter over this language should be sufficient to unroll our
//! IR into something like a trace.

use std::collections::BTreeMap;
use vstd::prelude::*;
use vstd::std_specs::btree::group_btree_axioms;

use crate::branch::Outcome;
use crate::chance::lemma_weight_is_pow2;
use crate::predictor::table::{index_bits, is_table_size, lemma_masked_index, table_bits};
use vstd::bits::{lemma_usize_low_bits_mask_is_mod, low_bits_mask};

verus! {

broadcast use group_btree_axioms;

/// The distance from `pc` up to the next multiple of `aln`.
pub open spec fn padding_to(pc: usize, aln: usize) -> int {
    (aln - pc % aln) % (aln as int)
}

/// The one multiple of `aln` from `pc` up to `pc + aln`, not counting the
/// latter, lies `padding_to(pc, aln)` above `pc`.
pub proof fn lemma_padding(pc: int, aln: int, tgt: int)
    by (nonlinear_arith)
    requires
        aln > 0,
        pc >= 0,
        tgt % aln == 0,
        pc <= tgt < pc + aln,
    ensures
        tgt - pc == (aln - pc % aln) % aln,
{
}

/// Rounding up to a power of two by masking reaches the next multiple.
pub proof fn lemma_align_up(pc: usize, aln: usize)
    requires
        is_table_size(aln),
        pc + aln - 1 <= usize::MAX,
    ensures
        aln >= 1,
        (((pc + (aln - 1)) as usize) & !((aln - 1) as usize)) >= pc,
        (((pc + (aln - 1)) as usize) & !((aln - 1) as usize)) - pc == padding_to(pc, aln),
{
    let bits = choose|bits: usize| table_bits(aln, bits);
    let mask = (aln - 1) as usize;
    lemma_masked_index(0, aln);
    let top = (pc + mask) as usize;
    let tgt = top & !mask;
    assert(tgt & mask == 0 && tgt <= top && top - tgt <= mask) by (bit_vector)
        requires
            tgt == top & !mask,
    ;
    lemma_weight_is_pow2(bits);
    assert(mask == low_bits_mask(bits as nat));
    lemma_usize_low_bits_mask_is_mod(tgt, bits as nat);
    assert(tgt % aln == 0);
    lemma_padding(pc as int, aln as int, tgt as int);
}

/// A pre-determined pattern of branch outcomes to-be-associated with a
/// control-flow instruction in the IR.
#[derive(Clone, Copy, Debug, PartialEq, Eq)]
pub enum BranchPattern {
    AlwaysTaken,
    NeverTaken,
    TakenPeriodic(usize),
    NotTakenPeriodic(usize),
    Pattern(&'static [Outcome]),
}

/// An identifier for a particular [IRInst] within the program.
#[derive(Clone, Copy, Debug, PartialEq, Eq, PartialOrd, Ord)]
pub struct Label(usize);

impl Label {
    /// The number that identifies the label.
    pub closed spec fn spec_id(&self) -> usize {
        self.0
    }

    /// Make the label with the given number.
    pub fn new(id: usize) -> (r: Self)
        ensures
            r.spec_id() == id,
    {
        Self(id)
    }

    /// Return the number that identifies the label.
    pub fn id(&self) -> (r: usize)
        ensures
            r == self.spec_id(),
    {
        self.0
    }
}

/// Representing a branch target in the IR.
#[derive(Clone, Copy, Debug, PartialEq, Eq)]
pub enum IRReloc {
    /// An unresolved pointer to some [IRInst].
    Label(Label),
    /// A resolved target address.
    Address(usize),
}

/// An instruction in the IR.
#[derive(Clone, Copy, Debug, PartialEq, Eq)]
pub enum IRInst {
    /// A conditional branch instruction.
    Branch(IRReloc),
    /// An unconditional branch instruction.
    Jump(IRReloc),
    /// Increment the program counter by some value.
    Pad(usize),
    /// Increment the program counter until the value is aligned to some
    /// power of two.
    PadAlign(usize),
    /// Terminate the program
    Terminate,
}

impl IRInst {
    /// The number of "virtual bytes" inhabited by this instruction, when it
    /// stands at `pc`.
    pub open spec fn spec_size(self, pc: usize) -> int {
        match self {
            IRInst::Branch(_) => 1,
            IRInst::Jump(_) => 1,
            IRInst::Pad(size) => size as int,
            IRInst::PadAlign(aln) => padding_to(pc, aln),
            IRInst::Terminate => 0,
        }
    }

    /// The instruction can stand at `pc`: where it aligns the program
    /// counter, it does so to a power of two, and rounding up stays inside
    /// a machine word.
    pub open spec fn fits_at(self, pc: usize) -> bool {
        match self {
            IRInst::PadAlign(aln) => is_table_size(aln) && pc + aln - 1 <= usize::MAX,
            _ => true,
        }
    }

    /// The label that the instruction points to, if it is not resolved.
    pub open spec fn pending(self) -> Option<Label> {
        match self {
            IRInst::Branch(IRReloc::Label(lab)) => Some(lab),
            IRInst::Jump(IRReloc::Label(lab)) => Some(lab),
            _ => None,
        }
    }

    /// The instruction with `addr` in place of the label that it points to,
    /// if it is not resolved.
    pub open spec fn resolved_to(self, addr: usize) -> IRInst {
        match self {
            IRInst::Branch(IRReloc::Label(_)) => IRInst::Branch(IRReloc::Address(addr)),
            IRInst::Jump(IRReloc::Label(_)) => IRInst::Jump(IRReloc::Address(addr)),
            other => other,
        }
    }

    /// Returns the number of "virtual bytes" inhabited by this instruction.
    pub fn size(&self, pc: usize) -> (r: usize)
        requires
            self.fits_at(pc),
        ensures
            r == self.spec_size(pc),
    {
        match self {
            Self::Branch(_) => 1,
            Self::Jump(_) => 1,
            Self::Pad(size) => *size,
            Self::PadAlign(aln) => {
                proof {
                    lemma_align_up(pc, *aln);
                }
                let mask = *aln - 1;
                let tgt = (pc + mask) & !mask;
                let diff = tgt - pc;
                diff
            },
            Self::Terminate => 0,
        }
    }
}

/// The program counter of the instruction at `i` in a program that starts
/// at `base`: each instruction stands behind the one before it.
#[verifier::opaque]
pub open spec fn pc_at(data: Seq<IRInst>, base: usize, i: int) -> int
    decreases i,
{
    if i <= 0 {
        base as int
    } else {
        pc_at(data, base, i - 1) + data[i - 1].spec_size(pc_at(data, base, i - 1) as usize)
    }
}

/// The program starts at `base`, and each instruction stands behind the one
/// before it.
pub proof fn lemma_pc_step(data: Seq<IRInst>, base: usize, i: int)
    ensures
        pc_at(data, base, 0) == base,
        i >= 0 ==> pc_at(data, base, i + 1) == pc_at(data, base, i) + data[i].spec_size(
            pc_at(data, base, i) as usize,
        ),
{
    reveal_with_fuel(pc_at, 2);
}

/// Every instruction of the program can stand where it comes to stand, and
/// the program ends inside a machine word.
pub open spec fn laid_out(data: Seq<IRInst>, base: usize) -> bool {
    forall|i: int|
        0 <= i < data.len() ==> {
            &&& (#[trigger] data[i]).fits_at(pc_at(data, base, i) as usize)
            &&& pc_at(data, base, i + 1) <= usize::MAX
        }
}

/// A type of [Branch].
#[derive(Clone, Copy, Debug, PartialEq, Eq)]
pub enum BranchKind {
    Conditional,
    Unconditional,
}

/// A branch of a program: where it stands, where it goes, and its kind.
#[derive(Clone, Copy, Debug, PartialEq, Eq)]
pub struct Branch {
    pub addr: usize,
    pub tgt: usize,
    pub kind: BranchKind,
}

impl Branch {
    /// Make a branch at `addr` that goes to `tgt`.
    pub fn new(addr: usize, tgt: usize, kind: BranchKind) -> (r: Self)
        ensures
            r == (Branch { addr, tgt, kind }),
    {
        Self { addr, tgt, kind }
    }
}

/// The branches of a program, in the order of their addresses.
#[derive(Clone, Debug, PartialEq, Eq)]
pub struct Program {
    pub base: usize,
    pub data: Vec<Branch>,
}

impl Program {
    /// Make a program that starts at `base`.
    pub fn new(base: usize, data: Vec<Branch>) -> (r: Self)
        ensures
            r.base == base,
            r.data == data,
    {
        Self { base, data }
    }
}

/// The branches among the first `n` instructions of a program that starts
/// at `base`, each with the program counter of its instruction. A branch
/// that still points to a label is left out.
pub open spec fn branches_of(data: Seq<IRInst>, base: usize, n: int) -> Seq<Branch>
    decreases n,
{
    if n <= 0 {
        Seq::empty()
    } else {
        let rest = branches_of(data, base, n - 1);
        let pc = pc_at(data, base, n - 1) as usize;
        match data[n - 1] {
            IRInst::Branch(IRReloc::Address(tgt)) => rest.push(
                Branch { addr: pc, tgt, kind: BranchKind::Conditional },
            ),
            IRInst::Jump(IRReloc::Address(tgt)) => rest.push(
                Branch { addr: pc, tgt, kind: BranchKind::Unconditional },
            ),
            _ => rest,
        }
    }
}

/// Collects the instructions of a program and resolves its labels.
pub struct Emitter {
    /// The set of instructions.
    data: Vec<IRInst>,
    /// The base address of the program.
    base: usize,
    /// A counter used to allocate labels.
    next_label: usize,
    /// A map from labels to offsets within `data`.
    labels: BTreeMap<usize, usize>,
}

/// What an [`Emitter`] holds.
pub struct EmitterView {
    /// The set of instructions.
    pub data: Seq<IRInst>,
    /// The base address of the program.
    pub base: usize,
    /// A counter used to allocate labels.
    pub next_label: usize,
    /// A map from labels to offsets within `data`.
    pub labels: Map<usize, usize>,
}

impl EmitterView {
    /// The program with one more instruction.
    pub open spec fn with_inst(self, inst: IRInst) -> EmitterView {
        EmitterView { data: self.data.push(inst), ..self }
    }

    /// Every label that an instruction points to is bound to an instruction.
    pub open spec fn bound(self) -> bool {
        forall|i: int|
            0 <= i < self.data.len() ==> self.bound_at(#[trigger] self.data[i])
    }

    /// The label that `inst` points to, if it is not resolved, is bound to
    /// an instruction.
    pub open spec fn bound_at(self, inst: IRInst) -> bool {
        match inst.pending() {
            Some(lab) => self.labels.contains_key(lab.spec_id()) && self.labels[lab.spec_id()]
                < self.data.len(),
            None => true,
        }
    }

    /// The program can be emitted: it can be laid out, and every label that
    /// an instruction points to is bound to an instruction.
    pub open spec fn resolvable(self) -> bool {
        &&& laid_out(self.data, self.base)
        &&& self.bound()
    }

    /// The instructions with the address of its instruction in place of each
    /// label.
    pub open spec fn resolved(self) -> Seq<IRInst> {
        Seq::new(self.data.len(), |i: int| self.resolved_inst(self.data[i]))
    }

    /// `inst` with the address of its instruction in place of the label
    /// that it points to, if it is not resolved.
    pub open spec fn resolved_inst(self, inst: IRInst) -> IRInst {
        match inst.pending() {
            Some(lab) => inst.resolved_to(
                pc_at(self.data, self.base, self.labels[lab.spec_id()] as int) as usize,
            ),
            None => inst,
        }
    }
}

impl View for Emitter {
    type V = EmitterView;

    closed spec fn view(&self) -> EmitterView {
        EmitterView {
            data: self.data@,
            base: self.base,
            next_label: self.next_label,
            labels: self.labels@,
        }
    }
}

impl Emitter {
    /// Make an emitter for a program that starts at `base`.
    pub fn new(base: usize) -> (r: Self)
        ensures
            r@ == (EmitterView {
                data: Seq::empty(),
                base,
                next_label: 0,
                labels: Map::empty(),
            }),
    {
        Self { data: Vec::new(), next_label: 0, base, labels: BTreeMap::new() }
    }

    /// Create a new label.
    pub fn create_label(&mut self) -> (r: Label)
        requires
            old(self)@.next_label < usize::MAX,
        ensures
            r.spec_id() == old(self)@.next_label,
            final(self)@ == (EmitterView {
                next_label: (old(self)@.next_label + 1) as usize,
                ..old(self)@
            }),
    {
        let res = Label::new(self.next_label);
        self.next_label = self.next_label + 1;
        res
    }

    /// Bind a label to the current point in the program.
    pub fn bind_label(&mut self, label: Label)
        ensures
            final(self)@ == (EmitterView {
                labels: old(self)@.labels.insert(label.spec_id(), old(self)@.data.len() as usize),
                ..old(self)@
            }),
    {
        let off = self.data.len();
        self.labels.insert(label.id(), off);
    }

    /// Emit a conditional branch to the provided [Label].
    pub fn branch_to_label(&mut self, tgt: Label)
        ensures
            final(self)@ == old(self)@.with_inst(IRInst::Branch(IRReloc::Label(tgt))),
    {
        self.data.push(IRInst::Branch(IRReloc::Label(tgt)));
    }

    /// Emit an unconditional branch to the provided [Label].
    pub fn jump_to_label(&mut self, tgt: Label)
        ensures
            final(self)@ == old(self)@.with_inst(IRInst::Jump(IRReloc::Label(tgt))),
    {
        self.data.push(IRInst::Jump(IRReloc::Label(tgt)));
    }

    /// Increment the program counter by some value.
    pub fn pad(&mut self, size: usize)
        ensures
            final(self)@ == old(self)@.with_inst(IRInst::Pad(size)),
    {
        self.data.push(IRInst::Pad(size));
    }

    /// Increment and align the program counter to some power of two.
    pub fn pad_align(&mut self, aln: usize)
        ensures
            final(self)@ == old(self)@.with_inst(IRInst::PadAlign(aln)),
    {
        self.data.push(IRInst::PadAlign(aln));
    }

    /// Return the number of labels created so far.
    pub fn num_labels(&self) -> (r: usize)
        ensures
            r == self@.next_label,
    {
        self.next_label
    }

    /// Tell whether the program can be emitted: it can be laid out, and
    /// every label that an instruction points to is bound to an
    /// instruction.
    pub fn can_emit(&self) -> (r: bool)
        ensures
            r == self@.resolvable(),
    {
        let n = self.data.len();
        let mut pc = self.base;
        let mut i: usize = 0;
        proof {
            lemma_pc_step(self@.data, self@.base, 0);
        }
        while i < n
            invariant
                i <= n,
                n == self.data@.len(),
                pc == pc_at(self@.data, self@.base, i as int),
                forall|j: int|
                    0 <= j < i ==> {
                        &&& (#[trigger] self@.data[j]).fits_at(
                            pc_at(self@.data, self@.base, j) as usize,
                        )
                        &&& pc_at(self@.data, self@.base, j + 1) <= usize::MAX
                        &&& self@.bound_at(self@.data[j])
                    },
            decreases n - i,
        {
            proof {
                lemma_pc_step(self@.data, self@.base, i as int);
            }
            let inst = self.data[i];
            let fits = match inst {
                IRInst::PadAlign(aln) => match index_bits(aln) {
                    Some(_) => {
                        proof {
                            lemma_masked_index(0, aln);
                        }
                        pc <= usize::MAX - (aln - 1)
                    },
                    None => false,
                },
                _ => true,
            };
            if !fits {
                assert(!self@.data[i as int].fits_at(pc_at(self@.data, self@.base, i as int) as usize));
                assert(!laid_out(self@.data, self@.base));
                return false;
            }
            let size = inst.size(pc);
            if size > usize::MAX - pc {
                assert(pc_at(self@.data, self@.base, i + 1) > usize::MAX);
                assert(!laid_out(self@.data, self@.base));
                return false;
            }
            let bound = match inst {
                IRInst::Branch(IRReloc::Label(lab)) | IRInst::Jump(IRReloc::Label(lab)) => {
                    match self.labels.get(&lab.id()) {
                        Some(idx) => *idx < n,
                        None => false,
                    }
                },
                _ => true,
            };
            if !bound {
                assert(!self@.bound_at(self@.data[i as int]));
                assert(!self@.bound());
                return false;
            }
            pc = pc + size;
            i = i + 1;
        }
        assert(laid_out(self@.data, self@.base));
        assert(self@.bound());
        true
    }

    /// Compute and return the list of program counter values associated with
    /// each instruction.
    pub fn resolve_pc_table(&self) -> (r: Vec<usize>)
        requires
            laid_out(self@.data, self@.base),
        ensures
            r@.len() == self@.data.len(),
            forall|i: int| 0 <= i < r@.len() ==> #[trigger] r@[i] == pc_at(self@.data, self@.base, i),
    {
        let mut pc = self.base;
        let mut res: Vec<usize> = Vec::new();
        let n = self.data.len();
        let mut i: usize = 0;
        proof {
            lemma_pc_step(self@.data, self@.base, 0);
        }
        while i < n
            invariant
                i <= n,
                n == self.data@.len(),
                res@.len() == i,
                pc == pc_at(self@.data, self@.base, i as int),
                laid_out(self@.data, self@.base),
                forall|j: int| 0 <= j < i ==> #[trigger] res@[j] == pc_at(self@.data, self@.base, j),
            decreases n - i,
        {
            let inst = &self.data[i];
            proof {
                lemma_pc_step(self@.data, self@.base, i as int);
            }
            assert(self@.data[i as int].fits_at(pc_at(self@.data, self@.base, i as int) as usize));
            assert(pc_at(self@.data, self@.base, i + 1) <= usize::MAX);
            res.push(pc);
            pc = pc + inst.size(pc);
            i = i + 1;
        }
        res
    }

    /// Resolve all labels into target addresses.
    pub fn resolve_relocations(&mut self)
        requires
            old(self)@.resolvable(),
        ensures
            final(self)@ == (EmitterView { data: old(self)@.resolved(), ..old(self)@ }),
    {
        let pc_table = self.resolve_pc_table();
        let n = self.data.len();
        let mut i: usize = 0;
        while i < n
            invariant
                i <= n,
                n == self.data@.len(),
                n == old(self).data@.len(),
                self.base == old(self).base,
                self.next_label == old(self).next_label,
                self.labels@ == old(self).labels@,
                old(self)@.resolvable(),
                pc_table@.len() == n,
                forall|j: int|
                    0 <= j < n ==> #[trigger] pc_table@[j] == pc_at(
                        old(self)@.data,
                        old(self)@.base,
                        j,
                    ),
                forall|j: int|
                    0 <= j < i ==> #[trigger] self.data@[j] == old(self)@.resolved_inst(
                        old(self).data@[j],
                    ),
                forall|j: int| i <= j < n ==> #[trigger] self.data@[j] == old(self).data@[j],
            decreases n - i,
        {
            let inst = self.data[i];
            assert(old(self)@.bound_at(old(self)@.data[i as int]));
            assert(inst == old(self).data@[i as int]);
            match inst {
                IRInst::Jump(IRReloc::Label(lab)) => {
                    let idx = *self.labels.get(&lab.id()).unwrap();
                    let tgt_addr = pc_table[idx];
                    self.data[i] = IRInst::Jump(IRReloc::Address(tgt_addr));
                },
                IRInst::Branch(IRReloc::Label(lab)) => {
                    let idx = *self.labels.get(&lab.id()).unwrap();
                    let tgt_addr = pc_table[idx];
                    self.data[i] = IRInst::Branch(IRReloc::Address(tgt_addr));
                },
                _ => {},
            }
            i = i + 1;
        }
        assert(self@.data =~= old(self)@.resolved());
    }

    /// Resolve all labels, and list the branches of the program with their
    /// addresses.
    pub fn emit(&mut self) -> (r: Program)
        requires
            old(self)@.resolvable(),
        ensures
            final(self)@ == (EmitterView { data: old(self)@.resolved(), ..old(self)@ }),
            r.base == old(self)@.base,
            r.data@ == branches_of(
                old(self)@.resolved(),
                old(self)@.base,
                old(self)@.data.len() as int,
            ),
    {
        self.resolve_relocations();
        proof {
            lemma_resolved_layout(old(self)@);
        }

        let mut data: Vec<Branch> = Vec::new();
        let mut pc = self.base;
        let n = self.data.len();
        let mut i: usize = 0;
        proof {
            lemma_pc_step(self@.data, self@.base, 0);
            assert(laid_out(self@.data, self@.base));
        }
        while i < n
            invariant
                i <= n,
                n == self.data@.len(),
                pc == pc_at(self@.data, self@.base, i as int),
                laid_out(self@.data, self@.base),
                data@ == branches_of(self@.data, self@.base, i as int),
            decreases n - i,
        {
            let inst = &self.data[i];
            proof {
                lemma_pc_step(self@.data, self@.base, i as int);
            }
            assert(self@.data[i as int].fits_at(pc_at(self@.data, self@.base, i as int) as usize));
            assert(pc_at(self@.data, self@.base, i + 1) <= usize::MAX);
            match inst {
                IRInst::Branch(IRReloc::Address(tgt)) => {
                    data.push(Branch::new(pc, *tgt, BranchKind::Conditional));
                },
                IRInst::Jump(IRReloc::Address(tgt)) => {
                    data.push(Branch::new(pc, *tgt, BranchKind::Unconditional));
                },
                _ => {},
            }
            pc = pc + inst.size(pc);
            i = i + 1;
        }

        Program::new(self.base, data)
    }
}

/// Resolving the labels of a program moves no instruction.
pub proof fn lemma_resolved_pc(view: EmitterView, n: int)
    requires
        0 <= n <= view.data.len(),
    ensures
        pc_at(view.resolved(), view.base, n) == pc_at(view.data, view.base, n),
    decreases n,
{
    lemma_pc_step(view.data, view.base, n - 1);
    lemma_pc_step(view.resolved(), view.base, n - 1);
    if n > 0 {
        lemma_resolved_pc(view, n - 1);
        let pc = pc_at(view.data, view.base, n - 1) as usize;
        assert(view.resolved()[n - 1] == view.resolved_inst(view.data[n - 1]));
        assert(view.resolved()[n - 1].spec_size(pc) == view.data[n - 1].spec_size(pc));
    }
}

/// A program that can be laid out can be so with its labels resolved.
pub proof fn lemma_resolved_layout(view: EmitterView)
    requires
        laid_out(view.data, view.base),
    ensures
        laid_out(view.resolved(), view.base),
{
    let after = view.resolved();
    assert forall|i: int| 0 <= i < after.len() implies {
        &&& (#[trigger] after[i]).fits_at(pc_at(after, view.base, i) as usize)
        &&& pc_at(after, view.base, i + 1) <= usize::MAX
    } by {
        lemma_resolved_pc(view, i);
        lemma_resolved_pc(view, i + 1);
        let pc = pc_at(view.data, view.base, i) as usize;
        assert(view.data[i].fits_at(pc));
        assert(after[i] == view.resolved_inst(view.data[i]));
    }
}

} // verus!
