//! Tools for assembling synthetic traces.

use vstd::prelude::*;

use crate::branch::{BranchFlags, BranchKind, BranchRecord, Outcome};
use crate::predictor::table::is_table_size;
use crate::sim::{lemma_align_up, padding_to};

verus! {

/// A trace that was assembled, not recorded.
pub struct SyntheticTrace {
    pub data: Vec<BranchRecord>,
}

/// An identifier for a particular [EmitterOp].
#[derive(Clone, Copy, Debug, PartialEq, Eq, Structural, PartialOrd, Ord, Hash)]
pub struct Label(pub usize);

impl Label {
    /// Make the label with the given number.
    pub fn new(id: usize) -> (r: Self)
        ensures
            r.0 == id,
    {
        Self(id)
    }

    /// Return the number that identifies the label.
    pub fn id(&self) -> (r: usize)
        ensures
            r == self.0,
    {
        self.0
    }
}

/// A map from labels to indexes.
#[derive(Debug)]
pub struct LabelDb {
    data: Vec<Option<usize>>,
    next: usize,
}

impl View for LabelDb {
    type V = Seq<Option<usize>>;

    closed spec fn view(&self) -> Seq<Option<usize>> {
        self.data@
    }
}

impl LabelDb {
    /// The labels handed out so far are numbered from zero.
    pub closed spec fn wf(&self) -> bool {
        self.next == self.data@.len()
    }

    /// Make a map without labels.
    pub fn new() -> (r: Self)
        ensures
            r@.len() == 0,
            r.wf(),
    {
        Self { data: Vec::new(), next: 0 }
    }

    /// Allocate a new label
    pub fn allocate(&mut self) -> (r: Label)
        requires
            old(self).wf(),
            old(self)@.len() < usize::MAX,
        ensures
            r.0 == old(self)@.len(),
            final(self)@ == old(self)@.push(None),
            final(self).wf(),
    {
        let res = Label::new(self.next);
        self.data.push(None);
        self.next = self.next + 1;
        res
    }

    /// Bind a label to some index
    pub fn define(&mut self, label: &Label, idx: usize)
        requires
            label.0 < old(self)@.len(),
        ensures
            final(self)@ == old(self)@.update(label.0 as int, Some(idx)),
            old(self).wf() ==> final(self).wf(),
    {
        self.data[label.id()] = Some(idx);
    }

    /// Return the number of labels handed out so far.
    pub fn len(&self) -> (r: usize)
        ensures
            r == self@.len(),
    {
        self.data.len()
    }

    /// Resolve a label
    pub fn resolve(&self, label: &Label) -> (r: Option<usize>)
        requires
            label.0 < self@.len(),
        ensures
            r == self@[label.0 as int],
    {
        self.data[label.id()]
    }
}

/// A location in a program: a label, or the index of an instruction.
#[derive(Clone, Debug, PartialEq, Eq)]
pub enum EmitterLoc {
    /// A label to be resolved into an index at compile-time.
    Label(Label),
    /// An index pointing to some [EmitterOp].
    Index(usize),
}

impl EmitterLoc {
    /// Return the index of a location that is resolved.
    pub fn get_index(&self) -> (r: usize)
        requires
            self is Index,
        ensures
            *self == EmitterLoc::Index(r),
    {
        match self {
            Self::Index(idx) => *idx,
            Self::Label(_) => {
                assert(false);
                0
            },
        }
    }
}

/// Where a branch goes.
#[derive(Clone, Debug, PartialEq, Eq)]
pub enum BranchTarget {
    /// A single fixed target location
    Direct(EmitterLoc),
    /// A list of target locations
    Indirect(Vec<EmitterLoc>),
}

impl EmitterLoc {
    /// The location with the index that its label is bound to in place of
    /// the label, where it holds one that is bound.
    pub open spec fn resolved(self, labels: Seq<Option<usize>>) -> EmitterLoc {
        match self {
            EmitterLoc::Label(lab) => if lab.0 < labels.len() && labels[lab.0 as int] is Some {
                EmitterLoc::Index(labels[lab.0 as int]->0)
            } else {
                self
            },
            EmitterLoc::Index(_) => self,
        }
    }

    /// The label that the location holds, if any, is bound.
    pub open spec fn resolvable(self, labels: Seq<Option<usize>>) -> bool {
        self matches EmitterLoc::Label(lab) ==> lab.0 < labels.len() && labels[lab.0 as int]
            is Some
    }

    /// Rewrite a label into the index that it is bound to.
    pub fn resolve(&self, labels: &LabelDb) -> (r: EmitterLoc)
        requires
            self.resolvable(labels@),
        ensures
            r == self.resolved(labels@),
            r is Index,
    {
        match self {
            EmitterLoc::Label(lab) => {
                match labels.resolve(lab) {
                    Some(idx) => EmitterLoc::Index(idx),
                    None => {
                        assert(false);
                        EmitterLoc::Label(*lab)
                    },
                }
            },
            EmitterLoc::Index(idx) => EmitterLoc::Index(*idx),
        }
    }
}

impl BranchTarget {
    /// `self` is `before` with every label rewritten into the index that it
    /// is bound to.
    pub open spec fn resolves(self, before: BranchTarget, labels: Seq<Option<usize>>) -> bool {
        match before {
            BranchTarget::Direct(loc) => self == BranchTarget::Direct(loc.resolved(labels)),
            BranchTarget::Indirect(locs) => {
                &&& self matches BranchTarget::Indirect(rewritten)
                &&& rewritten@.len() == locs@.len()
                &&& forall|i: int|
                    0 <= i < locs@.len() ==> #[trigger] rewritten@[i] == locs@[i].resolved(labels)
            },
        }
    }

    /// Rewrite every label into the index that it is bound to.
    pub fn resolve(&self, labels: &LabelDb) -> (r: BranchTarget)
        requires
            self.resolvable(labels@),
        ensures
            r.resolves(*self, labels@),
    {
        match self {
            BranchTarget::Direct(loc) => BranchTarget::Direct(loc.resolve(labels)),
            BranchTarget::Indirect(locs) => {
                let mut rewritten: Vec<EmitterLoc> = Vec::new();
                let mut i: usize = 0;
                while i < locs.len()
                    invariant
                        i <= locs@.len(),
                        rewritten@.len() == i,
                        forall|j: int|
                            0 <= j < locs@.len() ==> (#[trigger] locs@[j]).resolvable(labels@),
                        forall|j: int|
                            0 <= j < i ==> #[trigger] rewritten@[j] == locs@[j].resolved(labels@),
                    decreases locs@.len() - i,
                {
                    assert(locs@[i as int].resolvable(labels@));
                    rewritten.push(locs[i].resolve(labels));
                    i = i + 1;
                }
                BranchTarget::Indirect(rewritten)
            },
        }
    }

    /// Every label of the target is bound.
    pub open spec fn resolvable(self, labels: Seq<Option<usize>>) -> bool {
        match self {
            BranchTarget::Direct(loc) => loc.resolvable(labels),
            BranchTarget::Indirect(locs) => forall|i: int|
                0 <= i < locs@.len() ==> (#[trigger] locs@[i]).resolvable(labels),
        }
    }

    /// The target points to one location, whose index lies below `len`.
    pub open spec fn lands_below(self, len: nat) -> bool {
        self matches BranchTarget::Direct(EmitterLoc::Index(idx)) && idx < len
    }
}

/// A pre-determined pattern of outcomes associated with a conditional branch.
#[derive(Clone, Copy, Debug, PartialEq, Eq)]
pub enum BranchPattern {
    /// A branch whose outcome is always 'taken'.
    AlwaysTaken,
    /// A branch whose outcome is always 'not-taken'.
    NeverTaken,
    /// A branch whose outcome is only periodically "taken".
    /// Otherwise, the branch is "not-taken" by default.
    TakenPeriodic(usize),
    /// A branch whose outcome is only periodically "not-taken".
    /// Otherwise, the branch is "taken" by default.
    NotTakenPeriodic(usize),
    /// A branch with an arbitrary pattern of outcomes.
    Pattern(&'static [Outcome]),
}

impl BranchPattern {
    /// A period is above zero, and a list of outcomes is not empty.
    pub open spec fn wf(self) -> bool {
        match self {
            BranchPattern::TakenPeriodic(p) => p > 0,
            BranchPattern::NotTakenPeriodic(p) => p > 0,
            BranchPattern::Pattern(p) => p@.len() > 0,
            _ => true,
        }
    }

    /// The outcome of the branch when it is met for the time `ctr`,
    /// counting from zero.
    pub open spec fn outcome(self, ctr: usize) -> Outcome {
        match self {
            BranchPattern::Pattern(p) => p@[ctr as int % p@.len() as int],
            BranchPattern::NeverTaken => Outcome::N,
            BranchPattern::AlwaysTaken => Outcome::T,
            BranchPattern::TakenPeriodic(p) => if ctr as int % p as int == p - 1 {
                Outcome::T
            } else {
                Outcome::N
            },
            BranchPattern::NotTakenPeriodic(p) => if ctr as int % p as int == p - 1 {
                Outcome::N
            } else {
                Outcome::T
            },
        }
    }
}

/// An instruction in the IR.
#[derive(Debug, PartialEq, Eq)]
pub enum EmitterOp {
    /// A conditional branch instruction.
    /// Consists of a single target, and some pattern of outcomes.
    Branch(BranchTarget, BranchPattern),
    /// An unconditional branch instruction with a single target.
    Jump(BranchTarget),
}

impl EmitterOp {
    /// The target of the instruction.
    pub open spec fn target(self) -> BranchTarget {
        match self {
            EmitterOp::Branch(tgt, _) => tgt,
            EmitterOp::Jump(tgt) => tgt,
        }
    }

    /// `self` is `before` with every label rewritten into the index that it
    /// is bound to.
    pub open spec fn resolves(self, before: EmitterOp, labels: Seq<Option<usize>>) -> bool {
        match before {
            EmitterOp::Branch(tgt, pat) => {
                &&& self matches EmitterOp::Branch(rewritten, same)
                &&& rewritten.resolves(tgt, labels)
                &&& same == pat
            },
            EmitterOp::Jump(tgt) => {
                &&& self matches EmitterOp::Jump(rewritten)
                &&& rewritten.resolves(tgt, labels)
            },
        }
    }

    /// The [BranchKind] for this op, where it has one: a conditional branch
    /// to a list of targets has none.
    pub open spec fn spec_kind(self) -> BranchKind {
        match self {
            EmitterOp::Jump(BranchTarget::Direct(_)) => BranchKind::DirectJump,
            EmitterOp::Jump(BranchTarget::Indirect(_)) => BranchKind::IndirectJump,
            EmitterOp::Branch(_, _) => BranchKind::DirectBranch,
        }
    }

    /// The outcome of the instruction when it is met for the time `ctr`,
    /// counting from zero.
    pub open spec fn spec_outcome(self, ctr: usize) -> Outcome {
        match self {
            EmitterOp::Jump(_) => Outcome::T,
            EmitterOp::Branch(_, pat) => pat.outcome(ctr),
        }
    }

    /// The pattern of outcomes, if the instruction has one, is well formed.
    pub open spec fn pattern_ok(self) -> bool {
        self matches EmitterOp::Branch(_, pat) ==> pat.wf()
    }

    /// The instruction can be run in a program of `len` instructions: its
    /// target is one resolved location inside the program, and its pattern
    /// is well formed.
    pub open spec fn runnable(self, len: nat) -> bool {
        &&& self.target().lands_below(len)
        &&& self.pattern_ok()
    }

    /// Returns the number of "bytes" that correspond to this instruction.
    pub fn size(&self) -> (r: usize)
        ensures
            r == 1,
    {
        match self {
            Self::Branch(_, _) => 1,
            Self::Jump(_) => 1,
        }
    }

    /// Return the [BranchKind] for this op.
    pub fn kind(&self) -> (r: BranchKind)
        requires
            !(*self matches EmitterOp::Branch(BranchTarget::Indirect(_), _)),
        ensures
            r == self.spec_kind(),
    {
        match self {
            EmitterOp::Jump(BranchTarget::Direct(_)) => BranchKind::DirectJump,
            EmitterOp::Jump(BranchTarget::Indirect(_)) => BranchKind::IndirectJump,
            EmitterOp::Branch(_, _) => BranchKind::DirectBranch,
        }
    }

    /// Generate a branch outcome with the provided value.
    pub fn outcome(&self, ctr: usize) -> (r: Outcome)
        requires
            self.pattern_ok(),
        ensures
            r == self.spec_outcome(ctr),
    {
        match self {
            EmitterOp::Jump(_) => Outcome::T,
            EmitterOp::Branch(_, pat) => match pat {
                BranchPattern::Pattern(p) => p[ctr % p.len()],
                BranchPattern::NeverTaken => Outcome::N,
                BranchPattern::AlwaysTaken => Outcome::T,
                BranchPattern::TakenPeriodic(p) => {
                    if ctr % *p == (*p - 1) {
                        Outcome::T
                    } else {
                        Outcome::N
                    }
                },
                BranchPattern::NotTakenPeriodic(p) => {
                    if ctr % *p == (*p - 1) {
                        Outcome::N
                    } else {
                        Outcome::T
                    }
                },
            },
        }
    }

    /// Generate a branch target with the provided value.
    pub fn target_loc(&self, _ctr: usize) -> (r: &EmitterLoc)
        requires
            self.target() is Direct,
        ensures
            self.target() == BranchTarget::Direct(*r),
    {
        let tgt = match self {
            EmitterOp::Jump(tgt) => tgt,
            EmitterOp::Branch(tgt, _) => tgt,
        };
        match tgt {
            BranchTarget::Direct(loc) => loc,
            BranchTarget::Indirect(locs) => {
                assert(false);
                &locs[0]
            },
        }
    }

    /// Rewrite every label into the index that it is bound to.
    pub fn resolve(&self, labels: &LabelDb) -> (r: EmitterOp)
        requires
            self.target().resolvable(labels@),
        ensures
            r.resolves(*self, labels@),
    {
        match self {
            EmitterOp::Branch(tgt, pat) => EmitterOp::Branch(tgt.resolve(labels), *pat),
            EmitterOp::Jump(tgt) => EmitterOp::Jump(tgt.resolve(labels)),
        }
    }
}

/// The record of the instruction at `cur` in a program that is run, when
/// the instruction is met for the time `ctr`, counting from zero.
pub open spec fn record_of(ops: Seq<EmitterOp>, pcs: Seq<usize>, cur: int, ctr: usize)
    -> BranchRecord {
    BranchRecord {
        pc: pcs[cur],
        tgt: pcs[target_of(ops[cur])],
        flags: BranchFlags::spec_new(ops[cur].spec_kind(), ops[cur].spec_outcome(ctr)),
    }
}

/// The index that a resolved instruction points to.
pub open spec fn target_of(op: EmitterOp) -> int {
    match op.target() {
        BranchTarget::Direct(EmitterLoc::Index(idx)) => idx as int,
        _ => 0,
    }
}

/// The records of a program that is run from the instruction at `cur` for
/// at most `fuel` instructions. `ctrs` counts how often each instruction
/// was met. A branch that is taken goes on at its target, one that is not
/// at the instruction behind it; the run ends behind the last instruction.
pub open spec fn run_from(
    ops: Seq<EmitterOp>,
    pcs: Seq<usize>,
    ctrs: Seq<usize>,
    cur: int,
    fuel: nat,
) -> Seq<BranchRecord>
    decreases fuel,
{
    if fuel == 0 || cur < 0 || cur >= ops.len() {
        Seq::empty()
    } else {
        let ctr = ctrs[cur];
        let next = match ops[cur].spec_outcome(ctr) {
            Outcome::T => target_of(ops[cur]),
            Outcome::N => cur + 1,
        };
        seq![record_of(ops, pcs, cur, ctr)] + run_from(
            ops,
            pcs,
            ctrs.update(cur, (ctr + 1) as usize),
            next,
            (fuel - 1) as nat,
        )
    }
}

/// Used to assemble and compile a trace.
#[derive(Debug)]
pub struct TraceAssembler {
    /// The list of [EmitterOp]s.
    ops: Vec<EmitterOp>,
    /// The list of program counter values corresponding to each [EmitterOp].
    pcs: Vec<usize>,
    /// The initial address/program counter value.
    base: usize,
    /// State tracking the program counter value during assembly.
    cursor: usize,
    /// Map from some [Label] to an [EmitterOp] index.
    labels: LabelDb,
}

/// What a [`TraceAssembler`] holds.
pub struct AssemblerView {
    /// The list of [EmitterOp]s.
    pub ops: Seq<EmitterOp>,
    /// The list of program counter values corresponding to each [EmitterOp].
    pub pcs: Seq<usize>,
    /// The initial address/program counter value.
    pub base: usize,
    /// State tracking the program counter value during assembly.
    pub cursor: usize,
    /// For each label, the index of the [EmitterOp] that it is bound to.
    pub labels: Seq<Option<usize>>,
}

impl AssemblerView {
    /// Every instruction has its program counter.
    pub open spec fn wf(self) -> bool {
        self.pcs.len() == self.ops.len()
    }

    /// The assembler with one more instruction at the cursor, which moves
    /// on by one.
    pub open spec fn with_op(self, op: EmitterOp) -> AssemblerView {
        AssemblerView {
            ops: self.ops.push(op),
            pcs: self.pcs.push(self.cursor),
            cursor: (self.cursor + 1) as usize,
            ..self
        }
    }

    /// The assembler with its cursor elsewhere.
    pub open spec fn with_cursor(self, cursor: usize) -> AssemblerView {
        AssemblerView { cursor, ..self }
    }

    /// Every label of every instruction is bound.
    pub open spec fn resolvable(self) -> bool {
        forall|i: int|
            0 <= i < self.ops.len() ==> (#[trigger] self.ops[i]).target().resolvable(self.labels)
    }

    /// Every instruction can be run once its labels are rewritten.
    pub open spec fn runnable(self) -> bool {
        forall|i: int|
            0 <= i < self.ops.len() ==> {
                &&& (#[trigger] self.ops[i]).target() matches BranchTarget::Direct(loc)
                &&& loc.resolved(self.labels) matches EmitterLoc::Index(idx)
                &&& idx < self.ops.len()
                &&& self.ops[i].pattern_ok()
            }
    }
}

impl View for TraceAssembler {
    type V = AssemblerView;

    closed spec fn view(&self) -> AssemblerView {
        AssemblerView {
            ops: self.ops@,
            pcs: self.pcs@,
            base: self.base,
            cursor: self.cursor,
            labels: self.labels@,
        }
    }
}

impl TraceAssembler {
    /// The labels handed out so far are numbered from zero, and every
    /// instruction has its program counter.
    pub closed spec fn wf(&self) -> bool {
        &&& self.labels.wf()
        &&& self@.wf()
    }

    /// Create a new emitter.
    pub fn new(base: usize) -> (r: Self)
        ensures
            r@ == (AssemblerView {
                ops: Seq::empty(),
                pcs: Seq::empty(),
                base,
                cursor: base,
                labels: Seq::empty(),
            }),
            r.wf(),
    {
        let r = Self {
            ops: Vec::new(),
            pcs: Vec::new(),
            base,
            cursor: base,
            labels: LabelDb::new(),
        };
        assert(r@.labels =~= Seq::empty());
        r
    }

    /// Create a new label.
    pub fn create_label(&mut self) -> (r: Label)
        requires
            old(self).wf(),
            old(self)@.labels.len() < usize::MAX,
        ensures
            r.0 == old(self)@.labels.len(),
            final(self)@ == (AssemblerView {
                labels: old(self)@.labels.push(None),
                ..old(self)@
            }),
            final(self).wf(),
    {
        self.labels.allocate()
    }

    /// Bind a label to the current point in the program.
    pub fn bind_label(&mut self, label: Label)
        requires
            old(self).wf(),
            label.0 < old(self)@.labels.len(),
        ensures
            final(self)@ == (AssemblerView {
                labels: old(self)@.labels.update(
                    label.0 as int,
                    Some(old(self)@.ops.len() as usize),
                ),
                ..old(self)@
            }),
            final(self).wf(),
    {
        let off = self.ops.len();
        self.labels.define(&label, off);
    }

    /// Create all of the state we need to simulate this [EmitterOp].
    pub fn push_op(&mut self, op: EmitterOp)
        requires
            old(self).wf(),
            old(self)@.cursor < usize::MAX,
        ensures
            final(self)@ == old(self)@.with_op(op),
            final(self).wf(),
    {
        let op_size = op.size();
        self.ops.push(op);
        self.pcs.push(self.cursor);
        self.cursor = self.cursor + op_size;
    }

    /// Emit a conditional direct branch to the provided [Label].
    pub fn branch_to_label(&mut self, tgt: Label, pat: BranchPattern)
        requires
            old(self).wf(),
            old(self)@.cursor < usize::MAX,
        ensures
            final(self)@ == old(self)@.with_op(
                EmitterOp::Branch(BranchTarget::Direct(EmitterLoc::Label(tgt)), pat),
            ),
            final(self).wf(),
    {
        self.push_op(EmitterOp::Branch(BranchTarget::Direct(EmitterLoc::Label(tgt)), pat));
    }

    /// Emit an unconditional direct branch to the provided [Label].
    pub fn jump_to_label(&mut self, tgt: Label)
        requires
            old(self).wf(),
            old(self)@.cursor < usize::MAX,
        ensures
            final(self)@ == old(self)@.with_op(
                EmitterOp::Jump(BranchTarget::Direct(EmitterLoc::Label(tgt))),
            ),
            final(self).wf(),
    {
        self.push_op(EmitterOp::Jump(BranchTarget::Direct(EmitterLoc::Label(tgt))));
    }

    /// Increment the program counter by some value.
    pub fn pad(&mut self, len: usize)
        requires
            old(self)@.cursor + len <= usize::MAX,
        ensures
            final(self)@ == old(self)@.with_cursor((old(self)@.cursor + len) as usize),
            old(self).wf() ==> final(self).wf(),
    {
        self.cursor = self.cursor + len;
    }

    /// Increment and align the program counter to some power of two.
    pub fn pad_align(&mut self, aln: usize)
        requires
            is_table_size(aln),
            old(self)@.cursor + aln - 1 <= usize::MAX,
        ensures
            final(self)@ == old(self)@.with_cursor(
                (old(self)@.cursor + padding_to(old(self)@.cursor, aln)) as usize,
            ),
            old(self).wf() ==> final(self).wf(),
    {
        proof {
            lemma_align_up(self.cursor, aln);
        }
        let mask = aln - 1;
        let tgt = (self.cursor + mask) & !mask;
        self.cursor = self.cursor + (tgt - self.cursor);
    }

    /// Explicitly set the program counter to a particular value.
    pub fn pad_until(&mut self, next_pc: usize)
        requires
            next_pc > old(self)@.cursor,
        ensures
            final(self)@ == old(self)@.with_cursor(next_pc),
            old(self).wf() ==> final(self).wf(),
    {
        self.cursor = next_pc;
    }

    /// Return the program counter value of the next instruction.
    pub fn cursor(&self) -> (r: usize)
        ensures
            r == self@.cursor,
    {
        self.cursor
    }

    /// Return the number of labels created so far.
    pub fn num_labels(&self) -> (r: usize)
        ensures
            r == self@.labels.len(),
    {
        self.labels.len()
    }

    /// Return the number of instructions emitted so far.
    pub fn num_ops(&self) -> (r: usize)
        ensures
            r == self@.ops.len(),
    {
        self.ops.len()
    }

    /// Tell whether the program can be compiled: every label of every
    /// instruction is bound, and every instruction has a single target
    /// inside the program and a well-formed pattern of outcomes.
    pub fn can_compile(&self) -> (r: bool)
        requires
            self.wf(),
        ensures
            r == (self@.resolvable() && self@.runnable()),
    {
        let n = self.ops.len();
        let mut i: usize = 0;
        while i < n
            invariant
                i <= n,
                n == self.ops@.len(),
                forall|j: int|
                    0 <= j < i ==> {
                        &&& (#[trigger] self.ops@[j]).target().resolvable(self.labels@)
                        &&& self.ops@[j].target() matches BranchTarget::Direct(loc)
                        &&& loc.resolved(self.labels@) matches EmitterLoc::Index(idx)
                        &&& idx < n
                        &&& self.ops@[j].pattern_ok()
                    },
            decreases n - i,
        {
            let ghost op_view = self.ops@[i as int];
            let (tgt, pattern_ok) = match &self.ops[i] {
                EmitterOp::Branch(tgt, pat) => {
                    let ok = match pat {
                        BranchPattern::TakenPeriodic(p) => *p > 0,
                        BranchPattern::NotTakenPeriodic(p) => *p > 0,
                        BranchPattern::Pattern(p) => p.len() > 0,
                        _ => true,
                    };
                    (tgt, ok)
                },
                EmitterOp::Jump(tgt) => (tgt, true),
            };
            let target_ok = match tgt {
                BranchTarget::Direct(EmitterLoc::Index(idx)) => *idx < n,
                BranchTarget::Direct(EmitterLoc::Label(lab)) => {
                    if lab.id() < self.labels.len() {
                        match self.labels.resolve(lab) {
                            Some(idx) => idx < n,
                            None => false,
                        }
                    } else {
                        false
                    }
                },
                BranchTarget::Indirect(_) => false,
            };
            if !(target_ok && pattern_ok) {
                assert(!(op_view.target().resolvable(self.labels@) && (op_view.target() matches BranchTarget::Direct(
                    loc,
                ) && (loc.resolved(self.labels@) matches EmitterLoc::Index(idx) && idx < n))
                    && op_view.pattern_ok()));
                assert(!(self@.resolvable() && self@.runnable()));
                return false;
            }
            i = i + 1;
        }
        true
    }

    /// Rewrite occurences of [EmitterLoc::Label] into [EmitterLoc::Index].
    pub fn rewrite_labels(&mut self)
        requires
            old(self).wf(),
            old(self)@.resolvable(),
        ensures
            final(self).wf(),
            final(self)@.ops.len() == old(self)@.ops.len(),
            forall|i: int|
                0 <= i < old(self)@.ops.len() ==> (#[trigger] final(self)@.ops[i]).resolves(
                    old(self)@.ops[i],
                    old(self)@.labels,
                ),
            final(self)@.pcs == old(self)@.pcs,
            final(self)@.base == old(self)@.base,
            final(self)@.cursor == old(self)@.cursor,
            final(self)@.labels == old(self)@.labels,
    {
        let n = self.ops.len();
        let mut i: usize = 0;
        while i < n
            invariant
                i <= n,
                n == self.ops@.len(),
                n == old(self).ops@.len(),
                self.pcs == old(self).pcs,
                self.base == old(self).base,
                self.cursor == old(self).cursor,
                self.labels == old(self).labels,
                old(self).wf(),
                old(self)@.resolvable(),
                forall|j: int|
                    0 <= j < i ==> (#[trigger] self.ops@[j]).resolves(
                        old(self).ops@[j],
                        old(self).labels@,
                    ),
                forall|j: int| i <= j < n ==> #[trigger] self.ops@[j] == old(self).ops@[j],
            decreases n - i,
        {
            assert(old(self)@.ops[i as int].target().resolvable(old(self)@.labels));
            let rewritten = self.ops[i].resolve(&self.labels);
            self.ops[i] = rewritten;
            i = i + 1;
        }
    }

    /// Unroll this program into a trace.
    pub fn compile(&mut self, max_iters: usize) -> (r: SyntheticTrace)
        requires
            old(self).wf(),
            old(self)@.resolvable(),
            old(self)@.runnable(),
        ensures
            final(self).wf(),
            final(self)@.ops.len() == old(self)@.ops.len(),
            forall|i: int|
                0 <= i < old(self)@.ops.len() ==> (#[trigger] final(self)@.ops[i]).resolves(
                    old(self)@.ops[i],
                    old(self)@.labels,
                ),
            final(self)@.pcs == old(self)@.pcs,
            r.data@ == run_from(
                final(self)@.ops,
                final(self)@.pcs,
                Seq::new(final(self)@.ops.len(), |i: int| 0usize),
                0,
                max_iters as nat,
            ),
    {
        self.rewrite_labels();

        let num_ops = self.ops.len();
        let mut ctr: Vec<usize> = vec![0; num_ops];
        let mut data: Vec<BranchRecord> = Vec::new();
        let mut cur: usize = 0;
        let mut iter: usize = 0;
        let ghost zeros = Seq::new(num_ops as nat, |i: int| 0usize);
        assert(ctr@ =~= zeros);
        assert forall|i: int| 0 <= i < num_ops implies (#[trigger] self.ops@[i]).runnable(
            num_ops as nat,
        ) by {
            assert(self.ops@[i].resolves(old(self)@.ops[i], old(self)@.labels));
            assert(old(self)@.ops[i].target() is Direct);
        }

        while iter < max_iters && cur < num_ops
            invariant
                iter <= max_iters,
                num_ops == self.ops@.len(),
                num_ops == self.pcs@.len(),
                ctr@.len() == num_ops,
                forall|i: int| 0 <= i < num_ops ==> #[trigger] ctr@[i] <= iter,
                forall|i: int|
                    0 <= i < num_ops ==> (#[trigger] self.ops@[i]).runnable(num_ops as nat),
                data@ + run_from(self.ops@, self.pcs@, ctr@, cur as int, (max_iters - iter) as nat)
                    == run_from(self.ops@, self.pcs@, zeros, 0, max_iters as nat),
            decreases max_iters - iter,
        {
            let op = &self.ops[cur];
            assert(op.runnable(num_ops as nat));
            let pc = self.pcs[cur];

            let outcome = op.outcome(ctr[cur]);
            let tgt_loc = op.target_loc(ctr[cur]);
            let tgt_idx = tgt_loc.get_index();
            let tgt = self.pcs[tgt_idx];
            let kind = op.kind();
            let ghost before = ctr@;
            let ghost rest = run_from(
                self.ops@,
                self.pcs@,
                before.update(cur as int, (before[cur as int] + 1) as usize),
                match outcome {
                    Outcome::T => tgt_idx as int,
                    Outcome::N => cur + 1,
                },
                (max_iters - iter - 1) as nat,
            );
            let n = ctr[cur];
            ctr[cur] = n + 1;

            let record = BranchRecord { pc, tgt, flags: BranchFlags::new(kind, outcome) };
            proof {
                assert(record == record_of(self.ops@, self.pcs@, cur as int, n));
                assert(run_from(
                    self.ops@,
                    self.pcs@,
                    before,
                    cur as int,
                    (max_iters - iter) as nat,
                ) == seq![record] + rest);
                assert(data@.push(record) + rest == data@ + (seq![record] + rest));
            }
            data.push(record);

            // Go to the next instruction
            iter = iter + 1;
            cur = match outcome {
                Outcome::T => tgt_idx,
                Outcome::N => cur + op.size(),
            };
        }
        assert(run_from(self.ops@, self.pcs@, ctr@, cur as int, (max_iters - iter) as nat)
            =~= Seq::<BranchRecord>::empty());

        SyntheticTrace { data }
    }
}

} // verus!
