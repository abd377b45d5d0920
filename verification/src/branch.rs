//! Types for representing branches and branch outcomes.

use vstd::prelude::*;

use crate::bits::Bits;
use vstd::std_specs::convert::FromSpecImpl;
use vstd::std_specs::ops::NotSpecImpl;

verus! {

/// A branch outcome.
#[derive(Clone, Copy, Debug, PartialEq, Eq, Structural, PartialOrd, Ord, Hash)]
pub enum Outcome {
    /// Not taken
    N,
    /// Taken
    T,
}

impl Outcome {
    /// The opposite outcome.
    pub open spec fn flipped(self) -> Outcome {
        match self {
            Outcome::N => Outcome::T,
            Outcome::T => Outcome::N,
        }
    }

    /// The outcome that a bit stands for: a set bit is a taken branch.
    pub open spec fn of_bit(b: bool) -> Outcome {
        if b {
            Outcome::T
        } else {
            Outcome::N
        }
    }

    /// The bit that stands for this outcome.
    pub open spec fn bit(self) -> bool {
        self == Outcome::T
    }

    /// Return the outcome that a bit stands for.
    pub fn from_bool(b: bool) -> (r: Self)
        ensures
            r == Outcome::of_bit(b),
    {
        match b {
            true => Self::T,
            false => Self::N,
        }
    }

    /// List the outcomes that the bits stand for.
    pub fn vec_from_bitvec(bits: &Bits) -> (r: Vec<Self>)
        ensures
            r@ == bits@.map_values(|b: bool| Outcome::of_bit(b)),
    {
        let mut out: Vec<Outcome> = Vec::new();
        let n = bits.len();
        let mut i: usize = 0;
        while i < n
            invariant
                i <= n,
                n == bits@.len(),
                out@ == bits@.take(i as int).map_values(|b: bool| Outcome::of_bit(b)),
            decreases n - i,
        {
            out.push(Outcome::from_bool(bits.get(i)));
            assert(bits@.take(i + 1).map_values(|b: bool| Outcome::of_bit(b)) =~= bits@.take(
                i as int,
            ).map_values(|b: bool| Outcome::of_bit(b)).push(Outcome::of_bit(bits@[i as int])));
            i = i + 1;
        }
        assert(bits@.take(n as int) == bits@);
        out
    }
}

impl std::ops::Not for Outcome {
    type Output = Self;

    fn not(self) -> (r: Self) {
        match self {
            Self::N => Self::T,
            Self::T => Self::N,
        }
    }
}

impl NotSpecImpl for Outcome {
    open spec fn obeys_not_spec() -> bool {
        true
    }

    open spec fn not_req(self) -> bool {
        true
    }

    open spec fn not_spec(self) -> Outcome {
        self.flipped()
    }
}

impl From<bool> for Outcome {
    fn from(x: bool) -> (r: Self) {
        match x {
            true => Self::T,
            false => Self::N,
        }
    }
}

impl FromSpecImpl<bool> for Outcome {
    open spec fn obeys_from_spec() -> bool {
        true
    }

    open spec fn from_spec(x: bool) -> Outcome {
        Outcome::of_bit(x)
    }
}

impl From<Outcome> for bool {
    fn from(x: Outcome) -> (r: bool) {
        match x {
            Outcome::T => true,
            Outcome::N => false,
        }
    }
}

impl FromSpecImpl<Outcome> for bool {
    open spec fn obeys_from_spec() -> bool {
        true
    }

    open spec fn from_spec(x: Outcome) -> bool {
        x.bit()
    }
}

/// Negation swaps the two outcomes, so applying it twice gives the outcome back.
pub proof fn lemma_not_involutive(o: Outcome)
    ensures
        o.flipped().flipped() == o,
        o.flipped() != o,
{
}

/// The two outcomes correspond one to one to the two values of a bit.
pub proof fn lemma_outcome_bit_bijection(o: Outcome, b: bool)
    ensures
        Outcome::of_bit(o.bit()) == o,
        Outcome::of_bit(b).bit() == b,
{
}

/// Flag of a conditional branch.
pub const BRN_FLAG: u32 = 0x01;

/// Flag of a jump.
pub const JMP_FLAG: u32 = 0x02;

/// Flag of a procedure call.
pub const CALL_FLAG: u32 = 0x04;

/// Flag of a return.
pub const RET_FLAG: u32 = 0x08;

/// Flag of an instruction that specifies its target indirectly.
pub const IND_FLAG: u32 = 0x10;

/// Flag of a branch that was taken.
pub const TAKEN_FLAG: u32 = 0x20;

/// The bits that hold the kind of a branch.
pub const KIND_MASK: u32 = 0x1f;

/// The bits that hold the 4-bit instruction length.
pub const ILEN_MASK: u32 = 0xf000_0000;

/// The flags of the indirect kinds, put together.
pub proof fn lemma_kind_flags()
    by (bit_vector)
    ensures
        0x02u32 | 0x10u32 == 0x12u32,
        0x04u32 | 0x10u32 == 0x14u32,
        0x08u32 | 0x10u32 == 0x18u32,
{
}

/// Representing different kinds of branch/control-flow instructions.
#[derive(Copy, Clone, Debug, PartialEq, Eq, Structural, PartialOrd, Ord)]
pub enum BranchKind {
    /// A direct conditional branch instruction.
    DirectBranch,
    /// A direct unconditional jump instruction.
    DirectJump,
    /// An indirect unconditional jump instruction.
    IndirectJump,
    /// A direct procedure call instruction.
    DirectCall,
    /// An indirect procedure call instruction.
    IndirectCall,
    /// A return instruction.
    Return,
}

impl BranchKind {
    /// The flags that stand for the kind.
    pub open spec fn spec_bits(self) -> u32 {
        match self {
            BranchKind::DirectBranch => 0x01,
            BranchKind::DirectJump => 0x02,
            BranchKind::IndirectJump => 0x12,
            BranchKind::DirectCall => 0x04,
            BranchKind::IndirectCall => 0x14,
            BranchKind::Return => 0x18,
        }
    }

    /// The kind that the low five bits of `x` stand for, if they stand for
    /// one.
    pub open spec fn spec_from_bits(x: u32) -> Option<BranchKind> {
        let low = x & KIND_MASK;
        if low == 0x01 {
            Some(BranchKind::DirectBranch)
        } else if low == 0x02 {
            Some(BranchKind::DirectJump)
        } else if low == 0x04 {
            Some(BranchKind::DirectCall)
        } else if low == 0x12 {
            Some(BranchKind::IndirectJump)
        } else if low == 0x14 {
            Some(BranchKind::IndirectCall)
        } else if low == 0x18 {
            Some(BranchKind::Return)
        } else {
            None
        }
    }

    /// Return the flags that stand for the kind.
    pub fn bits(self) -> (r: u32)
        ensures
            r == self.spec_bits(),
    {
        proof {
            lemma_kind_flags();
        }
        match self {
            BranchKind::DirectBranch => BRN_FLAG,
            BranchKind::DirectJump => JMP_FLAG,
            BranchKind::IndirectJump => JMP_FLAG | IND_FLAG,
            BranchKind::DirectCall => CALL_FLAG,
            BranchKind::IndirectCall => CALL_FLAG | IND_FLAG,
            BranchKind::Return => RET_FLAG | IND_FLAG,
        }
    }

    /// Return the kind that the low five bits of `x` stand for, if they
    /// stand for one.
    pub fn from_bits(x: u32) -> (r: Option<Self>)
        ensures
            r == Self::spec_from_bits(x),
    {
        proof {
            lemma_kind_flags();
        }
        let low = x & KIND_MASK;
        if low == BRN_FLAG {
            Some(Self::DirectBranch)
        } else if low == JMP_FLAG {
            Some(Self::DirectJump)
        } else if low == CALL_FLAG {
            Some(Self::DirectCall)
        } else if low == JMP_FLAG | IND_FLAG {
            Some(Self::IndirectJump)
        } else if low == CALL_FLAG | IND_FLAG {
            Some(Self::IndirectCall)
        } else if low == RET_FLAG | IND_FLAG {
            Some(Self::Return)
        } else {
            None
        }
    }

    /// The flags of a kind stand for that kind, whatever the other bits of
    /// the word hold.
    pub proof fn lemma_bits_round_trip(self, rest: u32)
        ensures
            Self::spec_from_bits(self.spec_bits() | (rest & !KIND_MASK)) == Some(self),
    {
        let bits = self.spec_bits();
        assert(((bits | (rest & !0x1fu32)) & 0x1fu32) == bits) by (bit_vector)
            requires
                bits == 0x01 || bits == 0x02 || bits == 0x12 || bits == 0x04 || bits == 0x14
                    || bits == 0x18,
        ;
    }
}

/// The flags of a branch record: the kind of the branch, whether it was
/// taken, and the length of the instruction.
#[derive(Copy, Clone, Debug, PartialEq, Eq, Structural, PartialOrd, Ord)]
pub struct BranchFlags(pub u32);

impl BranchFlags {
    /// Whether any bit of `flag` is set.
    pub open spec fn has(self, flag: u32) -> bool {
        self.0 & flag != 0
    }

    /// The 4-bit instruction length.
    pub open spec fn spec_ilen(self) -> usize {
        ((self.0 & ILEN_MASK) >> 28) as usize
    }

    /// The kind of branch, if the flags stand for one.
    pub open spec fn spec_kind(self) -> Option<BranchKind> {
        BranchKind::spec_from_bits(self.0)
    }

    /// The outcome of the branch.
    pub open spec fn spec_outcome(self) -> Outcome {
        Outcome::of_bit(self.has(TAKEN_FLAG))
    }

    /// The flags of a branch of the given kind and outcome, with an
    /// instruction length of zero.
    pub open spec fn spec_new(kind: BranchKind, outcome: Outcome) -> BranchFlags {
        BranchFlags(
            kind.spec_bits() | if outcome == Outcome::T {
                TAKEN_FLAG
            } else {
                0
            },
        )
    }

    /// Return the 4-bit instruction length.
    pub fn ilen(&self) -> (r: usize)
        ensures
            r == self.spec_ilen(),
            r < 16,
    {
        let x = self.0;
        assert(((x & 0xf000_0000u32) >> 28) < 16) by (bit_vector);
        ((self.0 & ILEN_MASK) >> 28) as usize
    }

    /// Returns 'true' for a conditional branch.
    pub fn is_brn(&self) -> (r: bool)
        ensures
            r == self.has(BRN_FLAG),
    {
        self.0 & BRN_FLAG != 0
    }

    /// Returns 'true' for a jump.
    pub fn is_jmp(&self) -> (r: bool)
        ensures
            r == self.has(JMP_FLAG),
    {
        self.0 & JMP_FLAG != 0
    }

    /// Returns 'true' for a procedure call.
    pub fn is_call(&self) -> (r: bool)
        ensures
            r == self.has(CALL_FLAG),
    {
        self.0 & CALL_FLAG != 0
    }

    /// Returns 'true' for a return.
    pub fn is_ret(&self) -> (r: bool)
        ensures
            r == self.has(RET_FLAG),
    {
        self.0 & RET_FLAG != 0
    }

    /// Returns 'true' if the target is specified directly.
    pub fn is_direct(&self) -> (r: bool)
        ensures
            r == !self.has(IND_FLAG),
    {
        self.0 & IND_FLAG == 0
    }

    /// Returns 'true' if the target is specified indirectly.
    pub fn is_indirect(&self) -> (r: bool)
        ensures
            r == self.has(IND_FLAG),
    {
        self.0 & IND_FLAG != 0
    }

    /// Returns 'true' if the branch was taken.
    pub fn is_taken(&self) -> (r: bool)
        ensures
            r == self.has(TAKEN_FLAG),
    {
        self.0 & TAKEN_FLAG != 0
    }

    /// Return the kind of branch, if the flags stand for one.
    pub fn kind(&self) -> (r: Option<BranchKind>)
        ensures
            r == self.spec_kind(),
    {
        BranchKind::from_bits(self.0)
    }

    /// Make the flags of a branch of the given kind and outcome, with an
    /// instruction length of zero.
    pub fn new(kind: BranchKind, outcome: Outcome) -> (r: Self)
        ensures
            r == Self::spec_new(kind, outcome),
            r.spec_kind() == Some(kind),
            r.spec_outcome() == outcome,
            r.spec_ilen() == 0,
    {
        let kbits = kind.bits();
        let obits = match outcome {
            Outcome::T => TAKEN_FLAG,
            Outcome::N => 0,
        };
        proof {
            kind.lemma_bits_round_trip(obits);
            assert((kbits | (obits & !0x1fu32)) == (kbits | obits) && ((kbits | obits) & 0x20u32 != 0
                <==> obits == 0x20) && ((kbits | obits) & 0xf000_0000u32) >> 28 == 0)
                by (bit_vector)
                requires
                    kbits == 0x01 || kbits == 0x02 || kbits == 0x12 || kbits == 0x04 || kbits
                        == 0x14 || kbits == 0x18,
                    obits == 0 || obits == 0x20,
            ;
        }
        Self(kbits | obits)
    }
}

/// A record of branch execution.
#[derive(Copy, Clone, Debug, PartialEq, Eq, Structural, PartialOrd, Ord)]
pub struct BranchRecord {
    /// The program counter value for this branch
    pub pc: usize,
    /// The target address evaluated for this branch
    pub tgt: usize,
    /// The kind of branch, its outcome and the length of the instruction
    pub flags: BranchFlags,
}

impl BranchRecord {
    /// Return the outcome evaluated for this branch.
    pub fn outcome(&self) -> (r: Outcome)
        ensures
            r == self.flags.spec_outcome(),
    {
        Outcome::from_bool(self.flags.is_taken())
    }

    /// Return the kind of branch, if the flags stand for one.
    pub fn kind(&self) -> (r: Option<BranchKind>)
        ensures
            r == self.flags.spec_kind(),
    {
        self.flags.kind()
    }

    /// Return the length of the instruction.
    pub fn ilen(&self) -> (r: usize)
        ensures
            r == self.flags.spec_ilen(),
            r < 16,
    {
        self.flags.ilen()
    }

    /// Returns 'true' if this is a conditional instruction.
    pub fn is_conditional(&self) -> (r: bool)
        ensures
            r == self.flags.has(BRN_FLAG),
    {
        self.flags.is_brn()
    }

    /// Returns 'true' if this is an unconditional instruction.
    pub fn is_unconditional(&self) -> (r: bool)
        ensures
            r == !self.flags.has(BRN_FLAG),
    {
        !self.flags.is_brn()
    }

    /// Returns 'true' if this instruction directly specifies the target.
    pub fn is_direct(&self) -> (r: bool)
        ensures
            r == !self.flags.has(IND_FLAG),
    {
        self.flags.is_direct()
    }

    /// Returns 'true' if this instruction indirectly specifies the target.
    pub fn is_indirect(&self) -> (r: bool)
        ensures
            r == self.flags.has(IND_FLAG),
    {
        self.flags.is_indirect()
    }

    /// Returns 'true' if this is a "jump" instruction.
    pub fn is_jump(&self) -> (r: bool)
        ensures
            r == self.flags.has(JMP_FLAG),
    {
        self.flags.is_jmp()
    }

    /// Returns 'true' if this is a "call" or "return".
    pub fn is_procedural(&self) -> (r: bool)
        ensures
            r == (self.flags.has(CALL_FLAG) || self.flags.has(RET_FLAG)),
    {
        self.flags.is_call() || self.flags.is_ret()
    }
}

} // verus!
