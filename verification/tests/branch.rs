use dendrite::branch::{BRN_FLAG, CALL_FLAG, IND_FLAG, JMP_FLAG, RET_FLAG, TAKEN_FLAG};
use dendrite::{BranchFlags, BranchKind, BranchRecord, Outcome};

#[test]
fn negation_swaps_the_outcomes() {
    assert_eq!(!Outcome::T, Outcome::N);
    assert_eq!(!Outcome::N, Outcome::T);
    assert_eq!(!!Outcome::T, Outcome::T);
}

#[test]
fn outcome_is_one_bit() {
    assert_eq!(Outcome::from(true), Outcome::T);
    assert_eq!(Outcome::from(false), Outcome::N);
    assert_eq!(Outcome::from_bool(true), Outcome::T);
    assert_eq!(Outcome::from_bool(false), Outcome::N);
    let taken: bool = Outcome::T.into();
    let not_taken: bool = Outcome::N.into();
    assert!(taken);
    assert!(!not_taken);
}

#[test]
fn kinds_have_their_flags() {
    assert_eq!(BranchKind::DirectBranch.bits(), BRN_FLAG);
    assert_eq!(BranchKind::DirectJump.bits(), JMP_FLAG);
    assert_eq!(BranchKind::IndirectJump.bits(), JMP_FLAG | IND_FLAG);
    assert_eq!(BranchKind::DirectCall.bits(), CALL_FLAG);
    assert_eq!(BranchKind::IndirectCall.bits(), CALL_FLAG | IND_FLAG);
    assert_eq!(BranchKind::Return.bits(), RET_FLAG | IND_FLAG);
}

#[test]
fn flags_give_their_kind_back() {
    let kinds = [
        BranchKind::DirectBranch,
        BranchKind::DirectJump,
        BranchKind::IndirectJump,
        BranchKind::DirectCall,
        BranchKind::IndirectCall,
        BranchKind::Return,
    ];
    for kind in kinds {
        assert_eq!(BranchKind::from_bits(kind.bits()), Some(kind));
        assert_eq!(BranchKind::from_bits(kind.bits() | TAKEN_FLAG | 0x3000_0000), Some(kind));
    }
    assert_eq!(BranchKind::from_bits(0), None);
    assert_eq!(BranchKind::from_bits(0x03), None);
    assert_eq!(BranchKind::from_bits(0x1f), None);
}

#[test]
fn flags_are_read_bit_by_bit() {
    let flags = BranchFlags(0x3000_0000 | TAKEN_FLAG | CALL_FLAG | IND_FLAG);
    assert_eq!(flags.ilen(), 3);
    assert!(flags.is_call());
    assert!(flags.is_indirect());
    assert!(!flags.is_direct());
    assert!(flags.is_taken());
    assert!(!flags.is_brn());
    assert!(!flags.is_jmp());
    assert!(!flags.is_ret());
    assert_eq!(flags.kind(), Some(BranchKind::IndirectCall));
    assert_eq!(BranchFlags(0xf000_0001).ilen(), 15);
}

#[test]
fn new_flags_hold_kind_and_outcome() {
    let taken = BranchFlags::new(BranchKind::DirectBranch, Outcome::T);
    assert_eq!(taken.0, BRN_FLAG | TAKEN_FLAG);
    assert_eq!(taken.kind(), Some(BranchKind::DirectBranch));
    assert!(taken.is_taken());
    let not_taken = BranchFlags::new(BranchKind::Return, Outcome::N);
    assert_eq!(not_taken.0, RET_FLAG | IND_FLAG);
    assert!(!not_taken.is_taken());
    assert_eq!(not_taken.ilen(), 0);
}

#[test]
fn records_read_their_flags() {
    let record = BranchRecord {
        pc: 0x1000,
        tgt: 0x2000,
        flags: BranchFlags(0x5000_0000 | TAKEN_FLAG | BRN_FLAG),
    };
    assert_eq!(record.outcome(), Outcome::T);
    assert_eq!(record.kind(), Some(BranchKind::DirectBranch));
    assert_eq!(record.ilen(), 5);
    assert!(record.is_conditional());
    assert!(!record.is_unconditional());
    assert!(record.is_direct());
    assert!(!record.is_indirect());
    assert!(!record.is_jump());
    assert!(!record.is_procedural());
    let ret = BranchRecord { pc: 1, tgt: 2, flags: BranchFlags(RET_FLAG | IND_FLAG) };
    assert!(ret.is_procedural());
    assert!(ret.is_unconditional());
    assert_eq!(ret.outcome(), Outcome::N);
}
