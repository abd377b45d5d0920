use dendrite::branch::{BRN_FLAG, JMP_FLAG, TAKEN_FLAG};
use dendrite::trace::assembler::{
    BranchPattern, BranchTarget, EmitterLoc, EmitterOp, Label, LabelDb, TraceAssembler,
};
use dendrite::{BranchFlags, BranchKind, BranchRecord, Outcome};

static PATTERN: [Outcome; 4] = [Outcome::T, Outcome::T, Outcome::N, Outcome::N];

fn record(pc: usize, tgt: usize, flags: u32) -> BranchRecord {
    BranchRecord { pc, tgt, flags: BranchFlags(flags) }
}

#[test]
fn patterns_give_their_outcomes() {
    let loc = || BranchTarget::Direct(EmitterLoc::Index(0));
    let always = EmitterOp::Branch(loc(), BranchPattern::AlwaysTaken);
    let never = EmitterOp::Branch(loc(), BranchPattern::NeverTaken);
    let every_fourth = EmitterOp::Branch(loc(), BranchPattern::TakenPeriodic(4));
    let all_but_third = EmitterOp::Branch(loc(), BranchPattern::NotTakenPeriodic(3));
    let listed = EmitterOp::Branch(loc(), BranchPattern::Pattern(&PATTERN));
    let jump = EmitterOp::Jump(loc());
    let taken: Vec<bool> = (0..8).map(|i| every_fourth.outcome(i) == Outcome::T).collect();
    assert_eq!(taken, vec![false, false, false, true, false, false, false, true]);
    let taken: Vec<bool> = (0..6).map(|i| all_but_third.outcome(i) == Outcome::T).collect();
    assert_eq!(taken, vec![true, true, false, true, true, false]);
    let taken: Vec<bool> = (0..6).map(|i| listed.outcome(i) == Outcome::T).collect();
    assert_eq!(taken, vec![true, true, false, false, true, true]);
    for i in 0..5 {
        assert_eq!(always.outcome(i), Outcome::T);
        assert_eq!(never.outcome(i), Outcome::N);
        assert_eq!(jump.outcome(i), Outcome::T);
    }
}

#[test]
fn operations_have_size_kind_and_target() {
    let branch = EmitterOp::Branch(
        BranchTarget::Direct(EmitterLoc::Index(4)),
        BranchPattern::NeverTaken,
    );
    let jump = EmitterOp::Jump(BranchTarget::Direct(EmitterLoc::Label(Label::new(2))));
    let indirect = EmitterOp::Jump(BranchTarget::Indirect(vec![EmitterLoc::Index(1)]));
    assert_eq!(branch.size(), 1);
    assert_eq!(jump.size(), 1);
    assert_eq!(branch.kind(), BranchKind::DirectBranch);
    assert_eq!(jump.kind(), BranchKind::DirectJump);
    assert_eq!(indirect.kind(), BranchKind::IndirectJump);
    assert_eq!(branch.target_loc(0), &EmitterLoc::Index(4));
    assert_eq!(jump.target_loc(9), &EmitterLoc::Label(Label::new(2)));
}

#[test]
fn labels_are_rewritten_into_indexes() {
    let mut db = LabelDb::new();
    let a = db.allocate();
    let b = db.allocate();
    db.define(&a, 5);
    db.define(&b, 7);
    assert_eq!(EmitterLoc::Label(b).resolve(&db), EmitterLoc::Index(7));
    assert_eq!(EmitterLoc::Index(3).resolve(&db), EmitterLoc::Index(3));
    let list = BranchTarget::Indirect(vec![
        EmitterLoc::Label(a),
        EmitterLoc::Index(1),
        EmitterLoc::Label(b),
    ]);
    assert_eq!(
        list.resolve(&db),
        BranchTarget::Indirect(vec![
            EmitterLoc::Index(5),
            EmitterLoc::Index(1),
            EmitterLoc::Index(7)
        ])
    );
    let op = EmitterOp::Branch(BranchTarget::Direct(EmitterLoc::Label(a)), BranchPattern::AlwaysTaken);
    assert_eq!(
        op.resolve(&db),
        EmitterOp::Branch(BranchTarget::Direct(EmitterLoc::Index(5)), BranchPattern::AlwaysTaken)
    );
}

#[test]
fn a_program_is_unrolled_into_a_trace() {
    let mut e = TraceAssembler::new(0x1000_0000);
    let lab = e.create_label();
    let start = e.create_label();
    e.bind_label(start);
    e.branch_to_label(lab, BranchPattern::NeverTaken);
    e.branch_to_label(lab, BranchPattern::Pattern(&PATTERN));
    e.branch_to_label(lab, BranchPattern::NeverTaken);
    e.branch_to_label(lab, BranchPattern::TakenPeriodic(4));

    e.pad_align(0x0000_1000);
    e.bind_label(lab);
    e.jump_to_label(start);
    let trace = e.compile(128);
    assert_eq!(trace.data.len(), 128);

    let not_taken = BRN_FLAG;
    let taken = BRN_FLAG | TAKEN_FLAG;
    let jump = JMP_FLAG | TAKEN_FLAG;
    let tgt = 0x1000_1000;
    let expected = vec![
        // First round: the second branch is taken at once.
        record(0x1000_0000, tgt, not_taken),
        record(0x1000_0001, tgt, taken),
        record(tgt, 0x1000_0000, jump),
        // Second round: again.
        record(0x1000_0000, tgt, not_taken),
        record(0x1000_0001, tgt, taken),
        record(tgt, 0x1000_0000, jump),
        // Third round: the second branch falls through, and so do the third
        // and the fourth, which is met for the first time.
        record(0x1000_0000, tgt, not_taken),
        record(0x1000_0001, tgt, not_taken),
        record(0x1000_0002, tgt, not_taken),
        record(0x1000_0003, tgt, not_taken),
        record(tgt, 0x1000_0000, jump),
    ];
    assert_eq!(&trace.data[..expected.len()], &expected[..]);
    assert_eq!(trace.data[1].outcome(), Outcome::T);
    assert_eq!(trace.data[1].kind(), Some(BranchKind::DirectBranch));
    assert_eq!(trace.data[2].kind(), Some(BranchKind::DirectJump));
}

#[test]
fn a_program_ends_behind_its_last_instruction() {
    let mut e = TraceAssembler::new(0x40);
    let end = e.create_label();
    e.branch_to_label(end, BranchPattern::NeverTaken);
    e.pad(0x10);
    e.bind_label(end);
    e.branch_to_label(end, BranchPattern::NeverTaken);
    let trace = e.compile(50);
    assert_eq!(
        trace.data,
        vec![record(0x40, 0x51, BRN_FLAG), record(0x51, 0x51, BRN_FLAG)]
    );
    let mut e = TraceAssembler::new(0x40);
    let here = e.create_label();
    e.bind_label(here);
    e.pad_until(0x80);
    e.jump_to_label(here);
    let trace = e.compile(3);
    assert_eq!(trace.data, vec![record(0x80, 0x80, JMP_FLAG | TAKEN_FLAG); 3]);
    assert_eq!(e.compile(0).data, vec![]);
}

#[test]
fn a_program_with_a_loose_end_cannot_be_compiled() {
    let mut e = TraceAssembler::new(0x100);
    assert!(e.can_compile());
    let unbound = e.create_label();
    assert_eq!(e.num_labels(), 1);
    e.jump_to_label(unbound);
    assert_eq!(e.num_ops(), 1);
    assert_eq!(e.cursor(), 0x101);
    assert!(!e.can_compile());
    e.bind_label(unbound);
    // The label is bound behind the last instruction.
    assert!(!e.can_compile());
    e.jump_to_label(unbound);
    assert!(e.can_compile());
    e.branch_to_label(unbound, BranchPattern::TakenPeriodic(0));
    assert!(!e.can_compile());

    static EMPTY: [Outcome; 0] = [];
    let mut e = TraceAssembler::new(0x100);
    let here = e.create_label();
    e.bind_label(here);
    e.branch_to_label(here, BranchPattern::Pattern(&EMPTY));
    assert!(!e.can_compile());
    let mut e = TraceAssembler::new(0x100);
    e.push_op(EmitterOp::Jump(BranchTarget::Indirect(vec![EmitterLoc::Index(0)])));
    assert!(!e.can_compile());
    let mut e = TraceAssembler::new(0x100);
    e.push_op(EmitterOp::Jump(BranchTarget::Direct(EmitterLoc::Index(0))));
    assert!(e.can_compile());
    e.push_op(EmitterOp::Jump(BranchTarget::Direct(EmitterLoc::Index(2))));
    assert!(!e.can_compile());
}
