use dendrite::sim::{Branch, BranchKind, Emitter, IRInst, IRReloc, Label, Program};

#[test]
fn foo() {
    let mut e = Emitter::new(0x1000_0000);
    let start = e.create_label();
    let next = e.create_label();

    e.bind_label(start);
    e.branch_to_label(next);

    e.pad_align(0x0000_1000);
    e.bind_label(next);

    e.pad_align(0x0000_0100);
    e.branch_to_label(start);

    let p = e.emit();
    println!("{:x?}", p);
}

#[test]
fn emit_resolves_labels_to_addresses() {
    let mut e = Emitter::new(0x1000_0000);
    let start = e.create_label();
    let next = e.create_label();
    assert_eq!(start.id(), 0);
    assert_eq!(next.id(), 1);

    e.bind_label(start);
    e.branch_to_label(next);
    e.pad_align(0x0000_1000);
    e.bind_label(next);
    e.pad_align(0x0000_0100);
    e.branch_to_label(start);
    e.jump_to_label(next);

    let p = e.emit();
    let expected = Program::new(
        0x1000_0000,
        vec![
            Branch::new(0x1000_0000, 0x1000_1000, BranchKind::Conditional),
            Branch::new(0x1000_1000, 0x1000_0000, BranchKind::Conditional),
            Branch::new(0x1000_1001, 0x1000_1000, BranchKind::Unconditional),
        ],
    );
    assert_eq!(p, expected);
    assert_eq!(
        e.resolve_pc_table(),
        vec![0x1000_0000, 0x1000_0001, 0x1000_1000, 0x1000_1000, 0x1000_1001]
    );
}

#[test]
fn instructions_have_their_sizes() {
    let label = Label::new(7);
    assert_eq!(label.id(), 7);
    assert_eq!(IRInst::Branch(IRReloc::Label(label)).size(0x10), 1);
    assert_eq!(IRInst::Jump(IRReloc::Address(0x40)).size(0x10), 1);
    assert_eq!(IRInst::Pad(12).size(0x10), 12);
    assert_eq!(IRInst::Terminate.size(0x10), 0);
    assert_eq!(IRInst::PadAlign(0x100).size(0x1001), 0xff);
    assert_eq!(IRInst::PadAlign(0x100).size(0x1100), 0);
    assert_eq!(IRInst::PadAlign(1).size(0x1234), 0);
    assert_eq!(IRInst::PadAlign(8).size(0x1234), 4);
}

#[test]
fn padding_moves_the_program_counter() {
    let mut e = Emitter::new(0x100);
    let target = e.create_label();
    e.pad(0x20);
    e.bind_label(target);
    e.jump_to_label(target);
    let p = e.emit();
    assert_eq!(p, Program::new(0x100, vec![Branch::new(0x120, 0x120, BranchKind::Unconditional)]));
}

#[test]
fn a_program_with_a_loose_end_cannot_be_emitted() {
    let mut e = Emitter::new(0x100);
    assert!(e.can_emit());
    let unbound = e.create_label();
    assert_eq!(e.num_labels(), 1);
    e.jump_to_label(unbound);
    assert!(!e.can_emit());
    e.bind_label(unbound);
    // The label is bound behind the last instruction.
    assert!(!e.can_emit());
    e.pad(1);
    assert!(e.can_emit());

    let mut e = Emitter::new(0x100);
    e.pad_align(3);
    assert!(!e.can_emit());

    let mut e = Emitter::new(usize::MAX - 1);
    e.pad(1);
    assert!(e.can_emit());
    e.pad(1);
    assert!(!e.can_emit());

    let mut e = Emitter::new(usize::MAX - 1);
    e.pad_align(16);
    assert!(!e.can_emit());
}
