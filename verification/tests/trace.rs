use dendrite::branch::{BRN_FLAG, TAKEN_FLAG};
use dendrite::trace::assembler::{BranchTarget, EmitterLoc, Label, LabelDb};
use dendrite::trace::read_le;
use dendrite::{BinaryTrace, BinaryTraceSet, BranchFlags, BranchKind, BranchRecord, Outcome};

fn record_bytes(pc: u64, tgt: u64, flags: u32) -> Vec<u8> {
    let mut out = Vec::new();
    out.extend_from_slice(&pc.to_le_bytes());
    out.extend_from_slice(&tgt.to_le_bytes());
    out.extend_from_slice(&flags.to_le_bytes());
    out.extend_from_slice(&[0xaa; 4]);
    out
}

#[test]
fn trace_set_lists_its_files() {
    let mut set = BinaryTraceSet::new();
    assert_eq!(set.files.len(), 0);
    assert_eq!(set.cur, 0);
    assert_eq!(set.next, 1);
    set.add_file(String::from("a.bin"));
    set.add_file(String::from("b.bin"));
    assert_eq!(set.files, vec![String::from("a.bin"), String::from("b.bin")]);
    assert_eq!(set.next_file(), Some(String::from("a.bin")));
    assert_eq!(set.next_file(), Some(String::from("b.bin")));
    assert_eq!(set.next_file(), None);
    assert_eq!(set.cur, 2);
}

#[test]
fn trace_set_from_a_slice() {
    let names = [String::from("x"), String::from("y"), String::from("z")];
    let set = BinaryTraceSet::new_from_slice(&names);
    assert_eq!(set.files, names.to_vec());
    assert_eq!(set.cur, 0);
    assert_eq!(set.next, 1);
}

#[test]
fn numbers_are_read_least_significant_byte_first() {
    let data = vec![0x01, 0x02, 0x03, 0x04, 0x05, 0x06, 0x07, 0x08, 0x09];
    assert_eq!(read_le(&data, 0, 8), 0x0807_0605_0403_0201);
    assert_eq!(read_le(&data, 1, 8), 0x0908_0706_0504_0302);
    assert_eq!(read_le(&data, 2, 4), 0x0605_0403);
    assert_eq!(read_le(&data, 8, 1), 0x09);
    assert_eq!(read_le(&data, 3, 0), 0);
    assert_eq!(read_le(&vec![0xff; 8], 0, 8), u64::MAX);
}

#[test]
fn trace_is_cut_into_records() {
    let mut data = record_bytes(0x1000_2000_3000, 0x4000, 0x3000_0000 | TAKEN_FLAG | BRN_FLAG);
    data.extend(record_bytes(0x55, 0x66, 0x18));
    let trace = BinaryTrace::from_bytes(data, String::from("demo")).unwrap();
    assert_eq!(trace.num_entries(), 2);
    assert_eq!(trace.name(), "demo");
    let first = trace.record(0);
    assert_eq!(
        first,
        BranchRecord {
            pc: 0x1000_2000_3000,
            tgt: 0x4000,
            flags: BranchFlags(0x3000_0000 | TAKEN_FLAG | BRN_FLAG),
        }
    );
    assert_eq!(first.outcome(), Outcome::T);
    assert_eq!(first.kind(), Some(BranchKind::DirectBranch));
    assert_eq!(first.ilen(), 3);
    let all = trace.as_slice();
    assert_eq!(all.len(), 2);
    assert_eq!(all[0], first);
    assert_eq!(all[1], BranchRecord { pc: 0x55, tgt: 0x66, flags: BranchFlags(0x18) });
    assert_eq!(all[1].kind(), Some(BranchKind::Return));
    assert_eq!(trace.as_slice_trunc(1), vec![first]);
    assert_eq!(trace.as_slice_trunc(5).len(), 2);
    assert_eq!(trace.as_slice_trunc(0).len(), 0);
}

#[test]
fn trace_of_a_broken_length_is_refused() {
    assert!(BinaryTrace::from_bytes(vec![0; 23], String::new()).is_none());
    assert!(BinaryTrace::from_bytes(vec![0; 25], String::new()).is_none());
    let empty = BinaryTrace::from_bytes(Vec::new(), String::from("empty")).unwrap();
    assert_eq!(empty.num_entries(), 0);
    assert_eq!(empty.as_slice().len(), 0);
}

#[test]
fn labels_are_numbered_and_resolved() {
    let mut db = LabelDb::new();
    let a = db.allocate();
    let b = db.allocate();
    assert_eq!(a, Label::new(0));
    assert_eq!(b.id(), 1);
    assert_eq!(db.resolve(&a), None);
    db.define(&b, 12);
    assert_eq!(db.resolve(&b), Some(12));
    assert_eq!(db.resolve(&a), None);
    db.define(&b, 13);
    assert_eq!(db.resolve(&b), Some(13));
}

#[test]
fn locations_give_their_index() {
    assert_eq!(EmitterLoc::Index(9).get_index(), 9);
    let target = BranchTarget::Direct(EmitterLoc::Label(Label::new(3)));
    assert_eq!(target, BranchTarget::Direct(EmitterLoc::Label(Label::new(3))));
    assert_ne!(target, BranchTarget::Indirect(vec![EmitterLoc::Index(3)]));
}
