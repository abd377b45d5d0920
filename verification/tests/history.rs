use dendrite::{Bits, FoldedHistoryRegister, HistoryRegister};

fn shift_in(ghr: &mut HistoryRegister, bit: bool) {
    ghr.shift_by(1);
    ghr.data_mut().set(0, bit);
}

fn bits_of(value: u64, count: usize) -> Vec<bool> {
    (0..count).map(|i| (value >> i) & 1 == 1).collect()
}

#[test]
fn new_register_is_clear() {
    let ghr = HistoryRegister::new(70);
    assert_eq!(ghr.len(), 70);
    assert_eq!(ghr.read(0..=69), vec![false; 70]);
    assert_eq!(ghr.fold(0..=69, 7), 0);
}

#[test]
fn bits_can_be_written_and_read() {
    let mut bits = Bits::zeros(5);
    assert_eq!(bits.len(), 5);
    bits.set(3, true);
    assert!(bits.get(3));
    assert!(!bits.get(2));
    bits.push(true);
    assert_eq!(bits.len(), 6);
    assert!(bits.get(5));
    assert_eq!(bits.load(0, 6), 0b101000);
    assert_eq!(bits.load(3, 6), 0b101);
    bits.set(0, true);
    assert_eq!(bits.count_ones(), 3);
    assert_eq!(bits.count_zeros(), 3);
    assert_eq!(Bits::new().len(), 0);
}

#[test]
fn bits_shift_and_rotate() {
    let mut bits = Bits::zeros(4);
    bits.set(0, true);
    bits.set(1, true);
    // 1 1 0 0 -> 0 1 1 0
    bits.shift_up(1);
    assert_eq!(bits.load(0, 4), 0b0110);
    // 0 1 1 0 -> 1 1 0 0
    bits.rotate_down(1);
    assert_eq!(bits.load(0, 4), 0b0011);
    // 1 1 0 0 -> 1 0 0 1
    bits.rotate_down(1);
    assert_eq!(bits.load(0, 4), 0b1001);
    // 1 0 0 1 -> 0 0 1 0
    bits.shift_up(2);
    assert_eq!(bits.load(0, 4), 0b0100);
    bits.shift_up(4);
    assert_eq!(bits.load(0, 4), 0);
}

#[test]
fn shift_by_drops_the_oldest_bits() {
    let mut ghr = HistoryRegister::new(8);
    ghr.data_mut().set(0, true);
    ghr.data_mut().set(6, true);
    ghr.data_mut().set(7, true);
    ghr.shift_by(1);
    assert_eq!(ghr.read(0..=7), vec![false, true, false, false, false, false, false, true]);
    ghr.shift_by(3);
    assert_eq!(ghr.read(0..=7), vec![false, false, false, false, true, false, false, false]);
    ghr.shift_by(0);
    assert_eq!(ghr.read(3..=5), vec![false, true, false]);
    ghr.shift_by(8);
    assert_eq!(ghr.read(0..=7), vec![false; 8]);
}

#[test]
fn newest_bit_is_bit_zero() {
    let mut ghr = HistoryRegister::new(4);
    shift_in(&mut ghr, true);
    shift_in(&mut ghr, false);
    shift_in(&mut ghr, true);
    assert_eq!(ghr.read(0..=3), vec![true, false, true, false]);
    assert!(ghr.data().get(0));
    assert!(!ghr.data().get(1));
}

#[test]
fn fold_is_the_xor_of_the_chunks() {
    let mut ghr = HistoryRegister::new(64);
    for i in (0..32).rev() {
        shift_in(&mut ghr, (0xDEAD_BEEFu32 >> i) & 1 == 1);
    }
    assert_eq!(ghr.read(0..=31), bits_of(0xDEAD_BEEF, 32));
    assert_eq!(ghr.fold(0..=31, 8), 0xDE ^ 0xAD ^ 0xBE ^ 0xEF);
    assert_eq!(ghr.fold(0..=31, 8), 0x22);
    assert_eq!(ghr.fold(0..=31, 16), 0xDEAD ^ 0xBEEF);
    assert_eq!(ghr.fold(0..=31, 32), 0xDEAD_BEEF);
    assert_eq!(ghr.fold(0..=15, 8), 0xBE ^ 0xEF);
    assert_eq!(ghr.fold(8..=23, 8), 0xBE ^ 0xAD);
    // A last chunk that is shorter than the others: 0xEF, 0xBE and the low
    // four bits of 0xAD.
    assert_eq!(ghr.fold(0..=19, 8), 0xEF ^ 0xBE ^ 0x0D);
    assert_eq!(ghr.fold(0..=0, 1), 1);
    assert_eq!(ghr.fold(4..=4, 3), 0);
    assert_eq!(ghr.fold(0..=63, 63), 0xDEAD_BEEF);
}

#[test]
fn folded_register_starts_clear() {
    let csr = FoldedHistoryRegister::new(12, 0..=31);
    assert_eq!(csr.output().len(), 12);
    assert_eq!(csr.output_usize(), 0);
}

#[test]
fn folded_register_takes_up_the_first_bit() {
    let mut ghr = HistoryRegister::new(8);
    let mut csr = FoldedHistoryRegister::new(2, 0..=1);
    shift_in(&mut ghr, true);
    csr.update(&ghr);
    assert_eq!(csr.output_usize(), 1);
    assert_eq!(csr.output_usize(), ghr.fold(0..=1, 2));
}

#[test]
fn folded_register_follows_its_update_rule() {
    // Three bits, a window of five bits: the window wraps at index 1.
    let mut ghr = HistoryRegister::new(8);
    let mut csr = FoldedHistoryRegister::new(3, 0..=4);
    let mut seen = Vec::new();
    for bit in [true, false, true, true] {
        shift_in(&mut ghr, bit);
        csr.update(&ghr);
        seen.push(csr.output_usize());
    }
    assert_eq!(seen, vec![1, 5, 4, 1]);

    // A window that does not start at bit zero.
    let mut ghr = HistoryRegister::new(16);
    let mut csr = FoldedHistoryRegister::new(4, 2..=9);
    let mut seen = Vec::new();
    for bit in [true, true, false, true, false, false, true] {
        shift_in(&mut ghr, bit);
        csr.update(&ghr);
        seen.push(csr.output_usize());
    }
    assert_eq!(seen, vec![0, 0, 1, 0, 0, 1, 1]);
}

#[test]
fn folded_register_after_a_long_pattern() {
    let mut ghr = HistoryRegister::new(64);
    let mut csr = FoldedHistoryRegister::new(8, 0..=31);
    for i in (0..32).rev() {
        shift_in(&mut ghr, (0xDEAD_BEEFu32 >> i) & 1 == 1);
        csr.update(&ghr);
    }
    assert_eq!(csr.output_usize(), 0x80);
    assert_eq!(csr.output().len(), 8);
    assert!(csr.output().get(7));
    assert!(!csr.output().get(0));
}

#[test]
fn refolding_gives_the_fold() {
    let mut ghr = HistoryRegister::new(64);
    let mut csr = FoldedHistoryRegister::new(8, 0..=31);
    for i in (0..32).rev() {
        shift_in(&mut ghr, (0xDEAD_BEEFu32 >> i) & 1 == 1);
    }
    csr.refold(&ghr);
    assert_eq!(csr.output_usize(), 0xDE ^ 0xAD ^ 0xBE ^ 0xEF);
    assert_eq!(csr.output_usize(), ghr.fold(0..=31, 8));
    assert_eq!(csr.window(), (0, 31));
    ghr.shift_by(5);
    csr.refold(&ghr);
    assert_eq!(csr.output_usize(), ghr.fold(0..=31, 8));
    let mut wide = FoldedHistoryRegister::new(12, 3..=40);
    wide.refold(&ghr);
    assert_eq!(wide.output_usize(), ghr.fold(3..=40, 12));
    assert_eq!(wide.output().len(), 12);
}

#[test]
fn bits_are_stored_least_significant_first() {
    let mut bits = Bits::zeros(12);
    bits.store(2, 8, 0b1111_0101);
    assert_eq!(bits.load(2, 8), 0b11_0101);
    assert_eq!(bits.load(0, 12), 0b1101_0100);
    assert!(bits.get(2));
    assert!(!bits.get(3));
    assert!(!bits.get(8));
}

#[test]
fn a_window_that_wraps_at_bit_zero_drops_the_newest_bit() {
    // Two bits, a window of three bits: the window wraps at index 0, where
    // the bit that takes up the oldest history is written last.
    let mut ghr = HistoryRegister::new(8);
    let mut csr = FoldedHistoryRegister::new(2, 0..=2);
    shift_in(&mut ghr, true);
    csr.update(&ghr);
    assert_eq!(csr.output_usize(), 0);
    assert_eq!(ghr.fold(0..=2, 2), 1);
}

#[test]
fn a_second_step_leaves_the_first_bit_in_place() {
    let mut ghr = HistoryRegister::new(8);
    let mut csr = FoldedHistoryRegister::new(2, 0..=1);
    shift_in(&mut ghr, true);
    csr.update(&ghr);
    assert_eq!(csr.output_usize(), 1);
    shift_in(&mut ghr, false);
    csr.update(&ghr);
    assert_eq!(csr.output_usize(), 3);
    assert_eq!(ghr.fold(0..=1, 2), 2);
}
