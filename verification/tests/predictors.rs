use dendrite::branch::{CALL_FLAG, IND_FLAG, JMP_FLAG, RET_FLAG};
use dendrite::predictor::perceptron::{sat_add, sat_mul};
use dendrite::{
    BranchFlags, BranchKind, BranchRecord, IndexStrategy, NotTakenPredictor, Outcome, Perceptron,
    PredictorTable, RandomPredictor, SaturatingCounterConfig, SimpleBTB, SimpleBTBEntry,
    SimplePHT, SimplePredictor, TakenPredictor, UnboundedRAS,
};

#[test]
fn simple_predictors_guess() {
    assert_eq!(TakenPredictor.name(), "TakenPredictor");
    assert_eq!(NotTakenPredictor.name(), "NotTakenPredictor");
    assert_eq!(RandomPredictor.name(), "RandomPredictor");
    for _ in 0..8 {
        assert_eq!(TakenPredictor.predict(), Outcome::T);
        assert_eq!(NotTakenPredictor.predict(), Outcome::N);
    }
    let mut taken = 0;
    for _ in 0..400 {
        if RandomPredictor.predict() == Outcome::T {
            taken += 1;
        }
    }
    assert!(taken > 0 && taken < 400);
}

#[test]
fn saturating_arithmetic_stays_in_range() {
    assert_eq!(sat_add(100, 100), 127);
    assert_eq!(sat_add(-100, -100), -128);
    assert_eq!(sat_add(100, -30), 70);
    assert_eq!(sat_mul(16, 8), 127);
    assert_eq!(sat_mul(-16, 9), -128);
    assert_eq!(sat_mul(-128, -128), 127);
    assert_eq!(sat_mul(-7, 6), -42);
}

#[test]
fn a_new_perceptron_is_clear() {
    let mut p = Perceptron::<4>::new();
    assert_eq!(p.weights(), &[0, 0, 0, 0]);
    assert_eq!(p.bias, 0);
    assert_eq!(p.output(&[1, -1, 1, 1]), (0, Outcome::T));
    p.weights = [1, 2, 3, 4];
    p.bias = -3;
    p.reset();
    assert_eq!(p.weights(), &[0, 0, 0, 0]);
    assert_eq!(p.bias, 0);
}

#[test]
fn the_threshold_follows_the_history_length() {
    assert_eq!(Perceptron::<0>::theta(), 14);
    assert_eq!(Perceptron::<1>::theta(), 15);
    assert_eq!(Perceptron::<4>::theta(), 21);
    assert_eq!(Perceptron::<32>::theta(), 75);
    assert_eq!(Perceptron::<58>::theta(), 125);
    assert_eq!(Perceptron::<59>::theta(), 127);
    assert_eq!(Perceptron::<64>::theta(), 127);
    assert_eq!(Perceptron::<4>::theta(), ((1.93f32 * 4.0) + 14.0) as i8);
    assert_eq!(Perceptron::<58>::theta(), ((1.93f32 * 58.0) + 14.0) as i8);
    assert_eq!(Perceptron::<59>::theta(), ((1.93f32 * 59.0) + 14.0) as i8);
}

#[test]
fn the_dot_product_saturates() {
    let mut p = Perceptron::<3>::new();
    p.weights = [2, -3, 4];
    assert_eq!(p.dot_product(&[1, 1, -1]), 2 - 3 - 4);
    p.weights = [100, 100, -100];
    assert_eq!(p.dot_product(&[1, 1, 1]), 27);
    assert_eq!(p.dot_product(&[2, 2, 0]), 127);
    p.bias = -10;
    assert_eq!(p.output(&[1, 1, 1]), (17, Outcome::T));
    p.bias = -30;
    assert_eq!(p.output(&[1, 1, 1]), (-3, Outcome::N));
    assert_eq!(Perceptron::<3>::outcome_to_val(Outcome::T), 1);
    assert_eq!(Perceptron::<3>::outcome_to_val(Outcome::N), -1);
}

#[test]
fn training_moves_the_weights_towards_the_outcome() {
    let mut p = Perceptron::<3>::new();
    p.train(&[1, -1, 1], Outcome::T);
    assert_eq!(p.bias, 1);
    assert_eq!(p.weights(), &[1, -1, 1]);
    p.train(&[1, -1, 1], Outcome::N);
    assert_eq!(p.bias, 0);
    assert_eq!(p.weights(), &[0, 0, 0]);
}

#[test]
fn a_confident_perceptron_does_not_learn_from_a_hit() {
    let mut p = Perceptron::<2>::new();
    // The threshold for two inputs is 17.
    p.weights = [10, 10];
    assert_eq!(p.output(&[1, 1]), (20, Outcome::T));
    p.train(&[1, 1], Outcome::T);
    assert_eq!(p.weights(), &[10, 10]);
    assert_eq!(p.bias, 0);
    p.train(&[1, 1], Outcome::N);
    assert_eq!(p.weights(), &[9, 9]);
    assert_eq!(p.bias, -1);
    p.weights = [9, 8];
    p.bias = 0;
    p.train(&[1, 1], Outcome::T);
    assert_eq!(p.weights(), &[10, 9]);
    assert_eq!(p.bias, 1);
}

#[test]
fn pattern_history_table_is_indexed_by_the_program_counter() {
    let cfg = SaturatingCounterConfig { max_t_state: 4, max_n_state: 4, default_state: Outcome::N };
    let mut pht = SimplePHT::new(4096, IndexStrategy::FromPc, cfg);
    assert_eq!(pht.size(), 4096);
    assert_eq!(pht.index_mask(), 4095);
    assert_eq!(pht.get_index(0x1_2345), 0x345);
    let idx = pht.get_index(0x1_2345);
    pht.get_entry_mut(idx).update(Outcome::T);
    assert_eq!(pht.get_entry(0x345).predict(), Outcome::T);
    assert_eq!(pht.get_entry(0x2345).predict(), Outcome::T);
    assert_eq!(pht.get_entry(0x346).predict(), Outcome::N);
}

#[test]
fn target_buffer_entries_hold_target_and_kind() {
    let entry = SimpleBTBEntry::new(0x4000, BranchKind::DirectCall);
    assert_eq!(entry.target(), 0x4000);
    assert_eq!(entry.kind(), BranchKind::DirectCall);
    let _btb = SimpleBTB::new(64);
}

fn call(pc: usize, ilen: u32) -> BranchRecord {
    BranchRecord { pc, tgt: 0, flags: BranchFlags((ilen << 28) | CALL_FLAG) }
}

fn ret(tgt: usize) -> BranchRecord {
    BranchRecord { pc: 0, tgt, flags: BranchFlags(RET_FLAG | IND_FLAG) }
}

#[test]
fn return_addresses_are_stacked() {
    let mut ras = UnboundedRAS::new();
    assert_eq!(ras.predict(), None);
    assert_eq!(ras.pop(), None);
    ras.push(0x10);
    ras.push(0x20);
    assert_eq!(ras.predict(), Some(0x20));
    assert_eq!(ras.max_depth(), 2);
    assert_eq!(ras.pop(), Some(0x20));
    assert_eq!(ras.predict(), Some(0x10));
    assert_eq!(ras.pop(), Some(0x10));
    assert_eq!(ras.pop(), None);
    assert_eq!(ras.max_depth(), 2);
    assert_eq!(ras.misses(), 0);
    ras.inc_miss();
    assert_eq!(ras.misses(), 1);
}

#[test]
fn calls_and_returns_are_replayed() {
    let mut ras = UnboundedRAS::new();
    let jump = BranchRecord { pc: 1, tgt: 2, flags: BranchFlags(JMP_FLAG) };
    let records = vec![
        call(0x1000, 5),
        jump,
        call(0x2000, 2),
        ret(0x2002),
        ret(0x9999),
        call(0x3000, 3),
    ];
    assert!(ras.replay(&records));
    assert_eq!(ras.misses(), 1);
    assert_eq!(ras.max_depth(), 2);
    assert_eq!(ras.predict(), Some(0x3003));
}

#[test]
fn a_return_without_a_call_stops_the_replay() {
    let mut ras = UnboundedRAS::new();
    assert!(!ras.replay(&vec![call(0x1000, 5), ret(0x1005), ret(0x1005)]));
    let mut ras = UnboundedRAS::new();
    assert!(!ras.step(&ret(0)));
    assert!(!ras.step(&call(usize::MAX, 1)));
    assert!(ras.step(&call(usize::MAX, 0)));
    assert_eq!(ras.predict(), Some(usize::MAX));
    let jump = BranchRecord { pc: 1, tgt: 2, flags: BranchFlags(JMP_FLAG) };
    assert!(!ras.step(&jump));
}
