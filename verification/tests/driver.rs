use dendrite::branch::{BRN_FLAG, CALL_FLAG, JMP_FLAG, TAKEN_FLAG};
use dendrite::driver::{record_history, retire, retire_with, run, Score};
use dendrite::predictor::tage::preset::{
    build_tage, standard_component, standard_config, standard_counter, HISTORY_BITS, TABLE_SIZE,
};
use dendrite::{
    BranchFlags, BranchRecord, HistoryRegister, IndexStrategy, Outcome, TAGEInputs, TAGEProvider,
    TagStrategy,
};

fn branch(pc: usize, outcome: Outcome) -> BranchRecord {
    let taken = if outcome == Outcome::T { TAKEN_FLAG } else { 0 };
    BranchRecord { pc, tgt: 0, flags: BranchFlags(BRN_FLAG | taken) }
}

fn jump(pc: usize) -> BranchRecord {
    BranchRecord { pc, tgt: 0, flags: BranchFlags(JMP_FLAG) }
}

#[test]
fn the_ready_made_predictor_is_well_formed() {
    let cfg = standard_config();
    assert_eq!(cfg.check(), Ok(()));
    assert_eq!(cfg.base.size, TABLE_SIZE);
    assert_eq!(cfg.base.index_strat, IndexStrategy::FromPc);
    let his: Vec<usize> = cfg.comp.iter().map(|c| *c.ghr_range.end()).collect();
    assert_eq!(his, vec![127, 63, 31, 15, 7]);
    assert!(his.iter().all(|hi| *hi < HISTORY_BITS));
    assert_eq!(cfg.total_entries(), 6 * 4096);
    assert_eq!(cfg.storage_bits(), 5 * (14 * 4096 + 12) + 5 * 4096);
    let component = standard_component(31);
    assert_eq!(component.ghr_range, 0..=31);
    assert_eq!(component.tag_bits, 8);
    assert_eq!(component.useful_bits, 1);
    assert_eq!(component.tag_strat, TagStrategy::FromPcAndHistory);
    assert_eq!(standard_counter().max_t_state, 4);
    assert_eq!(standard_counter().default_state, Outcome::N);
    let tage = build_tage();
    assert_eq!(tage.num_tagged_components(), 5);
    assert_eq!(tage.reset_ctr, 0);
}

#[test]
fn history_is_recorded_newest_first() {
    let mut tage = build_tage();
    let mut ghr = HistoryRegister::new(HISTORY_BITS);
    record_history(&mut tage, &mut ghr, Outcome::T);
    record_history(&mut tage, &mut ghr, Outcome::N);
    record_history(&mut tage, &mut ghr, Outcome::T);
    assert_eq!(ghr.read(0..=3), vec![true, false, true, false]);
    assert_eq!(ghr.len(), HISTORY_BITS);
}

#[test]
fn an_unconditional_branch_only_moves_the_history() {
    let mut tage = build_tage();
    let mut ghr = HistoryRegister::new(HISTORY_BITS);
    assert_eq!(retire(&mut tage, &mut ghr, &jump(0x10)), None);
    let call = BranchRecord { pc: 1, tgt: 2, flags: BranchFlags(CALL_FLAG) };
    assert_eq!(retire_with(&mut tage, &mut ghr, &call, 3), None);
    assert_eq!(tage.stat.clk, 0);
    assert_eq!(ghr.read(0..=2), vec![true, true, false]);
    // The second step turns the bit of the first to the last place.
    assert_eq!(tage.comp[0].csr.output_usize(), 1 << 11);
}

#[test]
fn a_record_of_no_kind_changes_nothing() {
    let mut tage = build_tage();
    let mut ghr = HistoryRegister::new(HISTORY_BITS);
    let broken = BranchRecord { pc: 1, tgt: 2, flags: BranchFlags(0) };
    assert_eq!(retire(&mut tage, &mut ghr, &broken), None);
    assert_eq!(ghr.read(0..=0), vec![false]);
    assert_eq!(tage.stat.clk, 0);
}

#[test]
fn a_conditional_branch_is_predicted_and_learnt() {
    let mut tage = build_tage();
    let mut ghr = HistoryRegister::new(HISTORY_BITS);
    let input = TAGEInputs { pc: 0x444 };
    assert_eq!(retire_with(&mut tage, &mut ghr, &branch(0x444, Outcome::T), 4), Some(false));
    assert_eq!(tage.stat.clk, 1);
    assert_eq!(tage.stat.base_miss, 1);
    assert_eq!(tage.stat.alcs, 1);
    assert_eq!(ghr.read(0..=1), vec![true, false]);
    // The draw 4 picks the last of the five candidates. The entry took the
    // tag of a clear history; the history has moved on since.
    assert_eq!(tage.comp[4].data[0x444].tag, Some(0x44));
    let next = tage.predict(input);
    assert_eq!(next.provider, TAGEProvider::Base);
    assert_eq!(next.outcome, Outcome::T);
    assert_eq!(retire_with(&mut tage, &mut ghr, &branch(0x444, Outcome::T), 0), Some(true));
    assert_eq!(tage.stat.base_hits, 1);
}

#[test]
fn a_trace_is_scored() {
    let mut tage = build_tage();
    let mut ghr = HistoryRegister::new(HISTORY_BITS);
    let mut records = Vec::new();
    for i in 0..400 {
        records.push(branch(0x1000, Outcome::T));
        if i % 4 == 0 {
            records.push(jump(0x2000));
        }
    }
    let score = run(&mut tage, &mut ghr, &records);
    assert_eq!(score.brns, 400);
    assert!(score.hits <= score.brns);
    // The base counter alone turns to taken with the first branch.
    assert!(score.hits >= 300);
    assert_eq!(tage.stat.clk, 400);
    assert_eq!(run(&mut tage, &mut ghr, &Vec::new()), Score { hits: 0, brns: 0 });
}
