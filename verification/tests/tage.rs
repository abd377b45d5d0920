use dendrite::{
    HistoryRegister, IndexStrategy, Outcome, PredictorTable, SaturatingCounterConfig,
    TAGEBaseConfig, TAGEComponentConfig, TAGEConfig, TAGEConfigError, TAGEInputs, TAGEPredictor,
    TAGEProvider, TagStrategy, TaggedPredictorTable,
};

fn counter(limit: u8) -> SaturatingCounterConfig {
    SaturatingCounterConfig { max_t_state: limit, max_n_state: limit, default_state: Outcome::N }
}

fn base(size: usize) -> TAGEBaseConfig {
    TAGEBaseConfig { ctr: counter(4), size, index_strat: IndexStrategy::FromPc }
}

fn component(size: usize, hi: usize) -> TAGEComponentConfig {
    TAGEComponentConfig {
        size,
        ghr_range: 0..=hi,
        tag_bits: 8,
        useful_bits: 1,
        index_strat: IndexStrategy::FromPc,
        tag_strat: TagStrategy::FromPcAndHistory,
        ctr: counter(4),
    }
}

fn predictor(his: &[usize]) -> TAGEPredictor {
    let mut cfg = TAGEConfig::new(base(1 << 12));
    for hi in his {
        cfg.add_component(component(1 << 12, *hi));
    }
    assert_eq!(cfg.check(), Ok(()));
    cfg.build()
}

fn retire(tage: &mut TAGEPredictor, ghr: &mut HistoryRegister, outcome: Outcome) {
    ghr.shift_by(1);
    ghr.data_mut().set(0, outcome.into());
    tage.update_history(ghr);
}

fn useful_counters(tage: &TAGEPredictor) -> usize {
    tage.comp.iter().map(|c| c.data.iter().filter(|e| e.useful != 0).count()).sum()
}

#[test]
fn period_four_pattern_on_the_base_alone() {
    let mut tage = predictor(&[]);
    let mut ghr = HistoryRegister::new(128);
    let input = TAGEInputs { pc: 0x1000_0444 };
    let pattern = [Outcome::N, Outcome::N, Outcome::N, Outcome::T];
    let mut hits = 0;
    for i in 0..4096 {
        let outcome = pattern[i % 4];
        let prediction = tage.predict(input);
        assert_eq!(prediction.provider, TAGEProvider::Base);
        assert_eq!(prediction.alt_provider, TAGEProvider::Base);
        if prediction.outcome == outcome {
            hits += 1;
        }
        tage.update(input, prediction, outcome);
        retire(&mut tage, &mut ghr, outcome);
    }
    assert!(hits as f64 / 4096.0 >= 0.74);
    assert_eq!(hits, 3072);
    assert_eq!(tage.stat.base_hits, 3072);
    assert_eq!(tage.stat.base_miss, 1024);
    assert_eq!(tage.stat.failed_alcs, 1024);
    assert_eq!(tage.stat.alcs, 0);
    assert_eq!(tage.stat.resets, 0);
    assert_eq!(tage.stat.clk, 4096);
    assert_eq!(tage.reset_ctr, 0);
}

#[test]
fn predict_leaves_the_predictor_alone() {
    let tage = predictor(&[7, 63]);
    let input = TAGEInputs { pc: 0x40 };
    let first = tage.predict(input);
    let second = tage.predict(input);
    assert_eq!(first, second);
    assert_eq!(first.provider, TAGEProvider::Base);
    assert_eq!(first.outcome, Outcome::N);
    assert_eq!(first.idx, 0x40);
    assert_eq!(first.tag, 0);
    assert_eq!(first.alt_idx, 0x40);
    assert_eq!(first.alt_tag, 0);
    assert_eq!(tage.stat.clk, 0);
}

#[test]
fn failed_allocations_wind_the_reset_counter_down() {
    let mut tage = predictor(&[7, 63]);
    let input = TAGEInputs { pc: 0x123 };
    for comp in tage.comp.iter_mut() {
        let idx = comp.get_index(input);
        comp.get_entry_mut(idx).useful = 1;
    }
    tage.reset_ctr = 5;
    let mut seen = Vec::new();
    for _ in 0..8 {
        let prediction = tage.predict(input);
        assert_eq!(prediction.provider, TAGEProvider::Base);
        tage.update(input, prediction, !prediction.outcome);
        seen.push(tage.reset_ctr);
    }
    assert_eq!(seen, vec![4, 3, 2, 1, 0, 0, 0, 0]);
    assert_eq!(tage.stat.failed_alcs, 8);
    assert_eq!(tage.stat.alcs, 0);
    assert_eq!(tage.stat.resets, 0);
    assert_eq!(useful_counters(&tage), 2);
    assert_eq!(tage.allocate(input, TAGEProvider::Base), None);
}

#[test]
fn longest_history_wins() {
    let mut tage = predictor(&[7, 63]);
    assert_eq!(tage.num_tagged_components(), 2);
    assert_eq!(tage.shortest_tagged_component(), 1);
    assert_eq!(tage.comp[0].cfg.ghr_range, 0..=63);
    assert_eq!(tage.comp[1].cfg.ghr_range, 0..=7);

    let input = TAGEInputs { pc: 0xabc };
    for comp in tage.comp.iter_mut() {
        let idx = comp.get_index(input);
        let tag = comp.get_tag(input);
        comp.get_entry_mut(idx).tag = Some(tag);
    }
    let idx = tage.comp[0].get_index(input);
    tage.comp[0].get_entry_mut(idx).ctr.set_direction(Outcome::T);

    let prediction = tage.predict(input);
    assert_eq!(prediction.provider, TAGEProvider::Tagged(0));
    assert_eq!(prediction.outcome, Outcome::T);
    assert_eq!(prediction.idx, 0xabc);
    assert_eq!(prediction.tag, 0xbc);
    // The walk stops at the first match, so the alternate is the base.
    assert_eq!(prediction.alt_provider, TAGEProvider::Base);
    assert_eq!(prediction.alt_outcome, Outcome::N);
    assert_eq!(prediction.alt_idx, 0xabc);

    // Without the entry in the longest history, the next one provides.
    let idx = tage.comp[0].get_index(input);
    tage.comp[0].get_entry_mut(idx).tag = None;
    let prediction = tage.predict(input);
    assert_eq!(prediction.provider, TAGEProvider::Tagged(1));
    assert_eq!(prediction.outcome, Outcome::N);
}

#[test]
fn an_empty_entry_never_matches() {
    let tage = predictor(&[7]);
    for pc in [0usize, 1, 0xff, 0x100, 0xfff, 0x1000] {
        let input = TAGEInputs { pc };
        let idx = tage.comp[0].get_index(input);
        let tag = tage.comp[0].get_tag(input);
        assert!(!tage.comp[0].get_entry(idx).tag_matches(tag));
        assert!(!tage.comp[0].get_entry(idx).tag_matches(0));
    }
}

#[test]
fn a_component_that_never_matches_leaves_the_base_to_predict() {
    let mut tagged = predictor(&[15]);
    let mut plain = predictor(&[]);
    let mut ghr = HistoryRegister::new(64);
    let input = TAGEInputs { pc: 0x77 };
    // No misprediction can allocate the entry, so it never takes a tag.
    let idx = tagged.comp[0].get_index(input);
    tagged.comp[0].get_entry_mut(idx).useful = 1;
    let pattern = [Outcome::T, Outcome::T, Outcome::N, Outcome::T, Outcome::N, Outcome::N];
    for i in 0..600 {
        let outcome = pattern[i % pattern.len()];
        let with_component = tagged.predict(input);
        let without = plain.predict(input);
        assert_eq!(with_component.provider, TAGEProvider::Base);
        assert_eq!(with_component.outcome, without.outcome);
        tagged.update(input, with_component, outcome);
        plain.update(input, without, outcome);
        retire(&mut tagged, &mut ghr, outcome);
    }
}

#[test]
fn a_misprediction_allocates_where_the_draw_points() {
    for (pick, chosen) in [(0usize, 0usize), (1, 1), (5, 1), (6, 0)] {
        let mut tage = predictor(&[7, 63]);
        let input = TAGEInputs { pc: 0x321 };
        assert_eq!(tage.candidates(input, TAGEProvider::Base), vec![0, 1]);
        assert_eq!(tage.allocate_with(input, TAGEProvider::Base, pick), Some(chosen));
        let prediction = tage.predict(input);
        assert_eq!(prediction.outcome, Outcome::N);
        tage.update_with(input, prediction, Outcome::T, pick);

        let other = 1 - chosen;
        let entry = tage.comp[chosen].get_entry(0x321);
        assert_eq!(entry.tag, Some(0x21));
        assert_eq!(entry.useful, 0);
        assert_eq!(entry.predict(), Outcome::T);
        assert_eq!(entry.ctr.get_strength(), 0);
        assert!(!entry.stat.was_unused());
        assert_eq!(entry.stat.num_aliasing_branches(), 1);
        assert!(entry.stat.branches.contains(&0x321));
        assert_eq!(entry.stat.invalidations, 1);
        assert_eq!(entry.stat.clk, 0);
        assert_eq!(tage.comp[other].get_entry(0x321).tag, None);
        assert!(tage.comp[other].get_entry(0x321).stat.was_unused());

        assert_eq!(tage.stat.alcs, 1);
        assert_eq!(tage.stat.failed_alcs, 0);
        assert_eq!(tage.stat.base_miss, 1);
        assert_eq!(tage.stat.clk, 1);
        assert_eq!(tage.reset_ctr, 1);
        // The base counter had no strength: it has turned.
        assert_eq!(tage.base.get_entry(0x321).predict(), Outcome::T);

        let next = tage.predict(input);
        assert_eq!(next.provider, TAGEProvider::Tagged(chosen));
        assert_eq!(next.outcome, Outcome::T);
    }
}

#[test]
fn a_single_candidate_needs_no_draw() {
    let mut tage = predictor(&[7, 63]);
    let input = TAGEInputs { pc: 0x5 };
    tage.comp[0].get_entry_mut(0x5).useful = 1;
    assert_eq!(tage.candidates(input, TAGEProvider::Base), vec![1]);
    for pick in 0..4 {
        assert_eq!(tage.allocate_with(input, TAGEProvider::Base, pick), Some(1));
    }
    assert_eq!(tage.allocate(input, TAGEProvider::Base), Some(1));
    assert_eq!(TAGEPredictor::select_candidate(&vec![], 3), None);
    assert_eq!(TAGEPredictor::select_candidate(&vec![9], 3), Some(9));
    assert_eq!(TAGEPredictor::select_candidate(&vec![4, 6, 8], 4), Some(6));
}

#[test]
fn the_longest_history_cannot_allocate() {
    let tage = predictor(&[7, 63]);
    let input = TAGEInputs { pc: 0x5 };
    assert_eq!(tage.candidates(input, TAGEProvider::Tagged(0)), Vec::<usize>::new());
    assert_eq!(tage.allocate(input, TAGEProvider::Tagged(0)), None);
    assert_eq!(tage.candidates(input, TAGEProvider::Tagged(1)), vec![0]);
    assert_eq!(tage.allocate(input, TAGEProvider::Tagged(1)), Some(0));
}

#[test]
fn a_random_draw_picks_a_candidate() {
    let mut seen = [0usize; 3];
    for _ in 0..200 {
        let mut tage = predictor(&[7, 31, 63]);
        let input = TAGEInputs { pc: 0x99 };
        let choice = tage.allocate(input, TAGEProvider::Base).unwrap();
        assert!(choice < 3);
        seen[choice] += 1;
        let prediction = tage.predict(input);
        tage.update(input, prediction, Outcome::T);
        let allocated: Vec<usize> =
            (0..3).filter(|i| tage.comp[*i].get_entry(0x99).tag.is_some()).collect();
        assert_eq!(allocated.len(), 1);
        assert_eq!(tage.stat.alcs, 1);
    }
    assert_eq!(seen.iter().sum::<usize>(), 200);
    // The weights are 1, 2 and 4: the last position is drawn most often.
    assert!(seen[2] > seen[0]);
}

#[test]
fn the_reset_counter_fires_at_its_greatest_value() {
    let mut tage = predictor(&[7, 63]);
    let input = TAGEInputs { pc: 0x10 };
    tage.comp[0].get_entry_mut(0x800).useful = 1;
    tage.comp[1].get_entry_mut(0x801).useful = 1;
    tage.reset_ctr = 254;
    assert_eq!(useful_counters(&tage), 2);
    let prediction = tage.predict(input);
    tage.update_with(input, prediction, Outcome::T, 0);
    assert_eq!(tage.reset_ctr, 0);
    assert_eq!(tage.stat.resets, 1);
    assert_eq!(tage.stat.alcs, 1);
    assert_eq!(useful_counters(&tage), 0);
    // Tags and counters are untouched.
    assert_eq!(tage.comp[0].get_entry(0x10).tag, Some(0x10));
}

#[test]
fn the_reset_counter_goes_up_with_each_allocation() {
    let mut tage = predictor(&[7]);
    tage.reset_ctr = 250;
    let mut seen = Vec::new();
    for pc in 0..6 {
        let input = TAGEInputs { pc };
        let prediction = tage.predict(input);
        tage.update(input, prediction, Outcome::T);
        seen.push(tage.reset_ctr);
    }
    assert_eq!(seen, vec![251, 252, 253, 254, 0, 1]);
    assert_eq!(tage.stat.resets, 1);
}

#[test]
fn a_useful_provider_is_rewarded() {
    let mut tage = predictor(&[7]);
    let input = TAGEInputs { pc: 0x2a };
    {
        let tag = tage.comp[0].get_tag(input);
        let entry = tage.comp[0].get_entry_mut(0x2a);
        entry.tag = Some(tag);
        entry.ctr.set_direction(Outcome::T);
    }
    let prediction = tage.predict(input);
    assert_eq!(prediction.provider, TAGEProvider::Tagged(0));
    assert_eq!(prediction.outcome, Outcome::T);
    assert_eq!(prediction.alt_outcome, Outcome::N);
    tage.update(input, prediction, Outcome::T);
    let entry = tage.comp[0].get_entry(0x2a);
    assert_eq!(entry.useful, 1);
    assert_eq!(entry.ctr.get_strength(), 1);
    assert_eq!(tage.stat.comp_hits, vec![1]);
    assert_eq!(tage.stat.comp_miss, vec![0]);
    // The base did not provide: its counter is as it was.
    assert_eq!(tage.base.get_entry(0x2a).get_strength(), 0);
    assert_eq!(tage.base.get_entry(0x2a).predict(), Outcome::N);

    // The 'useful' counter has one bit: it stays at one.
    let prediction = tage.predict(input);
    tage.update(input, prediction, Outcome::T);
    assert_eq!(tage.comp[0].get_entry(0x2a).useful, 1);
    assert_eq!(tage.comp[0].get_entry(0x2a).ctr.get_strength(), 2);
}

#[test]
fn a_provider_that_agrees_with_its_alternate_is_not_rewarded() {
    let mut tage = predictor(&[7]);
    let input = TAGEInputs { pc: 0x2a };
    {
        let tag = tage.comp[0].get_tag(input);
        tage.comp[0].get_entry_mut(0x2a).tag = Some(tag);
    }
    let prediction = tage.predict(input);
    assert_eq!(prediction.provider, TAGEProvider::Tagged(0));
    assert_eq!(prediction.outcome, Outcome::N);
    tage.update(input, prediction, Outcome::N);
    assert_eq!(tage.comp[0].get_entry(0x2a).useful, 0);
    assert_eq!(tage.comp[0].get_entry(0x2a).ctr.get_strength(), 1);
}

#[test]
fn a_mispredicting_tagged_provider_is_trained_once() {
    let mut tage = predictor(&[7, 63]);
    let input = TAGEInputs { pc: 0x2b };
    {
        let tag = tage.comp[1].get_tag(input);
        let entry = tage.comp[1].get_entry_mut(0x2b);
        entry.tag = Some(tag);
        entry.useful = 1;
        entry.ctr.set_strength(3);
    }
    let prediction = tage.predict(input);
    assert_eq!(prediction.provider, TAGEProvider::Tagged(1));
    tage.update_with(input, prediction, Outcome::T, 0);
    let entry = tage.comp[1].get_entry(0x2b);
    assert_eq!(entry.predict(), Outcome::N);
    assert_eq!(entry.ctr.get_strength(), 2);
    assert_eq!(entry.useful, 1);
    assert_eq!(tage.stat.comp_miss, vec![0, 1]);
    // The new entry goes to the longer history.
    assert_eq!(tage.comp[0].get_entry(0x2b).tag, Some(0x2b));
    assert_eq!(tage.comp[0].get_entry(0x2b).predict(), Outcome::T);
}

#[test]
fn history_reaches_every_component() {
    let mut tage = predictor(&[7, 63]);
    let mut ghr = HistoryRegister::new(64);
    retire(&mut tage, &mut ghr, Outcome::T);
    assert_eq!(tage.comp[0].csr.output_usize(), 1);
    assert_eq!(tage.comp[1].csr.output_usize(), 1);
    assert_eq!(tage.comp[0].csr.output().len(), 12);
    // The tag folds the history in twice, the second time moved up by one.
    let input = TAGEInputs { pc: 0x30 };
    assert_eq!(tage.comp[0].get_tag(input), 0x30 ^ 1 ^ 2);
    assert_eq!(tage.comp[0].get_index(input), 0x30);
    retire(&mut tage, &mut ghr, Outcome::N);
    let history = tage.comp[1].csr.output_usize();
    assert_eq!(tage.comp[1].get_tag(input), (0x30 ^ history ^ (history << 1)) & 0xff);
}

#[test]
fn index_can_fold_the_history_in() {
    let mut cfg = TAGEConfig::new(base(16));
    let mut with_history = component(16, 7);
    with_history.index_strat = IndexStrategy::FromPcAndHistory;
    with_history.tag_strat = TagStrategy::FromPc;
    with_history.tag_bits = 4;
    cfg.add_component(with_history);
    let mut tage = cfg.build();
    let mut ghr = HistoryRegister::new(8);
    let input = TAGEInputs { pc: 0x1fe };
    assert_eq!(tage.comp[0].get_index(input), 0xe);
    assert_eq!(tage.comp[0].get_tag(input), 0xe);
    assert_eq!(tage.base.get_index(input), 0xe);
    retire(&mut tage, &mut ghr, Outcome::T);
    assert_eq!(tage.comp[0].csr.output_usize(), 1);
    assert_eq!(tage.comp[0].get_index(input), 0xf);
    assert_eq!(tage.comp[0].get_tag(input), 0xe);
    assert_eq!(tage.comp[0].size(), 16);
    assert_eq!(tage.comp[0].index_mask(), 15);
    assert_eq!(tage.base.size(), 16);
}

#[test]
fn components_are_kept_longest_first() {
    let mut cfg = TAGEConfig::new(base(1 << 12));
    for hi in [7, 15, 31, 63, 127] {
        cfg.add_component(component(1 << 12, hi));
    }
    let his: Vec<usize> = cfg.comp.iter().map(|c| *c.ghr_range.end()).collect();
    assert_eq!(his, vec![127, 63, 31, 15, 7]);

    // A component as long as another comes behind it.
    let mut late = component(1 << 4, 31);
    late.tag_bits = 3;
    cfg.add_component(late);
    let his: Vec<usize> = cfg.comp.iter().map(|c| *c.ghr_range.end()).collect();
    assert_eq!(his, vec![127, 63, 31, 31, 15, 7]);
    assert_eq!(cfg.comp[2].tag_bits, 8);
    assert_eq!(cfg.comp[3].tag_bits, 3);

    let tage = cfg.clone().build();
    let built: Vec<usize> = tage.comp.iter().map(|c| *c.cfg.ghr_range.end()).collect();
    assert_eq!(built, vec![127, 63, 31, 31, 15, 7]);
    assert_eq!(tage.cfg.comp.len(), 6);
}

#[test]
fn storage_is_counted_in_bits() {
    let mut cfg = TAGEConfig::new(base(1 << 12));
    assert_eq!(cfg.base.storage_bits(), 5 * 4096);
    assert_eq!(cfg.storage_bits(), 5 * 4096);
    assert_eq!(cfg.total_entries(), 4096);
    for hi in [7, 15, 31, 63, 127] {
        cfg.add_component(component(1 << 12, hi));
    }
    assert_eq!(cfg.comp[0].storage_bits(), (5 + 1 + 8) * 4096 + 12);
    assert_eq!(cfg.storage_bits(), 5 * ((5 + 1 + 8) * 4096 + 12) + 5 * 4096);
    assert_eq!(cfg.total_entries(), 6 * 4096);
}

#[test]
fn a_table_size_must_be_a_power_of_two() {
    assert_eq!(base(4096).check(), Ok(()));
    assert_eq!(base(1).check(), Ok(()));
    assert_eq!(base(0).check(), Err(TAGEConfigError::TableSize));
    assert_eq!(base(3).check(), Err(TAGEConfigError::TableSize));
    assert_eq!(component(6, 7).check(), Err(TAGEConfigError::TableSize));
    assert_eq!(component(1, 7).check(), Err(TAGEConfigError::TableSize));
    assert_eq!(component(2, 7).check(), Ok(()));
    assert_eq!(TAGEConfig::new(base(12)).check(), Err(TAGEConfigError::TableSize));
    let mut cfg = TAGEConfig::new(base(16));
    cfg.add_component(component(16, 15));
    cfg.add_component(component(24, 7));
    assert_eq!(cfg.check(), Err(TAGEConfigError::TableSize));
}

#[test]
fn a_history_window_must_not_be_empty() {
    let mut empty = component(16, 7);
    empty.ghr_range = 5..=2;
    assert_eq!(empty.check(), Err(TAGEConfigError::EmptyWindow));
    let mut one = component(16, 7);
    one.ghr_range = 5..=5;
    assert_eq!(one.check(), Ok(()));
}

#[test]
fn a_tag_must_fit_a_machine_word() {
    let mut wide = component(16, 7);
    wide.tag_bits = usize::BITS as usize + 1;
    assert_eq!(wide.check(), Err(TAGEConfigError::TagWidth));
    wide.tag_bits = usize::BITS as usize;
    assert_eq!(wide.check(), Ok(()));
    let mut cfg = TAGEConfig::new(base(16));
    cfg.add_component(wide);
    let tage = cfg.build();
    assert_eq!(tage.comp[0].get_tag(TAGEInputs { pc: usize::MAX }), usize::MAX);
}

#[test]
fn components_are_limited_in_number() {
    let mut cfg = TAGEConfig::new(base(2));
    for _ in 0..usize::BITS {
        cfg.add_component(component(2, 3));
    }
    assert_eq!(cfg.check(), Ok(()));
    cfg.add_component(component(2, 3));
    assert_eq!(cfg.check(), Err(TAGEConfigError::TooManyComponents));
}

#[test]
fn components_out_of_order_are_refused() {
    let mut cfg = TAGEConfig::new(base(16));
    cfg.comp.push(component(16, 7));
    cfg.comp.push(component(16, 63));
    assert_eq!(cfg.check(), Err(TAGEConfigError::ComponentOrder));
    let mut cfg = TAGEConfig::new(base(16));
    cfg.comp.push(component(16, 63));
    cfg.comp.push(component(16, 7));
    assert_eq!(cfg.check(), Ok(()));
}

#[test]
fn useful_counters_saturate() {
    let mut tage = predictor(&[7]);
    let entry = tage.comp[0].get_entry_mut(0);
    assert_eq!(entry.useful_bits, 1);
    entry.decrement_useful();
    assert_eq!(entry.useful, 0);
    entry.increment_useful();
    entry.increment_useful();
    assert_eq!(entry.useful, 1);
    entry.useful_bits = 2;
    entry.increment_useful();
    entry.increment_useful();
    entry.increment_useful();
    assert_eq!(entry.useful, 3);
    entry.decrement_useful();
    assert_eq!(entry.useful, 2);
    entry.useful_bits = 9;
    entry.useful = 254;
    entry.increment_useful();
    entry.increment_useful();
    assert_eq!(entry.useful, 255);
}

#[test]
fn an_entry_nudges_its_useful_counter_when_it_is_updated() {
    let mut tage = predictor(&[7]);
    let entry = tage.comp[0].get_entry_mut(0);
    assert_eq!(entry.predict(), Outcome::N);
    entry.update(Outcome::N);
    assert_eq!(entry.useful, 1);
    assert_eq!(entry.ctr.get_strength(), 1);
    entry.update(Outcome::T);
    assert_eq!(entry.useful, 0);
    assert_eq!(entry.ctr.get_strength(), 0);
    entry.update(Outcome::T);
    assert_eq!(entry.useful, 0);
    assert_eq!(entry.predict(), Outcome::T);
}

#[test]
fn invalidating_an_entry_empties_it() {
    let mut tage = predictor(&[7]);
    let entry = tage.comp[0].get_entry_mut(3);
    entry.tag = Some(9);
    entry.useful = 1;
    entry.ctr.set_direction(Outcome::T);
    entry.ctr.set_strength(2);
    entry.invalidate(77);
    assert_eq!(entry.tag, None);
    assert_eq!(entry.useful, 0);
    assert_eq!(entry.predict(), Outcome::N);
    assert_eq!(entry.ctr.get_strength(), 0);
    assert_eq!(entry.stat.invalidations, 1);
    assert_eq!(entry.stat.clk, 77);
    assert!(!entry.tag_matches(9));
}

#[test]
fn resetting_the_useful_bits_keeps_tags_and_counters() {
    let mut tage = predictor(&[7]);
    {
        let entry = tage.comp[0].get_entry_mut(3);
        entry.tag = Some(9);
        entry.useful = 1;
        entry.ctr.set_direction(Outcome::T);
    }
    tage.comp[0].get_entry_mut(4000).useful = 1;
    assert_eq!(tage.comp[0].occupancy(), (1, 4096));
    tage.comp[0].reset_useful_bits();
    assert_eq!(useful_counters(&tage), 0);
    assert_eq!(tage.comp[0].get_entry(3).tag, Some(9));
    assert_eq!(tage.comp[0].get_entry(3).predict(), Outcome::T);
}

#[test]
fn history_can_be_folded_from_scratch() {
    let mut tage = predictor(&[7, 63]);
    let mut ghr = HistoryRegister::new(64);
    assert!(tage.fits_history(64));
    assert!(!tage.fits_history(63));
    assert!(tage.fits_history(usize::MAX));
    for i in 0..40 {
        ghr.shift_by(1);
        ghr.data_mut().set(0, i % 3 == 0);
    }
    tage.refold_history(&ghr);
    assert_eq!(tage.comp[0].csr.output_usize(), ghr.fold(0..=63, 12));
    assert_eq!(tage.comp[1].csr.output_usize(), ghr.fold(0..=7, 12));
    assert_eq!(tage.stat.clk, 0);
}

#[test]
fn a_history_window_must_lie_inside_the_register() {
    let mut cfg = TAGEConfig::new(base(16));
    cfg.add_component(component(16, 63));
    cfg.add_component(component(16, 7));
    assert_eq!(cfg.check_for(64), Ok(()));
    assert_eq!(cfg.check_for(128), Ok(()));
    assert_eq!(cfg.check_for(63), Err(TAGEConfigError::WindowBeyondHistory));
    assert_eq!(cfg.check_for(0), Err(TAGEConfigError::WindowBeyondHistory));
    cfg.comp.push(component(3, 2));
    assert_eq!(cfg.check_for(4), Err(TAGEConfigError::TableSize));
}

#[test]
fn candidates_weigh_two_to_the_power_of_their_position() {
    assert_eq!(TAGEPredictor::candidate_weights(&vec![0, 1, 4, 10]), vec![1, 2, 16, 1024]);
    assert_eq!(TAGEPredictor::candidate_weights(&vec![]), Vec::<usize>::new());
    let last = usize::BITS as usize - 1;
    assert_eq!(TAGEPredictor::candidate_weights(&vec![last]), vec![1usize << last]);
}

#[test]
fn a_prediction_names_a_component_of_its_predictor() {
    let tage = predictor(&[7, 63]);
    assert!(tage.has_provider(TAGEProvider::Base));
    assert!(tage.has_provider(TAGEProvider::Tagged(1)));
    assert!(!tage.has_provider(TAGEProvider::Tagged(2)));
    assert!(tage.has_provider(tage.predict(TAGEInputs { pc: 9 }).provider));
    assert!(!predictor(&[]).has_provider(TAGEProvider::Tagged(0)));
}
