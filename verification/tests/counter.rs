use dendrite::predictor::counter::ceil_log2_u8;
use dendrite::{Outcome, SaturatingCounter, SaturatingCounterConfig, StatefulPredictor};

fn config(max_t: u8, max_n: u8, default_state: Outcome) -> SaturatingCounterConfig {
    SaturatingCounterConfig { max_t_state: max_t, max_n_state: max_n, default_state }
}

#[test]
fn static_branch_saturates() {
    let mut ctr = config(4, 4, Outcome::N).build();
    let mut hits = 0;
    let mut first_prediction = None;
    for _ in 0..100 {
        let prediction = ctr.predict();
        if first_prediction.is_none() {
            first_prediction = Some(prediction);
        }
        if prediction == Outcome::T {
            hits += 1;
        }
        ctr.update(Outcome::T);
    }
    assert_eq!(first_prediction, Some(Outcome::N));
    assert_eq!(ctr.predict(), Outcome::T);
    assert_eq!(ctr.get_strength(), 4);
    assert_eq!(hits, 99);
}

#[test]
fn bimodal_flip_at_zero() {
    let mut ctr = config(1, 1, Outcome::N).build();
    let sequence = [Outcome::N, Outcome::N, Outcome::T, Outcome::T, Outcome::T, Outcome::T];
    let mut predictions = Vec::new();
    for outcome in sequence {
        predictions.push(ctr.predict());
        ctr.update(outcome);
    }
    // The counter gains one step of strength from the first two outcomes, so
    // it takes two taken branches to turn it.
    assert_eq!(
        predictions,
        vec![Outcome::N, Outcome::N, Outcome::N, Outcome::N, Outcome::T, Outcome::T]
    );
    assert_eq!(ctr.predict(), Outcome::T);
    assert_eq!(ctr.get_strength(), 1);
}

#[test]
fn weaken_at_zero_flips_direction() {
    let mut ctr = config(3, 3, Outcome::T).build();
    assert_eq!(ctr.get_strength(), 0);
    ctr.weaken();
    assert_eq!(ctr.predict(), Outcome::N);
    assert_eq!(ctr.get_strength(), 0);
    ctr.weaken();
    assert_eq!(ctr.predict(), Outcome::T);
}

#[test]
fn weaken_above_zero_keeps_direction() {
    let mut ctr = config(3, 3, Outcome::T).build();
    ctr.strengthen();
    ctr.strengthen();
    assert_eq!(ctr.get_strength(), 2);
    ctr.weaken();
    assert_eq!(ctr.predict(), Outcome::T);
    assert_eq!(ctr.get_strength(), 1);
}

#[test]
fn strengthen_clamps_at_the_limit_of_the_direction() {
    let mut ctr = config(2, 5, Outcome::T).build();
    for _ in 0..10 {
        ctr.strengthen();
    }
    assert_eq!(ctr.get_strength(), 2);
    ctr.reset();
    ctr.set_direction(Outcome::N);
    for _ in 0..10 {
        ctr.strengthen();
    }
    assert_eq!(ctr.get_strength(), 5);
}

#[test]
fn strengthen_at_the_greatest_limit_does_not_overflow() {
    let mut ctr = config(255, 255, Outcome::T).build();
    for _ in 0..300 {
        ctr.strengthen();
    }
    assert_eq!(ctr.get_strength(), 255);
}

#[test]
fn set_strength_clamps() {
    let mut ctr = config(4, 2, Outcome::N).build();
    ctr.set_strength(9);
    assert_eq!(ctr.get_strength(), 2);
    ctr.set_strength(1);
    assert_eq!(ctr.get_strength(), 1);
    ctr.set_direction(Outcome::T);
    assert_eq!(ctr.predict(), Outcome::T);
    assert_eq!(ctr.get_strength(), 1);
    ctr.set_strength(200);
    assert_eq!(ctr.get_strength(), 4);
}

#[test]
fn reset_restores_the_default() {
    let mut ctr = config(4, 4, Outcome::N).build();
    for _ in 0..5 {
        ctr.update(Outcome::T);
    }
    assert_eq!(ctr.predict(), Outcome::T);
    ctr.reset();
    assert_eq!(ctr.predict(), Outcome::N);
    assert_eq!(ctr.get_strength(), 0);
}

#[test]
fn strength_stays_within_the_limit() {
    let mut ctr = config(3, 1, Outcome::N).build();
    let outcomes = [
        Outcome::T, Outcome::T, Outcome::T, Outcome::T, Outcome::T, Outcome::N, Outcome::N,
        Outcome::N, Outcome::N, Outcome::N, Outcome::N, Outcome::N, Outcome::T, Outcome::N,
    ];
    for outcome in outcomes {
        ctr.update(outcome);
        let limit = match ctr.predict() {
            Outcome::T => 3,
            Outcome::N => 1,
        };
        assert!(ctr.get_strength() <= limit);
    }
}

#[test]
fn storage_bits_round_the_logarithms_up() {
    assert_eq!(config(4, 4, Outcome::N).storage_bits(), 5);
    assert_eq!(config(1, 1, Outcome::N).storage_bits(), 1);
    assert_eq!(config(3, 5, Outcome::N).storage_bits(), 6);
    assert_eq!(config(255, 2, Outcome::N).storage_bits(), 10);
    assert_eq!(ceil_log2_u8(0), 0);
    assert_eq!(ceil_log2_u8(1), 0);
    assert_eq!(ceil_log2_u8(2), 1);
    assert_eq!(ceil_log2_u8(3), 2);
    assert_eq!(ceil_log2_u8(128), 7);
    assert_eq!(ceil_log2_u8(129), 8);
}

#[test]
fn a_counter_can_be_made_without_a_configuration() {
    let mut ctr = SaturatingCounter::new(2, 3, Outcome::T);
    assert_eq!(ctr.predict(), Outcome::T);
    assert_eq!(ctr.get_strength(), 0);
    for _ in 0..5 {
        ctr.update(Outcome::T);
    }
    assert_eq!(ctr.get_strength(), 2);
    for _ in 0..7 {
        ctr.update(Outcome::N);
    }
    assert_eq!(ctr.predict(), Outcome::N);
    assert_eq!(ctr.get_strength(), 3);
}

#[test]
fn counter_is_a_stateful_predictor() {
    let mut ctr = config(2, 2, Outcome::N).build();
    assert_eq!(StatefulPredictor::name(&ctr), "SaturatingCounter");
    StatefulPredictor::update(&mut ctr, Outcome::T);
    assert_eq!(StatefulPredictor::predict(&ctr), Outcome::T);
    StatefulPredictor::reset(&mut ctr);
    assert_eq!(StatefulPredictor::predict(&ctr), Outcome::N);
}
