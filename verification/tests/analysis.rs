use dendrite::branch::{BRN_FLAG, TAKEN_FLAG};
use dendrite::{
    BranchClass, BranchData, BranchFlags, BranchOutcomes, BranchRecord, BranchStats, Outcome, Run,
    RunPair,
};

const T: Outcome = Outcome::T;
const N: Outcome = Outcome::N;

fn outcomes(list: &[Outcome]) -> BranchOutcomes {
    let mut out = BranchOutcomes::new();
    for o in list {
        out.push(*o);
    }
    out
}

fn run(cnt: usize, outcome: Outcome) -> Run {
    Run::new(cnt, vec![outcome])
}

fn record(pc: usize, outcome: Outcome) -> BranchRecord {
    let taken = if outcome == T { TAKEN_FLAG } else { 0 };
    BranchRecord { pc, tgt: 0, flags: BranchFlags(BRN_FLAG | taken) }
}

#[test]
fn outcomes_are_kept_as_bits() {
    let mut out = BranchOutcomes::new();
    assert_eq!(out.len(), 0);
    out.push(T);
    out.push(N);
    out.push(T);
    assert_eq!(out.len(), 3);
    assert!(out.as_bitvec().get(0));
    assert!(!out.as_bitslice().get(1));
    assert_eq!(out.num_taken(), 2);
    assert_eq!(out.num_not_taken(), 1);
    assert_eq!(out.into_outcomes(), vec![T, N, T]);
    out.bitvec_mut().set(1, true);
    assert_eq!(out.into_outcomes(), vec![T, T, T]);
    assert_eq!(Outcome::vec_from_bitvec(out.as_bitvec()), vec![T, T, T]);
}

#[test]
fn static_branches_are_recognised() {
    assert_eq!(outcomes(&[T, T, T]).is_static(), Some(T));
    assert_eq!(outcomes(&[N]).is_static(), Some(N));
    assert_eq!(outcomes(&[N, N, T]).is_static(), None);
    assert!(outcomes(&[T, T]).is_always_taken());
    assert!(!outcomes(&[T, N]).is_always_taken());
    assert!(outcomes(&[N, N]).is_never_taken());
    assert!(!outcomes(&[N, T]).is_never_taken());
    assert!(outcomes(&[]).is_always_taken());
    assert!(outcomes(&[]).is_never_taken());
}

#[test]
fn outcomes_are_cut_into_runs() {
    let runs = Run::new_vec(&[T, T, N, T, T, T, N, N]);
    let counts: Vec<usize> = runs.iter().map(|r| r.count()).collect();
    let values: Vec<Outcome> = runs.iter().map(|r| r.data()[0]).collect();
    assert_eq!(counts, vec![2, 1, 3, 2]);
    assert_eq!(values, vec![T, N, T, N]);
    assert!(runs.iter().all(|r| r.len() == 1));
    assert_eq!(runs[2].total_len(), 3);
    let one = Run::new_vec(&[N]);
    assert_eq!(one.len(), 1);
    assert!(one[0].same(&run(1, N)));
    assert!(!one[0].same(&run(1, T)));
    assert!(!one[0].same(&run(2, N)));
    assert!(one[0].clone().same(&one[0]));
    assert_eq!(Run::new(3, vec![T, N]).total_len(), 6);
}

#[test]
fn runs_are_paired_two_by_two() {
    let runs = Run::new_vec(&[T, T, N, T, T, T, N, N, T]);
    assert_eq!(runs.len(), 5);
    let pairs = RunPair::vec_from_runs(&runs);
    assert_eq!(pairs.len(), 2);
    assert!(pairs[0].same(&RunPair::new(run(2, T), run(1, N))));
    assert!(pairs[1].same(&RunPair::new(run(3, T), run(2, N))));
    assert!(!pairs[0].same(&pairs[1]));
    assert!(pairs[1].head().same(&run(3, T)));
    assert!(pairs[1].tail().same(&run(2, N)));
    assert_eq!(RunPair::vec_from_runs(&runs[..1]).len(), 0);
    let pairs = outcomes(&[N, T, T, N]).into_pairs();
    assert_eq!(pairs.len(), 1);
    assert!(pairs[0].same(&RunPair::new(run(1, N), run(2, T))));
    assert_eq!(outcomes(&[N, T, T, N]).into_runs().len(), 3);
}

#[test]
fn the_shortest_pattern_is_found() {
    // Periods of half the length and more are not tried.
    assert_eq!(outcomes(&[T, N, T, N]).has_uniform_pattern(), None);
    assert_eq!(outcomes(&[T, N, T, N, T, N]).has_uniform_pattern(), Some(vec![T, N]));
    assert_eq!(outcomes(&[T, T, T, T]).has_uniform_pattern(), Some(vec![T]));
    assert_eq!(
        outcomes(&[T, N, N, T, N, N, T, N, N]).has_uniform_pattern(),
        Some(vec![T, N, N])
    );
    assert_eq!(outcomes(&[T, N, N, T, N, N, T, N, T]).has_uniform_pattern(), None);
    assert_eq!(outcomes(&[T, N, T, N, T]).has_uniform_pattern(), None);
    assert_eq!(outcomes(&[]).has_uniform_pattern(), None);
    assert_eq!(
        outcomes(&[N, T, N, T, N, T, N]).has_uniform_pattern_prefixed(),
        Some(vec![T, N])
    );
    assert_eq!(outcomes(&[N, T, N, T, N, T]).has_uniform_pattern_prefixed(), None);
    assert_eq!(outcomes(&[N]).has_uniform_pattern_prefixed(), None);
}

#[test]
fn branches_are_classified() {
    let mut data = BranchData::new();
    assert_eq!(data.occ, 0);
    assert_eq!(data.hits, 0);
    data.outcomes = outcomes(&[T, T, T]);
    assert!(matches!(data.classify(), BranchClass::Static(Outcome::T)));

    // Three taken, one not, six times over: six equal pairs of runs.
    let mut list = Vec::new();
    for _ in 0..6 {
        list.extend_from_slice(&[T, T, T, N]);
    }
    data.outcomes = outcomes(&list);
    match data.classify() {
        BranchClass::UniformPattern(pattern) => {
            assert_eq!(pattern.len(), 1);
            assert!(pattern[0].same(&RunPair::new(run(3, T), run(1, N))));
        },
        other => panic!("{:?}", other),
    }

    data.outcomes = outcomes(&[T, N, N, T, T, N, T, N, N, N]);
    assert!(matches!(data.classify(), BranchClass::Unknown));
}

#[test]
fn uniform_runs_need_more_than_three_pairs() {
    let pair = |a, b| RunPair::new(run(a, T), run(b, N));
    let twice = vec![pair(1, 2), pair(1, 2)];
    assert!(BranchData::has_uniform_runs(&twice).is_none());
    let thrice = vec![pair(1, 2), pair(1, 2), pair(1, 2)];
    assert!(BranchData::has_uniform_runs(&thrice).is_none());
    let four = vec![pair(1, 2), pair(1, 2), pair(1, 2), pair(1, 2)];
    let pattern = BranchData::has_uniform_runs(&four).unwrap();
    assert_eq!(pattern.len(), 1);
    assert!(pattern[0].same(&pair(1, 2)));
    let six = vec![pair(1, 2), pair(3, 1), pair(1, 2), pair(3, 1), pair(1, 2), pair(3, 1)];
    let pattern = BranchData::has_uniform_runs(&six).unwrap();
    assert_eq!(pattern.len(), 2);
    assert!(pattern[1].same(&pair(3, 1)));
    let broken = vec![pair(1, 2), pair(3, 1), pair(1, 2), pair(3, 1), pair(1, 2), pair(3, 2)];
    assert!(BranchData::has_uniform_runs(&broken).is_none());
}

#[test]
fn statistics_count_hits_and_branches() {
    let mut stats = BranchStats::new();
    assert_eq!(stats.num_unique_branches(), 0);
    stats.update_global(&record(0x10, T), T);
    stats.update_global(&record(0x10, T), N);
    stats.update_global(&record(0x20, N), N);
    assert_eq!(stats.global_brns(), 3);
    assert_eq!(stats.global_hits(), 2);
    assert_eq!(stats.global_miss(), 1);
    assert_eq!(stats.num_unique_branches(), 0);
}

#[test]
fn statistics_are_kept_per_branch() {
    let mut stats = BranchStats::new();
    assert!(stats.get(0x10).is_none());
    stats.update_per_branch(&record(0x10, T), T);
    stats.update_per_branch(&record(0x10, T), N);
    stats.update_per_branch(&record(0x20, N), N);
    stats.update_per_branch(&record(0x30, T), T);
    stats.update_per_branch(&record(0x30, N), T);
    assert_eq!(stats.num_unique_branches(), 3);
    assert_eq!(stats.global_brns(), 0);
    let first = stats.get(0x10).unwrap();
    assert_eq!(first.occ, 2);
    assert_eq!(first.hits, 1);
    assert_eq!(first.outcomes.into_outcomes(), vec![T, N]);
    let second = stats.get(0x20).unwrap();
    assert_eq!((second.occ, second.hits), (1, 1));
    assert_eq!(second.outcomes.into_outcomes(), vec![N]);
    assert_eq!(stats.num_single_occurence(), 1);
    assert_eq!(stats.num_always_taken(), 1);
    assert_eq!(stats.num_never_taken(), 1);

    let created = stats.get_mut(0x40);
    assert_eq!(created.occ, 0);
    created.outcomes.push(T);
    created.occ = 9;
    assert_eq!(stats.num_unique_branches(), 4);
    assert_eq!(stats.get(0x40).unwrap().occ, 9);
    assert_eq!(stats.num_single_occurence(), 2);
    assert_eq!(stats.num_always_taken(), 2);
    let existing = stats.get_mut(0x10);
    assert_eq!(existing.occ, 2);
}
