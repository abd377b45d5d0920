use dendrite::analysis::compression::RunLengthEncoder;
use dendrite::{Outcome, Run, RunPair};

const T: Outcome = Outcome::T;
const N: Outcome = Outcome::N;

fn pair(a: usize, b: usize) -> RunPair {
    RunPair::new(Run::new(a, vec![T]), Run::new(b, vec![N]))
}

#[test]
fn outcomes_are_encoded_as_runs() {
    let runs = RunLengthEncoder::encode(&vec![N, N, N, T, N, N]);
    let counts: Vec<usize> = runs.iter().map(|r| r.count()).collect();
    assert_eq!(counts, vec![3, 1, 2]);
    assert_eq!(runs[1].data(), &vec![T]);
    let pairs = RunLengthEncoder::encode_pairs(&runs);
    assert_eq!(pairs.len(), 1);
    assert!(pairs[0].head().same(&Run::new(3, vec![N])));
    assert!(pairs[0].tail().same(&Run::new(1, vec![T])));
}

#[test]
fn leading_repeats_are_counted() {
    let window = vec![pair(1, 2), pair(1, 2), pair(1, 2), pair(2, 2), pair(1, 2)];
    assert_eq!(RunLengthEncoder::scan(&window, 1), 3);
    assert_eq!(RunLengthEncoder::scan(&window, 2), 1);
    assert_eq!(RunLengthEncoder::scan(&window, 5), 1);
    let window = vec![pair(1, 2), pair(3, 1), pair(1, 2), pair(3, 1), pair(1, 2)];
    assert_eq!(RunLengthEncoder::scan(&window, 2), 2);
    assert_eq!(RunLengthEncoder::scan(&window, 1), 1);
    let block = RunLengthEncoder::scan_window(&window, 2, 2).unwrap();
    assert_eq!(block.len, 2);
    assert_eq!(block.data.len(), 2);
    assert!(block.data[1].same(&pair(3, 1)));
    assert!(RunLengthEncoder::scan_window(&window, 2, 3).is_none());
}

#[test]
fn pairs_are_cut_into_blocks() {
    let input = vec![
        pair(1, 2),
        pair(1, 2),
        pair(1, 2),
        pair(2, 2),
        pair(4, 1),
        pair(4, 1),
        pair(7, 7),
    ];
    let blocks = RunLengthEncoder::encode_block(&input, 1, 2);
    assert_eq!(blocks.len(), 2);
    assert_eq!(blocks[0].len, 3);
    assert!(blocks[0].data[0].same(&pair(1, 2)));
    assert_eq!(blocks[1].len, 2);
    assert!(blocks[1].data[0].same(&pair(4, 1)));
    let all = RunLengthEncoder::encode_block(&input, 1, 0);
    let lens: Vec<usize> = all.iter().map(|b| b.len).collect();
    assert_eq!(lens, vec![3, 1, 2, 1]);
    assert_eq!(RunLengthEncoder::encode_block(&input, 9, 1).len(), 0);
    assert_eq!(RunLengthEncoder::encode_block(&Vec::new(), 1, 1).len(), 0);
}
