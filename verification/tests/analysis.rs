use markov_jars::analyze::{predict, steady_state};
use markov_jars::label::{ChainError, Label};
use markov_jars::ratio::{Ratio, TransitionMatrix};

/// The reference matrix [[0.17, 0.83], [0.56, 0.44]] as exact fractions.
fn reference_matrix() -> TransitionMatrix {
    TransitionMatrix::new(Ratio::new(83, 100), Ratio::new(56, 100))
}

#[test]
fn predict_zero_steps_is_empty() {
    let trace = predict(&reference_matrix(), Label::White, 0);
    assert!(trace.is_empty());
}

#[test]
fn predict_forty_one_steps_stabilizes() {
    let trace = predict(&reference_matrix(), Label::White, 41);
    assert_eq!(trace.len(), 41);
    // step 0 is the one-hot start: ties and majorities at White
    assert_eq!(trace[0], Label::White);
    // the chain's White probability drops below one half after one step and
    // converges towards the steady state 0.4029, so the prediction settles
    for t in 1..41 {
        assert_eq!(trace[t], Label::Black);
    }
    assert_eq!(trace[40], trace[39]);
}

#[test]
fn predict_from_black_start() {
    let trace = predict(&reference_matrix(), Label::Black, 3);
    assert_eq!(trace.len(), 3);
    assert_eq!(trace[0], Label::Black);
    // step 1: White probability 0.56 > 0.44
    assert_eq!(trace[1], Label::White);
}

#[test]
fn steady_state_of_reference_matrix() {
    let ss = steady_state(&reference_matrix()).unwrap();
    // x = 0.56 / (0.56 + 0.83), y = 0.83 / (0.56 + 0.83), exactly over 13900
    assert_eq!(ss.white_num, 5600);
    assert_eq!(ss.black_num, 8300);
    assert_eq!(ss.den, 13900);
    let x = ss.white_num as f64 / ss.den as f64;
    let y = ss.black_num as f64 / ss.den as f64;
    assert!((x - 0.4029).abs() <= 1e-3, "x was {x}");
    assert!((y - 0.5971).abs() <= 1e-3, "y was {y}");
    // the two components sum to one exactly
    assert_eq!(ss.white_num + ss.black_num, ss.den);
    assert_eq!(x + y, 1.0);
}

#[test]
fn steady_state_of_absorbing_matrix_is_invalid_state() {
    // [[1, 0], [0, 1]]: both jump probabilities are zero
    let absorbing = TransitionMatrix::new(Ratio::new(0, 1), Ratio::new(0, 1));
    assert_eq!(steady_state(&absorbing), Err(ChainError::InvalidState));
}

#[test]
fn steady_state_components_always_sum_to_the_denominator() {
    for (a, dw, b, db) in [(1u64, 2u64, 1u64, 2u64), (5, 6, 5, 9), (83, 100, 56, 100), (1, 7, 0, 3)] {
        let m = TransitionMatrix::new(Ratio::new(a, dw), Ratio::new(b, db));
        let ss = steady_state(&m).unwrap();
        assert_eq!(ss.white_num + ss.black_num, ss.den);
        assert!(ss.den > 0);
    }
}

#[test]
fn predict_is_constant_on_a_symmetric_matrix() {
    // both rows are (1/2, 1/2): the distribution is uniform from step 1 on,
    // and ties resolve to White
    let m = TransitionMatrix::new(Ratio::new(1, 2), Ratio::new(1, 2));
    let trace = predict(&m, Label::White, 5);
    assert_eq!(
        trace,
        vec![Label::White, Label::White, Label::White, Label::White, Label::White]
    );
    let from_black = predict(&m, Label::Black, 3);
    assert_eq!(from_black[0], Label::Black);
    assert_eq!(from_black[1], Label::White);
    assert_eq!(from_black[2], Label::White);
}
