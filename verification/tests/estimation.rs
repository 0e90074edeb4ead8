use rand::rngs::StdRng;
use rand::SeedableRng;

use markov_jars::estimate::estimate;
use markov_jars::jar::{parse_labels, Jar};
use markov_jars::label::{is_jump, ChainError, Label};
use markov_jars::sequence::derive_sequence;

fn labels_of(text: &str) -> Vec<Label> {
    let chars: Vec<char> = text.chars().collect();
    parse_labels(&chars).expect("composition must be made of W and B")
}

#[test]
fn is_jump_classifies_all_pairs() {
    assert_eq!(is_jump(Label::White, Label::Black), Some((true, Label::White)));
    assert_eq!(is_jump(Label::Black, Label::White), Some((true, Label::Black)));
    assert_eq!(is_jump(Label::White, Label::White), None);
    assert_eq!(is_jump(Label::Black, Label::Black), None);
}

#[test]
fn parse_labels_accepts_w_and_b_only() {
    let good: Vec<char> = "WWB".chars().collect();
    assert_eq!(
        parse_labels(&good),
        Some(vec![Label::White, Label::White, Label::Black])
    );
    let bad: Vec<char> = "WXB".chars().collect();
    assert_eq!(parse_labels(&bad), None);
}

#[test]
fn draw_returns_member_and_preserves_composition() {
    let mut rng = StdRng::seed_from_u64(11);
    let mut jar = Jar::new(labels_of("WWB"));
    for _ in 0..50 {
        let drawn = jar.draw(&mut rng).expect("non-empty jar");
        assert!(drawn == Label::White || drawn == Label::Black);
        let whites = jar.balls.iter().filter(|l| **l == Label::White).count();
        let blacks = jar.balls.iter().filter(|l| **l == Label::Black).count();
        assert_eq!(whites, 2);
        assert_eq!(blacks, 1);
    }
}

#[test]
fn draw_from_single_colour_jar_returns_that_colour() {
    let mut rng = StdRng::seed_from_u64(3);
    let mut jar = Jar::new(labels_of("BBBB"));
    for _ in 0..10 {
        assert_eq!(jar.draw(&mut rng), Ok(Label::Black));
    }
}

#[test]
fn draw_from_empty_jar_is_invalid_state() {
    let mut rng = StdRng::seed_from_u64(5);
    let mut jar = Jar::new(Vec::new());
    assert_eq!(jar.draw(&mut rng), Err(ChainError::InvalidState));
}

#[test]
fn zero_draws_yield_only_the_seed() {
    let mut rng = StdRng::seed_from_u64(1);
    let mut jar_w = Jar::new(labels_of("WWBBBBBBBB"));
    let mut jar_b = Jar::new(labels_of("WWWWWWBBBB"));
    let seq = derive_sequence(&mut jar_w, &mut jar_b, 0, &mut rng).unwrap();
    assert_eq!(seq, vec![Label::White]);
}

#[test]
fn sequence_has_requested_length_and_white_seed() {
    let mut rng = StdRng::seed_from_u64(2);
    let mut jar_w = Jar::new(labels_of("WWBBBBBBBB"));
    let mut jar_b = Jar::new(labels_of("WWWWWWBBBB"));
    for n in [1usize, 2, 17, 100] {
        let seq = derive_sequence(&mut jar_w, &mut jar_b, n, &mut rng).unwrap();
        assert_eq!(seq.len(), n + 1);
        assert_eq!(seq[0], Label::White);
    }
}

#[test]
fn sequence_from_empty_white_jar_fails() {
    let mut rng = StdRng::seed_from_u64(4);
    let mut jar_w = Jar::new(Vec::new());
    let mut jar_b = Jar::new(labels_of("WB"));
    assert_eq!(
        derive_sequence(&mut jar_w, &mut jar_b, 5, &mut rng),
        Err(ChainError::InvalidState)
    );
}

#[test]
fn estimate_needs_at_least_three_elements() {
    assert_eq!(estimate(&labels_of("")), Err(ChainError::InsufficientData));
    assert_eq!(estimate(&labels_of("W")), Err(ChainError::InsufficientData));
    assert_eq!(estimate(&labels_of("WB")), Err(ChainError::InsufficientData));
}

#[test]
fn estimate_needs_each_state_as_an_origin() {
    // prev starts at index 1 = Black and never turns White: no draw from White
    assert_eq!(
        estimate(&labels_of("WBBBB")),
        Err(ChainError::InsufficientData)
    );
    // prev stays White throughout: no draw from Black
    assert_eq!(
        estimate(&labels_of("WWWWW")),
        Err(ChainError::InsufficientData)
    );
}

#[test]
fn estimate_smallest_valid_sequence() {
    // pairs scanned: (W,B) then (B,W): one jump out of each state
    let m = estimate(&labels_of("WWBW")).unwrap();
    assert_eq!((m.wb.num, m.wb.den), (1, 1));
    assert_eq!((m.bw.num, m.bw.den), (1, 1));
}

#[test]
fn estimate_golden_seventeen_element_sequence() {
    let seq = labels_of("WBWBWBWBBBBBWWBWB");
    assert_eq!(seq.len(), 17);
    let m = estimate(&seq).unwrap();
    // hand-counted from index 2 on: 5 White->Black jumps in 6 draws from
    // White, 5 Black->White jumps in 9 draws from Black
    assert_eq!((m.wb.num, m.wb.den), (5, 6));
    assert_eq!((m.bw.num, m.bw.den), (5, 9));
    let ww = m.p_ww();
    let bb = m.p_bb();
    assert_eq!((ww.num, ww.den), (1, 6));
    assert_eq!((bb.num, bb.den), (4, 9));
}

#[test]
fn estimated_rows_sum_to_one_and_stay_in_unit_interval() {
    let seq = labels_of("WBWBWBWBBBBBWWBWB");
    let m = estimate(&seq).unwrap();
    let wb = m.wb.num as f64 / m.wb.den as f64;
    let ww = m.p_ww().num as f64 / m.p_ww().den as f64;
    let bw = m.bw.num as f64 / m.bw.den as f64;
    let bb = m.p_bb().num as f64 / m.p_bb().den as f64;
    assert!((ww + wb - 1.0).abs() <= 1e-9);
    assert!((bw + bb - 1.0).abs() <= 1e-9);
    for p in [ww, wb, bw, bb] {
        assert!((0.0..=1.0).contains(&p));
    }
}

#[test]
fn long_run_estimate_converges_to_jar_proportions() {
    let mut rng = StdRng::seed_from_u64(20240521);
    // White jar: 2 White / 8 Black => P(White -> Black) = 0.8
    // Black jar: 6 White / 4 Black => P(Black -> White) = 0.6
    let mut jar_w = Jar::new(labels_of("WWBBBBBBBB"));
    let mut jar_b = Jar::new(labels_of("WWWWWWBBBB"));
    let seq = derive_sequence(&mut jar_w, &mut jar_b, 100000, &mut rng).unwrap();
    assert_eq!(seq.len(), 100001);
    let m = estimate(&seq).unwrap();
    let wb = m.wb.num as f64 / m.wb.den as f64;
    let bw = m.bw.num as f64 / m.bw.den as f64;
    assert!((wb - 0.8).abs() <= 0.02, "wb was {wb}");
    assert!((bw - 0.6).abs() <= 0.02, "bw was {bw}");
}
