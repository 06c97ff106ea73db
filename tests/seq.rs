use kolakoski::{KolSeq, Run};

fn first_ten() -> Vec<Run> {
    vec![
        Run::Single(1),
        Run::Double(2, 2),
        Run::Double(1, 1),
        Run::Single(2),
        Run::Single(1),
        Run::Double(2, 2),
        Run::Single(1),
        Run::Double(2, 2),
        Run::Double(1, 1),
        Run::Single(2),
    ]
}

#[test]
fn kol_seq_generates_n_steps() {
    let seq = KolSeq::new();

    let mut steps = seq.take(10).into_iter();

    assert_eq!(steps.next(), Some(Run::Single(1)));
    assert_eq!(steps.next(), Some(Run::Double(2, 2)));
    assert_eq!(steps.next(), Some(Run::Double(1, 1)));
    assert_eq!(steps.next(), Some(Run::Single(2)));
    assert_eq!(steps.next(), Some(Run::Single(1)));
    assert_eq!(steps.next(), Some(Run::Double(2, 2)));
    assert_eq!(steps.next(), Some(Run::Single(1)));
    assert_eq!(steps.next(), Some(Run::Double(2, 2)));
    assert_eq!(steps.next(), Some(Run::Double(1, 1)));
    assert_eq!(steps.next(), Some(Run::Single(2)));
}

#[test]
fn next_matches_take() {
    let mut g = KolSeq::new();
    let mut got = Vec::new();
    for _ in 0..10 {
        got.push(g.next().unwrap());
    }
    assert_eq!(got, first_ten());
}

#[test]
fn take_zero_is_empty() {
    assert!(KolSeq::new().take(0).is_empty());
}

#[test]
fn symbols_are_one_or_two() {
    let mut history = Vec::new();
    for run in KolSeq::new().take(1000) {
        run.append_to(&mut history);
    }
    assert!(history.iter().all(|&v| v == 1 || v == 2));
    assert_eq!(&history[..15], &[1, 2, 2, 1, 1, 2, 1, 2, 2, 1, 2, 2, 1, 1, 2]);
}

#[test]
fn doubles_repeat_their_symbol() {
    for run in KolSeq::new().take(1000) {
        if let Run::Double(a, b) = run {
            assert_eq!(a, b);
        }
    }
}

#[test]
fn step_parity_follows_calls() {
    let mut g = KolSeq::new();
    assert!(g.is_step_even());
    g.next();
    assert!(!g.is_step_even());
    g.next();
    g.next();
    assert!(!g.is_step_even());
    g.next();
    assert!(g.is_step_even());
}

#[test]
fn fresh_generators_agree() {
    let a = KolSeq::new().take(500);
    let b = KolSeq::new().take(500);
    assert_eq!(a, b);
}

#[test]
fn every_short_take_is_prefix_of_first_ten() {
    let ten = first_ten();
    for k in 0..=10 {
        assert_eq!(KolSeq::new().take(k), ten[..k].to_vec());
    }
}

#[test]
fn take_continues_after_next() {
    let mut g = KolSeq::new();
    g.next();
    g.next();
    assert_eq!(g.take(3), first_ten()[2..5].to_vec());
}

#[test]
fn run_first_and_append() {
    assert_eq!(Run::Single(2).first(), 2);
    assert_eq!(Run::Double(1, 1).first(), 1);
    let mut v = vec![7];
    Run::Double(2, 2).append_to(&mut v);
    Run::Single(1).append_to(&mut v);
    assert_eq!(v, vec![7, 2, 2, 1]);
}
