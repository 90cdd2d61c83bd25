use std::collections::BTreeSet;
use tiptop::ilp::{Program, Value};
use tiptop::tiptop::{RunAction, RunEvent, TipTop};
use tiptop::verify::{Ratio, Reason, Verdict, VerifyAction};

fn set(nodes: &[usize]) -> BTreeSet<usize> {
    nodes.iter().cloned().collect()
}

/// A verdict as it is reached for a reason: an exceeded cap leaves no measured error.
fn verdict(reason: Reason) -> Verdict {
    let eps1 = match reason {
        Reason::CapExceeded => None,
        _ => Some(Ratio { num_cov: 1, num_sets: 10_000 }),
    };
    Verdict { reason, eps1, eps2: None }
}

fn take(run: &mut TipTop, event: RunEvent) -> RunAction {
    assert!(run.accepts(&event));
    run.step(event);
    run.action()
}

fn time(action: RunAction) -> i64 {
    match action {
        RunAction::ComputeTarget { t } => t,
        other => panic!("{:?}", other),
    }
}

fn program(action: RunAction) -> Program {
    match action {
        RunAction::Solve { program } => program,
        other => panic!("{:?}", other),
    }
}

fn seeds(action: RunAction) -> BTreeSet<usize> {
    match action {
        RunAction::Return { seeds } => seeds,
        other => panic!("{:?}", other),
    }
}

/// One round with `nt` samples of node 0, and node 0 as the seed.
fn round(run: &mut TipTop, nt: usize, missing: usize) {
    match take(run, RunEvent::Target { nt }) {
        RunAction::Draw { count } => assert_eq!(count, missing),
        other => panic!("{:?}", other),
    }
    take(run, RunEvent::Samples { samples: vec![set(&[0]); missing] });
    let values = vec![Value::Binary(true), Value::Binary(false), Value::Binary(false)];
    take(run, RunEvent::Solution { values });
}

fn refuse(run: &mut TipTop, growth: Option<i64>) -> i64 {
    let reason = match growth {
        Some(_) => Reason::ErrorTooLarge,
        None => Reason::CapExceeded,
    };
    time(take(run, RunEvent::Verdict { verdict: verdict(reason), growth }))
}

#[test]
fn passes_through_a_round() {
    let mut run = TipTop::new(vec![0, 1, 2], None, 1, 20, 1_000);
    assert_eq!(time(run.action()), 1);
    match take(&mut run, RunEvent::Target { nt: 3 }) {
        RunAction::Draw { count } => assert_eq!(count, 3),
        other => panic!("{:?}", other),
    }
    let samples = vec![set(&[0, 1]), set(&[1]), set(&[2])];
    let p = program(take(&mut run, RunEvent::Samples { samples }));
    assert_eq!(p.variables.len(), 6);
    assert_eq!(p.constraints.len(), 4);
    assert!(p.start.is_none());
    let values = vec![
        Value::Binary(false),
        Value::Binary(true),
        Value::Binary(false),
        Value::Binary(false),
        Value::Binary(false),
        Value::Binary(true),
    ];
    match take(&mut run, RunEvent::Solution { values }) {
        RunAction::Verify { verifier, covered, n_samples } => {
            assert_eq!(covered, 2);
            assert_eq!(n_samples, 3);
            assert_eq!(verifier.action(), VerifyAction::ComputeThreshold { round: 0 });
        }
        other => panic!("{:?}", other),
    }
    let event = RunEvent::Verdict { verdict: verdict(Reason::Accepted), growth: Some(5) };
    assert_eq!(seeds(take(&mut run, event)), set(&[1]));
}

#[test]
fn refused_seeds_start_the_next_solution() {
    let mut run = TipTop::new(vec![0, 1, 2], None, 1, 20, 1_000);
    round(&mut run, 2, 2);
    assert_eq!(refuse(&mut run, Some(1)), 2);
    // two of the five samples were drawn before
    take(&mut run, RunEvent::Target { nt: 5 });
    let p = program(take(&mut run, RunEvent::Samples { samples: vec![set(&[1]); 3] }));
    assert_eq!(p.variables.len(), 8);
    assert_eq!(p.constraints[1].terms[1].var, 0);
    assert_eq!(p.constraints[3].terms[1].var, 1);
    assert_eq!(p.start, Some(vec![0]));
}

#[test]
fn a_target_that_is_met_draws_nothing() {
    let mut run = TipTop::new(vec![0, 1, 2], None, 1, 20, 1_000);
    round(&mut run, 2, 2);
    refuse(&mut run, Some(1));
    round(&mut run, 2, 0);
}

#[test]
fn coverage_beyond_need_ends_the_run() {
    let mut run = TipTop::new(vec![0, 1, 2], None, 1, 20, 2);
    round(&mut run, 2, 2);
    assert_eq!(refuse(&mut run, Some(1)), 2);
    round(&mut run, 3, 1);
    let event = RunEvent::Verdict { verdict: verdict(Reason::CapExceeded), growth: None };
    assert_eq!(seeds(take(&mut run, event)), set(&[0]));
}

#[test]
fn a_negative_need_is_always_exceeded() {
    let mut run = TipTop::new(vec![0, 1, 2], None, 1, 20, -1);
    take(&mut run, RunEvent::Target { nt: 0 });
    take(&mut run, RunEvent::Samples { samples: vec![] });
    take(&mut run, RunEvent::Solution { values: vec![Value::Other; 3] });
    let event = RunEvent::Verdict { verdict: verdict(Reason::RoundsExhausted), growth: None };
    assert_eq!(seeds(take(&mut run, event)), set(&[]));
}

#[test]
fn the_time_moves_between_one_and_the_largest_step() {
    let mut run = TipTop::new(vec![0, 1, 2], None, 1, 20, 1_000);
    round(&mut run, 1, 1);
    assert_eq!(refuse(&mut run, Some(7)), 8);
    round(&mut run, 1, 0);
    assert_eq!(refuse(&mut run, Some(-3)), 9);
    round(&mut run, 1, 0);
    assert_eq!(refuse(&mut run, Some(i64::MIN)), 10);
    round(&mut run, 1, 0);
    assert_eq!(refuse(&mut run, Some(500)), 30);
}

#[test]
fn an_infinite_error_repeats_the_last_step() {
    let mut run = TipTop::new(vec![0, 1, 2], None, 1, 20, 1_000);
    round(&mut run, 1, 1);
    // no step to repeat yet: the largest
    assert_eq!(refuse(&mut run, None), 21);
    round(&mut run, 1, 0);
    assert_eq!(refuse(&mut run, Some(4)), 25);
    round(&mut run, 1, 0);
    assert_eq!(refuse(&mut run, None), 29);
    round(&mut run, 1, 0);
    assert_eq!(refuse(&mut run, None), 33);
}

#[test]
fn a_growth_needs_a_measured_error() {
    let mut run = TipTop::new(vec![0, 1, 2], None, 1, 4, 1_000);
    round(&mut run, 1, 1);
    let capped = verdict(Reason::CapExceeded);
    assert!(!run.accepts(&RunEvent::Verdict { verdict: capped, growth: Some(1) }));
    assert!(run.accepts(&RunEvent::Verdict { verdict: capped, growth: None }));
    // a measured error need not be finite
    let measured = verdict(Reason::RoundsExhausted);
    assert!(run.accepts(&RunEvent::Verdict { verdict: measured, growth: None }));
    assert!(run.accepts(&RunEvent::Verdict { verdict: measured, growth: Some(1) }));
    assert_eq!(refuse(&mut run, None), 5);
}

#[test]
fn samples_are_kept_over_rounds() {
    let mut run = TipTop::new(vec![0, 1, 2], None, 1, 20, 1_000);
    take(&mut run, RunEvent::Target { nt: 1 });
    let first = program(take(&mut run, RunEvent::Samples { samples: vec![set(&[2])] }));
    take(&mut run, RunEvent::Solution { values: vec![Value::Binary(true); 3] });
    refuse(&mut run, Some(1));
    take(&mut run, RunEvent::Target { nt: 3 });
    let samples = vec![set(&[0]), set(&[0, 1])];
    let second = program(take(&mut run, RunEvent::Samples { samples }));
    assert_eq!(first.constraints[1].terms[1].var, 2);
    assert_eq!(second.constraints[1].terms[1].var, 2);
    assert_eq!(second.constraints.len(), 4);
}

#[test]
fn the_time_does_not_overflow() {
    let mut run = TipTop::new(vec![0, 1, 2], None, 1, i64::MAX, 1_000);
    round(&mut run, 1, 1);
    assert_eq!(refuse(&mut run, None), i64::MAX);
    let mut back = TipTop::new(vec![0, 1, 2], None, 1, i64::MIN, 1_000);
    round(&mut back, 1, 1);
    assert_eq!(refuse(&mut back, None), i64::MIN + 1);
    round(&mut back, 1, 0);
    assert_eq!(refuse(&mut back, None), i64::MIN);
}

#[test]
fn the_cap_is_sixty_four_times_the_target() {
    let mut run = TipTop::new(vec![0, 1, 2], None, 1, 20, 1_000_000);
    let nt = 625;
    take(&mut run, RunEvent::Target { nt });
    take(&mut run, RunEvent::Samples { samples: vec![set(&[0]); nt] });
    let values = vec![Value::Binary(true), Value::Binary(false), Value::Binary(false)];
    let mut verifier = match take(&mut run, RunEvent::Solution { values }) {
        RunAction::Verify { verifier, .. } => verifier,
        other => panic!("{:?}", other),
    };
    verifier.step(tiptop::verify::VerifyEvent::Threshold { lam2: 1 });
    // 64 * 625 samples are four batches
    for _ in 0..4 {
        assert_eq!(verifier.action(), VerifyAction::Draw { count: 10_000 });
        verifier.step(tiptop::verify::VerifyEvent::Batch { samples: vec![set(&[1]); 10_000] });
    }
    assert_eq!(verifier.action(), VerifyAction::Draw { count: 10_000 });
    verifier.step(tiptop::verify::VerifyEvent::Batch { samples: vec![set(&[1]); 10_000] });
    match verifier.action() {
        VerifyAction::Report { verdict } => assert_eq!(verdict.reason, Reason::CapExceeded),
        other => panic!("{:?}", other),
    }
}

#[test]
fn accepts_only_the_event_that_is_wanted() {
    let mut run = TipTop::new(vec![0, 1, 2], None, 1, 20, 1_000);
    assert!(!run.accepts(&RunEvent::Samples { samples: vec![] }));
    assert!(!run.accepts(&RunEvent::Target { nt: usize::MAX }));
    assert!(!run.accepts(&RunEvent::Target { nt: usize::MAX / 64 }));
    take(&mut run, RunEvent::Target { nt: 2 });
    assert!(!run.accepts(&RunEvent::Samples { samples: vec![set(&[0])] }));
    assert!(!run.accepts(&RunEvent::Samples { samples: vec![set(&[0]), set(&[3])] }));
    take(&mut run, RunEvent::Samples { samples: vec![set(&[0]), set(&[2])] });
    assert!(!run.accepts(&RunEvent::Solution { values: vec![Value::Other; 2] }));
    take(&mut run, RunEvent::Solution { values: vec![Value::Binary(true); 5] });
    refuse(&mut run, Some(1));
    // the samples cannot become fewer
    assert!(!run.accepts(&RunEvent::Target { nt: 1 }));
    assert!(run.accepts(&RunEvent::Target { nt: 2 }));
}

#[test]
fn the_result_is_the_best_within_the_budget() {
    let nodes = vec![0, 1, 2, 3];
    let samples = vec![set(&[0, 1]), set(&[1, 2]), set(&[3]), set(&[1, 3])];
    let mut run = TipTop::new(nodes, None, 1, 20, 1_000);
    take(&mut run, RunEvent::Target { nt: 4 });
    let p = program(take(&mut run, RunEvent::Samples { samples: samples.clone() }));
    // try every assignment of the eight variables
    let n = p.variables.len();
    let best = (0..1usize << n)
        .map(|bits| (0..n).map(|i| bits >> i & 1 == 1).collect::<Vec<bool>>())
        .filter(|a| {
            p.constraints.iter().enumerate().all(|(j, c)| {
                let sum = c.terms.iter().filter(|t| a[t.var]).count();
                if j == 0 {
                    sum <= c.bound
                } else {
                    sum >= c.bound
                }
            })
        })
        .min_by_key(|a| (4..8).filter(|j| a[*j]).count())
        .unwrap();
    let values = best.iter().map(|b| Value::Binary(*b)).collect();
    take(&mut run, RunEvent::Solution { values });
    let event = RunEvent::Verdict { verdict: verdict(Reason::Accepted), growth: None };
    assert_eq!(seeds(take(&mut run, event)), set(&[1]));
}
