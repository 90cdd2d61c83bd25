use std::collections::BTreeSet;
use tiptop::verify::{
    Ratio, Reason, RoundError, Verdict, Verifier, VerifyAction, VerifyEvent, STEP,
};

fn set(nodes: &[usize]) -> BTreeSet<usize> {
    nodes.iter().cloned().collect()
}

/// A batch in which `hits` samples hold node 1.
fn batch(hits: usize) -> VerifyEvent {
    let mut samples = vec![set(&[1, 2]); hits];
    samples.resize(STEP, set(&[0]));
    VerifyEvent::Batch { samples }
}

fn threshold(lam2: usize) -> VerifyEvent {
    VerifyEvent::Threshold { lam2 }
}

fn assessment(too_large: bool, accepted: bool) -> VerifyEvent {
    VerifyEvent::Assessment { too_large, accepted }
}

fn ratio(num_cov: usize, num_sets: usize) -> Ratio {
    Ratio { num_cov, num_sets }
}

fn take(v: &mut Verifier, event: VerifyEvent) -> VerifyAction {
    assert!(v.accepts(&event));
    v.step(event);
    v.action()
}

#[test]
fn samples_until_the_threshold_is_covered() {
    let mut v = Verifier::new(set(&[1]), 6, 1_000_000);
    assert_eq!(v.action(), VerifyAction::ComputeThreshold { round: 0 });
    assert_eq!(take(&mut v, threshold(5)), VerifyAction::Draw { count: 10_000 });
    assert_eq!(take(&mut v, batch(3)), VerifyAction::Draw { count: 10_000 });
    assert_eq!(
        take(&mut v, batch(2)),
        VerifyAction::Assess { round: 0, ratio: ratio(5, 20_000) }
    );
}

#[test]
fn accepted_seeds_pass() {
    let mut v = Verifier::new(set(&[1]), 6, 1_000_000);
    take(&mut v, threshold(1));
    take(&mut v, batch(4));
    let verdict = Verdict {
        reason: Reason::Accepted,
        eps1: Some(ratio(4, 10_000)),
        eps2: Some(RoundError { halvings: 0, doubled: false }),
    };
    assert_eq!(take(&mut v, assessment(false, true)), VerifyAction::Report { verdict });
    assert!(verdict.passed());
}

#[test]
fn a_large_error_ends_even_if_accepted() {
    let mut v = Verifier::new(set(&[1]), 6, 1_000_000);
    take(&mut v, threshold(1));
    take(&mut v, batch(1));
    let verdict = Verdict {
        reason: Reason::ErrorTooLarge,
        eps1: Some(ratio(1, 10_000)),
        eps2: Some(RoundError { halvings: 0, doubled: false }),
    };
    assert_eq!(take(&mut v, assessment(true, true)), VerifyAction::Report { verdict });
    assert!(!verdict.passed());
}

#[test]
fn the_cap_in_the_first_round_leaves_an_infinite_error() {
    let mut v = Verifier::new(set(&[1]), 6, 19_999);
    take(&mut v, threshold(100));
    assert_eq!(take(&mut v, batch(1)), VerifyAction::Draw { count: STEP });
    let verdict = Verdict {
        reason: Reason::CapExceeded,
        eps1: None,
        eps2: Some(RoundError { halvings: 0, doubled: true }),
    };
    // the second batch covers enough, but goes beyond the cap
    assert_eq!(take(&mut v, batch(100)), VerifyAction::Report { verdict });
}

#[test]
fn the_cap_may_be_reached() {
    let mut v = Verifier::new(set(&[1]), 6, 20_000);
    take(&mut v, threshold(2));
    take(&mut v, batch(1));
    assert_eq!(
        take(&mut v, batch(1)),
        VerifyAction::Assess { round: 0, ratio: ratio(2, 20_000) }
    );
}

#[test]
fn the_cap_in_a_later_round_leaves_an_infinite_error() {
    let mut v = Verifier::new(set(&[1]), 6, 10_000);
    take(&mut v, threshold(1));
    take(&mut v, batch(2));
    assert_eq!(
        take(&mut v, assessment(false, false)),
        VerifyAction::ComputeThreshold { round: 1 }
    );
    take(&mut v, threshold(3));
    let verdict = Verdict {
        reason: Reason::CapExceeded,
        eps1: None,
        eps2: Some(RoundError { halvings: 1, doubled: true }),
    };
    assert_eq!(take(&mut v, batch(5)), VerifyAction::Report { verdict });
}

#[test]
fn the_cap_in_the_fifth_round_leaves_an_infinite_error() {
    let mut v = Verifier::new(set(&[0, 1]), 6, 10_000);
    // the first batch, all covered, is enough for four rounds
    take(&mut v, threshold(10_000));
    take(&mut v, batch(0));
    for round in 1..5 {
        assert_eq!(
            take(&mut v, assessment(false, false)),
            VerifyAction::ComputeThreshold { round }
        );
        if round < 4 {
            assert_eq!(
                take(&mut v, threshold(10_000)),
                VerifyAction::Assess { round, ratio: ratio(10_000, 10_000) }
            );
        }
    }
    assert_eq!(take(&mut v, threshold(10_001)), VerifyAction::Draw { count: STEP });
    let verdict = Verdict {
        reason: Reason::CapExceeded,
        eps1: None,
        eps2: Some(RoundError { halvings: 4, doubled: true }),
    };
    assert_eq!(take(&mut v, batch(0)), VerifyAction::Report { verdict });
}

#[test]
fn a_covered_threshold_needs_no_samples() {
    let mut v = Verifier::new(set(&[1]), 6, 1_000_000);
    assert_eq!(
        take(&mut v, threshold(0)),
        VerifyAction::Assess { round: 0, ratio: ratio(0, 0) }
    );
    take(&mut v, assessment(false, false));
    take(&mut v, threshold(2));
    take(&mut v, batch(2));
    take(&mut v, assessment(false, false));
    // the coverage of earlier rounds counts
    assert_eq!(
        take(&mut v, threshold(2)),
        VerifyAction::Assess { round: 2, ratio: ratio(2, 10_000) }
    );
}

#[test]
fn undecided_rounds_run_out() {
    let mut v = Verifier::new(set(&[1]), 3, 1_000_000);
    take(&mut v, threshold(1));
    take(&mut v, batch(1));
    take(&mut v, assessment(false, false));
    take(&mut v, threshold(2));
    take(&mut v, batch(1));
    let verdict = Verdict {
        reason: Reason::RoundsExhausted,
        eps1: Some(ratio(2, 20_000)),
        eps2: Some(RoundError { halvings: 1, doubled: false }),
    };
    assert_eq!(take(&mut v, assessment(false, false)), VerifyAction::Report { verdict });
}

#[test]
fn no_round_without_a_second_v() {
    let v = Verifier::new(set(&[1]), 1, 1_000_000);
    let verdict = Verdict { reason: Reason::RoundsExhausted, eps1: None, eps2: None };
    assert_eq!(v.action(), VerifyAction::Report { verdict });
}

#[test]
fn accepts_only_the_answer_that_is_wanted() {
    let mut v = Verifier::new(set(&[1]), 6, 1_000_000);
    assert!(!v.accepts(&batch(0)));
    assert!(!v.accepts(&assessment(false, true)));
    take(&mut v, threshold(1));
    assert!(!v.accepts(&threshold(1)));
    assert!(!v.accepts(&VerifyEvent::Batch { samples: vec![set(&[1])] }));
    take(&mut v, batch(1));
    take(&mut v, assessment(true, false));
    assert!(!v.accepts(&threshold(1)));
    assert!(!v.accepts(&batch(0)));
    assert!(!v.accepts(&assessment(false, true)));
}

#[test]
fn every_run_ends() {
    // never covering anything, the cap of ten batches ends the run
    let mut v = Verifier::new(set(&[7]), 6, 10 * STEP);
    let mut steps = 0;
    loop {
        let event = match v.action() {
            VerifyAction::ComputeThreshold { .. } => threshold(1),
            VerifyAction::Draw { .. } => batch(0),
            VerifyAction::Assess { .. } => assessment(false, false),
            VerifyAction::Report { verdict } => {
                assert_eq!(verdict.reason, Reason::CapExceeded);
                break;
            }
        };
        v.step(event);
        steps += 1;
    }
    assert_eq!(steps, 12);
}
