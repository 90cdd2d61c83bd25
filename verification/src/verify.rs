//! Statistical verification of a candidate seed set.
//!
//! The procedure runs in rounds. In each round it draws batches of fresh samples until the seeds
//! cover as many as the round's threshold asks for, and then the measured coverage is assessed. It
//! gives up when more samples were drawn than the cap allows. Thresholds and assessments come from
//! error bounds, and samples from a random source: the procedure asks for each by an action and is
//! handed the answer as an event.

use crate::coverage::{cov, coverage, samples_view};
use std::collections::BTreeSet;
use vstd::prelude::*;

verus! {

/// The number of samples in a batch.
pub const STEP: usize = 10_000;

/// A measured coverage: `num_cov` of `num_sets` samples are covered.
#[derive(Clone, Copy, Debug, PartialEq, Eq, Structural)]
pub struct Ratio {
    pub num_cov: usize,
    pub num_sets: usize,
}

/// The error that a round allows for: the smaller of the target error and one, halved once per
/// completed round, and doubled where the round was not completed.
#[derive(Clone, Copy, Debug, PartialEq, Eq, Structural)]
pub struct RoundError {
    pub halvings: usize,
    pub doubled: bool,
}

/// Why the procedure ended.
#[derive(Clone, Copy, Debug, PartialEq, Eq, Structural)]
pub enum Reason {
    /// More samples were drawn than the cap allows.
    CapExceeded,
    /// The measured error is larger than the target error.
    ErrorTooLarge,
    /// The product of the error bounds reaches the target.
    Accepted,
    /// No round is left.
    RoundsExhausted,
}

/// The outcome of the procedure: `eps1` is the coverage that the error was measured on, and the
/// error is infinite where there is none, as after an exceeded cap; `eps2` is the error of the
/// round, and infinite where there was no round.
#[derive(Clone, Copy, Debug, PartialEq, Eq, Structural)]
pub struct Verdict {
    pub reason: Reason,
    pub eps1: Option<Ratio>,
    pub eps2: Option<RoundError>,
}

impl Verdict {
    /// Whether the seeds passed.
    pub open spec fn spec_passed(self) -> bool {
        self.reason == Reason::Accepted
    }

    /// Whether the seeds passed.
    pub fn passed(&self) -> (passed: bool)
        ensures
            passed == self.spec_passed(),
    {
        match self.reason {
            Reason::Accepted => true,
            _ => false,
        }
    }
}

/// Where the procedure stands.
#[derive(Clone, Copy, Debug, PartialEq, Eq, Structural)]
pub enum Phase {
    /// The round's threshold is wanted.
    Threshold,
    /// Samples are wanted: fewer than `lam2` are covered.
    Sampling { lam2: usize },
    /// An assessment is wanted: at least `lam2` samples are covered.
    Assessing { lam2: usize },
    /// The procedure has ended.
    Done { verdict: Verdict },
}

/// What the procedure wants next.
#[derive(Clone, Copy, Debug, PartialEq, Eq, Structural)]
pub enum VerifyAction {
    /// The number of samples to be covered in a round.
    ComputeThreshold { round: usize },
    /// So many fresh samples.
    Draw { count: usize },
    /// An assessment of a measured coverage in a round.
    Assess { round: usize, ratio: Ratio },
    /// Nothing more.
    Report { verdict: Verdict },
}

/// An answer to an action.
#[derive(Debug)]
pub enum VerifyEvent {
    /// The threshold of the round.
    Threshold { lam2: usize },
    /// A batch of samples.
    Batch { samples: Vec<BTreeSet<usize>> },
    /// Whether the measured error exceeds the target, and whether the bounds accept the seeds.
    Assessment { too_large: bool, accepted: bool },
}

/// The model of a [`VerifyEvent`].
pub enum VerifyEventView {
    Threshold { lam2: usize },
    Batch { samples: Seq<Set<usize>> },
    Assessment { too_large: bool, accepted: bool },
}

impl View for VerifyEvent {
    type V = VerifyEventView;

    open spec fn view(&self) -> VerifyEventView {
        match self {
            VerifyEvent::Threshold { lam2 } => VerifyEventView::Threshold { lam2: *lam2 },
            VerifyEvent::Batch { samples } => VerifyEventView::Batch {
                samples: samples_view(samples@),
            },
            VerifyEvent::Assessment { too_large, accepted } => VerifyEventView::Assessment {
                too_large: *too_large,
                accepted: *accepted,
            },
        }
    }
}

/// A verification in progress.
#[derive(Debug)]
pub struct Verifier {
    seeds: BTreeSet<usize>,
    v_max: usize,
    tcap: usize,
    round: usize,
    num_cov: usize,
    num_sets: usize,
    phase: Phase,
}

/// The model of a [`Verifier`].
pub struct VerifierView {
    pub seeds: Set<usize>,
    pub v_max: int,
    pub tcap: int,
    pub round: int,
    pub num_cov: int,
    pub num_sets: int,
    pub phase: Phase,
}

impl View for Verifier {
    type V = VerifierView;

    closed spec fn view(&self) -> VerifierView {
        VerifierView {
            seeds: self.seeds@,
            v_max: self.v_max as int,
            tcap: self.tcap as int,
            round: self.round as int,
            num_cov: self.num_cov as int,
            num_sets: self.num_sets as int,
            phase: self.phase,
        }
    }
}

impl VerifierView {
    /// The state before the first round. There is one round fewer than `v_max`.
    pub open spec fn initial(seeds: Set<usize>, v_max: int, tcap: int) -> VerifierView {
        VerifierView {
            seeds,
            v_max,
            tcap,
            round: 0,
            num_cov: 0,
            num_sets: 0,
            phase: if v_max > 1 {
                Phase::Threshold
            } else {
                Phase::Done {
                    verdict: Verdict { reason: Reason::RoundsExhausted, eps1: None, eps2: None },
                }
            },
        }
    }

    /// No more samples are covered than were drawn, whole batches were drawn, and while the
    /// procedure runs the samples are within the cap, the round is one of the rounds, and the
    /// phase agrees with the coverage. A verdict for an exceeded cap, or without any round, reports
    /// no measured error, and every other one reports that of the samples drawn.
    pub open spec fn wf(self) -> bool {
        &&& self.v_max >= 1
        &&& 0 <= self.num_cov <= self.num_sets <= self.tcap + STEP
        &&& self.num_sets % (STEP as int) == 0
        &&& 0 <= self.round <= self.v_max - 1
        &&& self.tcap + STEP <= usize::MAX
        &&& self.phase !is Done ==> {
            &&& self.num_sets <= self.tcap
            &&& self.round < self.v_max - 1
        }
        &&& match self.phase {
            Phase::Threshold => true,
            Phase::Sampling { lam2 } => self.num_cov < lam2,
            Phase::Assessing { lam2 } => self.num_cov >= lam2,
            Phase::Done { verdict } => {
                &&& verdict.reason == Reason::CapExceeded <==> self.num_sets > self.tcap
                &&& verdict.eps1 == if verdict.reason == Reason::CapExceeded || self.v_max == 1 {
                    None
                } else {
                    Some(self.ratio())
                }
            },
        }
    }

    /// The event answers the action that the state wants.
    pub open spec fn expects(self, event: VerifyEventView) -> bool {
        match (self.phase, event) {
            (Phase::Threshold, VerifyEventView::Threshold { .. }) => true,
            (Phase::Sampling { .. }, VerifyEventView::Batch { samples }) => samples.len() == STEP,
            (Phase::Assessing { .. }, VerifyEventView::Assessment { .. }) => true,
            _ => false,
        }
    }

    /// The coverage of the samples drawn so far.
    pub open spec fn ratio(self) -> Ratio {
        Ratio { num_cov: self.num_cov as usize, num_sets: self.num_sets as usize }
    }

    /// The error of the current round.
    pub open spec fn eps2(self, doubled: bool) -> Option<RoundError> {
        Some(RoundError { halvings: self.round as usize, doubled })
    }

    /// Where the state goes once the threshold is known to be `lam2`: to the assessment if
    /// enough samples are covered, and to sampling if not.
    pub open spec fn compared(self, lam2: usize) -> Phase {
        if self.num_cov < lam2 {
            Phase::Sampling { lam2 }
        } else {
            Phase::Assessing { lam2 }
        }
    }

    /// The state after an event that it expects.
    pub open spec fn after(self, event: VerifyEventView) -> VerifierView {
        match event {
            VerifyEventView::Threshold { lam2 } => {
                VerifierView { phase: self.compared(lam2), ..self }
            },
            VerifyEventView::Batch { samples } => {
                let drawn = VerifierView {
                    num_cov: self.num_cov + coverage(samples, self.seeds),
                    num_sets: self.num_sets + STEP,
                    ..self
                };
                let phase = if drawn.num_sets > self.tcap {
                    Phase::Done {
                        verdict: Verdict {
                            reason: Reason::CapExceeded,
                            eps1: None,
                            eps2: self.eps2(true),
                        },
                    }
                } else {
                    drawn.compared(self.phase->Sampling_lam2)
                };
                VerifierView { phase, ..drawn }
            },
            VerifyEventView::Assessment { too_large, accepted } => {
                let eps1 = Some(self.ratio());
                let eps2 = self.eps2(false);
                if too_large {
                    VerifierView {
                        phase: Phase::Done {
                            verdict: Verdict { reason: Reason::ErrorTooLarge, eps1, eps2 },
                        },
                        ..self
                    }
                } else if accepted {
                    VerifierView {
                        phase: Phase::Done {
                            verdict: Verdict { reason: Reason::Accepted, eps1, eps2 },
                        },
                        ..self
                    }
                } else if self.round + 1 < self.v_max - 1 {
                    VerifierView { round: self.round + 1, phase: Phase::Threshold, ..self }
                } else {
                    VerifierView {
                        phase: Phase::Done {
                            verdict: Verdict { reason: Reason::RoundsExhausted, eps1, eps2 },
                        },
                        ..self
                    }
                }
            },
        }
    }

    /// What the state wants.
    pub open spec fn action(self) -> VerifyAction {
        match self.phase {
            Phase::Threshold => VerifyAction::ComputeThreshold { round: self.round as usize },
            Phase::Sampling { .. } => VerifyAction::Draw { count: STEP },
            Phase::Assessing { .. } => VerifyAction::Assess {
                round: self.round as usize,
                ratio: self.ratio(),
            },
            Phase::Done { verdict } => VerifyAction::Report { verdict },
        }
    }
}

impl Verifier {
    /// Starts the verification of `seeds` in fewer than `v_max` rounds and with about `tcap`
    /// samples at most.
    pub fn new(seeds: BTreeSet<usize>, v_max: usize, tcap: usize) -> (v: Verifier)
        requires
            v_max >= 1,
            tcap + STEP <= usize::MAX,
        ensures
            v@ == VerifierView::initial(seeds@, v_max as int, tcap as int),
            v@.wf(),
    {
        let phase = if v_max > 1 {
            Phase::Threshold
        } else {
            Phase::Done {
                verdict: Verdict { reason: Reason::RoundsExhausted, eps1: None, eps2: None },
            }
        };
        Verifier { seeds, v_max, tcap, round: 0, num_cov: 0, num_sets: 0, phase }
    }

    /// What the verification wants next.
    pub fn action(&self) -> (action: VerifyAction)
        requires
            self@.wf(),
        ensures
            action == self@.action(),
    {
        match self.phase {
            Phase::Threshold => VerifyAction::ComputeThreshold { round: self.round },
            Phase::Sampling { .. } => VerifyAction::Draw { count: STEP },
            Phase::Assessing { .. } => VerifyAction::Assess {
                round: self.round,
                ratio: Ratio { num_cov: self.num_cov, num_sets: self.num_sets },
            },
            Phase::Done { verdict } => VerifyAction::Report { verdict },
        }
    }

    /// The phase once the threshold is known to be `lam2`.
    fn compared(&self, lam2: usize) -> (phase: Phase)
        ensures
            phase == self@.compared(lam2),
    {
        if self.num_cov < lam2 {
            Phase::Sampling { lam2 }
        } else {
            Phase::Assessing { lam2 }
        }
    }

    /// Whether the event answers the action that the verification wants.
    pub fn accepts(&self, event: &VerifyEvent) -> (b: bool)
        ensures
            b == self@.expects(event@),
    {
        match (self.phase, event) {
            (Phase::Threshold, VerifyEvent::Threshold { .. }) => true,
            (Phase::Sampling { .. }, VerifyEvent::Batch { samples }) => samples.len() == STEP,
            (Phase::Assessing { .. }, VerifyEvent::Assessment { .. }) => true,
            _ => false,
        }
    }

    /// Takes the answer to the action that the verification wants.
    pub fn step(&mut self, event: VerifyEvent)
        requires
            old(self)@.wf(),
            old(self)@.expects(event@),
        ensures
            final(self)@ == old(self)@.after(event@),
            final(self)@.wf(),
    {
        match event {
            VerifyEvent::Threshold { lam2 } => {
                self.phase = self.compared(lam2);
            },
            VerifyEvent::Batch { samples } => {
                self.step_batch(&samples);
            },
            VerifyEvent::Assessment { too_large, accepted } => {
                self.step_assessment(too_large, accepted);
            },
        }
    }

    /// Counts a batch of samples, and ends where it exceeds the cap.
    fn step_batch(&mut self, samples: &Vec<BTreeSet<usize>>)
        requires
            old(self)@.wf(),
            old(self)@.expects(VerifyEventView::Batch { samples: samples_view(samples@) }),
        ensures
            final(self)@ == old(self)@.after(
                VerifyEventView::Batch { samples: samples_view(samples@) },
            ),
            final(self)@.wf(),
    {
        let hits = cov(samples, &self.seeds);
        self.num_cov = self.num_cov + hits;
        self.num_sets = self.num_sets + STEP;
        if self.num_sets > self.tcap {
            let eps2 = Some(RoundError { halvings: self.round, doubled: true });
            self.phase = Phase::Done {
                verdict: Verdict { reason: Reason::CapExceeded, eps1: None, eps2 },
            };
        } else if let Phase::Sampling { lam2 } = self.phase {
            self.phase = self.compared(lam2);
        }
    }

    /// Ends where the assessment decides, or where no round is left, and otherwise goes on to
    /// the next round.
    fn step_assessment(&mut self, too_large: bool, accepted: bool)
        requires
            old(self)@.wf(),
            old(self)@.phase is Assessing,
        ensures
            final(self)@ == old(self)@.after(
                VerifyEventView::Assessment { too_large, accepted },
            ),
            final(self)@.wf(),
    {
        let eps1 = Some(Ratio { num_cov: self.num_cov, num_sets: self.num_sets });
        let eps2 = Some(RoundError { halvings: self.round, doubled: false });
        if too_large {
            self.phase = Phase::Done {
                verdict: Verdict { reason: Reason::ErrorTooLarge, eps1, eps2 },
            };
        } else if accepted {
            self.phase = Phase::Done { verdict: Verdict { reason: Reason::Accepted, eps1, eps2 } };
        } else if self.round + 1 < self.v_max - 1 {
            self.round = self.round + 1;
            self.phase = Phase::Threshold;
        } else {
            self.phase = Phase::Done {
                verdict: Verdict { reason: Reason::RoundsExhausted, eps1, eps2 },
            };
        }
    }
}

} // verus!
