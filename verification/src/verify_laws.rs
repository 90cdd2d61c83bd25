//! What holds of every verification.

use crate::coverage::{coverage, law_coverage_bounded, law_coverage_of_batches};
use crate::verify::{
    Phase, Ratio, Reason, RoundError, Verdict, VerifierView, VerifyAction, VerifyEventView, STEP,
};
use vstd::prelude::*;

verus! {

impl VerifierView {
    /// The verification has ended for the reason given.
    pub open spec fn ended(self, reason: Reason) -> bool {
        self.phase matches Phase::Done { verdict } && verdict.reason == reason
    }

    /// A bound on the number of events until the verification ends.
    pub open spec fn steps_left(self) -> int {
        let started = 3 * (self.v_max - 1 - self.round) + (self.tcap + STEP - self.num_sets);
        match self.phase {
            Phase::Threshold => started + 2,
            Phase::Sampling { .. } => started + 1,
            Phase::Assessing { .. } => started,
            Phase::Done { .. } => 0,
        }
    }

    /// The state after a sequence of events.
    pub open spec fn run(self, events: Seq<VerifyEventView>) -> VerifierView
        decreases events.len(),
    {
        if events.len() == 0 {
            self
        } else {
            self.run(events.drop_last()).after(events.last())
        }
    }

    /// Each event of the sequence answers what is wanted at its time.
    pub open spec fn admits(self, events: Seq<VerifyEventView>) -> bool
        decreases events.len(),
    {
        events.len() > 0 ==> {
            &&& self.admits(events.drop_last())
            &&& self.run(events.drop_last()).expects(events.last())
        }
    }
}

/// All the samples that a sequence of events brings, in order.
pub open spec fn drawn(events: Seq<VerifyEventView>) -> Seq<Set<usize>>
    decreases events.len(),
{
    if events.len() == 0 {
        Seq::empty()
    } else {
        match events.last() {
            VerifyEventView::Batch { samples } => drawn(events.drop_last()) + samples,
            _ => drawn(events.drop_last()),
        }
    }
}

/// A number halved `times` times.
pub open spec fn halved(x: real, times: nat) -> real
    decreases times,
{
    if times == 0 {
        x
    } else {
        halved(x, (times - 1) as nat) / 2 as real
    }
}

/// The number that the error of a round stands for, for a target error of `eps`.
pub open spec fn round_error(e: RoundError, eps: real) -> real {
    let first = if eps < 1 as real {
        eps
    } else {
        1 as real
    };
    let error = halved(first, e.halvings as nat);
    if e.doubled {
        2 as real * error
    } else {
        error
    }
}

/// Every event keeps the state well formed.
pub proof fn law_step_keeps_wf(s: VerifierView, event: VerifyEventView)
    requires
        s.wf(),
        s.expects(event),
    ensures
        s.after(event).wf(),
        s.after(event).seeds == s.seeds,
        s.after(event).v_max == s.v_max,
        s.after(event).tcap == s.tcap,
{
    if let VerifyEventView::Batch { samples } = event {
        law_coverage_bounded(samples, s.seeds);
    }
}

/// Every event brings the end nearer.
pub proof fn law_verification_ends(s: VerifierView, event: VerifyEventView)
    requires
        s.wf(),
        s.expects(event),
    ensures
        0 <= s.after(event).steps_left() < s.steps_left(),
{
    law_step_keeps_wf(s, event);
}

/// A run is no longer than the bound, and keeps the state well formed.
pub proof fn law_runs_are_bounded(s: VerifierView, events: Seq<VerifyEventView>)
    requires
        s.wf(),
        s.admits(events),
    ensures
        s.run(events).wf(),
        s.run(events).seeds == s.seeds,
        s.run(events).v_max == s.v_max,
        s.run(events).tcap == s.tcap,
        events.len() + s.run(events).steps_left() <= s.steps_left(),
    decreases events.len(),
{
    if events.len() > 0 {
        law_runs_are_bounded(s, events.drop_last());
        law_step_keeps_wf(s.run(events.drop_last()), events.last());
        law_verification_ends(s.run(events.drop_last()), events.last());
    }
}

/// A verdict is final: nothing is expected after it.
pub proof fn law_verdict_is_final(s: VerifierView, event: VerifyEventView)
    requires
        s.phase is Done,
    ensures
        !s.expects(event),
{
}

/// The counts are those of all the samples drawn, whatever the batches: `num_sets` is their
/// number, and `num_cov` the number of those that the seeds cover.
pub proof fn law_counts_are_of_all_samples(
    seeds: Set<usize>,
    v_max: int,
    tcap: int,
    events: Seq<VerifyEventView>,
)
    requires
        VerifierView::initial(seeds, v_max, tcap).wf(),
        VerifierView::initial(seeds, v_max, tcap).admits(events),
    ensures
        VerifierView::initial(seeds, v_max, tcap).run(events).num_sets == drawn(events).len(),
        VerifierView::initial(seeds, v_max, tcap).run(events).num_cov == coverage(
            drawn(events),
            seeds,
        ),
    decreases events.len(),
{
    let start = VerifierView::initial(seeds, v_max, tcap);
    if events.len() == 0 {
        law_coverage_bounded(drawn(events), seeds);
    } else {
        let before = events.drop_last();
        law_counts_are_of_all_samples(seeds, v_max, tcap, before);
        law_runs_are_bounded(start, before);
        if let VerifyEventView::Batch { samples } = events.last() {
            law_coverage_of_batches(drawn(before), samples, seeds);
        }
    }
}

/// The seeds pass exactly when an assessment accepts them and does not find the error too
/// large. The verdict then reports the coverage that was assessed, which reached the threshold of
/// the round within the cap.
pub proof fn law_passed_exactly_when_accepted(s: VerifierView, event: VerifyEventView)
    requires
        s.wf(),
        s.expects(event),
    ensures
        s.after(event).ended(Reason::Accepted) <==> event == (VerifyEventView::Assessment {
            too_large: false,
            accepted: true,
        }),
        s.after(event).ended(Reason::Accepted) ==> {
            let verdict = s.after(event).phase->verdict;
            &&& verdict.spec_passed()
            &&& s.phase matches Phase::Assessing { lam2 } && s.num_cov >= lam2
            &&& s.num_sets <= s.tcap
            &&& s.round < s.v_max - 1
            &&& verdict.eps1 == Some(
                Ratio { num_cov: s.num_cov as usize, num_sets: s.num_sets as usize },
            )
            &&& verdict.eps2 == Some(RoundError { halvings: s.round as usize, doubled: false })
        },
{
}

/// A verification ends for its cap exactly when the next batch goes beyond it. Whatever the round,
/// the verdict then reports an infinite error, and twice the error that the round allows for.
pub proof fn law_cap_ends_verification(s: VerifierView, event: VerifyEventView)
    requires
        s.wf(),
        s.expects(event),
    ensures
        s.after(event).ended(Reason::CapExceeded) <==> event is Batch && s.num_sets + STEP
            > s.tcap,
        s.after(event).ended(Reason::CapExceeded) ==> {
            let verdict = s.after(event).phase->verdict;
            &&& verdict.eps1 is None
            &&& verdict.eps2 == Some(RoundError { halvings: s.round as usize, doubled: true })
        },
{
}

/// A measured error that is too large ends the verification, and so does an assessment that
/// decides nothing in the last round; neither happens otherwise.
pub proof fn law_other_ends(s: VerifierView, event: VerifyEventView)
    requires
        s.wf(),
        s.expects(event),
    ensures
        s.after(event).ended(Reason::ErrorTooLarge) <==> (event matches VerifyEventView::Assessment {
            too_large,
            ..
        } && too_large),
        s.after(event).ended(Reason::RoundsExhausted) <==> event == (
        VerifyEventView::Assessment { too_large: false, accepted: false }) && s.round
            == s.v_max - 2,
{
}

/// A verdict reports a measured error exactly when an assessment ended the verification, and then
/// that of all the samples drawn.
pub proof fn law_assessed_error_is_reported(s: VerifierView, event: VerifyEventView)
    requires
        s.wf(),
        s.expects(event),
        s.after(event).phase is Done,
    ensures
        s.after(event).phase->verdict.eps1 == if event is Assessment {
            Some(s.ratio())
        } else {
            None
        },
{
}

/// The doubled error of a round is the error of the round before.
pub proof fn law_doubled_error_is_previous(round: usize, eps: real)
    requires
        round >= 1,
    ensures
        round_error(RoundError { halvings: round, doubled: true }, eps) == round_error(
            RoundError { halvings: (round - 1) as usize, doubled: false },
            eps,
        ),
{
}

/// The threshold that was handed in last.
pub open spec fn last_threshold(events: Seq<VerifyEventView>) -> Option<usize>
    decreases events.len(),
{
    if events.len() == 0 {
        None
    } else {
        match events.last() {
            VerifyEventView::Threshold { lam2 } => Some(lam2),
            _ => last_threshold(events.drop_last()),
        }
    }
}

/// How many assessments were handed in.
pub open spec fn assessed(events: Seq<VerifyEventView>) -> nat
    decreases events.len(),
{
    if events.len() == 0 {
        0
    } else if events.last() is Assessment {
        assessed(events.drop_last()) + 1
    } else {
        assessed(events.drop_last())
    }
}

/// Where a run stands: the threshold of its phase is the last one handed in, and its round the
/// number of assessments.
proof fn lemma_run_stands(
    seeds: Set<usize>,
    v_max: int,
    tcap: int,
    events: Seq<VerifyEventView>,
)
    requires
        VerifierView::initial(seeds, v_max, tcap).wf(),
        VerifierView::initial(seeds, v_max, tcap).admits(events),
    ensures
        ({
            let s = VerifierView::initial(seeds, v_max, tcap).run(events);
            &&& s.wf()
            &&& s.seeds == seeds && s.v_max == v_max && s.tcap == tcap
            &&& s.num_sets == drawn(events).len()
            &&& s.num_cov == coverage(drawn(events), seeds)
            &&& s.phase !is Done ==> s.round == assessed(events)
            &&& s.phase matches Phase::Sampling { lam2 } ==> last_threshold(events) == Some(lam2)
            &&& s.phase matches Phase::Assessing { lam2 } ==> last_threshold(events) == Some(lam2)
        }),
    decreases events.len(),
{
    let start = VerifierView::initial(seeds, v_max, tcap);
    law_runs_are_bounded(start, events);
    law_counts_are_of_all_samples(seeds, v_max, tcap, events);
    if events.len() > 0 {
        lemma_run_stands(seeds, v_max, tcap, events.drop_last());
    }
}

/// What a verification wants follows from what it was handed so far:
/// at first the threshold of the first round, and nothing where there is no round;
/// after a threshold or a batch, more samples exactly while fewer than the last threshold are
/// covered of all the samples drawn, and otherwise an assessment of that coverage;
/// an end, with an infinite error, after a batch beyond the cap;
/// and after an assessment an end if it found the error too large or accepted the seeds, the
/// threshold of the next round if there is one, and else an end.
pub proof fn law_history_decides(
    seeds: Set<usize>,
    v_max: int,
    tcap: int,
    events: Seq<VerifyEventView>,
)
    requires
        1 <= v_max <= usize::MAX,
        0 <= tcap,
        tcap + 10_000 <= usize::MAX,
        VerifierView::initial(seeds, v_max, tcap).admits(events),
    ensures
        ({
            let action = VerifierView::initial(seeds, v_max, tcap).run(events).action();
            let covered = coverage(drawn(events), seeds);
            let ratio = Ratio {
                num_cov: covered as usize,
                num_sets: drawn(events).len() as usize,
            };
            let done = assessed(events);
            &&& covered <= drawn(events).len() <= tcap + 10_000
            &&& events.len() == 0 && v_max > 1 ==> action == (VerifyAction::ComputeThreshold {
                round: 0,
            })
            &&& events.len() == 0 && v_max == 1 ==> action == (VerifyAction::Report {
                verdict: Verdict { reason: Reason::RoundsExhausted, eps1: None, eps2: None },
            })
            &&& events.len() > 0 ==> match events.last() {
                VerifyEventView::Threshold { lam2 } => {
                    &&& covered < lam2 ==> action == (VerifyAction::Draw { count: 10_000 })
                    &&& covered >= lam2 ==> action == (VerifyAction::Assess {
                        round: done as usize,
                        ratio,
                    })
                },
                VerifyEventView::Batch { .. } => {
                    &&& last_threshold(events) is Some
                    &&& drawn(events).len() > tcap ==> action == (VerifyAction::Report {
                        verdict: Verdict {
                            reason: Reason::CapExceeded,
                            eps1: None,
                            eps2: Some(RoundError { halvings: done as usize, doubled: true }),
                        },
                    })
                    &&& drawn(events).len() <= tcap && covered < last_threshold(events)->0
                        ==> action == (VerifyAction::Draw { count: 10_000 })
                    &&& drawn(events).len() <= tcap && covered >= last_threshold(events)->0
                        ==> action == (VerifyAction::Assess { round: done as usize, ratio })
                },
                VerifyEventView::Assessment { too_large, accepted } => {
                    let eps2 = Some(RoundError { halvings: (done - 1) as usize, doubled: false });
                    &&& 1 <= done < v_max
                    &&& too_large ==> action == (VerifyAction::Report {
                        verdict: Verdict { reason: Reason::ErrorTooLarge, eps1: Some(ratio), eps2 },
                    })
                    &&& !too_large && accepted ==> action == (VerifyAction::Report {
                        verdict: Verdict { reason: Reason::Accepted, eps1: Some(ratio), eps2 },
                    })
                    &&& !too_large && !accepted && done < v_max - 1 ==> action == (
                    VerifyAction::ComputeThreshold { round: done as usize })
                    &&& !too_large && !accepted && done == v_max - 1 ==> action == (
                    VerifyAction::Report {
                        verdict: Verdict {
                            reason: Reason::RoundsExhausted,
                            eps1: Some(ratio),
                            eps2,
                        },
                    })
                },
            }
        }),
{
    lemma_run_stands(seeds, v_max, tcap, events);
    if events.len() > 0 {
        lemma_run_stands(seeds, v_max, tcap, events.drop_last());
    }
}

/// An event is expected exactly when it answers what is wanted: a threshold for a threshold, as
/// many samples as are wanted, and an assessment for an assessment.
pub proof fn law_expected_event_answers(s: VerifierView, event: VerifyEventView)
    ensures
        s.expects(event) <==> match (s.action(), event) {
            (VerifyAction::ComputeThreshold { .. }, VerifyEventView::Threshold { .. }) => true,
            (VerifyAction::Draw { count }, VerifyEventView::Batch { samples }) => samples.len()
                == count,
            (VerifyAction::Assess { .. }, VerifyEventView::Assessment { .. }) => true,
            _ => false,
        },
{
}

/// A threshold is kept as it was handed in until the round is assessed: neither it nor a batch
/// changes the number of samples to be covered, and samples are wanted exactly while fewer are.
pub proof fn law_threshold_is_kept(s: VerifierView, event: VerifyEventView, lam2: usize)
    requires
        s.wf(),
        s.expects(event),
        event == (VerifyEventView::Threshold { lam2 }) || s.phase == (Phase::Sampling { lam2 }),
        !s.after(event).ended(Reason::CapExceeded),
    ensures
        s.after(event).num_cov < lam2 ==> s.after(event).phase == (Phase::Sampling { lam2 }),
        s.after(event).num_cov >= lam2 ==> s.after(event).phase == (Phase::Assessing { lam2 }),
{
}

} // verus!
