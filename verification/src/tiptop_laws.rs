//! What holds of every run of the loop.

use crate::coverage::coverage;
use crate::ilp::{Instance, Program, ProgramView, Value};
use crate::ilp_laws::{
    costs_given, feasible, law_optimal_maximizes_coverage, law_seed_set_is_feasible, optimal,
    reported,
};
use crate::nodes::within;
use crate::tiptop::{
    clamped, later, EndReason, RunAction, RunEventView, RunPhase, TipTopView, CAP_FACTOR, V_MAX,
};
use crate::verify::{Phase, Reason, Verdict, VerifierView, VerifyEventView};
use crate::verify_laws::{
    drawn, law_counts_are_of_all_samples, law_passed_exactly_when_accepted, law_runs_are_bounded,
};
use vstd::prelude::*;

verus! {

impl TipTopView {
    /// The state after a sequence of events.
    pub open spec fn run(self, events: Seq<RunEventView>) -> TipTopView
        decreases events.len(),
    {
        if events.len() == 0 {
            self
        } else {
            self.run(events.drop_last()).after(events.last())
        }
    }

    /// Each event of the sequence answers what is wanted at its time.
    pub open spec fn admits(self, events: Seq<RunEventView>) -> bool
        decreases events.len(),
    {
        events.len() > 0 ==> {
            &&& self.admits(events.drop_last())
            &&& self.run(events.drop_last()).expects(events.last())
        }
    }

    /// The seeds are within the budget, and no seed set within the budget covers more samples.
    pub open spec fn best(self, costs: Option<Seq<real>>) -> bool {
        &&& self.instance().affordable(costs, self.seeds)
        &&& forall|other: Set<usize>| #[trigger]
            self.instance().affordable(costs, other) ==> coverage(self.samples, other) <= coverage(
                self.samples,
                self.seeds,
            )
    }

    /// The event is what a solver reports of an optimal solution of the program that is wanted.
    pub open spec fn solves(self, event: RunEventView, costs: Option<Seq<real>>) -> bool {
        event matches RunEventView::Solution { values } ==> exists|p: ProgramView, a: Seq<bool>|
            self.instance().encoded_by(p) && #[trigger] optimal(p, a, costs) && values == reported(
                a,
            )
    }

    /// Every solution in the sequence is optimal.
    pub open spec fn solved(self, events: Seq<RunEventView>, costs: Option<Seq<real>>) -> bool
        decreases events.len(),
    {
        events.len() > 0 ==> {
            &&& self.solved(events.drop_last(), costs)
            &&& self.run(events.drop_last()).solves(events.last(), costs)
        }
    }

    /// The seeds of the current round were refused by `event`.
    pub open spec fn refused_by(self, event: RunEventView) -> bool {
        event is Verdict && self.after(event).phase is Target
    }

    /// How many rounds of the sequence were refused.
    pub open spec fn refusals(self, events: Seq<RunEventView>) -> nat
        decreases events.len(),
    {
        if events.len() == 0 {
            0
        } else {
            self.refusals(events.drop_last()) + if self.run(events.drop_last()).refused_by(
                events.last(),
            ) {
                1nat
            } else {
                0nat
            }
        }
    }

    /// The growth that came with the last refusal whose measured error was finite.
    pub open spec fn last_growth(self, events: Seq<RunEventView>) -> Option<i64>
        decreases events.len(),
    {
        if events.len() == 0 {
            None
        } else {
            let before = events.drop_last();
            match events.last() {
                RunEventView::Verdict { growth: Some(g), .. } if self.run(before).refused_by(
                    events.last(),
                ) => Some(g),
                _ => self.last_growth(before),
            }
        }
    }

    /// The step of the time after a refusal that follows `events`: the one that the growth
    /// suggests; without a growth, the one of the last refusal whose measured error was finite; and
    /// without such a refusal, the largest.
    pub open spec fn step_after(self, events: Seq<RunEventView>, growth: Option<i64>) -> i64 {
        match (growth, self.last_growth(events)) {
            (Some(g), _) => clamped(g, self.dt_max),
            (None, Some(g)) => clamped(g, self.dt_max),
            (None, None) => self.dt_max,
        }
    }

    /// Each target of the sequence is what `target` gives at its time.
    pub open spec fn aims_at(
        self,
        events: Seq<RunEventView>,
        target: spec_fn(i64) -> usize,
    ) -> bool
        decreases events.len(),
    {
        events.len() > 0 ==> {
            &&& self.aims_at(events.drop_last(), target)
            &&& events.last() matches RunEventView::Target { nt } ==> nt == target(
                self.run(events.drop_last()).t,
            )
        }
    }
}

/// A verification may draw two to the power of `V_MAX` samples per sample of the loop.
pub proof fn law_cap_factor_is_power()
    ensures
        CAP_FACTOR == vstd::arithmetic::power2::pow2(V_MAX as nat),
{
    vstd::arithmetic::power2::lemma2_to64();
}

/// Every event keeps the state well formed and the problem unchanged, and keeps the samples drawn
/// so far.
pub proof fn law_samples_are_kept(s: TipTopView, event: RunEventView)
    requires
        s.wf(),
        s.expects(event),
    ensures
        s.after(event).wf(),
        s.after(event).nodes == s.nodes,
        s.after(event).n_costs == s.n_costs,
        s.after(event).k == s.k,
        s.after(event).dt_max == s.dt_max,
        s.after(event).lam_max == s.lam_max,
        s.samples.is_prefix_of(s.after(event).samples),
{
    match event {
        RunEventView::Samples { samples } => {
            let all = s.samples + samples;
            assert forall|j: int| 0 <= j < all.len() implies within(#[trigger] all[j], s.nodes) by {
                if j < s.samples.len() {
                    assert(s.instance().samples[j] == all[j]);
                } else {
                    assert(samples[j - s.samples.len()] == all[j]);
                }
            }
        },
        RunEventView::Solution { values } => {
            crate::ilp::lemma_selected_within(s.nodes, values);
        },
        _ => {},
    }
}

/// The same over a run, together with the number of samples: no more than the target were drawn
/// before, and the program and the verification have as many as the target asked for.
pub proof fn law_run_keeps_samples(s: TipTopView, events: Seq<RunEventView>)
    requires
        s.wf(),
        s.admits(events),
    ensures
        s.run(events).wf(),
        s.run(events).nodes == s.nodes,
        s.run(events).n_costs == s.n_costs,
        s.run(events).k == s.k,
        s.run(events).dt_max == s.dt_max,
        s.run(events).lam_max == s.lam_max,
        s.samples.is_prefix_of(s.run(events).samples),
        match s.run(events).phase {
            RunPhase::Sampling { nt } => s.run(events).samples.len() <= nt,
            RunPhase::Solving { nt } | RunPhase::Verifying { nt } => s.run(events).samples.len()
                == nt,
            _ => true,
        },
    decreases events.len(),
{
    if events.len() > 0 {
        law_run_keeps_samples(s, events.drop_last());
        law_samples_are_kept(s.run(events.drop_last()), events.last());
    }
}

/// The samples of any moment of a run begin with those of every earlier moment: none is removed or
/// drawn anew.
pub proof fn law_samples_extend_earlier(s: TipTopView, events: Seq<RunEventView>, i: int)
    requires
        s.wf(),
        s.admits(events),
        0 <= i <= events.len(),
    ensures
        s.run(events.take(i)).samples.is_prefix_of(s.run(events).samples),
    decreases events.len(),
{
    if i == events.len() {
        assert(events.take(i) =~= events);
    } else {
        let before = events.drop_last();
        law_samples_extend_earlier(s, before, i);
        assert(before.take(i) =~= events.take(i));
        law_run_keeps_samples(s, before);
        law_samples_are_kept(s.run(before), events.last());
        let (early, middle, late) = (
            s.run(events.take(i)).samples,
            s.run(before).samples,
            s.run(events).samples,
        );
        assert forall|j: int| 0 <= j < early.len() implies early[j] == late[j] by {
            assert(middle.take(early.len() as int)[j] == early[j]);
            assert(late.take(middle.len() as int)[j] == middle[j]);
        }
        assert(early =~= late.take(early.len() as int));
    }
}

/// Targets that do not fall over time never ask for fewer samples than there are, so each is
/// accepted as long as its numbers fit the machine.
pub proof fn law_rising_targets_are_accepted(
    s: TipTopView,
    events: Seq<RunEventView>,
    target: spec_fn(i64) -> usize,
)
    requires
        s.wf(),
        s.phase is Target,
        s.samples.len() == 0,
        s.dt_max >= 1,
        s.admits(events),
        s.aims_at(events, target),
        forall|t1: i64, t2: i64| t1 <= t2 ==> #[trigger] target(t1) <= #[trigger] target(t2),
    ensures
        s.run(events).samples.len() <= target(s.run(events).t),
        s.run(events).phase matches RunPhase::Sampling { nt } ==> nt == target(s.run(events).t),
        s.run(events).phase is Target && s.run(events).fits(target(s.run(events).t)) ==> s.run(
            events,
        ).expects(RunEventView::Target { nt: target(s.run(events).t) }),
    decreases events.len(),
{
    if events.len() > 0 {
        let before = events.drop_last();
        law_rising_targets_are_accepted(s, before, target);
        law_run_keeps_samples(s, before);
        let (t1, t2) = (s.run(before).t, s.run(events).t);
        assert(t1 <= t2);
        assert(target(t1) <= target(t2));
    }
}

/// The loop ends exactly on seeds that pass or that cover more than is ever needed, and it
/// returns those seeds.
pub proof fn law_ends_exactly(s: TipTopView, event: RunEventView)
    requires
        s.wf(),
        s.expects(event),
    ensures
        s.after(event).phase == (RunPhase::Done { reason: EndReason::Passed }) <==> (event matches
            RunEventView::Verdict { verdict, .. } && verdict.spec_passed()),
        s.after(event).phase == (RunPhase::Done { reason: EndReason::CoverageExceeded })
            <==> (event matches RunEventView::Verdict { verdict, .. } && !verdict.spec_passed()
            && coverage(s.samples, s.seeds) > s.lam_max),
        s.after(event).phase is Done ==> s.after(event).seeds == s.seeds && s.after(event).samples
            == s.samples,
{
}

/// The seeds that are refused are where the next solution starts from.
pub proof fn law_refused_seeds_start_next(s: TipTopView, event: RunEventView)
    requires
        s.wf(),
        s.expects(event),
        s.refused_by(event),
    ensures
        s.after(event).prev == Some(s.seeds),
{
}

/// Where the loop ends on seeds that passed, and the verdict is that of the verification that the
/// loop asked for, its last event accepted the seeds, and the coverage that it reports is that of
/// all the fresh samples.
pub proof fn law_passed_seeds_were_accepted(
    s: TipTopView,
    checks: Seq<VerifyEventView>,
    verdict: Verdict,
    growth: Option<i64>,
)
    requires
        s.wf(),
        s.phase is Verifying,
        s.verification().admits(checks),
        s.verification().run(checks).phase == (Phase::Done { verdict }),
        s.after(RunEventView::Verdict { verdict, growth }).phase == (RunPhase::Done {
            reason: EndReason::Passed,
        }),
    ensures
        checks.len() > 0,
        checks.last() == (VerifyEventView::Assessment { too_large: false, accepted: true }),
        verdict.eps1 matches Some(ratio) && ratio.num_sets == drawn(checks).len() && ratio.num_cov
            == coverage(drawn(checks), s.seeds),
        drawn(checks).len() <= CAP_FACTOR * s.samples.len(),
{
    let start = s.verification();
    let before = checks.drop_last();
    law_runs_are_bounded(start, before);
    law_passed_exactly_when_accepted(start.run(before), checks.last());
    law_counts_are_of_all_samples(
        s.seeds,
        V_MAX as int,
        CAP_FACTOR * s.phase->Verifying_nt,
        checks,
    );
}

/// A refusal moves the time on by at least one and at most `dt_max`.
pub proof fn law_time_advances(s: TipTopView, event: RunEventView)
    requires
        s.wf(),
        s.expects(event),
        s.refused_by(event),
        s.dt_max >= 1,
        s.t + s.dt_max <= i64::MAX,
    ensures
        s.t + 1 <= s.after(event).t <= s.t + s.dt_max,
{
}

/// After `r` refusals the time is between `1 + r` and `1 + r * dt_max`.
pub proof fn law_time_of_run(s: TipTopView, events: Seq<RunEventView>)
    requires
        s.wf(),
        s.t == 1,
        s.admits(events),
        s.dt_max >= 1,
        1 + s.refusals(events) * s.dt_max <= i64::MAX,
    ensures
        1 + s.refusals(events) <= s.run(events).t <= 1 + s.refusals(events) * s.dt_max,
    decreases events.len(),
{
    if events.len() > 0 {
        let before = events.drop_last();
        let r = s.refusals(before) as int;
        let d = s.dt_max as int;
        assert((r + 1) * d == r * d + d) by (nonlinear_arith);
        law_time_of_run(s, before);
        law_run_keeps_samples(s, before);
        if s.run(before).refused_by(events.last()) {
            law_time_advances(s.run(before), events.last());
        }
    }
}

/// The step to fall back on is that of the last refusal whose measured error was finite.
pub proof fn law_fallback_is_last_finite(s: TipTopView, events: Seq<RunEventView>)
    requires
        s.wf(),
        s.dt_prev is None,
        s.admits(events),
    ensures
        s.run(events).dt_prev == (match s.last_growth(events) {
            Some(g) => Some(clamped(g, s.dt_max)),
            None => None,
        }),
    decreases events.len(),
{
    if events.len() > 0 {
        let before = events.drop_last();
        law_fallback_is_last_finite(s, before);
        law_run_keeps_samples(s, before);
    }
}

/// How a refusal moves the time on: by the step that the growth suggests, which is between one and
/// `dt_max`; where no growth comes, as for a verdict without a measured error, by the step of the
/// last refusal that had one; and by `dt_max` where there was none.
pub proof fn law_refusal_moves_time(
    s: TipTopView,
    events: Seq<RunEventView>,
    verdict: Verdict,
    growth: Option<i64>,
)
    requires
        s.wf(),
        s.dt_prev is None,
        s.admits(events),
        s.run(events).expects(RunEventView::Verdict { verdict, growth }),
        s.run(events).refused_by(RunEventView::Verdict { verdict, growth }),
    ensures
        s.run(events).after(RunEventView::Verdict { verdict, growth }).t == later(
            s.run(events).t,
            s.step_after(events, growth),
        ),
        verdict.eps1 is None ==> growth is None,
        s.dt_max >= 1 ==> 1 <= s.step_after(events, growth) <= s.dt_max,
{
    law_fallback_is_last_finite(s, events);
    law_run_keeps_samples(s, events);
}

/// After a verification that exceeded its cap, in whichever round, no growth is taken.
pub proof fn law_exceeded_cap_has_no_growth(
    s: TipTopView,
    checks: Seq<VerifyEventView>,
    verdict: Verdict,
    growth: Option<i64>,
)
    requires
        s.wf(),
        s.phase is Verifying,
        s.verification().admits(checks),
        s.verification().run(checks).phase == (Phase::Done { verdict }),
        verdict.reason == Reason::CapExceeded,
        s.expects(RunEventView::Verdict { verdict, growth }),
    ensures
        growth is None,
{
    law_runs_are_bounded(s.verification(), checks);
}

/// With an optimal solution of the program that is wanted, the seeds are the best ones for the
/// samples drawn so far.
pub proof fn law_optimal_solution_is_best(
    s: TipTopView,
    event: RunEventView,
    costs: Option<Seq<real>>,
)
    requires
        s.wf(),
        costs_given(s.n_costs, costs),
        event is Solution,
        s.expects(event),
        s.solves(event, costs),
    ensures
        s.after(event).best(costs),
{
    let values = event->values;
    let (p, a) = choose|p: ProgramView, a: Seq<bool>|
        s.instance().encoded_by(p) && #[trigger] optimal(p, a, costs) && values == reported(a);
    law_optimal_maximizes_coverage(s.instance(), p, a, costs);
    assert(s.after(event).instance() == s.instance());
}

/// If every solution is optimal, the seeds that the loop verifies and returns are within the
/// budget and cover at least as many of the samples as any seed set within the budget, and the
/// seeds that a solution starts from are within the budget.
pub proof fn law_result_is_best(
    s: TipTopView,
    events: Seq<RunEventView>,
    costs: Option<Seq<real>>,
)
    requires
        s.wf(),
        s.phase is Target,
        s.prev is None,
        costs_given(s.n_costs, costs),
        s.admits(events),
        s.solved(events, costs),
    ensures
        s.run(events).phase is Verifying || s.run(events).phase is Done ==> s.run(events).best(
            costs,
        ),
        s.run(events).prev matches Some(set) ==> s.run(events).instance().affordable(costs, set),
    decreases events.len(),
{
    if events.len() > 0 {
        let before = events.drop_last();
        let last = s.run(before);
        law_result_is_best(s, before, costs);
        law_run_keeps_samples(s, before);
        if events.last() is Solution {
            law_optimal_solution_is_best(last, events.last(), costs);
        }
        assert(forall|set: Set<usize>|
            last.instance().cost(costs, set) == s.run(events).instance().cost(costs, set));
    }
}

/// A starting solution is feasible: the seeds of an earlier round stay a solution of the program,
/// however many samples were added.
pub proof fn law_start_is_feasible(
    s: TipTopView,
    p: ProgramView,
    prev: Set<usize>,
    costs: Option<Seq<real>>,
)
    requires
        s.wf(),
        s.phase is Solving,
        s.prev == Some(prev),
        costs_given(s.n_costs, costs),
        s.instance().encoded_by(p),
        s.instance().affordable(costs, prev),
    ensures
        feasible(p, s.instance().assignment(prev), costs),
{
    law_seed_set_is_feasible(s.instance(), p, prev, costs);
}

/// All the samples that a sequence of events brings, in order.
pub open spec fn collected(events: Seq<RunEventView>) -> Seq<Set<usize>>
    decreases events.len(),
{
    if events.len() == 0 {
        Seq::empty()
    } else {
        match events.last() {
            RunEventView::Samples { samples } => collected(events.drop_last()) + samples,
            _ => collected(events.drop_last()),
        }
    }
}

/// The nodes whose variables are reported as set.
pub open spec fn picked(nodes: Seq<usize>, values: Seq<Value>) -> Set<usize> {
    Set::new(
        |v: usize|
            exists|i: int|
                0 <= i < nodes.len() && #[trigger] nodes[i] == v && values[i] == Value::Binary(
                    true,
                ),
    )
}

/// The seeds of the last solution.
pub open spec fn chosen(nodes: Seq<usize>, events: Seq<RunEventView>) -> Option<Set<usize>>
    decreases events.len(),
{
    if events.len() == 0 {
        None
    } else {
        match events.last() {
            RunEventView::Solution { values } => Some(picked(nodes, values)),
            _ => chosen(nodes, events.drop_last()),
        }
    }
}

/// The seeds that the last verdict was on.
pub open spec fn judged(nodes: Seq<usize>, events: Seq<RunEventView>) -> Option<Set<usize>>
    decreases events.len(),
{
    if events.len() == 0 {
        None
    } else if events.last() is Verdict {
        chosen(nodes, events.drop_last())
    } else {
        judged(nodes, events.drop_last())
    }
}

/// The last growth that came with a verdict.
pub open spec fn last_finite(events: Seq<RunEventView>) -> Option<i64>
    decreases events.len(),
{
    if events.len() == 0 {
        None
    } else {
        match events.last() {
            RunEventView::Verdict { growth: Some(g), .. } => Some(g),
            _ => last_finite(events.drop_last()),
        }
    }
}

/// `dt` is the whole number nearest to the growth `g` that is at least one and at most `dt_max`;
/// it is `dt_max` where that is less than one.
pub open spec fn nearest_step(dt: int, g: int, dt_max: int) -> bool {
    &&& 1 <= g <= dt_max ==> dt == g
    &&& g < 1 <= dt_max ==> dt == 1
    &&& g > dt_max >= 1 ==> dt == dt_max
    &&& dt_max < 1 ==> dt == dt_max
}

/// `after` is `dt` later than `before`, or the last or first time that there is.
pub open spec fn moved(before: i64, dt: int, after: i64) -> bool {
    &&& i64::MIN <= before + dt <= i64::MAX ==> after == before + dt
    &&& before + dt > i64::MAX ==> after == i64::MAX
    &&& before + dt < i64::MIN ==> after == i64::MIN
}

/// `dt` is the step after a refusal: the nearest to the growth; without one, the nearest to the
/// last growth there was; and without any, the largest.
pub open spec fn steps_by(dt: int, growth: Option<i64>, earlier: Option<i64>, dt_max: int) -> bool {
    match (growth, earlier) {
        (Some(g), _) => nearest_step(dt, g as int, dt_max),
        (None, Some(g)) => nearest_step(dt, g as int, dt_max),
        (None, None) => dt == dt_max,
    }
}

/// Where a run stands: its samples, seeds and steps are those of the events.
proof fn lemma_run_stands(start: TipTopView, events: Seq<RunEventView>)
    requires
        start.wf(),
        start.phase is Target,
        start.samples.len() == 0,
        start.prev is None,
        start.dt_prev is None,
        start.admits(events),
    ensures
        ({
            let s = start.run(events);
            &&& s.wf()
            &&& s.nodes == start.nodes && s.n_costs == start.n_costs && s.k == start.k
            &&& s.dt_max == start.dt_max && s.lam_max == start.lam_max
            &&& s.samples == collected(events)
            &&& s.phase is Verifying || s.phase is Done ==> chosen(s.nodes, events) == Some(s.seeds)
            &&& s.phase !is Done ==> s.prev == judged(s.nodes, events)
            &&& s.phase !is Done ==> match (s.dt_prev, last_finite(events)) {
                (Some(dt), Some(g)) => nearest_step(dt as int, g as int, s.dt_max as int),
                (None, None) => true,
                _ => false,
            }
        }),
    decreases events.len(),
{
    law_run_keeps_samples(start, events);
    if events.len() == 0 {
        assert(start.samples =~= collected(events));
    } else {
        lemma_run_stands(start, events.drop_last());
        if let RunEventView::Solution { values } = events.last() {
            assert(start.run(events).seeds =~= picked(start.nodes, values));
        }
    }
}

/// The samples of the loop are all the samples that were handed in, in order and as they were.
pub proof fn law_samples_are_all_collected(
    nodes: Seq<usize>,
    n_costs: Option<usize>,
    k: nat,
    dt_max: i64,
    lam_max: i64,
    events: Seq<RunEventView>,
)
    requires
        nodes.no_duplicates(),
        TipTopView::initial(nodes, n_costs, k, dt_max, lam_max).admits(events),
    ensures
        TipTopView::initial(nodes, n_costs, k, dt_max, lam_max).run(events).samples == collected(
            events,
        ),
{
    lemma_run_stands(TipTopView::initial(nodes, n_costs, k, dt_max, lam_max), events);
}

/// What the loop wants follows from what it was handed so far:
/// the target of the first moment at first;
/// after a target, the samples that are missing to it;
/// after samples, a solution of the program of all the samples, the node costs and the budget,
/// started from the seeds of the last verdict;
/// after a solution, a verification of its seeds with the coverage of all the samples;
/// after a verdict, nothing more but the seeds that it was on, if they passed or cover more than
/// is needed, and else the target of the moment that the growth gives.
pub proof fn law_history_decides(
    nodes: Seq<usize>,
    n_costs: Option<usize>,
    k: nat,
    dt_max: i64,
    lam_max: i64,
    events: Seq<RunEventView>,
    action: RunAction,
)
    requires
        nodes.no_duplicates(),
        TipTopView::initial(nodes, n_costs, k, dt_max, lam_max).admits(events),
        TipTopView::initial(nodes, n_costs, k, dt_max, lam_max).run(events).wants(action),
    ensures
        ({
            let samples = collected(events);
            let before = events.drop_last();
            &&& events.len() == 0 ==> action == (RunAction::ComputeTarget { t: 1 })
            &&& events.len() > 0 ==> match events.last() {
                RunEventView::Target { nt } => {
                    &&& samples.len() <= nt
                    &&& action == (RunAction::Draw { count: (nt - samples.len()) as usize })
                },
                RunEventView::Samples { .. } => {
                    &&& action matches RunAction::Solve { program } && (Instance {
                        nodes,
                        samples,
                        n_costs,
                        k,
                    }).encoded_by(program@) && crate::ilp::starts_from(
                        program@,
                        nodes,
                        judged(nodes, events),
                    )
                },
                RunEventView::Solution { values } => {
                    let seeds = picked(nodes, values);
                    &&& action matches RunAction::Verify { verifier, covered, n_samples }
                        && verifier@ == VerifierView::initial(
                        seeds,
                        6,
                        64 * samples.len() as int,
                    ) && covered == coverage(samples, seeds) && n_samples == samples.len()
                },
                RunEventView::Verdict { verdict, growth } => {
                    &&& chosen(nodes, events) is Some
                    &&& verdict.reason == Reason::Accepted || coverage(
                        samples,
                        chosen(nodes, events)->0,
                    ) > lam_max ==> (action matches RunAction::Return { seeds } && Some(seeds@)
                        == chosen(nodes, events))
                    &&& verdict.reason != Reason::Accepted && coverage(
                        samples,
                        chosen(nodes, events)->0,
                    ) <= lam_max ==> (action matches RunAction::ComputeTarget { t } && exists|dt: int|
                        #[trigger] steps_by(dt, growth, last_finite(before), dt_max as int) && moved(
                            TipTopView::initial(nodes, n_costs, k, dt_max, lam_max).run(before).t,
                            dt,
                            t,
                        ))
                },
            }
        }),
{
    let start = TipTopView::initial(nodes, n_costs, k, dt_max, lam_max);
    lemma_run_stands(start, events);
    if events.len() > 0 {
        let before = events.drop_last();
        lemma_run_stands(start, before);
        if let RunEventView::Verdict { verdict, growth } = events.last() {
            let (dt, _) = start.run(before).time_step(growth);
            if verdict.reason != Reason::Accepted && coverage(
                collected(events),
                chosen(nodes, events)->0,
            ) <= lam_max {
                assert(steps_by(dt as int, growth, last_finite(before), dt_max as int));
            }
        }
    }
}

/// The time that the loop asks for is its own, and only a refusal changes it.
pub proof fn law_time_is_asked_for(s: TipTopView, action: RunAction, event: RunEventView)
    requires
        s.wf(),
    ensures
        s.phase is Target && s.wants(action) ==> action == (RunAction::ComputeTarget { t: s.t }),
        s.expects(event) && event !is Verdict ==> s.after(event).t == s.t,
        s.expects(event) && s.after(event).phase is Done ==> s.after(event).t == s.t,
{
}

/// A refusal with a growth moves the time by exactly that growth where it is from one to `dt_max`,
/// by one where it is less, and by `dt_max` where it is more; and later refusals without a growth
/// repeat that step.
pub proof fn law_growth_is_the_step(
    s: TipTopView,
    verdict: Verdict,
    g: i64,
    later_verdict: Verdict,
    round: Seq<RunEventView>,
)
    requires
        s.wf(),
        s.expects(RunEventView::Verdict { verdict, growth: Some(g) }),
        verdict.reason != Reason::Accepted,
        coverage(s.samples, s.seeds) <= s.lam_max,
        s.dt_max >= 1,
        s.t + 2 * s.dt_max <= i64::MAX,
    ensures
        ({
            let first = s.after(RunEventView::Verdict { verdict, growth: Some(g) });
            let dt = if g < 1 {
                1
            } else if g > s.dt_max {
                s.dt_max as int
            } else {
                g as int
            };
            &&& first.phase is Target
            &&& first.t == s.t + dt
            &&& ({
                &&& first.admits(round)
                &&& forall|i: int| 0 <= i < round.len() ==> #[trigger] round[i] !is Verdict
                &&& first.run(round).expects(
                    RunEventView::Verdict { verdict: later_verdict, growth: None },
                )
                &&& later_verdict.reason != Reason::Accepted
                &&& coverage(first.run(round).samples, first.run(round).seeds) <= s.lam_max
            }) ==> first.run(round).after(
                RunEventView::Verdict { verdict: later_verdict, growth: None },
            ).t == first.t + dt
        }),
{
    let first = s.after(RunEventView::Verdict { verdict, growth: Some(g) });
    law_samples_are_kept(s, RunEventView::Verdict { verdict, growth: Some(g) });
    if first.admits(round) && (forall|i: int|
        0 <= i < round.len() ==> #[trigger] round[i] !is Verdict) {
        lemma_time_waits(first, round);
    }
}

/// Without a verdict, neither the time nor the step to fall back on changes.
proof fn lemma_time_waits(s: TipTopView, events: Seq<RunEventView>)
    requires
        s.wf(),
        s.admits(events),
        forall|i: int| 0 <= i < events.len() ==> #[trigger] events[i] !is Verdict,
    ensures
        s.run(events).wf(),
        s.run(events).t == s.t,
        s.run(events).dt_prev == s.dt_prev,
        s.run(events).dt_max == s.dt_max,
        s.run(events).lam_max == s.lam_max,
    decreases events.len(),
{
    if events.len() > 0 {
        let before = events.drop_last();
        assert(events[events.len() - 1] !is Verdict);
        assert forall|i: int| 0 <= i < before.len() implies #[trigger] before[i] !is Verdict by {
            assert(events[i] !is Verdict);
        }
        lemma_time_waits(s, before);
        law_samples_are_kept(s.run(before), events.last());
    }
}

/// Once the loop has ended, what it wants is to return exactly the seeds of the last solution,
/// whatever was refused before; and they are those that the last verdict was on.
pub proof fn law_last_seeds_are_returned(
    nodes: Seq<usize>,
    n_costs: Option<usize>,
    k: nat,
    dt_max: i64,
    lam_max: i64,
    events: Seq<RunEventView>,
    action: RunAction,
)
    requires
        nodes.no_duplicates(),
        TipTopView::initial(nodes, n_costs, k, dt_max, lam_max).admits(events),
        TipTopView::initial(nodes, n_costs, k, dt_max, lam_max).run(events).phase is Done,
        TipTopView::initial(nodes, n_costs, k, dt_max, lam_max).run(events).wants(action),
    ensures
        action matches RunAction::Return { seeds } && Some(seeds@) == chosen(nodes, events)
            && Some(seeds@) == judged(nodes, events),
        events.len() > 0 && events.last() is Verdict,
{
    let start = TipTopView::initial(nodes, n_costs, k, dt_max, lam_max);
    lemma_run_stands(start, events);
    lemma_run_stands(start, events.drop_last());
}

/// In an ended state the loop wants to return its own seeds and nothing else, and in no other
/// state does it want to return.
pub proof fn law_only_the_end_returns(s: TipTopView, action: RunAction)
    requires
        s.wants(action),
    ensures
        s.phase is Done ==> (action matches RunAction::Return { seeds } && seeds@ == s.seeds),
        action is Return ==> s.phase is Done,
{
}

/// The program that the loop wants solved is that of its own samples, node costs and budget: every
/// optimal assignment selects seeds whose cost by those costs is within the budget and that cover
/// at least as many samples as any seed set within the budget, and every such set is feasible.
pub proof fn law_wanted_program_is_right(
    s: TipTopView,
    action: RunAction,
    costs: Option<Seq<real>>,
)
    requires
        s.wf(),
        s.phase is Solving,
        s.wants(action),
        costs_given(s.n_costs, costs),
    ensures
        action is Solve,
        ({
            let problem = Instance {
                nodes: s.nodes,
                samples: s.samples,
                n_costs: s.n_costs,
                k: s.k,
            };
            &&& forall|a: Seq<bool>| #[trigger]
                optimal(action->program@, a, costs) ==> problem.affordable(
                    costs,
                    picked(s.nodes, reported(a)),
                )
            &&& forall|a: Seq<bool>, other: Set<usize>|
                #![trigger optimal(action->program@, a, costs), problem.affordable(costs, other)]
                optimal(action->program@, a, costs) && problem.affordable(costs, other)
                    ==> coverage(s.samples, other) <= coverage(
                    s.samples,
                    picked(s.nodes, reported(a)),
                )
            &&& forall|other: Set<usize>| #[trigger]
                problem.affordable(costs, other) ==> feasible(
                    action->program@,
                    problem.assignment(other),
                    costs,
                ) && picked(s.nodes, reported(problem.assignment(other))) == other
        }),
{
    let problem = Instance { nodes: s.nodes, samples: s.samples, n_costs: s.n_costs, k: s.k };
    let p = action->program@;
    assert forall|a: Seq<bool>| #[trigger] optimal(p, a, costs) implies problem.affordable(
        costs,
        picked(s.nodes, reported(a)),
    ) by {
        law_optimal_maximizes_coverage(problem, p, a, costs);
        assert(problem.seeds(a) =~= picked(s.nodes, reported(a)));
    }
    assert forall|a: Seq<bool>, other: Set<usize>|
        #![trigger optimal(p, a, costs), problem.affordable(costs, other)]
        optimal(p, a, costs) && problem.affordable(costs, other) implies coverage(s.samples, other)
        <= coverage(s.samples, picked(s.nodes, reported(a))) by {
        law_optimal_maximizes_coverage(problem, p, a, costs);
        assert(problem.seeds(a) =~= picked(s.nodes, reported(a)));
    }
    assert forall|other: Set<usize>| #[trigger] problem.affordable(costs, other) implies feasible(
        p,
        problem.assignment(other),
        costs,
    ) && picked(s.nodes, reported(problem.assignment(other))) == other by {
        law_seed_set_is_feasible(problem, p, other, costs);
        assert(problem.seeds(problem.assignment(other)) =~= picked(
            s.nodes,
            reported(problem.assignment(other)),
        ));
    }
}

impl TipTopView {
    /// Every solution in the sequence is what a solver reports of an optimal assignment of the
    /// program that the loop wanted solved.
    pub open spec fn answered(self, events: Seq<RunEventView>, costs: Option<Seq<real>>) -> bool
        decreases events.len(),
    {
        events.len() > 0 ==> {
            &&& self.answered(events.drop_last(), costs)
            &&& events.last() matches RunEventView::Solution { values } ==> exists|
                program: Program,
                a: Seq<bool>,
            |
                #![trigger optimal(program@, a, costs)]
                self.run(events.drop_last()).wants(RunAction::Solve { program }) && optimal(
                    program@,
                    a,
                    costs,
                ) && values == reported(a)
        }
    }
}

/// If every solution is optimal for the program that was wanted, the seeds that the loop returns
/// cost no more than the budget, and no seed set within the budget covers more of all the samples
/// that were handed in.
pub proof fn law_returned_seeds_are_best(
    nodes: Seq<usize>,
    n_costs: Option<usize>,
    k: nat,
    dt_max: i64,
    lam_max: i64,
    events: Seq<RunEventView>,
    costs: Option<Seq<real>>,
    action: RunAction,
)
    requires
        nodes.no_duplicates(),
        costs_given(n_costs, costs),
        TipTopView::initial(nodes, n_costs, k, dt_max, lam_max).admits(events),
        TipTopView::initial(nodes, n_costs, k, dt_max, lam_max).answered(events, costs),
        TipTopView::initial(nodes, n_costs, k, dt_max, lam_max).run(events).wants(action),
        action is Return,
    ensures
        ({
            let problem = Instance { nodes, samples: collected(events), n_costs, k };
            let seeds = action->Return_seeds@;
            &&& problem.affordable(costs, seeds)
            &&& forall|other: Set<usize>| #[trigger]
                problem.affordable(costs, other) ==> coverage(collected(events), other) <= coverage(
                    collected(events),
                    seeds,
                )
        }),
{
    let start = TipTopView::initial(nodes, n_costs, k, dt_max, lam_max);
    lemma_run_stands(start, events);
    lemma_answered_is_best(start, events, costs);
    assert(start.run(events).instance() == (Instance {
        nodes,
        samples: collected(events),
        n_costs,
        k,
    }));
}

proof fn lemma_answered_is_best(
    start: TipTopView,
    events: Seq<RunEventView>,
    costs: Option<Seq<real>>,
)
    requires
        start.wf(),
        start.phase is Target,
        costs_given(start.n_costs, costs),
        start.admits(events),
        start.answered(events, costs),
    ensures
        start.run(events).phase is Verifying || start.run(events).phase is Done ==> start.run(
            events,
        ).best(costs),
    decreases events.len(),
{
    if events.len() > 0 {
        let before = events.drop_last();
        let last = start.run(before);
        lemma_answered_is_best(start, before, costs);
        law_run_keeps_samples(start, before);
        if let RunEventView::Solution { values } = events.last() {
            let (program, a) = choose|program: Program, a: Seq<bool>|
                #![trigger optimal(program@, a, costs)]
                last.wants(RunAction::Solve { program }) && optimal(program@, a, costs) && values
                    == reported(a);
            assert(last.instance().encoded_by(program@) && optimal(program@, a, costs));
            assert(last.solves(events.last(), costs));
            law_optimal_solution_is_best(last, events.last(), costs);
        }
    }
}

/// An event is expected exactly when it answers what is wanted: a target of no fewer samples than
/// there are whose numbers fit the machine, as many samples as are wanted and of nodes of the graph
/// only, a value for every node's variable, and a verdict whose growth has a measured error.
pub proof fn law_expected_event_answers(s: TipTopView, action: RunAction, event: RunEventView)
    requires
        s.wf(),
        s.wants(action),
    ensures
        s.expects(event) <==> match (action, event) {
            (RunAction::ComputeTarget { .. }, RunEventView::Target { nt }) => {
                &&& s.samples.len() <= nt
                &&& 64 * nt + 10_000 <= usize::MAX
                &&& s.nodes.len() + nt <= usize::MAX
            },
            (RunAction::Draw { count }, RunEventView::Samples { samples }) => {
                &&& samples.len() == count
                &&& forall|j: int, v: usize|
                    0 <= j < samples.len() && #[trigger] samples[j].contains(v) ==> s.nodes.contains(
                        v,
                    )
            },
            (RunAction::Solve { .. }, RunEventView::Solution { values }) => values.len()
                >= s.nodes.len(),
            (RunAction::Verify { .. }, RunEventView::Verdict { verdict, growth }) => growth is None
                || verdict.eps1 is Some,
            _ => false,
        },
{
}

} // verus!
