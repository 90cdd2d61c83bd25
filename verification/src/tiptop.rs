//! The TipTop loop: sample, solve, verify, and sample more until the seeds pass.
//!
//! The loop keeps all samples drawn so far. In each round it asks for the number of samples to
//! reach, for the missing samples, for a solution of the coverage program, and for the verdict on
//! the solution's seeds. Each request is an action, and each answer an event.

use crate::coverage::{cov, coverage, samples_view};
use crate::ilp::{
    ilp_mc, option_view, read_solution, selected, starts_from, Instance, Program, Value,
};
use crate::nodes::{is_within, node_set, within};
use crate::verify::{Verdict, Verifier, VerifierView, STEP};
use std::collections::BTreeSet;
use vstd::prelude::*;

verus! {

/// One more than the number of rounds in a verification.
pub const V_MAX: usize = 6;

/// How many samples a verification may draw per sample of the loop: two to the power of
/// [`V_MAX`].
pub const CAP_FACTOR: usize = 64;

/// Why the loop ended.
#[derive(Clone, Copy, Debug, PartialEq, Eq, Structural)]
pub enum EndReason {
    /// The seeds passed the verification.
    Passed,
    /// The seeds cover more samples than are ever needed.
    CoverageExceeded,
}

/// Where the loop stands; `nt` is the number of samples to reach.
#[derive(Clone, Copy, Debug, PartialEq, Eq, Structural)]
pub enum RunPhase {
    Target,
    Sampling { nt: usize },
    Solving { nt: usize },
    Verifying { nt: usize },
    Done { reason: EndReason },
}

/// What the loop wants next.
#[derive(Debug)]
pub enum RunAction {
    /// The number of samples to have at time `t`.
    ComputeTarget { t: i64 },
    /// So many fresh samples.
    Draw { count: usize },
    /// A solution of the program.
    Solve { program: Program },
    /// A verification of the seeds, which cover `covered` of `n_samples` samples.
    Verify { verifier: Verifier, covered: usize, n_samples: usize },
    /// Nothing more: these are the seeds.
    Return { seeds: BTreeSet<usize> },
}

/// An answer to an action.
#[derive(Debug)]
pub enum RunEvent {
    /// The number of samples to have.
    Target { nt: usize },
    /// The samples that were missing.
    Samples { samples: Vec<BTreeSet<usize>> },
    /// What the solver reports of the variables.
    Solution { values: Vec<Value> },
    /// The verdict, with the growth of the time that its measured error suggests, and none where
    /// that error is not finite or none was measured.
    Verdict { verdict: Verdict, growth: Option<i64> },
}

/// The model of a [`RunEvent`].
pub enum RunEventView {
    Target { nt: usize },
    Samples { samples: Seq<Set<usize>> },
    Solution { values: Seq<Value> },
    Verdict { verdict: Verdict, growth: Option<i64> },
}

impl View for RunEvent {
    type V = RunEventView;

    open spec fn view(&self) -> RunEventView {
        match self {
            RunEvent::Target { nt } => RunEventView::Target { nt: *nt },
            RunEvent::Samples { samples } => RunEventView::Samples {
                samples: samples_view(samples@),
            },
            RunEvent::Solution { values } => RunEventView::Solution { values: values@ },
            RunEvent::Verdict { verdict, growth } => RunEventView::Verdict {
                verdict: *verdict,
                growth: *growth,
            },
        }
    }
}

/// A run of the loop.
///
/// `nodes` are the nodes of the graph, `n_costs` is the number of node costs where costs are
/// given, `k` is the budget, `dt_max` bounds how far the time moves in a round, and seeds that
/// cover more than `lam_max` samples are taken without passing.
#[derive(Debug)]
pub struct TipTop {
    nodes: Vec<usize>,
    n_costs: Option<usize>,
    k: usize,
    dt_max: i64,
    lam_max: i64,
    t: i64,
    dt_prev: Option<i64>,
    prev: Option<BTreeSet<usize>>,
    rr_sets: Vec<BTreeSet<usize>>,
    seeds: BTreeSet<usize>,
    phase: RunPhase,
}

/// The model of a [`TipTop`].
pub struct TipTopView {
    pub nodes: Seq<usize>,
    pub n_costs: Option<usize>,
    pub k: nat,
    pub dt_max: i64,
    pub lam_max: i64,
    pub t: i64,
    pub dt_prev: Option<i64>,
    pub prev: Option<Set<usize>>,
    pub samples: Seq<Set<usize>>,
    pub seeds: Set<usize>,
    pub phase: RunPhase,
}

impl View for TipTop {
    type V = TipTopView;

    closed spec fn view(&self) -> TipTopView {
        TipTopView {
            nodes: self.nodes@,
            n_costs: self.n_costs,
            k: self.k as nat,
            dt_max: self.dt_max,
            lam_max: self.lam_max,
            t: self.t,
            dt_prev: self.dt_prev,
            prev: match self.prev {
                Some(set) => Some(set@),
                None => None,
            },
            samples: samples_view(self.rr_sets@),
            seeds: self.seeds@,
            phase: self.phase,
        }
    }
}

/// The sum of two times, or the nearest time that there is.
pub open spec fn later(t: i64, dt: i64) -> i64 {
    if t + dt > i64::MAX {
        i64::MAX
    } else if t + dt < i64::MIN {
        i64::MIN
    } else {
        (t + dt) as i64
    }
}

/// The step of the time that a growth suggests: at least one, and at most `dt_max`.
pub open spec fn clamped(growth: i64, dt_max: i64) -> i64 {
    let at_least_one = if growth > 1 {
        growth
    } else {
        1i64
    };
    if at_least_one < dt_max {
        at_least_one
    } else {
        dt_max
    }
}

impl TipTopView {
    /// The loop before the first round.
    pub open spec fn initial(
        nodes: Seq<usize>,
        n_costs: Option<usize>,
        k: nat,
        dt_max: i64,
        lam_max: i64,
    ) -> TipTopView {
        TipTopView {
            nodes,
            n_costs,
            k,
            dt_max,
            lam_max,
            t: 1,
            dt_prev: None,
            prev: None,
            samples: Seq::empty(),
            seeds: Set::empty(),
            phase: RunPhase::Target,
        }
    }

    /// The coverage problem of the samples drawn so far.
    pub open spec fn instance(self) -> Instance {
        Instance { nodes: self.nodes, samples: self.samples, n_costs: self.n_costs, k: self.k }
    }

    /// The numbers that a round computes from its target fit the machine.
    pub open spec fn fits(self, nt: usize) -> bool {
        &&& CAP_FACTOR * nt + STEP <= usize::MAX
        &&& self.nodes.len() + nt <= usize::MAX
    }

    /// The samples and the seeds hold nodes of the graph only, the step to fall back on is within
    /// bounds, and there are as many samples as the phase says.
    pub open spec fn wf(self) -> bool {
        &&& self.instance().valid()
        &&& within(self.seeds, self.nodes)
        &&& self.prev matches Some(set) ==> within(set, self.nodes)
        &&& self.dt_prev matches Some(dt) ==> dt <= self.dt_max && (self.dt_max >= 1 ==> dt >= 1)
        &&& match self.phase {
            RunPhase::Target => true,
            RunPhase::Sampling { nt } => self.samples.len() <= nt && self.fits(nt),
            RunPhase::Solving { nt } | RunPhase::Verifying { nt } => self.samples.len() == nt
                && self.fits(nt),
            RunPhase::Done { .. } => true,
        }
    }

    /// The event answers the action that the loop wants.
    pub open spec fn expects(self, event: RunEventView) -> bool {
        match (self.phase, event) {
            (RunPhase::Target, RunEventView::Target { nt }) => self.samples.len() <= nt
                && self.fits(nt),
            (RunPhase::Sampling { nt }, RunEventView::Samples { samples }) => {
                &&& self.samples.len() + samples.len() == nt
                &&& forall|j: int|
                    0 <= j < samples.len() ==> within(#[trigger] samples[j], self.nodes)
            },
            (RunPhase::Solving { .. }, RunEventView::Solution { values }) => self.nodes.len()
                <= values.len(),
            (RunPhase::Verifying { .. }, RunEventView::Verdict { verdict, growth }) => growth is Some
                ==> verdict.eps1 is Some,
            _ => false,
        }
    }

    /// The step of the time after a verdict, and the step to fall back on later: the step that
    /// the growth suggests; without a growth, the last step that a growth suggested; and without
    /// that, the largest.
    pub open spec fn time_step(self, growth: Option<i64>) -> (i64, Option<i64>) {
        match (growth, self.dt_prev) {
            (Some(g), _) => (clamped(g, self.dt_max), Some(clamped(g, self.dt_max))),
            (None, Some(dt)) => (dt, Some(dt)),
            (None, None) => (self.dt_max, None),
        }
    }

    /// The loop after an event that it expects.
    pub open spec fn after(self, event: RunEventView) -> TipTopView {
        match event {
            RunEventView::Target { nt } => TipTopView { phase: RunPhase::Sampling { nt }, ..self },
            RunEventView::Samples { samples } => TipTopView {
                samples: self.samples + samples,
                phase: RunPhase::Solving { nt: self.phase->Sampling_nt },
                ..self
            },
            RunEventView::Solution { values } => TipTopView {
                seeds: selected(self.nodes, values),
                phase: RunPhase::Verifying { nt: self.phase->Solving_nt },
                ..self
            },
            RunEventView::Verdict { verdict, growth } => {
                if verdict.spec_passed() {
                    TipTopView { phase: RunPhase::Done { reason: EndReason::Passed }, ..self }
                } else if coverage(self.samples, self.seeds) > self.lam_max {
                    TipTopView {
                        phase: RunPhase::Done { reason: EndReason::CoverageExceeded },
                        ..self
                    }
                } else {
                    let (dt, dt_prev) = self.time_step(growth);
                    TipTopView {
                        t: later(self.t, dt),
                        dt_prev,
                        prev: Some(self.seeds),
                        phase: RunPhase::Target,
                        ..self
                    }
                }
            },
        }
    }

    /// The verification of the current seeds, before it starts.
    pub open spec fn verification(self) -> VerifierView {
        VerifierView::initial(self.seeds, V_MAX as int, CAP_FACTOR * self.phase->Verifying_nt)
    }

    /// The action is what the loop wants.
    pub open spec fn wants(self, action: RunAction) -> bool {
        match (self.phase, action) {
            (RunPhase::Target, RunAction::ComputeTarget { t }) => t == self.t,
            (RunPhase::Sampling { nt }, RunAction::Draw { count }) => count == nt
                - self.samples.len(),
            (RunPhase::Solving { .. }, RunAction::Solve { program }) => {
                &&& self.instance().encoded_by(program@)
                &&& starts_from(program@, self.nodes, self.prev)
            },
            (RunPhase::Verifying { .. }, RunAction::Verify { verifier, covered, n_samples }) => {
                &&& verifier@ == self.verification()
                &&& verifier@.wf()
                &&& covered == coverage(self.samples, self.seeds)
                &&& n_samples == self.samples.len()
            },
            (RunPhase::Done { .. }, RunAction::Return { seeds }) => seeds@ == self.seeds,
            _ => false,
        }
    }
}

/// The sum of two times, or the nearest time that there is.
fn move_time(t: i64, dt: i64) -> (sum: i64)
    ensures
        sum == later(t, dt),
{
    match t.checked_add(dt) {
        Some(sum) => sum,
        None => if dt > 0 {
            i64::MAX
        } else {
            i64::MIN
        },
    }
}

/// The step of the time that a growth suggests: at least one, and at most `dt_max`.
fn clamp(growth: i64, dt_max: i64) -> (dt: i64)
    ensures
        dt == clamped(growth, dt_max),
{
    let at_least_one: i64 = if growth > 1 {
        growth
    } else {
        1
    };
    if at_least_one < dt_max {
        at_least_one
    } else {
        dt_max
    }
}

/// Whether more than `lam_max` samples are covered.
fn exceeds(covered: usize, lam_max: i64) -> (b: bool)
    ensures
        b == (covered > lam_max),
{
    lam_max < 0 || covered as u64 > lam_max as u64
}

impl TipTop {
    /// Starts the loop at time one with no samples.
    pub fn new(
        nodes: Vec<usize>,
        n_costs: Option<usize>,
        k: usize,
        dt_max: i64,
        lam_max: i64,
    ) -> (run: TipTop)
        requires
            nodes@.no_duplicates(),
        ensures
            run@ == TipTopView::initial(nodes@, n_costs, k as nat, dt_max, lam_max),
            run@.wf(),
    {
        let run = TipTop {
            nodes,
            n_costs,
            k,
            dt_max,
            lam_max,
            t: 1,
            dt_prev: None,
            prev: None,
            rr_sets: Vec::new(),
            seeds: BTreeSet::new(),
            phase: RunPhase::Target,
        };
        assert(run@.samples =~= Seq::empty());
        run
    }

    /// What the loop wants next.
    pub fn action(&self) -> (action: RunAction)
        requires
            self@.wf(),
        ensures
            self@.wants(action),
    {
        match self.phase {
            RunPhase::Target => RunAction::ComputeTarget { t: self.t },
            RunPhase::Sampling { nt } => RunAction::Draw { count: nt - self.rr_sets.len() },
            RunPhase::Solving { .. } => {
                let program = ilp_mc(
                    &self.nodes,
                    &self.rr_sets,
                    self.n_costs,
                    self.k,
                    self.prev.as_ref(),
                );
                RunAction::Solve { program }
            },
            RunPhase::Verifying { nt } => RunAction::Verify {
                verifier: Verifier::new(self.seeds.clone(), V_MAX, CAP_FACTOR * nt),
                covered: cov(&self.rr_sets, &self.seeds),
                n_samples: self.rr_sets.len(),
            },
            RunPhase::Done { .. } => RunAction::Return { seeds: self.seeds.clone() },
        }
    }

    /// Whether the event answers the action that the loop wants.
    pub fn accepts(&self, event: &RunEvent) -> (b: bool)
        requires
            self@.wf(),
        ensures
            b == self@.expects(event@),
    {
        match (self.phase, event) {
            (RunPhase::Target, RunEvent::Target { nt }) => {
                self.rr_sets.len() <= *nt && *nt <= (usize::MAX - STEP) / CAP_FACTOR && *nt
                    <= usize::MAX - self.nodes.len()
            },
            (RunPhase::Sampling { nt }, RunEvent::Samples { samples }) => {
                samples.len() == nt - self.rr_sets.len() && self.knows_all(samples)
            },
            (RunPhase::Solving { .. }, RunEvent::Solution { values }) => {
                self.nodes.len() <= values.len()
            },
            (RunPhase::Verifying { .. }, RunEvent::Verdict { verdict, growth }) => {
                growth.is_none() || verdict.eps1.is_some()
            },
            _ => false,
        }
    }

    /// Whether the samples hold nodes of the graph only.
    fn knows_all(&self, samples: &Vec<BTreeSet<usize>>) -> (b: bool)
        ensures
            b == forall|j: int|
                0 <= j < samples@.len() ==> within(
                    #[trigger] samples_view(samples@)[j],
                    self@.nodes,
                ),
    {
        let known = node_set(&self.nodes);
        for i in 0..samples.len()
            invariant
                known@ == self@.nodes.to_set(),
                forall|j: int|
                    0 <= j < i ==> within(#[trigger] samples_view(samples@)[j], self@.nodes),
        {
            assert(samples_view(samples@)[i as int] == samples@[i as int]@);
            assert(within(samples@[i as int]@, self@.nodes) <==> samples@[i as int]@.subset_of(
                known@,
            ));
            if !is_within(&samples[i], &known) {
                return false;
            }
        }
        true
    }

    /// Takes the answer to the action that the loop wants.
    pub fn step(&mut self, event: RunEvent)
        requires
            old(self)@.wf(),
            old(self)@.expects(event@),
        ensures
            final(self)@ == old(self)@.after(event@),
            final(self)@.wf(),
    {
        match event {
            RunEvent::Target { nt } => {
                self.phase = RunPhase::Sampling { nt };
            },
            RunEvent::Samples { samples } => {
                self.step_samples(samples);
            },
            RunEvent::Solution { values } => {
                self.step_solution(&values);
            },
            RunEvent::Verdict { verdict, growth } => {
                self.step_verdict(verdict, growth);
            },
        }
    }

    /// Adds the samples to those drawn before.
    fn step_samples(&mut self, samples: Vec<BTreeSet<usize>>)
        requires
            old(self)@.wf(),
            old(self)@.expects(RunEventView::Samples { samples: samples_view(samples@) }),
        ensures
            final(self)@ == old(self)@.after(
                RunEventView::Samples { samples: samples_view(samples@) },
            ),
            final(self)@.wf(),
    {
        let mut samples = samples;
        let ghost more = samples_view(samples@);
        self.rr_sets.append(&mut samples);
        if let RunPhase::Sampling { nt } = self.phase {
            self.phase = RunPhase::Solving { nt };
        }
        proof {
            let before = old(self)@;
            assert(self@.samples =~= before.samples + more);
            assert forall|j: int| 0 <= j < self@.samples.len() implies within(
                #[trigger] self@.samples[j],
                self@.nodes,
            ) by {
                if j < before.samples.len() {
                    assert(self@.samples[j] == before.samples[j]);
                    assert(before.instance().samples[j] == before.samples[j]);
                } else {
                    assert(self@.samples[j] == more[j - before.samples.len()]);
                }
            }
        }
    }

    /// Takes the seeds from the solution.
    fn step_solution(&mut self, values: &Vec<Value>)
        requires
            old(self)@.wf(),
            old(self)@.expects(RunEventView::Solution { values: values@ }),
        ensures
            final(self)@ == old(self)@.after(RunEventView::Solution { values: values@ }),
            final(self)@.wf(),
    {
        self.seeds = read_solution(&self.nodes, values);
        if let RunPhase::Solving { nt } = self.phase {
            self.phase = RunPhase::Verifying { nt };
        }
        proof {
            crate::ilp::lemma_selected_within(self@.nodes, values@);
        }
    }

    /// Ends where the seeds passed or cover enough, and otherwise moves the time on.
    fn step_verdict(&mut self, verdict: Verdict, growth: Option<i64>)
        requires
            old(self)@.wf(),
            old(self)@.expects(RunEventView::Verdict { verdict, growth }),
        ensures
            final(self)@ == old(self)@.after(RunEventView::Verdict { verdict, growth }),
            final(self)@.wf(),
    {
        if verdict.passed() {
            self.phase = RunPhase::Done { reason: EndReason::Passed };
        } else if exceeds(cov(&self.rr_sets, &self.seeds), self.lam_max) {
            self.phase = RunPhase::Done { reason: EndReason::CoverageExceeded };
        } else {
            self.prev = Some(self.seeds.clone());
            let dt = match growth {
                Some(g) => {
                    let dt = clamp(g, self.dt_max);
                    self.dt_prev = Some(dt);
                    dt
                },
                None => match self.dt_prev {
                    Some(dt) => dt,
                    None => self.dt_max,
                },
            };
            self.t = move_time(self.t, dt);
            self.phase = RunPhase::Target;
        }
    }
}

} // verus!
