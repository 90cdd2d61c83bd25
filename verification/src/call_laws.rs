//! What a caller learns from a call, in plain terms of the arguments and the result.

use crate::coverage::{cov, intersects, law_coverage_counts_positions, samples_view};
use crate::ilp::{
    ilp_mc, positions_in, read_solution, start_values, unit_terms, Coefficient, Instance, Program,
    Relation, Sense, Term, Value,
};
use crate::input::{check_lengths, InputError};
use crate::names::{law_decimal_reads_back, numbered, push_decimal, read_decimal};
use crate::nodes::{ascending, distinct, is_within, lists, node_set};
use crate::report::{json_array, seeds_json};
use crate::sampling::{rr_sample, Model, SampleRequest};
use crate::tiptop::{RunAction, RunEvent, RunEventView, TipTop, TipTopView};
use crate::verify::{
    Reason, Verdict, Verifier, VerifierView, VerifyAction, VerifyEvent, VerifyEventView,
};
use std::collections::BTreeSet;
use vstd::prelude::*;

verus! {

/// `cov` counts the positions whose sample has a node in common with the seeds.
pub proof fn law_cov_counts(rr_sets: &Vec<BTreeSet<usize>>, seeds: &BTreeSet<usize>, count: usize)
    requires
        call_ensures(cov, (rr_sets, seeds), count),
    ensures
        count == Set::new(
            |i: int|
                0 <= i < rr_sets@.len() && exists|v: usize|
                    rr_sets@[i]@.contains(v) && seeds@.contains(v),
        ).len(),
{
    let samples = samples_view(rr_sets@);
    law_coverage_counts_positions(samples, seeds@);
    assert(Set::new(
        |i: int|
            0 <= i < rr_sets@.len() && exists|v: usize|
                rr_sets@[i]@.contains(v) && seeds@.contains(v),
    ) =~= Set::new(
        |i: int|
            0 <= i < samples.len() && exists|v: usize| samples[i].contains(v) && seeds@.contains(v),
    ));
}

/// `intersects` says whether there is a common node.
pub proof fn law_intersects_finds(rr: &BTreeSet<usize>, seeds: &BTreeSet<usize>, b: bool)
    requires
        call_ensures(intersects, (rr, seeds), b),
    ensures
        b <==> exists|v: usize| rr@.contains(v) && seeds@.contains(v),
{
}

/// `ascending` gives the nodes of the set, each once and rising.
pub proof fn law_ascending_sorts(set: &BTreeSet<usize>, order: Vec<usize>)
    requires
        call_ensures(ascending, (set,), order),
    ensures
        order@.to_set() == set@,
        forall|i: int, j: int| 0 <= i < j < order@.len() ==> order@[i] < order@[j],
{
    assert(order@.to_set() =~= set@);
}

/// `node_set` has the nodes of the list.
pub proof fn law_node_set_collects(nodes: &Vec<usize>, set: BTreeSet<usize>, v: usize)
    requires
        call_ensures(node_set, (nodes,), set),
    ensures
        set@.contains(v) <==> exists|i: int| 0 <= i < nodes@.len() && #[trigger] nodes@[i] == v,
{
}

/// `distinct` says whether no two positions have the same node.
pub proof fn law_distinct_decides(nodes: &Vec<usize>, b: bool)
    requires
        call_ensures(distinct, (nodes,), b),
    ensures
        b <==> forall|i: int, j: int| 0 <= i < j < nodes@.len() ==> nodes@[i] != nodes@[j],
{
}

/// `is_within` says whether the set has no node that is not known.
pub proof fn law_is_within_decides(set: &BTreeSet<usize>, known: &BTreeSet<usize>, b: bool)
    requires
        call_ensures(is_within, (set, known), b),
    ensures
        b <==> forall|v: usize| set@.contains(v) ==> known@.contains(v),
{
}

/// `text` is `prefix` followed by the decimal digits of `n`, without leading zeros.
pub open spec fn is_numbered(text: Seq<char>, prefix: Seq<char>, n: int) -> bool {
    let digits = text.skip(prefix.len() as int);
    &&& text.len() > prefix.len()
    &&& text.take(prefix.len() as int) == prefix
    &&& forall|i: int| 0 <= i < digits.len() ==> '0' <= #[trigger] digits[i] <= '9'
    &&& read_decimal(digits) == n
    &&& digits[0] == '0' ==> digits.len() == 1
}

proof fn lemma_is_numbered(prefix: Seq<char>, n: nat)
    ensures
        is_numbered(prefix + crate::names::decimal(n), prefix, n as int),
{
    let text = prefix + crate::names::decimal(n);
    law_decimal_reads_back(n);
    assert(text.skip(prefix.len() as int) =~= crate::names::decimal(n));
    assert(text.take(prefix.len() as int) =~= prefix);
}

/// `numbered` puts the number behind the prefix.
pub proof fn law_numbered_names(prefix: &str, n: usize, name: String)
    requires
        call_ensures(numbered, (prefix, n), name),
    ensures
        is_numbered(name@, prefix@, n as int),
{
    lemma_is_numbered(prefix@, n as nat);
}

/// `push_decimal` puts the number behind what the text held.
pub proof fn law_push_decimal_appends(out: &mut String, n: usize)
    requires
        call_ensures(push_decimal, (out, n), ()),
    ensures
        is_numbered(final(out)@, old(out)@, n as int),
{
    lemma_is_numbered(old(out)@, n as nat);
}

/// `read_solution` gives exactly the nodes whose variable is reported as set.
pub proof fn law_read_solution_selects(
    nodes: &Vec<usize>,
    values: &Vec<Value>,
    seeds: BTreeSet<usize>,
    v: usize,
)
    requires
        call_ensures(read_solution, (nodes, values), seeds),
    ensures
        seeds@.contains(v) <==> exists|i: int|
            0 <= i < nodes@.len() && #[trigger] nodes@[i] == v && values@[i] == Value::Binary(true),
{
}

/// `start_values` says of each node whether it is in the set.
pub proof fn law_start_values_say(
    nodes: &Vec<usize>,
    prev: &BTreeSet<usize>,
    values: Vec<bool>,
    i: int,
)
    requires
        call_ensures(start_values, (nodes, prev), values),
    ensures
        values@.len() == nodes@.len(),
        0 <= i < nodes@.len() ==> values@[i] == prev@.contains(nodes@[i]),
{
}

/// The arguments of `ilp_mc` are a graph's distinct nodes, and sets of those nodes.
pub open spec fn is_problem(
    nodes: Seq<usize>,
    rr_sets: Seq<BTreeSet<usize>>,
    prev: Option<&BTreeSet<usize>>,
) -> bool {
    &&& forall|i: int, j: int| 0 <= i < j < nodes.len() ==> nodes[i] != nodes[j]
    &&& forall|j: int, v: usize|
        0 <= j < rr_sets.len() && #[trigger] rr_sets[j]@.contains(v) ==> nodes.contains(v)
    &&& prev matches Some(set) ==> forall|v: usize| #[trigger]
        set@.contains(v) ==> nodes.contains(v)
    &&& nodes.len() + rr_sets.len() <= usize::MAX
}

/// `ilp_mc` asks to minimize, over a variable per node that does not count, and a variable per
/// sample that counts one.
pub proof fn law_ilp_mc_variables(
    nodes: &Vec<usize>,
    rr_sets: &Vec<BTreeSet<usize>>,
    n_costs: Option<usize>,
    k: usize,
    prev: Option<&BTreeSet<usize>>,
    p: Program,
)
    requires
        is_problem(nodes@, rr_sets@, prev),
        call_ensures(ilp_mc, (nodes, rr_sets, n_costs, k, prev), p),
    ensures
        p.sense == Sense::Minimize,
        p.variables@.len() == nodes@.len() + rr_sets@.len(),
        forall|i: int|
            0 <= i < nodes@.len() ==> (#[trigger] p.variables@[i]).objective == 0 && is_numbered(
                p.variables@[i].name@,
                "s"@,
                nodes@[i] as int,
            ),
        forall|j: int|
            nodes@.len() <= j < p.variables@.len() ==> (#[trigger] p.variables@[j]).objective == 1
                && is_numbered(p.variables@[j].name@, "y"@, j - nodes@.len()),
{
    let instance = Instance {
        nodes: nodes@,
        samples: samples_view(rr_sets@),
        n_costs,
        k: k as nat,
    };
    assert(p@.variables.len() == p.variables@.len());
    assert forall|i: int| 0 <= i < nodes@.len() implies (#[trigger] p.variables@[i]).objective == 0
        && is_numbered(p.variables@[i].name@, "s"@, nodes@[i] as int) by {
        assert(p@.variables[i] == p.variables@[i]@);
        lemma_is_numbered("s"@, nodes@[i] as nat);
    }
    assert forall|j: int| nodes@.len() <= j < p.variables@.len() implies (
    #[trigger] p.variables@[j]).objective == 1 && is_numbered(
        p.variables@[j].name@,
        "y"@,
        j - nodes@.len(),
    ) by {
        assert(p@.variables[j] == p.variables@[j]@);
        lemma_is_numbered("y"@, (j - nodes@.len()) as nat);
    }
}

/// The budget of `ilp_mc`: the nodes that have a cost, each with its own, cost at most `k`; without
/// costs the nodes are counted.
pub proof fn law_ilp_mc_budget(
    nodes: &Vec<usize>,
    rr_sets: &Vec<BTreeSet<usize>>,
    n_costs: Option<usize>,
    k: usize,
    prev: Option<&BTreeSet<usize>>,
    p: Program,
)
    requires
        is_problem(nodes@, rr_sets@, prev),
        call_ensures(ilp_mc, (nodes, rr_sets, n_costs, k, prev), p),
    ensures
        p.constraints@.len() == 1 + rr_sets@.len(),
        p.constraints@[0].name@ == "cardinality"@,
        p.constraints@[0].relation == Relation::AtMost,
        p.constraints@[0].bound == k,
        n_costs is None ==> p.constraints@[0].terms@.len() == nodes@.len(),
        n_costs matches Some(c) && c >= nodes@.len() ==> p.constraints@[0].terms@.len()
            == nodes@.len(),
        n_costs matches Some(c) && c < nodes@.len() ==> p.constraints@[0].terms@.len()
            == n_costs->0,
        forall|i: usize|
            i < p.constraints@[0].terms@.len() ==> #[trigger] p.constraints@[0].terms@[i as int]
                == (Term {
                var: i,
                coefficient: if n_costs is None {
                    Coefficient::One
                } else {
                    Coefficient::Cost(i)
                },
            }),
{
    let instance = Instance {
        nodes: nodes@,
        samples: samples_view(rr_sets@),
        n_costs,
        k: k as nat,
    };
    assert(p@.constraints.len() == p.constraints@.len());
    assert(p@.constraints[0] == p.constraints@[0]@);
    assert(p@.constraints[0] == instance.cardinality());
    let terms = p.constraints@[0].terms@;
    assert(terms == instance.cardinality().terms);
}

/// The constraint of sample `j` of `ilp_mc`: the sum of the sample's own variable and of those of
/// its nodes, each once and rising by node, is at least one.
pub proof fn law_ilp_mc_covers(
    nodes: &Vec<usize>,
    rr_sets: &Vec<BTreeSet<usize>>,
    n_costs: Option<usize>,
    k: usize,
    prev: Option<&BTreeSet<usize>>,
    p: Program,
    j: int,
)
    requires
        is_problem(nodes@, rr_sets@, prev),
        call_ensures(ilp_mc, (nodes, rr_sets, n_costs, k, prev), p),
        0 <= j < rr_sets@.len(),
    ensures
        p.constraints@.len() == 1 + rr_sets@.len(),
        ({
            let c = p.constraints@[1 + j];
            let terms = c.terms@;
            &&& is_numbered(c.name@, "rr"@, j)
            &&& c.relation == Relation::AtLeast
            &&& c.bound == 1
            &&& terms.len() >= 1
            &&& terms[0].var == nodes@.len() + j
            &&& forall|i: int|
                0 <= i < terms.len() ==> (#[trigger] terms[i]).coefficient == Coefficient::One
            &&& forall|i: int|
                1 <= i < terms.len() ==> (#[trigger] terms[i]).var < nodes@.len()
                    && rr_sets@[j]@.contains(nodes@[terms[i].var as int])
            &&& forall|a: int, b: int|
                1 <= a < b < terms.len() ==> nodes@[(#[trigger] terms[a]).var as int] < nodes@[(
                #[trigger] terms[b]).var as int]
            &&& forall|v: usize| #[trigger]
                rr_sets@[j]@.contains(v) ==> exists|i: int|
                    1 <= i < terms.len() && nodes@[(#[trigger] terms[i]).var as int] == v
        }),
{
    let instance = Instance {
        nodes: nodes@,
        samples: samples_view(rr_sets@),
        n_costs,
        k: k as nat,
    };
    let rr = rr_sets@[j]@;
    assert(instance.samples[j] == rr);
    assert(p@.constraints.len() == p.constraints@.len());
    assert(p@.constraints[1 + j] == p.constraints@[1 + j]@);
    assert(instance.is_cover(p@.constraints[1 + j], j));
    let terms = p.constraints@[1 + j].terms@;
    let order = choose|order: Seq<usize>| #[trigger]
        lists(order, rr) && terms == instance.cover_terms(j, order);
    let vars = seq![(nodes@.len() + j) as usize] + positions_in(nodes@, order);
    assert(terms == unit_terms(vars));
    lemma_is_numbered("rr"@, j as nat);
    assert forall|i: int| 1 <= i < terms.len() implies (#[trigger] terms[i]).var < nodes@.len()
        && nodes@[terms[i].var as int] == order[i - 1] && rr.contains(order[i - 1]) by {
        assert(order.contains(order[i - 1]));
        assert(rr_sets@[j]@.contains(order[i - 1]));
        assert(nodes@.contains(order[i - 1]));
        assert(terms[i].var == vars[i]);
    }
    assert forall|v: usize| #[trigger] rr_sets@[j]@.contains(v) implies exists|i: int|
        1 <= i < terms.len() && nodes@[(#[trigger] terms[i]).var as int] == v by {
        let at = choose|at: int| 0 <= at < order.len() && order[at] == v;
        assert(nodes@[terms[at + 1].var as int] == v);
    }
}

/// The start of `ilp_mc`: none without a previous solution; else the variables of exactly the
/// previous nodes, rising by node, and for each node whether it was in the solution.
pub proof fn law_ilp_mc_start(
    nodes: &Vec<usize>,
    rr_sets: &Vec<BTreeSet<usize>>,
    n_costs: Option<usize>,
    k: usize,
    prev: Option<&BTreeSet<usize>>,
    p: Program,
)
    requires
        is_problem(nodes@, rr_sets@, prev),
        call_ensures(ilp_mc, (nodes, rr_sets, n_costs, k, prev), p),
    ensures
        p.start is Some <==> prev is Some,
        p.start_values is Some <==> prev is Some,
        prev matches Some(set) ==> {
            let start = p.start->0@;
            let values = p.start_values->0@;
            &&& forall|i: int|
                0 <= i < start.len() ==> (#[trigger] start[i]) < nodes@.len() && set@.contains(
                    nodes@[start[i] as int],
                )
            &&& forall|a: int, b: int|
                0 <= a < b < start.len() ==> nodes@[#[trigger] start[a] as int]
                    < nodes@[#[trigger] start[b] as int]
            &&& forall|v: usize| #[trigger]
                set@.contains(v) ==> exists|i: int|
                    0 <= i < start.len() && nodes@[#[trigger] start[i] as int] == v
            &&& values.len() == nodes@.len()
            &&& forall|i: int|
                0 <= i < nodes@.len() ==> #[trigger] values[i] == set@.contains(nodes@[i])
        },
{
    if let Some(set) = prev {
        let start = p.start->0@;
        assert(crate::ilp::locates(start, nodes@, set@));
        let order = choose|order: Seq<usize>| #[trigger]
            lists(order, set@) && start == positions_in(nodes@, order);
        assert forall|i: int| 0 <= i < start.len() implies (#[trigger] start[i]) < nodes@.len()
            && nodes@[start[i] as int] == order[i] && set@.contains(order[i]) by {
            assert(order.contains(order[i]));
            assert(set@.contains(order[i]));
            assert(nodes@.contains(order[i]));
        }
        assert forall|v: usize| #[trigger] set@.contains(v) implies exists|i: int|
            0 <= i < start.len() && nodes@[#[trigger] start[i] as int] == v by {
            let at = choose|at: int| 0 <= at < order.len() && order[at] == v;
            assert(nodes@[start[at] as int] == v);
        }
        assert(p@.start_values == crate::ilp::start_values_of(nodes@, Some(set@)));
    }
}

/// `check_lengths` accepts exactly lists with one entry per node, and blames the costs before the
/// benefits.
pub proof fn law_check_lengths_decides(
    n_costs: Option<usize>,
    n_benefits: Option<usize>,
    n_nodes: usize,
    checked: Result<(), InputError>,
)
    requires
        call_ensures(check_lengths, (n_costs, n_benefits, n_nodes), checked),
    ensures
        checked is Ok <==> (n_costs is None || n_costs == Some(n_nodes)) && (n_benefits is None
            || n_benefits == Some(n_nodes)),
        forall|found: usize, expected: usize|
            checked == Err::<(), InputError>(InputError::Costs { found, expected }) <==> n_costs
                == Some(found) && found != n_nodes && expected == n_nodes,
        forall|found: usize, expected: usize|
            checked == Err::<(), InputError>(InputError::Benefits { found, expected }) <==> (
            n_costs is None || n_costs == Some(n_nodes)) && n_benefits == Some(found) && found
                != n_nodes && expected == n_nodes,
{
}

/// `rr_sample` asks for the model and the root that it was given, and for a uniform root where it
/// was given none.
pub proof fn law_rr_sample_requests(model: Model, root: Option<usize>, request: SampleRequest)
    requires
        call_ensures(rr_sample, (model, root), request),
    ensures
        model == Model::IC && root is Some ==> request == (SampleRequest::IcFrom { root: root->0 }),
        model == Model::LT && root is Some ==> request == (SampleRequest::LtFrom { root: root->0 }),
        model == Model::IC && root is None ==> request == SampleRequest::IcUniform,
        model == Model::LT && root is None ==> request == SampleRequest::LtUniform,
{
}

/// The JSON text of a list grows by a comma and the digits of the next number.
pub proof fn law_json_grows(list: Seq<usize>, v: usize)
    ensures
        json_array(Seq::empty()) == seq!['[', ']'],
        list.len() == 0 ==> is_numbered(json_array(list.push(v)).drop_last(), seq!['['], v as int),
        list.len() > 0 ==> is_numbered(
            json_array(list.push(v)).drop_last(),
            json_array(list).drop_last().push(','),
            v as int,
        ),
        json_array(list).last() == ']',
{
    let longer = list.push(v);
    let head = json_array(list).drop_last().push(',');
    assert(longer.drop_last() =~= list);
    assert(json_array(Seq::empty()) =~= seq!['[', ']']);
    if list.len() == 0 {
        lemma_is_numbered(seq!['['], v as nat);
        assert(json_array(longer).drop_last() =~= seq!['['] + crate::names::decimal(v as nat));
    } else {
        lemma_is_numbered(head, v as nat);
        assert(json_array(longer).drop_last() =~= head + crate::names::decimal(v as nat));
    }
}

/// `seeds_json` writes the seeds, each once and rising.
pub proof fn law_seeds_json_writes(seeds: &BTreeSet<usize>, text: String)
    requires
        call_ensures(seeds_json, (seeds,), text),
    ensures
        exists|order: Seq<usize>|
            order.to_set() == seeds@ && (forall|i: int, j: int|
                0 <= i < j < order.len() ==> order[i] < order[j]) && text@ == #[trigger] json_array(
                order,
            ),
{
    let order = choose|order: Seq<usize>| #[trigger]
        lists(order, seeds@) && text@ == json_array(order);
    assert(order.to_set() =~= seeds@);
}

/// `passed` says whether the seeds were accepted.
pub proof fn law_passed_says_accepted(verdict: &Verdict, b: bool)
    requires
        call_ensures(Verdict::passed, (verdict,), b),
    ensures
        b <==> verdict.reason == Reason::Accepted,
        verdict.spec_passed() <==> verdict.reason == Reason::Accepted,
{
}

/// An event of a verification is seen as it was handed in.
pub proof fn law_verify_event_is_seen(event: VerifyEvent)
    ensures
        match (event, event@) {
            (VerifyEvent::Threshold { lam2 }, VerifyEventView::Threshold { lam2: seen }) => seen
                == lam2,
            (VerifyEvent::Batch { samples }, VerifyEventView::Batch { samples: seen }) => {
                &&& seen.len() == samples@.len()
                &&& forall|j: int| 0 <= j < seen.len() ==> #[trigger] seen[j] == samples@[j]@
            },
            (
                VerifyEvent::Assessment { too_large, accepted },
                VerifyEventView::Assessment { too_large: seen, accepted: also },
            ) => seen == too_large && also == accepted,
            _ => false,
        },
{
}

/// An event of the loop is seen as it was handed in.
pub proof fn law_run_event_is_seen(event: RunEvent)
    ensures
        match (event, event@) {
            (RunEvent::Target { nt }, RunEventView::Target { nt: seen }) => seen == nt,
            (RunEvent::Samples { samples }, RunEventView::Samples { samples: seen }) => {
                &&& seen.len() == samples@.len()
                &&& forall|j: int| 0 <= j < seen.len() ==> #[trigger] seen[j] == samples@[j]@
            },
            (RunEvent::Solution { values }, RunEventView::Solution { values: seen }) => seen
                == values@,
            (
                RunEvent::Verdict { verdict, growth },
                RunEventView::Verdict { verdict: seen, growth: also },
            ) => seen == verdict && also == growth,
            _ => false,
        },
{
}

/// A program is seen with the names, numbers and terms that it has.
pub proof fn law_program_is_seen(p: Program)
    ensures
        p@.sense == p.sense,
        p@.variables.len() == p.variables@.len(),
        forall|i: int|
            0 <= i < p.variables@.len() ==> (#[trigger] p@.variables[i]).name
                == p.variables@[i].name@ && p@.variables[i].objective == p.variables@[i].objective,
        p@.constraints.len() == p.constraints@.len(),
        forall|i: int|
            0 <= i < p.constraints@.len() ==> (#[trigger] p@.constraints[i]).name
                == p.constraints@[i].name@ && p@.constraints[i].terms == p.constraints@[i].terms@
                && p@.constraints[i].relation == p.constraints@[i].relation
                && p@.constraints[i].bound == p.constraints@[i].bound,
        p.start is None <==> p@.start is None,
        p.start matches Some(vars) ==> p@.start == Some(vars@),
        p.start_values is None <==> p@.start_values is None,
        p.start_values matches Some(values) ==> p@.start_values == Some(values@),
{
}

/// The calls of a [`Verifier`] go by its state: it starts before the first round with the seeds and
/// bounds that it was given, each step takes the event, and it tells what the state wants and
/// expects.
pub proof fn law_verifier_calls(
    seeds: BTreeSet<usize>,
    v_max: usize,
    tcap: usize,
    first: Verifier,
    v: &Verifier,
    action: VerifyAction,
    event: VerifyEvent,
    b: bool,
    stepped: &mut Verifier,
)
    ensures
        call_ensures(Verifier::new, (seeds, v_max, tcap), first) ==> first@
            == VerifierView::initial(seeds@, v_max as int, tcap as int) && first@.wf(),
        call_ensures(Verifier::action, (v,), action) ==> action == v@.action(),
        call_ensures(Verifier::accepts, (v, &event), b) ==> b == v@.expects(event@),
        call_ensures(Verifier::step, (stepped, event), ()) ==> final(stepped)@ == old(
            stepped,
        )@.after(event@) && final(stepped)@.wf(),
{
}

/// The calls of a [`TipTop`] go by its state: it starts at time one with the nodes, costs, budget
/// and bounds that it was given, each step takes the event, and it tells what the state wants and
/// expects.
pub proof fn law_tiptop_calls(
    nodes: Vec<usize>,
    n_costs: Option<usize>,
    k: usize,
    dt_max: i64,
    lam_max: i64,
    first: TipTop,
    run: &TipTop,
    action: RunAction,
    event: RunEvent,
    b: bool,
    stepped: &mut TipTop,
)
    ensures
        call_ensures(TipTop::new, (nodes, n_costs, k, dt_max, lam_max), first) ==> first@
            == TipTopView::initial(nodes@, n_costs, k as nat, dt_max, lam_max) && first@.wf(),
        call_ensures(TipTop::action, (run,), action) ==> run@.wants(action),
        call_ensures(TipTop::accepts, (run, &event), b) ==> b == run@.expects(event@),
        call_ensures(TipTop::step, (stepped, event), ()) ==> final(stepped)@ == old(
            stepped,
        )@.after(event@) && final(stepped)@.wf(),
{
}

/// These functions may be called on any arguments.
pub proof fn law_calls_without_conditions(
    nodes: &Vec<usize>,
    rr_sets: &Vec<BTreeSet<usize>>,
    one: &BTreeSet<usize>,
    other: &BTreeSet<usize>,
    prefix: &str,
    n_costs: Option<usize>,
    n_benefits: Option<usize>,
    n: usize,
    model: Model,
    verdict: &Verdict,
    v: &Verifier,
    event: &VerifyEvent,
)
    ensures
        call_requires(cov, (rr_sets, one)),
        call_requires(intersects, (one, other)),
        call_requires(ascending, (one,)),
        call_requires(node_set, (nodes,)),
        call_requires(distinct, (nodes,)),
        call_requires(is_within, (one, other)),
        call_requires(numbered, (prefix, n)),
        call_requires(start_values, (nodes, one)),
        call_requires(check_lengths, (n_costs, n_benefits, n)),
        call_requires(rr_sample, (model, n_costs)),
        call_requires(seeds_json, (one,)),
        call_requires(Verdict::passed, (verdict,)),
        call_requires(Verifier::accepts, (v, event)),
{
}

/// `ilp_mc` may be called on every problem, and `read_solution` on values for every node.
pub proof fn law_calls_on_problems(
    nodes: &Vec<usize>,
    rr_sets: &Vec<BTreeSet<usize>>,
    n_costs: Option<usize>,
    k: usize,
    prev: Option<&BTreeSet<usize>>,
    values: &Vec<Value>,
)
    ensures
        is_problem(nodes@, rr_sets@, prev) ==> call_requires(
            ilp_mc,
            (nodes, rr_sets, n_costs, k, prev),
        ),
        nodes@.len() <= values@.len() ==> call_requires(read_solution, (nodes, values)),
{
    if is_problem(nodes@, rr_sets@, prev) {
        let samples = samples_view(rr_sets@);
        assert forall|j: int| 0 <= j < samples.len() implies crate::nodes::within(
            #[trigger] samples[j],
            nodes@,
        ) by {
            assert(samples[j] == rr_sets@[j]@);
        }
        assert(nodes@.no_duplicates());
    }
}

/// A [`Verifier`] may be started with at least one round bound and a cap that leaves room for a
/// batch, a [`TipTop`] on distinct nodes, and both may be stepped with what they expect.
pub proof fn law_calls_of_machines(
    seeds: BTreeSet<usize>,
    v_max: usize,
    tcap: usize,
    v: &Verifier,
    check: VerifyEvent,
    checked: &mut Verifier,
    nodes: Vec<usize>,
    n_costs: Option<usize>,
    k: usize,
    dt_max: i64,
    lam_max: i64,
    run: &TipTop,
    event: RunEvent,
    stepped: &mut TipTop,
)
    ensures
        v_max >= 1 && tcap + 10_000 <= usize::MAX ==> call_requires(
            Verifier::new,
            (seeds, v_max, tcap),
        ),
        v@.wf() ==> call_requires(Verifier::action, (v,)),
        old(checked)@.wf() && old(checked)@.expects(check@) ==> call_requires(
            Verifier::step,
            (checked, check),
        ),
        nodes@.no_duplicates() ==> call_requires(
            TipTop::new,
            (nodes, n_costs, k, dt_max, lam_max),
        ),
        run@.wf() ==> call_requires(TipTop::action, (run,)),
        run@.wf() ==> call_requires(TipTop::accepts, (run, &event)),
        old(stepped)@.wf() && old(stepped)@.expects(event@) ==> call_requires(
            TipTop::step,
            (stepped, event),
        ),
{
}

} // verus!
