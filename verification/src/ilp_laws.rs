//! What the integer program means, and that solving it is maximizing coverage.

use crate::coverage::{
    coverage, law_coverage_bounded, law_coverage_of_batches, lemma_coverage_push, meets,
};
use crate::ilp::{
    positions_in, price, selected, unit_terms, Coefficient, ConstraintView, Instance,
    ProgramView, Relation, Sense, Term, Value, VariableView,
};
use crate::names::{decimal, law_decimal_injective};
use crate::nodes::lists;
use vstd::prelude::*;

verus! {

/// The node costs go with the number of costs that the program was built for.
pub open spec fn costs_given(n_costs: Option<usize>, costs: Option<Seq<real>>) -> bool {
    match (n_costs, costs) {
        (Some(n), Some(c)) => c.len() == n,
        (None, None) => true,
        _ => false,
    }
}

/// The number that a coefficient stands for.
pub open spec fn coefficient_value(c: Coefficient, costs: Option<Seq<real>>) -> real {
    match c {
        Coefficient::One => 1 as real,
        Coefficient::Cost(i) => costs->0[i as int],
    }
}

/// The sum of the terms under an assignment of the binary variables.
pub open spec fn sum_of(terms: Seq<Term>, a: Seq<bool>, costs: Option<Seq<real>>) -> real
    decreases terms.len(),
{
    if terms.len() == 0 {
        0 as real
    } else {
        sum_of(terms.drop_last(), a, costs) + if a[terms.last().var as int] {
            coefficient_value(terms.last().coefficient, costs)
        } else {
            0 as real
        }
    }
}

/// The constraint is satisfied by the assignment.
pub open spec fn holds(c: ConstraintView, a: Seq<bool>, costs: Option<Seq<real>>) -> bool {
    match c.relation {
        Relation::AtMost => sum_of(c.terms, a, costs) <= c.bound as real,
        Relation::AtLeast => sum_of(c.terms, a, costs) >= c.bound as real,
    }
}

/// The assignment gives every variable a value and satisfies every constraint.
pub open spec fn feasible(p: ProgramView, a: Seq<bool>, costs: Option<Seq<real>>) -> bool {
    &&& a.len() == p.variables.len()
    &&& forall|j: int| 0 <= j < p.constraints.len() ==> holds(#[trigger] p.constraints[j], a, costs)
}

/// The value of the objective.
pub open spec fn objective(variables: Seq<VariableView>, a: Seq<bool>) -> nat
    decreases variables.len(),
{
    if variables.len() == 0 {
        0
    } else {
        objective(variables.drop_last(), a) + if a[variables.len() - 1] {
            variables.last().objective
        } else {
            0
        }
    }
}

/// The assignment is feasible, and no feasible one has a better objective.
pub open spec fn optimal(p: ProgramView, a: Seq<bool>, costs: Option<Seq<real>>) -> bool {
    &&& feasible(p, a, costs)
    &&& forall|b: Seq<bool>| #[trigger]
        feasible(p, b, costs) ==> match p.sense {
            Sense::Minimize => objective(p.variables, a) <= objective(p.variables, b),
            Sense::Maximize => objective(p.variables, a) >= objective(p.variables, b),
        }
}

/// What a solver reports of an assignment.
pub open spec fn reported(a: Seq<bool>) -> Seq<Value> {
    a.map_values(|b: bool| Value::Binary(b))
}

/// The cost of the node at position `i`: one where no costs are given.
pub open spec fn node_cost(costs: Option<Seq<real>>, i: int) -> real {
    match costs {
        Some(c) => c[i],
        None => 1 as real,
    }
}

/// The cost of the seeds among the first `count` nodes.
pub open spec fn cost_of(
    nodes: Seq<usize>,
    costs: Option<Seq<real>>,
    seeds: Set<usize>,
    count: nat,
) -> real
    decreases count,
{
    if count == 0 {
        0 as real
    } else {
        cost_of(nodes, costs, seeds, (count - 1) as nat) + if seeds.contains(nodes[count - 1]) {
            node_cost(costs, count - 1)
        } else {
            0 as real
        }
    }
}

impl Instance {
    /// The seeds that an assignment selects.
    pub open spec fn seeds(self, a: Seq<bool>) -> Set<usize> {
        selected(self.nodes, reported(a))
    }

    /// The cost of a seed set: that of its nodes among those that have a cost.
    pub open spec fn cost(self, costs: Option<Seq<real>>, seeds: Set<usize>) -> real {
        match costs {
            Some(c) if c.len() < self.nodes.len() => cost_of(self.nodes, costs, seeds, c.len()),
            _ => cost_of(self.nodes, costs, seeds, self.nodes.len()),
        }
    }

    /// A seed set that the budget allows.
    pub open spec fn affordable(self, costs: Option<Seq<real>>, seeds: Set<usize>) -> bool {
        &&& crate::nodes::within(seeds, self.nodes)
        &&& self.cost(costs, seeds) <= self.k as real
    }

    /// The assignment of a seed set: its nodes are set, and so are the samples that it misses.
    pub open spec fn assignment(self, seeds: Set<usize>) -> Seq<bool> {
        Seq::new(
            self.nodes.len() + self.samples.len(),
            |i: int|
                if i < self.nodes.len() {
                    seeds.contains(self.nodes[i])
                } else {
                    !meets(self.samples[i - self.nodes.len()], seeds)
                },
        )
    }
}

/// A node is selected when its variable is set.
proof fn lemma_seeds_contain(instance: Instance, a: Seq<bool>, i: int)
    requires
        instance.valid(),
        0 <= i < instance.nodes.len() <= a.len(),
    ensures
        instance.seeds(a).contains(instance.nodes[i]) <==> a[i],
{
    if instance.seeds(a).contains(instance.nodes[i]) {
        let j = choose|j: int|
            0 <= j < instance.nodes.len() && #[trigger] instance.nodes[j] == instance.nodes[i]
                && reported(a)[j] == Value::Binary(true);
        assert(j == i);
    }
    if a[i] {
        assert(reported(a)[i] == Value::Binary(true));
    }
}

/// The sum of the budget's terms is the cost of the selected seeds.
proof fn lemma_budget_sum(instance: Instance, a: Seq<bool>, costs: Option<Seq<real>>, count: nat)
    requires
        instance.valid(),
        costs_given(instance.n_costs, costs),
        count <= instance.n_priced(),
        instance.nodes.len() <= a.len(),
        instance.nodes.len() <= usize::MAX,
    ensures
        sum_of(instance.cardinality().terms.take(count as int), a, costs) == cost_of(
            instance.nodes,
            costs,
            instance.seeds(a),
            count,
        ),
    decreases count,
{
    if count > 0 {
        let terms = instance.cardinality().terms.take(count as int);
        let i = count - 1;
        lemma_budget_sum(instance, a, costs, i as nat);
        lemma_seeds_contain(instance, a, i);
        assert(terms.drop_last() =~= instance.cardinality().terms.take(i));
        assert(terms.last() == Term {
            var: i as usize,
            coefficient: price(instance.n_costs, i as usize),
        });
    }
}

/// A sum of variables is at least one exactly when one of them is set.
proof fn lemma_unit_sum(vars: Seq<usize>, a: Seq<bool>, costs: Option<Seq<real>>)
    ensures
        sum_of(unit_terms(vars), a, costs) >= 0 as real,
        sum_of(unit_terms(vars), a, costs) >= 1 as real <==> exists|i: int|
            0 <= i < vars.len() && a[#[trigger] vars[i] as int],
    decreases vars.len(),
{
    if vars.len() > 0 {
        let rest = vars.drop_last();
        lemma_unit_sum(rest, a, costs);
        assert(unit_terms(vars).drop_last() =~= unit_terms(rest));
        assert(sum_of(unit_terms(rest), a, costs) >= 1 as real ==> exists|i: int|
            0 <= i < vars.len() && a[#[trigger] vars[i] as int]) by {
            if sum_of(unit_terms(rest), a, costs) >= 1 as real {
                let i = choose|i: int| 0 <= i < rest.len() && a[#[trigger] rest[i] as int];
                assert(vars[i] == rest[i]);
            }
        }
        if exists|i: int| 0 <= i < vars.len() && a[#[trigger] vars[i] as int] {
            let i = choose|i: int| 0 <= i < vars.len() && a[#[trigger] vars[i] as int];
            if i < rest.len() {
                assert(rest[i] == vars[i]);
            }
        }
        if a[vars.last() as int] {
            assert(vars[vars.len() - 1] == vars.last());
        }
    }
}

/// The constraint of sample `j` says that the sample is missed or has a selected node.
proof fn lemma_cover_holds(
    instance: Instance,
    c: ConstraintView,
    j: int,
    a: Seq<bool>,
    costs: Option<Seq<real>>,
)
    requires
        instance.valid(),
        0 <= j < instance.samples.len(),
        instance.is_cover(c, j),
        a.len() == instance.nodes.len() + instance.samples.len(),
        a.len() <= usize::MAX,
    ensures
        holds(c, a, costs) <==> a[instance.nodes.len() + j] || meets(
            instance.samples[j],
            instance.seeds(a),
        ),
{
    let nodes = instance.nodes;
    let rr = instance.samples[j];
    let seeds = instance.seeds(a);
    let order = choose|order: Seq<usize>| #[trigger]
        lists(order, rr) && c.terms == instance.cover_terms(j, order);
    let vars = seq![(nodes.len() + j) as usize] + positions_in(nodes, order);
    lemma_unit_sum(vars, a, costs);
    assert(c.terms == unit_terms(vars));
    assert(vars[0] == nodes.len() + j);
    if meets(rr, seeds) {
        let v = choose|v: usize| rr.contains(v) && seeds.contains(v);
        let i = choose|i: int| 0 <= i < order.len() && order[i] == v;
        let at = nodes.index_of(v);
        assert(nodes.contains(v));
        lemma_seeds_contain(instance, a, at);
        assert(vars[1 + i] == at);
        assert(a[vars[1 + i] as int]);
    }
    if exists|i: int| 0 <= i < vars.len() && a[#[trigger] vars[i] as int] {
        let i = choose|i: int| 0 <= i < vars.len() && a[#[trigger] vars[i] as int];
        if i > 0 {
            let v = order[i - 1];
            assert(order.contains(v));
            assert(nodes.contains(v));
            let at = nodes.index_of(v);
            assert(vars[i] == at);
            lemma_seeds_contain(instance, a, at);
            assert(rr.contains(v) && seeds.contains(v));
        }
    }
}

/// The objective counts the samples that the assignment marks as missed.
proof fn lemma_objective(
    instance: Instance,
    p: ProgramView,
    a: Seq<bool>,
    seeds: Set<usize>,
    count: nat,
)
    requires
        instance.encoded_by(p),
        count <= instance.samples.len(),
        forall|j: int|
            0 <= j < instance.samples.len() ==> a[instance.nodes.len() + j] || meets(
                #[trigger] instance.samples[j],
                seeds,
            ),
    ensures
        objective(p.variables.take((instance.nodes.len() + count) as int), a) + coverage(
            instance.samples.take(count as int),
            seeds,
        ) >= count,
        (forall|j: int|
            0 <= j < instance.samples.len() ==> (a[instance.nodes.len() + j] <==> !meets(
                #[trigger] instance.samples[j],
                seeds,
            ))) ==> objective(p.variables.take((instance.nodes.len() + count) as int), a) + coverage(
            instance.samples.take(count as int),
            seeds,
        ) == count,
    decreases count,
{
    let n = instance.nodes.len() as int;
    let samples = instance.samples;
    if count == 0 {
        lemma_no_objective(instance, p, a, instance.nodes.len());
        assert(p.variables.take(n + 0) =~= p.variables.take(n));
        assert(samples.take(0) =~= Seq::<Set<usize>>::empty());
        reveal(Seq::filter);
    } else {
        let j = count - 1;
        lemma_objective(instance, p, a, seeds, j as nat);
        let vars = p.variables.take(n + count);
        assert(vars.drop_last() =~= p.variables.take(n + j));
        assert(vars.last() == p.variables[n + j]);
        assert(vars.last().objective == 1);
        lemma_coverage_push(samples.take(j), samples[j], seeds);
        assert(samples.take(j).push(samples[j]) =~= samples.take(count as int));
    }
}

/// The variables of the nodes do not count in the objective.
proof fn lemma_no_objective(instance: Instance, p: ProgramView, a: Seq<bool>, count: nat)
    requires
        instance.encoded_by(p),
        count <= instance.nodes.len(),
    ensures
        objective(p.variables.take(count as int), a) == 0,
    decreases count,
{
    if count > 0 {
        let vars = p.variables.take(count as int);
        lemma_no_objective(instance, p, a, (count - 1) as nat);
        assert(vars.drop_last() =~= p.variables.take(count - 1));
        assert(vars.last() == p.variables[count - 1]);
    }
}

/// The seeds of a feasible assignment are nodes of the graph and cost no more than the budget.
pub proof fn law_feasible_within_budget(
    instance: Instance,
    p: ProgramView,
    a: Seq<bool>,
    costs: Option<Seq<real>>,
)
    requires
        instance.valid(),
        instance.encoded_by(p),
        costs_given(instance.n_costs, costs),
        p.variables.len() <= usize::MAX,
        feasible(p, a, costs),
    ensures
        instance.affordable(costs, instance.seeds(a)),
{
    assert(holds(p.constraints[0], a, costs));
    lemma_budget_sum(instance, a, costs, instance.n_priced());
    assert(instance.cardinality().terms.take(instance.n_priced() as int)
        =~= instance.cardinality().terms);
    assert forall|v: usize| instance.seeds(a).contains(v) implies instance.nodes.contains(v) by {
        let i = choose|i: int|
            0 <= i < instance.nodes.len() && #[trigger] instance.nodes[i] == v && reported(a)[i]
                == Value::Binary(true);
        assert(instance.nodes[i] == v);
    }
}

/// A feasible assignment marks at least the samples that its seeds miss.
pub proof fn law_objective_at_least_missed(
    instance: Instance,
    p: ProgramView,
    a: Seq<bool>,
    costs: Option<Seq<real>>,
)
    requires
        instance.valid(),
        instance.encoded_by(p),
        p.variables.len() <= usize::MAX,
        feasible(p, a, costs),
    ensures
        objective(p.variables, a) + coverage(instance.samples, instance.seeds(a))
            >= instance.samples.len(),
{
    let m = instance.samples.len();
    assert forall|j: int| 0 <= j < m implies a[instance.nodes.len() + j] || meets(
        #[trigger] instance.samples[j],
        instance.seeds(a),
    ) by {
        assert(holds(p.constraints[1 + j], a, costs));
        lemma_cover_holds(instance, p.constraints[1 + j], j, a, costs);
    }
    lemma_objective(instance, p, a, instance.seeds(a), m);
    assert(p.variables.take((instance.nodes.len() + m) as int) =~= p.variables);
    assert(instance.samples.take(m as int) =~= instance.samples);
}

/// Every seed set within the budget is a feasible assignment whose objective is the number of
/// samples that the seeds miss, and whose seeds read back as the set.
pub proof fn law_seed_set_is_feasible(
    instance: Instance,
    p: ProgramView,
    seeds: Set<usize>,
    costs: Option<Seq<real>>,
)
    requires
        instance.valid(),
        instance.encoded_by(p),
        costs_given(instance.n_costs, costs),
        p.variables.len() <= usize::MAX,
        instance.affordable(costs, seeds),
    ensures
        instance.seeds(instance.assignment(seeds)) == seeds,
        feasible(p, instance.assignment(seeds), costs),
        objective(p.variables, instance.assignment(seeds)) + coverage(instance.samples, seeds)
            == instance.samples.len(),
{
    let a = instance.assignment(seeds);
    let m = instance.samples.len();
    assert forall|v: usize| instance.seeds(a).contains(v) <==> seeds.contains(v) by {
        if instance.seeds(a).contains(v) {
            let i = choose|i: int|
                0 <= i < instance.nodes.len() && #[trigger] instance.nodes[i] == v && reported(
                    a,
                )[i] == Value::Binary(true);
            assert(a[i]);
        }
        if seeds.contains(v) {
            assert(instance.nodes.contains(v));
            let i = instance.nodes.index_of(v);
            assert(instance.nodes[i] == v);
            lemma_seeds_contain(instance, a, i);
        }
    }
    assert(instance.seeds(a) =~= seeds);
    lemma_budget_sum(instance, a, costs, instance.n_priced());
    assert(instance.cardinality().terms.take(instance.n_priced() as int)
        =~= instance.cardinality().terms);
    assert forall|j: int| 0 <= j < p.constraints.len() implies holds(
        #[trigger] p.constraints[j],
        a,
        costs,
    ) by {
        if j > 0 {
            lemma_cover_holds(instance, p.constraints[j], j - 1, a, costs);
        }
    }
    lemma_objective(instance, p, a, seeds, m);
    assert(p.variables.take((instance.nodes.len() + m) as int) =~= p.variables);
    assert(instance.samples.take(m as int) =~= instance.samples);
}

/// The seeds of an optimal assignment are within the budget and cover at least as many samples
/// as any seed set within the budget.
pub proof fn law_optimal_maximizes_coverage(
    instance: Instance,
    p: ProgramView,
    a: Seq<bool>,
    costs: Option<Seq<real>>,
)
    requires
        instance.valid(),
        instance.encoded_by(p),
        costs_given(instance.n_costs, costs),
        p.variables.len() <= usize::MAX,
        optimal(p, a, costs),
    ensures
        instance.affordable(costs, instance.seeds(a)),
        forall|other: Set<usize>| #[trigger]
            instance.affordable(costs, other) ==> coverage(instance.samples, other) <= coverage(
                instance.samples,
                instance.seeds(a),
            ),
{
    law_feasible_within_budget(instance, p, a, costs);
    law_objective_at_least_missed(instance, p, a, costs);
    assert forall|other: Set<usize>| #[trigger] instance.affordable(costs, other) implies coverage(
        instance.samples,
        other,
    ) <= coverage(instance.samples, instance.seeds(a)) by {
        law_seed_set_is_feasible(instance, p, other, costs);
    }
}

/// A starting solution sets exactly the variables of the previous solution's nodes, and no
/// others of the nodes' variables, and its values are those of the previous solution.
pub proof fn law_start_sets_previous(instance: Instance, start: Seq<usize>, prev: Set<usize>)
    requires
        instance.valid(),
        crate::nodes::within(prev, instance.nodes),
        crate::ilp::is_start(Some(start), instance.nodes, Some(prev)),
        instance.nodes.len() <= usize::MAX,
    ensures
        forall|j: int| 0 <= j < start.len() ==> #[trigger] start[j] < instance.nodes.len(),
        forall|i: usize|
            i < instance.nodes.len() ==> (start.contains(i) <==> #[trigger] instance.assignment(
                prev,
            )[i as int]),
        crate::ilp::start_values_of(instance.nodes, Some(prev)) == Some(
            instance.assignment(prev).take(instance.nodes.len() as int),
        ),
{
    let nodes = instance.nodes;
    assert(nodes.map_values(|v: usize| prev.contains(v)) =~= instance.assignment(prev).take(
        nodes.len() as int,
    ));
    let order = choose|order: Seq<usize>| #[trigger]
        lists(order, prev) && start == positions_in(nodes, order);
    assert forall|j: int| 0 <= j < start.len() implies #[trigger] start[j] < nodes.len()
        && nodes[start[j] as int] == order[j] by {
        assert(order.contains(order[j]));
        assert(nodes.contains(order[j]));
    }
    assert forall|i: usize| i < nodes.len() implies (start.contains(i)
        <==> #[trigger] instance.assignment(prev)[i as int]) by {
        if start.contains(i) {
            let j = choose|j: int| 0 <= j < start.len() && start[j] == i;
            assert(order.contains(order[j]));
        }
        if prev.contains(nodes[i as int]) {
            let j = choose|j: int| 0 <= j < order.len() && order[j] == nodes[i as int];
            assert(nodes.contains(order[j]));
            assert(start[j] == i);
        }
    }
}

/// No two variables have the same name, and no two constraints.
pub proof fn law_names_are_distinct(instance: Instance, p: ProgramView)
    requires
        instance.valid(),
        instance.encoded_by(p),
    ensures
        forall|i: int, j: int|
            0 <= i < j < p.variables.len() ==> #[trigger] p.variables[i].name
                != #[trigger] p.variables[j].name,
        forall|i: int, j: int|
            0 <= i < j < p.constraints.len() ==> #[trigger] p.constraints[i].name
                != #[trigger] p.constraints[j].name,
{
    let n = instance.nodes.len();
    reveal_strlit("s");
    reveal_strlit("y");
    reveal_strlit("rr");
    reveal_strlit("cardinality");
    assert forall|i: int, j: int| 0 <= i < j < p.variables.len() implies #[trigger]
    p.variables[i].name != #[trigger] p.variables[j].name by {
        let (a, b) = (p.variables[i].name, p.variables[j].name);
        if i < n && n <= j {
            assert(a[0] == 's' && b[0] == 'y');
        } else if j < n {
            lemma_numbered_differ("s"@, instance.nodes[i] as nat, instance.nodes[j] as nat);
        } else {
            lemma_numbered_differ("y"@, (i - n) as nat, (j - n) as nat);
        }
    }
    assert forall|i: int, j: int| 0 <= i < j < p.constraints.len() implies #[trigger]
    p.constraints[i].name != #[trigger] p.constraints[j].name by {
        assert(instance.is_cover(p.constraints[j], j - 1));
        let (a, b) = (p.constraints[i].name, p.constraints[j].name);
        if i == 0 {
            assert(a[0] == 'c' && b[0] == 'r');
        } else {
            assert(instance.is_cover(p.constraints[i], i - 1));
            lemma_numbered_differ("rr"@, (i - 1) as nat, (j - 1) as nat);
        }
    }
}

proof fn lemma_numbered_differ(prefix: Seq<char>, a: nat, b: nat)
    requires
        a != b,
    ensures
        prefix + decimal(a) != prefix + decimal(b),
{
    if prefix + decimal(a) == prefix + decimal(b) {
        assert((prefix + decimal(a)).skip(prefix.len() as int) =~= decimal(a));
        assert((prefix + decimal(b)).skip(prefix.len() as int) =~= decimal(b));
        law_decimal_injective(a, b);
    }
}

/// With no costs given, the cost of a seed set is the number of its nodes.
pub proof fn law_uniform_cost_counts_seeds(instance: Instance, seeds: Set<usize>)
    requires
        instance.valid(),
        instance.n_costs is None,
        crate::nodes::within(seeds, instance.nodes),
    ensures
        instance.cost(None, seeds) == seeds.len() as real,
{
    let n = instance.nodes.len();
    lemma_uniform_cost(instance, seeds, n);
    assert(seeds.intersect(instance.nodes.take(n as int).to_set()) =~= seeds) by {
        assert(instance.nodes.take(n as int) =~= instance.nodes);
    }
}

proof fn lemma_uniform_cost(instance: Instance, seeds: Set<usize>, count: nat)
    requires
        instance.valid(),
        count <= instance.nodes.len(),
    ensures
        cost_of(instance.nodes, None, seeds, count) == seeds.intersect(
            instance.nodes.take(count as int).to_set(),
        ).len() as real,
    decreases count,
{
    let nodes = instance.nodes;
    let part = nodes.take(count as int).to_set();
    if count == 0 {
        assert(seeds.intersect(part) =~= Set::empty());
    } else {
        let v = nodes[count - 1];
        let before = nodes.take(count - 1).to_set();
        lemma_uniform_cost(instance, seeds, (count - 1) as nat);
        vstd::seq_lib::seq_to_set_is_finite(nodes.take(count - 1));
        assert forall|u: usize| part.contains(u) <==> before.contains(u) || u == v by {
            if before.contains(u) {
                let i = nodes.take(count - 1).index_of(u);
                assert(nodes.take(count as int)[i] == u);
            }
            if u == v {
                assert(nodes.take(count as int)[count - 1] == u);
            }
            if part.contains(u) && u != v {
                let i = nodes.take(count as int).index_of(u);
                assert(nodes.take(count - 1)[i] == u);
            }
        }
        assert(!before.contains(v)) by {
            if before.contains(v) {
                let i = nodes.take(count - 1).index_of(v);
                assert(nodes[i] == nodes[count - 1]);
            }
        }
        if seeds.contains(v) {
            assert(seeds.intersect(part) =~= seeds.intersect(before).insert(v));
        } else {
            assert(seeds.intersect(part) =~= seeds.intersect(before));
        }
    }
}

/// Costs that are all one give every seed set the cost that it has without costs.
proof fn lemma_unit_costs(nodes: Seq<usize>, costs: Seq<real>, seeds: Set<usize>, count: nat)
    requires
        count <= costs.len(),
        forall|i: int| 0 <= i < costs.len() ==> #[trigger] costs[i] == 1 as real,
    ensures
        cost_of(nodes, Some(costs), seeds, count) == cost_of(nodes, None, seeds, count),
    decreases count,
{
    if count > 0 {
        lemma_unit_costs(nodes, costs, seeds, (count - 1) as nat);
    }
}

/// Missing costs mean that every node costs one: optimal seeds without costs, and optimal seeds
/// with costs that are all one, cover equally many samples, and each are at most `k` nodes.
pub proof fn law_missing_costs_are_uniform(
    instance: Instance,
    p: ProgramView,
    a: Seq<bool>,
    costs: Seq<real>,
    q: ProgramView,
    b: Seq<bool>,
)
    requires
        instance.valid(),
        instance.n_costs is None,
        instance.encoded_by(p),
        p.variables.len() <= usize::MAX,
        optimal(p, a, None),
        costs.len() == instance.nodes.len(),
        forall|i: int| 0 <= i < costs.len() ==> #[trigger] costs[i] == 1 as real,
        (Instance { n_costs: Some(costs.len() as usize), ..instance }).encoded_by(q),
        optimal(q, b, Some(costs)),
    ensures
        coverage(instance.samples, instance.seeds(a)) == coverage(
            instance.samples,
            instance.seeds(b),
        ),
        instance.seeds(a).len() <= instance.k,
        instance.seeds(b).len() <= instance.k,
{
    let priced = Instance { n_costs: Some(costs.len() as usize), ..instance };
    let (first, second) = (instance.seeds(a), instance.seeds(b));
    assert(priced.seeds(b) == second);
    law_optimal_maximizes_coverage(instance, p, a, None);
    law_optimal_maximizes_coverage(priced, q, b, Some(costs));
    lemma_unit_costs(instance.nodes, costs, first, instance.nodes.len());
    lemma_unit_costs(instance.nodes, costs, second, instance.nodes.len());
    assert(priced.affordable(Some(costs), first));
    assert(instance.affordable(None, second));
    law_uniform_cost_counts_seeds(instance, first);
    law_uniform_cost_counts_seeds(instance, second);
}

/// A starting solution is only where the search begins: optimal seeds with it and without it are
/// within the budget and cover equally many samples, and no fewer than the starting seeds do.
pub proof fn law_start_keeps_coverage(
    instance: Instance,
    p: ProgramView,
    a: Seq<bool>,
    q: ProgramView,
    b: Seq<bool>,
    prev: Set<usize>,
    costs: Option<Seq<real>>,
)
    requires
        instance.valid(),
        costs_given(instance.n_costs, costs),
        instance.encoded_by(p),
        crate::ilp::starts_from(p, instance.nodes, None),
        p.variables.len() <= usize::MAX,
        optimal(p, a, costs),
        instance.encoded_by(q),
        crate::ilp::starts_from(q, instance.nodes, Some(prev)),
        instance.affordable(costs, prev),
        optimal(q, b, costs),
    ensures
        instance.affordable(costs, instance.seeds(a)),
        instance.affordable(costs, instance.seeds(b)),
        coverage(instance.samples, instance.seeds(a)) == coverage(
            instance.samples,
            instance.seeds(b),
        ),
        coverage(instance.samples, instance.seeds(b)) >= coverage(instance.samples, prev),
{
    law_optimal_maximizes_coverage(instance, p, a, costs);
    law_optimal_maximizes_coverage(instance, q, b, costs);
}

/// A larger budget never lowers the best coverage.
pub proof fn law_budget_monotone(
    instance: Instance,
    p: ProgramView,
    a: Seq<bool>,
    larger: nat,
    q: ProgramView,
    b: Seq<bool>,
    costs: Option<Seq<real>>,
)
    requires
        instance.valid(),
        costs_given(instance.n_costs, costs),
        instance.encoded_by(p),
        p.variables.len() <= usize::MAX,
        optimal(p, a, costs),
        instance.k <= larger,
        (Instance { k: larger, ..instance }).encoded_by(q),
        optimal(q, b, costs),
    ensures
        coverage(instance.samples, instance.seeds(a)) <= coverage(
            instance.samples,
            instance.seeds(b),
        ),
{
    let richer = Instance { k: larger, ..instance };
    law_optimal_maximizes_coverage(instance, p, a, costs);
    law_optimal_maximizes_coverage(richer, q, b, costs);
    assert(richer.seeds(b) == instance.seeds(b));
    assert(richer.affordable(costs, instance.seeds(a)));
}

/// More samples never lower the best coverage, and raise it by at most one each.
pub proof fn law_samples_monotone(
    instance: Instance,
    p: ProgramView,
    a: Seq<bool>,
    more: Seq<Set<usize>>,
    q: ProgramView,
    b: Seq<bool>,
    costs: Option<Seq<real>>,
)
    requires
        instance.valid(),
        costs_given(instance.n_costs, costs),
        instance.encoded_by(p),
        optimal(p, a, costs),
        (Instance { samples: instance.samples + more, ..instance }).valid(),
        (Instance { samples: instance.samples + more, ..instance }).encoded_by(q),
        q.variables.len() <= usize::MAX,
        optimal(q, b, costs),
    ensures
        coverage(instance.samples, instance.seeds(a)) <= coverage(
            instance.samples + more,
            instance.seeds(b),
        ) <= coverage(instance.samples, instance.seeds(a)) + more.len(),
{
    let longer = Instance { samples: instance.samples + more, ..instance };
    let (first, second) = (instance.seeds(a), instance.seeds(b));
    law_optimal_maximizes_coverage(instance, p, a, costs);
    law_optimal_maximizes_coverage(longer, q, b, costs);
    assert(longer.seeds(b) == second);
    assert(longer.affordable(costs, first));
    assert(instance.affordable(costs, second));
    law_coverage_of_batches(instance.samples, more, first);
    law_coverage_of_batches(instance.samples, more, second);
    law_coverage_bounded(more, second);
}

} // verus!
