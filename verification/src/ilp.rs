//! The integer program that picks the seeds covering the most samples.
//!
//! There is one binary variable per node (the node is a seed) and one per sample (the sample is
//! missed). Each sample is missed or has a seed, the seeds cost no more than the budget, and the
//! number of missed samples is minimized.

use crate::coverage::samples_view;
use crate::names::numbered;
use crate::nodes::{ascending, within};
use std::collections::{BTreeMap, BTreeSet};
use vstd::prelude::*;

verus! {

/// What a variable is multiplied by in a constraint: one, or the cost at a position of the cost
/// list.
#[derive(Clone, Copy, Debug, PartialEq, Eq, Structural)]
pub enum Coefficient {
    One,
    Cost(usize),
}

/// A variable with its coefficient.
#[derive(Clone, Copy, Debug, PartialEq, Eq, Structural)]
pub struct Term {
    pub var: usize,
    pub coefficient: Coefficient,
}

/// How the sum of the terms of a constraint compares to its bound.
#[derive(Clone, Copy, Debug, PartialEq, Eq, Structural)]
pub enum Relation {
    AtMost,
    AtLeast,
}

/// Whether the objective is minimized or maximized.
#[derive(Clone, Copy, Debug, PartialEq, Eq, Structural)]
pub enum Sense {
    Minimize,
    Maximize,
}

/// A binary variable with its coefficient in the objective.
#[derive(Debug)]
pub struct Variable {
    pub name: String,
    pub objective: usize,
}

/// A linear constraint.
#[derive(Debug)]
pub struct Constraint {
    pub name: String,
    pub terms: Vec<Term>,
    pub relation: Relation,
    pub bound: usize,
}

/// A program over binary variables, with a starting solution where there is one: the variables
/// that it sets, and the value that it gives to each node's variable.
#[derive(Debug)]
pub struct Program {
    pub sense: Sense,
    pub variables: Vec<Variable>,
    pub constraints: Vec<Constraint>,
    pub start: Option<Vec<usize>>,
    pub start_values: Option<Vec<bool>>,
}

/// What a solver reports of a variable.
#[derive(Clone, Copy, Debug, PartialEq, Eq, Structural)]
pub enum Value {
    Binary(bool),
    Other,
}

/// The model of a [`Variable`].
pub struct VariableView {
    pub name: Seq<char>,
    pub objective: nat,
}

/// The model of a [`Constraint`].
pub struct ConstraintView {
    pub name: Seq<char>,
    pub terms: Seq<Term>,
    pub relation: Relation,
    pub bound: nat,
}

/// The model of a [`Program`].
pub struct ProgramView {
    pub sense: Sense,
    pub variables: Seq<VariableView>,
    pub constraints: Seq<ConstraintView>,
    pub start: Option<Seq<usize>>,
    pub start_values: Option<Seq<bool>>,
}

impl View for Variable {
    type V = VariableView;

    open spec fn view(&self) -> VariableView {
        VariableView { name: self.name@, objective: self.objective as nat }
    }
}

impl View for Constraint {
    type V = ConstraintView;

    open spec fn view(&self) -> ConstraintView {
        ConstraintView {
            name: self.name@,
            terms: self.terms@,
            relation: self.relation,
            bound: self.bound as nat,
        }
    }
}

impl View for Program {
    type V = ProgramView;

    open spec fn view(&self) -> ProgramView {
        ProgramView {
            sense: self.sense,
            variables: self.variables@.map_values(|v: Variable| v@),
            constraints: self.constraints@.map_values(|c: Constraint| c@),
            start: match self.start {
                Some(vars) => Some(vars@),
                None => None,
            },
            start_values: match self.start_values {
                Some(values) => Some(values@),
                None => None,
            },
        }
    }
}

/// A coverage problem: the nodes in the order of their variables, the samples, how many node
/// costs there are (none when every node costs one), and the budget.
pub struct Instance {
    pub nodes: Seq<usize>,
    pub samples: Seq<Set<usize>>,
    pub n_costs: Option<usize>,
    pub k: nat,
}

impl Instance {
    /// The nodes are distinct, and the samples hold no others.
    pub open spec fn valid(self) -> bool {
        &&& self.nodes.no_duplicates()
        &&& forall|j: int|
            0 <= j < self.samples.len() ==> within(#[trigger] self.samples[j], self.nodes)
    }

    /// How many nodes the budget counts: those that a cost is given for, or all of them.
    pub open spec fn n_priced(self) -> nat {
        match self.n_costs {
            Some(c) if c < self.nodes.len() => c as nat,
            _ => self.nodes.len(),
        }
    }

    /// The variable of the node at position `i`.
    pub open spec fn seed_variable(self, i: int) -> VariableView {
        VariableView {
            name: "s"@ + crate::names::decimal(self.nodes[i] as nat),
            objective: 0,
        }
    }

    /// The variable that says that sample `j` is missed.
    pub open spec fn miss_variable(self, j: int) -> VariableView {
        VariableView { name: "y"@ + crate::names::decimal(j as nat), objective: 1 }
    }

    /// The seeds cost at most the budget.
    pub open spec fn cardinality(self) -> ConstraintView {
        ConstraintView {
            name: "cardinality"@,
            terms: Seq::new(
                self.n_priced(),
                |i: int| Term { var: i as usize, coefficient: price(self.n_costs, i as usize) },
            ),
            relation: Relation::AtMost,
            bound: self.k,
        }
    }

    /// The terms of the constraint of sample `j` whose nodes are `order`: the sample's own
    /// variable, then the variables of its nodes.
    pub open spec fn cover_terms(self, j: int, order: Seq<usize>) -> Seq<Term> {
        unit_terms(seq![(self.nodes.len() + j) as usize] + positions_in(self.nodes, order))
    }

    /// `c` says that sample `j` is missed or has a seed.
    pub open spec fn is_cover(self, c: ConstraintView, j: int) -> bool {
        &&& c.name == "rr"@ + crate::names::decimal(j as nat)
        &&& exists|order: Seq<usize>| #[trigger]
            crate::nodes::lists(order, self.samples[j]) && c.terms == self.cover_terms(j, order)
        &&& c.relation == Relation::AtLeast
        &&& c.bound == 1
    }

    /// `p` is the program of this problem.
    pub open spec fn encoded_by(self, p: ProgramView) -> bool {
        let n = self.nodes.len();
        let m = self.samples.len();
        &&& p.sense == Sense::Minimize
        &&& p.variables.len() == n + m
        &&& forall|i: int| 0 <= i < n ==> #[trigger] p.variables[i] == self.seed_variable(i)
        &&& forall|j: int|
            n <= j < n + m ==> #[trigger] p.variables[j] == self.miss_variable(j - n)
        &&& p.constraints.len() == 1 + m
        &&& p.constraints[0] == self.cardinality()
        &&& forall|j: int|
            1 <= j < 1 + m ==> self.is_cover(#[trigger] p.constraints[j], j - 1)
    }
}

/// The positions in `nodes` of the nodes of `order`.
pub open spec fn positions_in(nodes: Seq<usize>, order: Seq<usize>) -> Seq<usize> {
    order.map_values(|v: usize| nodes.index_of(v) as usize)
}

/// The sum of the variables `vars`.
pub open spec fn unit_terms(vars: Seq<usize>) -> Seq<Term> {
    vars.map_values(|var: usize| Term { var, coefficient: Coefficient::One })
}

/// The coefficient of the node at position `i` in the budget.
pub open spec fn price(n_costs: Option<usize>, i: usize) -> Coefficient {
    match n_costs {
        Some(_) => Coefficient::Cost(i),
        None => Coefficient::One,
    }
}

/// `vars` are the positions of the nodes of `set`, in the order of the nodes.
pub open spec fn locates(vars: Seq<usize>, nodes: Seq<usize>, set: Set<usize>) -> bool {
    exists|order: Seq<usize>| #[trigger]
        crate::nodes::lists(order, set) && vars == positions_in(nodes, order)
}

/// A starting solution sets the variables of the previous solution's nodes.
pub open spec fn is_start(
    start: Option<Seq<usize>>,
    nodes: Seq<usize>,
    prev: Option<Set<usize>>,
) -> bool {
    match (start, prev) {
        (Some(vars), Some(set)) => locates(vars, nodes, set),
        (None, None) => true,
        _ => false,
    }
}

/// A starting solution gives each node's variable whether the node is in the previous solution.
pub open spec fn start_values_of(nodes: Seq<usize>, prev: Option<Set<usize>>) -> Option<Seq<bool>> {
    match prev {
        Some(set) => Some(nodes.map_values(|v: usize| set.contains(v))),
        None => None,
    }
}

/// The program starts from the previous solution, where there is one.
pub open spec fn starts_from(p: ProgramView, nodes: Seq<usize>, prev: Option<Set<usize>>) -> bool {
    &&& is_start(p.start, nodes, prev)
    &&& p.start_values == start_values_of(nodes, prev)
}

/// The view of an optional node set.
pub open spec fn option_view(prev: Option<&BTreeSet<usize>>) -> Option<Set<usize>> {
    match prev {
        Some(set) => Some(set@),
        None => None,
    }
}

/// `map` gives each node its position in `nodes`.
pub open spec fn is_position_map(map: Map<usize, usize>, nodes: Seq<usize>) -> bool {
    forall|v: usize| #[trigger]
        nodes.contains(v) ==> map.contains_key(v) && map[v] == nodes.index_of(v)
}

/// The position of each node.
fn positions(nodes: &Vec<usize>) -> (map: BTreeMap<usize, usize>)
    requires
        nodes@.no_duplicates(),
    ensures
        is_position_map(map@, nodes@),
{
    let mut map: BTreeMap<usize, usize> = BTreeMap::new();
    for i in 0..nodes.len()
        invariant
            nodes@.no_duplicates(),
            forall|j: int|
                0 <= j < i ==> map@.contains_key(#[trigger] nodes@[j]) && map@[nodes@[j]] == j,
    {
        map.insert(nodes[i], i);
    }
    assert forall|v: usize| #[trigger] nodes@.contains(v) implies map@.contains_key(v) && map@[v]
        == nodes@.index_of(v) by {
        let j = nodes@.index_of(v);
        assert(nodes@[j] == v);
    }
    map
}

/// The positions of the nodes of `set`, in the order of the nodes.
fn positions_of(
    set: &BTreeSet<usize>,
    map: &BTreeMap<usize, usize>,
    Ghost(nodes): Ghost<Seq<usize>>,
) -> (vars: Vec<usize>)
    requires
        is_position_map(map@, nodes),
        within(set@, nodes),
    ensures
        locates(vars@, nodes, set@),
{
    let order = ascending(set);
    let mut vars: Vec<usize> = Vec::new();
    for i in 0..order.len()
        invariant
            is_position_map(map@, nodes),
            within(set@, nodes),
            crate::nodes::lists(order@, set@),
            vars@ == positions_in(nodes, order@.take(i as int)),
    {
        assert(order@.contains(order@[i as int]));
        vars.push(*map.get(&order[i]).unwrap());
        assert(vars@ =~= positions_in(nodes, order@.take(i + 1)));
    }
    assert(order@.take(order@.len() as int) =~= order@);
    vars
}

/// The variables of the nodes and of the samples.
fn variables(nodes: &Vec<usize>, n_samples: usize, Ghost(instance): Ghost<Instance>) -> (vars: Vec<
    Variable,
>)
    requires
        instance.nodes == nodes@,
        instance.samples.len() == n_samples,
    ensures
        vars@.len() == nodes@.len() + n_samples,
        forall|i: int|
            0 <= i < nodes@.len() ==> (#[trigger] vars@[i])@ == instance.seed_variable(i),
        forall|j: int|
            nodes@.len() <= j < vars@.len() ==> (#[trigger] vars@[j])@ == instance.miss_variable(
                j - nodes@.len(),
            ),
{
    let mut vars: Vec<Variable> = Vec::new();
    for i in 0..nodes.len()
        invariant
            instance.nodes == nodes@,
            vars@.len() == i,
            forall|j: int| 0 <= j < i ==> (#[trigger] vars@[j])@ == instance.seed_variable(j),
    {
        vars.push(Variable { name: numbered("s", nodes[i]), objective: 0 });
    }
    for j in 0..n_samples
        invariant
            instance.nodes == nodes@,
            vars@.len() == nodes@.len() + j,
            forall|i: int|
                0 <= i < nodes@.len() ==> (#[trigger] vars@[i])@ == instance.seed_variable(i),
            forall|i: int|
                nodes@.len() <= i < vars@.len() ==> (#[trigger] vars@[i])@
                    == instance.miss_variable(i - nodes@.len()),
    {
        vars.push(Variable { name: numbered("y", j), objective: 1 });
    }
    vars
}

/// The constraint that the seeds cost at most `k`.
fn cardinality(n: usize, n_costs: Option<usize>, k: usize, Ghost(instance): Ghost<Instance>) -> (c:
    Constraint)
    requires
        instance.nodes.len() == n,
        instance.n_costs == n_costs,
        instance.k == k,
    ensures
        c@ == instance.cardinality(),
{
    let n_priced = match n_costs {
        Some(c) => if c < n {
            c
        } else {
            n
        },
        None => n,
    };
    let mut terms: Vec<Term> = Vec::new();
    for i in 0..n_priced
        invariant
            n_priced == instance.n_priced(),
            instance.n_costs == n_costs,
            terms@ == instance.cardinality().terms.take(i as int),
    {
        let coefficient = match n_costs {
            Some(_) => Coefficient::Cost(i),
            None => Coefficient::One,
        };
        terms.push(Term { var: i, coefficient });
        assert(terms@ =~= instance.cardinality().terms.take(i + 1));
    }
    assert(terms@ =~= instance.cardinality().terms);
    Constraint {
        name: "cardinality".to_owned(),
        terms,
        relation: Relation::AtMost,
        bound: k,
    }
}

/// The constraint that sample `j` is missed or has a seed.
fn cover(
    rr: &BTreeSet<usize>,
    map: &BTreeMap<usize, usize>,
    n: usize,
    j: usize,
    Ghost(instance): Ghost<Instance>,
) -> (c: Constraint)
    requires
        instance.nodes.len() == n,
        j < instance.samples.len(),
        instance.samples[j as int] == rr@,
        n + j <= usize::MAX,
        is_position_map(map@, instance.nodes),
        within(rr@, instance.nodes),
    ensures
        instance.is_cover(c@, j as int),
{
    let vars = positions_of(rr, map, Ghost(instance.nodes));
    let ghost order = choose|order: Seq<usize>| #[trigger]
        crate::nodes::lists(order, rr@) && vars@ == positions_in(instance.nodes, order);
    let ghost all = seq![(n + j) as usize] + vars@;
    let mut terms: Vec<Term> = Vec::new();
    terms.push(Term { var: n + j, coefficient: Coefficient::One });
    assert(terms@ =~= unit_terms(all.take(1)));
    for i in 0..vars.len()
        invariant
            all == seq![(n + j) as usize] + vars@,
            terms@ == unit_terms(all.take(i + 1)),
    {
        terms.push(Term { var: vars[i], coefficient: Coefficient::One });
        assert(terms@ =~= unit_terms(all.take(i + 2)));
    }
    assert(all.take(1 + vars@.len() as int) =~= all);
    assert(terms@ == instance.cover_terms(j as int, order));
    Constraint { name: numbered("rr", j), terms, relation: Relation::AtLeast, bound: 1 }
}

/// Constructs the program that covers the most of `rr_sets` with seeds that cost at most `k`,
/// started from a previous solution where there is one.
///
/// `nodes` are the nodes of the graph, and `n_costs` says how many node costs are given; without
/// costs every node costs one.
pub fn ilp_mc(
    nodes: &Vec<usize>,
    rr_sets: &Vec<BTreeSet<usize>>,
    n_costs: Option<usize>,
    k: usize,
    prev: Option<&BTreeSet<usize>>,
) -> (program: Program)
    requires
        (Instance { nodes: nodes@, samples: samples_view(rr_sets@), n_costs, k: k as nat }).valid(),
        prev matches Some(set) ==> within(set@, nodes@),
        nodes@.len() + rr_sets@.len() <= usize::MAX,
    ensures
        (Instance { nodes: nodes@, samples: samples_view(rr_sets@), n_costs, k: k as nat }).encoded_by(
            program@,
        ),
        starts_from(program@, nodes@, option_view(prev)),
{
    let ghost instance = Instance {
        nodes: nodes@,
        samples: samples_view(rr_sets@),
        n_costs,
        k: k as nat,
    };
    let map = positions(nodes);
    let vars = variables(nodes, rr_sets.len(), Ghost(instance));
    let mut constraints: Vec<Constraint> = Vec::new();
    constraints.push(cardinality(nodes.len(), n_costs, k, Ghost(instance)));
    for j in 0..rr_sets.len()
        invariant
            instance.valid(),
            instance.nodes == nodes@,
            instance.samples == samples_view(rr_sets@),
            nodes@.len() + rr_sets@.len() <= usize::MAX,
            is_position_map(map@, nodes@),
            constraints@.len() == 1 + j,
            constraints@[0]@ == instance.cardinality(),
            forall|i: int|
                1 <= i < 1 + j ==> instance.is_cover((#[trigger] constraints@[i])@, i - 1),
    {
        assert(instance.samples[j as int] == rr_sets@[j as int]@);
        constraints.push(cover(&rr_sets[j], &map, nodes.len(), j, Ghost(instance)));
    }
    let start = match prev {
        Some(set) => Some(positions_of(set, &map, Ghost(nodes@))),
        None => None,
    };
    let start_values = match prev {
        Some(set) => Some(start_values(nodes, set)),
        None => None,
    };
    Program { sense: Sense::Minimize, variables: vars, constraints, start, start_values }
}

/// The nodes whose variables are reported as set.
pub open spec fn selected(nodes: Seq<usize>, values: Seq<Value>) -> Set<usize> {
    Set::new(
        |v: usize|
            exists|i: int|
                0 <= i < nodes.len() && #[trigger] nodes[i] == v && values[i] == Value::Binary(
                    true,
                ),
    )
}

/// The selected nodes are nodes of the graph.
pub proof fn lemma_selected_within(nodes: Seq<usize>, values: Seq<Value>)
    ensures
        within(selected(nodes, values), nodes),
{
    assert forall|v: usize| selected(nodes, values).contains(v) implies nodes.contains(v) by {
        let i = choose|i: int|
            0 <= i < nodes.len() && #[trigger] nodes[i] == v && values[i] == Value::Binary(true);
        assert(nodes[i] == v);
    }
}

/// Reads the seeds from what a solver reports of the variables, those of the nodes first.
pub fn read_solution(nodes: &Vec<usize>, values: &Vec<Value>) -> (seeds: BTreeSet<usize>)
    requires
        nodes@.len() <= values@.len(),
    ensures
        seeds@ == selected(nodes@, values@),
{
    let mut seeds: BTreeSet<usize> = BTreeSet::new();
    for i in 0..nodes.len()
        invariant
            nodes@.len() <= values@.len(),
            seeds@ == selected(nodes@.take(i as int), values@),
    {
        let ghost before = seeds@;
        match values[i] {
            Value::Binary(set) => {
                if set {
                    seeds.insert(nodes[i]);
                }
            },
            Value::Other => {},
        }
        assert forall|v: usize| seeds@.contains(v) <==> selected(
            nodes@.take(i + 1),
            values@,
        ).contains(v) by {
            let (part, next) = (nodes@.take(i as int), nodes@.take(i + 1));
            assert(next[i as int] == nodes@[i as int]);
            if before.contains(v) {
                let j = choose|j: int|
                    0 <= j < part.len() && #[trigger] part[j] == v && values@[j] == Value::Binary(
                        true,
                    );
                assert(next[j] == v);
            }
            if selected(next, values@).contains(v) {
                let j = choose|j: int|
                    0 <= j < next.len() && #[trigger] next[j] == v && values@[j] == Value::Binary(
                        true,
                    );
                assert(j < i ==> part[j] == v);
            }
        }
        assert(seeds@ =~= selected(nodes@.take(i + 1), values@));
    }
    assert(nodes@.take(nodes@.len() as int) =~= nodes@);
    seeds
}

/// The value of every node's variable in a starting solution: whether the node is in `prev`.
pub fn start_values(nodes: &Vec<usize>, prev: &BTreeSet<usize>) -> (values: Vec<bool>)
    ensures
        values@ == nodes@.map_values(|v: usize| prev@.contains(v)),
{
    let mut values: Vec<bool> = Vec::new();
    for i in 0..nodes.len()
        invariant
            values@.len() == i,
            forall|j: int| 0 <= j < i ==> #[trigger] values@[j] == prev@.contains(nodes@[j]),
    {
        values.push(prev.contains(&nodes[i]));
    }
    assert(values@ =~= nodes@.map_values(|v: usize| prev@.contains(v)));
    values
}

} // verus!
