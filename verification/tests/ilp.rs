use std::collections::BTreeSet;
use tiptop::ilp::{
    ilp_mc, read_solution, start_values, Coefficient, Program, Relation, Sense, Term, Value,
};

fn set(nodes: &[usize]) -> BTreeSet<usize> {
    nodes.iter().cloned().collect()
}

fn unit(var: usize) -> Term {
    Term { var, coefficient: Coefficient::One }
}

fn priced(var: usize) -> Term {
    Term { var, coefficient: Coefficient::Cost(var) }
}

/// The value of a constraint's terms, in tenths where costs are given.
fn sum(terms: &[Term], values: &[bool], costs: &[i64]) -> i64 {
    terms
        .iter()
        .filter(|t| values[t.var])
        .map(|t| match t.coefficient {
            Coefficient::One => 1,
            Coefficient::Cost(i) => costs[i],
        })
        .sum()
}

fn feasible(p: &Program, values: &[bool], costs: &[i64]) -> bool {
    p.constraints.iter().all(|c| match c.relation {
        Relation::AtMost => sum(&c.terms, values, costs) <= c.bound as i64,
        Relation::AtLeast => sum(&c.terms, values, costs) >= c.bound as i64,
    })
}

fn objective(p: &Program, values: &[bool]) -> usize {
    p.variables.iter().zip(values).filter(|(_, set)| **set).map(|(v, _)| v.objective).sum()
}

/// The best assignment of all, by trying each.
fn solve(p: &Program, costs: &[i64]) -> Vec<bool> {
    let n = p.variables.len();
    (0..1usize << n)
        .map(|bits| (0..n).map(|i| bits >> i & 1 == 1).collect::<Vec<bool>>())
        .filter(|values| feasible(p, values, costs))
        .min_by_key(|values| objective(p, values))
        .unwrap()
}

fn report(values: &[bool]) -> Vec<Value> {
    values.iter().map(|b| Value::Binary(*b)).collect()
}

#[test]
fn builds_variables_and_constraints() {
    let nodes = vec![10, 11, 12];
    let samples = vec![set(&[12, 10]), set(&[11]), set(&[])];
    let p = ilp_mc(&nodes, &samples, None, 2, None);
    assert_eq!(p.sense, Sense::Minimize);
    let vars: Vec<(&str, usize)> =
        p.variables.iter().map(|v| (v.name.as_str(), v.objective)).collect();
    assert_eq!(
        vars,
        vec![("s10", 0), ("s11", 0), ("s12", 0), ("y0", 1), ("y1", 1), ("y2", 1)]
    );
    assert_eq!(p.constraints.len(), 4);
    assert_eq!(p.constraints[0].name, "cardinality");
    assert_eq!(p.constraints[0].terms, vec![unit(0), unit(1), unit(2)]);
    assert_eq!(p.constraints[0].relation, Relation::AtMost);
    assert_eq!(p.constraints[0].bound, 2);
    assert_eq!(p.constraints[1].name, "rr0");
    assert_eq!(p.constraints[1].terms, vec![unit(3), unit(0), unit(2)]);
    assert_eq!(p.constraints[1].relation, Relation::AtLeast);
    assert_eq!(p.constraints[1].bound, 1);
    assert_eq!(p.constraints[2].terms, vec![unit(4), unit(1)]);
    assert_eq!(p.constraints[3].name, "rr2");
    assert_eq!(p.constraints[3].terms, vec![unit(5)]);
    assert!(p.start.is_none());
    assert!(p.start_values.is_none());
}

#[test]
fn weights_seeds_by_cost() {
    let p = ilp_mc(&vec![0, 1, 2], &vec![], Some(3), 7, None);
    assert_eq!(p.constraints.len(), 1);
    assert_eq!(p.constraints[0].terms, vec![priced(0), priced(1), priced(2)]);
    assert_eq!(p.constraints[0].bound, 7);
}

#[test]
fn pairs_costs_with_nodes_up_to_the_shorter() {
    let short = ilp_mc(&vec![0, 1, 2], &vec![], Some(2), 7, None);
    assert_eq!(short.constraints[0].terms, vec![priced(0), priced(1)]);
    let long = ilp_mc(&vec![0, 1, 2], &vec![], Some(5), 7, None);
    assert_eq!(long.constraints[0].terms, vec![priced(0), priced(1), priced(2)]);
}

#[test]
fn starts_from_the_previous_seeds() {
    let nodes = vec![5, 3, 9];
    let prev = set(&[9, 3]);
    let p = ilp_mc(&nodes, &vec![set(&[5])], None, 2, Some(&prev));
    // nodes 3 and 9 in increasing order stand at positions 1 and 2
    assert_eq!(p.start, Some(vec![1, 2]));
    assert_eq!(p.start_values, Some(vec![false, true, true]));
    assert_eq!(start_values(&nodes, &prev), vec![false, true, true]);
    let empty = ilp_mc(&nodes, &vec![], None, 2, Some(&set(&[])));
    assert_eq!(empty.start, Some(vec![]));
}

#[test]
fn the_start_is_feasible() {
    let nodes = vec![0, 1, 2];
    let prev = set(&[1]);
    let samples = vec![set(&[1, 2]), set(&[0]), set(&[2])];
    let p = ilp_mc(&nodes, &samples, None, 1, Some(&prev));
    let mut values = vec![false; p.variables.len()];
    for var in p.start.as_ref().unwrap() {
        values[*var] = true;
    }
    for (j, rr) in samples.iter().enumerate() {
        values[nodes.len() + j] = rr.intersection(&prev).count() == 0;
    }
    assert!(feasible(&p, &values, &[]));
    assert_eq!(objective(&p, &values), 2);
}

#[test]
fn reads_the_set_variables() {
    let nodes = vec![4, 8, 6];
    let values = vec![
        Value::Binary(true),
        Value::Binary(false),
        Value::Binary(true),
        Value::Binary(true),
    ];
    assert_eq!(read_solution(&nodes, &values), set(&[4, 6]));
    let other = vec![Value::Other, Value::Binary(true), Value::Other];
    assert_eq!(read_solution(&nodes, &other), set(&[8]));
}

#[test]
fn optimal_seeds_cover_the_most() {
    let nodes = vec![0, 1, 2, 3];
    let samples = vec![set(&[0, 1]), set(&[1, 2]), set(&[3]), set(&[2, 3]), set(&[0])];
    let p = ilp_mc(&nodes, &samples, None, 2, None);
    let best = solve(&p, &[]);
    let seeds = read_solution(&nodes, &report(&best));
    let covered = tiptop::coverage::cov(&samples, &seeds);
    assert_eq!(objective(&p, &best) + covered, samples.len());
    for a in 0..4 {
        for b in 0..4 {
            assert!(tiptop::coverage::cov(&samples, &set(&[a, b])) <= covered);
        }
    }
    assert_eq!(covered, 4);
    assert!(seeds.len() <= 2);
}

#[test]
fn optimal_seeds_stay_within_costs() {
    let nodes = vec![0, 1, 2];
    let samples = vec![set(&[0, 1]), set(&[1]), set(&[2]), set(&[1, 2])];
    let costs = [1, 9, 2];
    let p = ilp_mc(&nodes, &samples, Some(3), 3, None);
    let best = solve(&p, &costs);
    // node 1 covers the most by itself and costs too much
    assert_eq!(read_solution(&nodes, &report(&best)), set(&[0, 2]));
    assert_eq!(objective(&p, &best), 1);
}

/// The seeds of a best assignment, and how many samples they cover.
fn best(
    samples: &Vec<BTreeSet<usize>>,
    costs: Option<&[i64]>,
    k: usize,
    prev: Option<&BTreeSet<usize>>,
) -> (BTreeSet<usize>, usize) {
    let nodes = vec![0, 1, 2];
    let p = ilp_mc(&nodes, samples, costs.map(|c| c.len()), k, prev);
    let seeds = read_solution(&nodes, &report(&solve(&p, costs.unwrap_or(&[]))));
    let covered = tiptop::coverage::cov(samples, &seeds);
    (seeds, covered)
}

fn some_samples() -> Vec<BTreeSet<usize>> {
    vec![set(&[0, 1]), set(&[1]), set(&[2]), set(&[0, 2])]
}

#[test]
fn missing_costs_are_costs_of_one() {
    for k in 0..4 {
        let (a, covered) = best(&some_samples(), None, k, None);
        let (b, priced) = best(&some_samples(), Some(&[1, 1, 1]), k, None);
        assert_eq!(covered, priced);
        assert!(a.len() <= k && b.len() <= k);
    }
    assert_eq!(best(&some_samples(), None, 1, None).1, 2);
}

#[test]
fn a_start_leaves_the_best_coverage() {
    let prev = set(&[1]);
    let (_, without) = best(&some_samples(), None, 2, None);
    let (_, with) = best(&some_samples(), None, 2, Some(&prev));
    assert_eq!(without, with);
    assert_eq!(with, 4);
    assert!(with >= tiptop::coverage::cov(&some_samples(), &prev));
}

#[test]
fn a_larger_budget_covers_no_less() {
    let covered: Vec<usize> =
        (0..4).map(|k| best(&some_samples(), Some(&[1, 2, 3]), k, None).1).collect();
    assert_eq!(covered, vec![0, 2, 2, 3]);
}

#[test]
fn samples_raise_the_best_coverage_by_one_each_at_most() {
    let mut samples = some_samples();
    let (_, before) = best(&samples, None, 1, None);
    samples.extend(vec![set(&[0]), set(&[1, 2])]);
    let (_, after) = best(&samples, None, 1, None);
    assert!(before <= after && after <= before + 2);
    assert_eq!((before, after), (2, 3));
}

#[test]
fn names_do_not_repeat() {
    let nodes = vec![1, 11, 111];
    let samples = vec![set(&[]); 12];
    let p = ilp_mc(&nodes, &samples, None, 1, None);
    let vars: BTreeSet<&String> = p.variables.iter().map(|v| &v.name).collect();
    assert_eq!(vars.len(), 15);
    let constraints: BTreeSet<&String> = p.constraints.iter().map(|c| &c.name).collect();
    assert_eq!(constraints.len(), 13);
}
