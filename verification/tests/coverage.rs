use std::collections::BTreeSet;
use tiptop::coverage::{cov, intersects};

fn set(nodes: &[usize]) -> BTreeSet<usize> {
    nodes.iter().cloned().collect()
}

#[test]
fn counts_samples_with_a_seed() {
    let samples = vec![set(&[0, 1]), set(&[2]), set(&[1, 3]), set(&[])];
    assert_eq!(cov(&samples, &set(&[1])), 2);
    assert_eq!(cov(&samples, &set(&[1, 2])), 3);
    assert_eq!(cov(&samples, &set(&[0, 1, 2, 3])), 3);
}

#[test]
fn nothing_is_covered_without_seeds_or_samples() {
    assert_eq!(cov(&vec![set(&[0, 1]), set(&[2])], &set(&[])), 0);
    assert_eq!(cov(&vec![], &set(&[1])), 0);
}

#[test]
fn a_sample_counts_once() {
    assert_eq!(cov(&vec![set(&[0, 1, 2])], &set(&[0, 1, 2])), 1);
}

#[test]
fn more_seeds_cover_no_less() {
    let samples = vec![set(&[0, 4]), set(&[1]), set(&[2, 3])];
    assert!(cov(&samples, &set(&[4])) <= cov(&samples, &set(&[3, 4])));
    assert_eq!(cov(&samples, &set(&[3, 4])), 2);
}

#[test]
fn batches_add_up() {
    let seeds = set(&[1, 5]);
    let first = vec![set(&[1]), set(&[2])];
    let second = vec![set(&[5, 6]), set(&[1, 5]), set(&[0])];
    let mut all = first.clone();
    all.extend(second.iter().cloned());
    assert_eq!(cov(&first, &seeds), 1);
    assert_eq!(cov(&second, &seeds), 2);
    assert_eq!(cov(&all, &seeds), 3);
}

#[test]
fn intersection_needs_a_common_node() {
    assert!(intersects(&set(&[1, 2]), &set(&[2, 3])));
    assert!(!intersects(&set(&[1, 2]), &set(&[3, 4])));
    assert!(!intersects(&set(&[]), &set(&[])));
}
