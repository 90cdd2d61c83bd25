use std::collections::BTreeSet;
use tiptop::nodes::{ascending, distinct, is_within, node_set};

fn set(nodes: &[usize]) -> BTreeSet<usize> {
    nodes.iter().cloned().collect()
}

#[test]
fn lists_nodes_in_order() {
    assert_eq!(ascending(&set(&[9, 2, 17, 0])), vec![0, 2, 9, 17]);
    assert_eq!(ascending(&set(&[])), Vec::<usize>::new());
}

#[test]
fn collects_the_nodes_of_a_list() {
    assert_eq!(node_set(&vec![3, 1, 3]), set(&[1, 3]));
}

#[test]
fn finds_repeated_nodes() {
    assert!(distinct(&vec![]));
    assert!(distinct(&vec![4, 2, 0]));
    assert!(!distinct(&vec![4, 2, 4]));
}

#[test]
fn finds_unknown_nodes() {
    assert!(is_within(&set(&[1, 2]), &set(&[0, 1, 2])));
    assert!(is_within(&set(&[]), &set(&[])));
    assert!(!is_within(&set(&[1, 3]), &set(&[0, 1, 2])));
}
