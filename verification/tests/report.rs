use std::collections::BTreeSet;
use tiptop::report::seeds_json;

#[test]
fn writes_seeds_as_json() {
    let seeds: BTreeSet<usize> = vec![30, 2, 100].into_iter().collect();
    assert_eq!(seeds_json(&seeds), "[2,30,100]");
    let one: BTreeSet<usize> = vec![7].into_iter().collect();
    assert_eq!(seeds_json(&one), "[7]");
    assert_eq!(seeds_json(&BTreeSet::new()), "[]");
}
