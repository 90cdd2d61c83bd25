//! Ordered listings of node sets.

use std::collections::BTreeSet;
use vstd::prelude::*;
use vstd::std_specs::cmp::OrdSpec;
use vstd::std_specs::iter::IteratorSpec;

verus! {

/// `order` lists each node of `set` once, in increasing order.
pub open spec fn lists(order: Seq<usize>, set: Set<usize>) -> bool {
    &&& forall|i: int, j: int| 0 <= i < j < order.len() ==> order[i] < order[j]
    &&& forall|v: usize| set.contains(v) <==> order.contains(v)
}

/// References to nodes are ordered as the nodes are.
proof fn lemma_node_refs_ordered()
    ensures
        vstd::laws_cmp::obeys_cmp::<&usize>(),
{
    broadcast use vstd::laws_eq::group_laws_eq;

    reveal(vstd::laws_eq::obeys_eq_spec_properties);
    reveal(vstd::laws_cmp::obeys_partial_cmp_spec_properties);
    reveal(vstd::laws_cmp::obeys_cmp_partial_ord);
    reveal(vstd::laws_cmp::obeys_cmp_ord);
    assert(vstd::laws_eq::obeys_eq::<&usize>());
}

/// The nodes of a set in increasing order.
pub fn ascending(set: &BTreeSet<usize>) -> (order: Vec<usize>)
    ensures
        lists(order@, set@),
{
    let mut order: Vec<usize> = Vec::new();
    let ghost keys: Seq<&usize> = set.iter().remaining();
    for v in it: set.iter()
        invariant
            it.seq() == keys,
            order@ == keys.unref().take(it.index()),
    {
        order.push(*v);
    }
    proof {
        lemma_node_refs_ordered();
        assert(order@ =~= keys.unref());
        assert forall|v: usize| set@.contains(v) <==> order@.contains(v) by {
            assert(keys.unref().to_set().contains(v) <==> order@.contains(v));
        }
        assert forall|i: int, j: int| 0 <= i < j < order@.len() implies order@[i] < order@[j] by {
            assert(vstd::std_specs::btree::increasing_seq(keys));
            assert(OrdSpec::cmp_spec(&keys[i], &keys[j]) is Less);
        }
    }
    order
}

/// Every node of `set` is one of `nodes`.
pub open spec fn within(set: Set<usize>, nodes: Seq<usize>) -> bool {
    forall|v: usize| set.contains(v) ==> nodes.contains(v)
}

/// The set of the nodes in a list.
pub fn node_set(nodes: &Vec<usize>) -> (set: BTreeSet<usize>)
    ensures
        set@ == nodes@.to_set(),
{
    let mut set: BTreeSet<usize> = BTreeSet::new();
    for i in 0..nodes.len()
        invariant
            forall|v: usize| set@.contains(v) <==> nodes@.take(i as int).contains(v),
    {
        set.insert(nodes[i]);
        assert forall|v: usize| set@.contains(v) <==> nodes@.take(i + 1).contains(v) by {
            lemma_take_one_more(nodes@, i as int, v);
        }
    }
    assert(nodes@.take(nodes@.len() as int) =~= nodes@);
    assert(set@ =~= nodes@.to_set());
    set
}

/// Whether no node occurs twice in a list.
pub fn distinct(nodes: &Vec<usize>) -> (b: bool)
    ensures
        b == nodes@.no_duplicates(),
{
    let mut seen: BTreeSet<usize> = BTreeSet::new();
    for i in 0..nodes.len()
        invariant
            forall|v: usize| seen@.contains(v) <==> nodes@.take(i as int).contains(v),
            nodes@.take(i as int).no_duplicates(),
    {
        let ghost before = nodes@.take(i as int);
        if !seen.insert(nodes[i]) {
            proof {
                let j = before.index_of(nodes@[i as int]);
                assert(nodes@[j] == nodes@[i as int] && j < i);
            }
            return false;
        }
        assert forall|v: usize| seen@.contains(v) <==> nodes@.take(i + 1).contains(v) by {
            lemma_take_one_more(nodes@, i as int, v);
        }
        let ghost next = nodes@.take(i + 1);
        assert forall|a: int, b: int| 0 <= a < b < next.len() implies next[a] != next[b] by {
            assert(before[a] == nodes@[a]);
            if b < i {
                assert(before[b] == nodes@[b]);
            } else {
                assert(before.contains(nodes@[a]));
            }
        }
    }
    assert(nodes@.take(nodes@.len() as int) =~= nodes@);
    true
}

/// Whether every node of `set` is one of `known`.
pub fn is_within(set: &BTreeSet<usize>, known: &BTreeSet<usize>) -> (b: bool)
    ensures
        b == set@.subset_of(known@),
{
    let order = ascending(set);
    for i in 0..order.len()
        invariant
            lists(order@, set@),
            forall|j: int| 0 <= j < i ==> known@.contains(#[trigger] order@[j]),
    {
        assert(order@.contains(order@[i as int]));
        if !known.contains(&order[i]) {
            return false;
        }
    }
    assert(set@.subset_of(known@));
    true
}

proof fn lemma_take_one_more(nodes: Seq<usize>, i: int, v: usize)
    requires
        0 <= i < nodes.len(),
    ensures
        nodes.take(i + 1).contains(v) <==> nodes.take(i).contains(v) || nodes[i] == v,
{
    assert(nodes.take(i + 1) =~= nodes.take(i).push(nodes[i]));
    if nodes.take(i).contains(v) {
        let j = nodes.take(i).index_of(v);
        assert(nodes.take(i + 1)[j] == v);
    }
    if nodes.take(i + 1).contains(v) {
        let j = nodes.take(i + 1).index_of(v);
        assert(j < i ==> nodes.take(i)[j] == v);
    }
    assert(nodes.take(i + 1)[i] == nodes[i]);
}

/// A set has one listing only.
pub proof fn law_listing_unique(first: Seq<usize>, second: Seq<usize>, set: Set<usize>)
    requires
        lists(first, set),
        lists(second, set),
    ensures
        first == second,
    decreases first.len(),
{
    if first.len() == 0 {
        if second.len() > 0 {
            assert(second.contains(second[0]));
        }
        assert(first =~= second);
    } else {
        assert(first.contains(first[0]));
        let (a, b) = (first.last(), second.last());
        assert(first.contains(a) && second.contains(b));
        let i = choose|i: int| 0 <= i < first.len() && first[i] == b;
        let j = choose|j: int| 0 <= j < second.len() && second[j] == a;
        assert(a == b);
        lemma_lists_without_last(first, set);
        lemma_lists_without_last(second, set);
        law_listing_unique(first.drop_last(), second.drop_last(), set.remove(a));
        assert(first =~= first.drop_last().push(a));
        assert(second =~= second.drop_last().push(a));
    }
}

proof fn lemma_lists_without_last(order: Seq<usize>, set: Set<usize>)
    requires
        lists(order, set),
        order.len() > 0,
    ensures
        lists(order.drop_last(), set.remove(order.last())),
{
    let rest = order.drop_last();
    assert forall|v: usize| set.remove(order.last()).contains(v) <==> rest.contains(v) by {
        if rest.contains(v) {
            let i = choose|i: int| 0 <= i < rest.len() && rest[i] == v;
            assert(order[i] == v && order.contains(v));
        }
        if set.contains(v) && v != order.last() {
            let i = choose|i: int| 0 <= i < order.len() && order[i] == v;
            assert(rest[i] == v);
        }
    }
}

/// The nodes of a listing are those of the set, each once, and rise from one to the next.
pub proof fn law_listing_rises(order: Seq<usize>, set: Set<usize>)
    requires
        lists(order, set),
    ensures
        order.to_set() == set,
        order.no_duplicates(),
        forall|i: int| 0 < i < order.len() ==> order[i - 1] < #[trigger] order[i],
{
    assert(order.to_set() =~= set);
}

} // verus!
