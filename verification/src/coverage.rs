//! How many reverse-reachable (RR) samples a seed set covers.

use std::collections::BTreeSet;
use vstd::prelude::*;

verus! {

/// The mathematical sets behind a list of RR samples.
pub open spec fn samples_view(rr_sets: Seq<BTreeSet<usize>>) -> Seq<Set<usize>> {
    rr_sets.map_values(|rr: BTreeSet<usize>| rr@)
}

/// A sample is covered by a seed set when the two have a node in common.
pub open spec fn meets(rr: Set<usize>, seeds: Set<usize>) -> bool {
    exists|v: usize| rr.contains(v) && seeds.contains(v)
}

/// The number of samples that `seeds` covers.
pub open spec fn coverage(samples: Seq<Set<usize>>, seeds: Set<usize>) -> nat {
    samples.filter(|rr: Set<usize>| meets(rr, seeds)).len()
}

/// Whether the sample `rr` has a node of `seeds`.
pub fn intersects(rr: &BTreeSet<usize>, seeds: &BTreeSet<usize>) -> (b: bool)
    ensures
        b == meets(rr@, seeds@),
{
    for v in it: rr.iter()
        invariant
            it.seq().unref().to_set() == rr@,
            forall|j: int| 0 <= j < it.index() ==> !seeds@.contains(*#[trigger] it.seq()[j]),
    {
        if seeds.contains(v) {
            return true;
        }
    }
    false
}

/// The coverage of one more sample.
pub proof fn lemma_coverage_push(samples: Seq<Set<usize>>, rr: Set<usize>, seeds: Set<usize>)
    ensures
        coverage(samples.push(rr), seeds) == coverage(samples, seeds) + if meets(rr, seeds) {
            1nat
        } else {
            0nat
        },
{
    reveal(Seq::filter);
    assert(samples.push(rr).drop_last() =~= samples);
}

/// The number of samples in `rr_sets` that have a node of `seeds`.
pub fn cov(rr_sets: &Vec<BTreeSet<usize>>, seeds: &BTreeSet<usize>) -> (count: usize)
    ensures
        count == coverage(samples_view(rr_sets@), seeds@),
        count <= rr_sets@.len(),
{
    let mut count: usize = 0;
    proof {
        reveal(Seq::filter);
        assert(samples_view(rr_sets@.take(0)) =~= Seq::<Set<usize>>::empty());
    }
    for i in 0..rr_sets.len()
        invariant
            count == coverage(samples_view(rr_sets@.take(i as int)), seeds@),
            count <= i,
    {
        proof {
            lemma_coverage_push(
                samples_view(rr_sets@.take(i as int)),
                rr_sets@[i as int]@,
                seeds@,
            );
            assert(samples_view(rr_sets@.take(i + 1)) =~= samples_view(
                rr_sets@.take(i as int),
            ).push(rr_sets@[i as int]@));
        }
        if intersects(&rr_sets[i], seeds) {
            count = count + 1;
        }
    }
    assert(rr_sets@.take(rr_sets@.len() as int) =~= rr_sets@);
    count
}

/// No more samples are covered than were drawn.
pub proof fn law_coverage_bounded(samples: Seq<Set<usize>>, seeds: Set<usize>)
    ensures
        coverage(samples, seeds) <= samples.len(),
{
    samples.lemma_filter_len(|rr: Set<usize>| meets(rr, seeds));
}

/// A larger seed set covers at least as many samples.
pub proof fn law_coverage_monotone(
    samples: Seq<Set<usize>>,
    fewer: Set<usize>,
    more: Set<usize>,
)
    requires
        fewer.subset_of(more),
    ensures
        coverage(samples, fewer) <= coverage(samples, more),
    decreases samples.len(),
{
    reveal(Seq::filter);
    if samples.len() > 0 {
        law_coverage_monotone(samples.drop_last(), fewer, more);
        if meets(samples.last(), fewer) {
            let v = choose|v: usize| samples.last().contains(v) && fewer.contains(v);
            assert(samples.last().contains(v) && more.contains(v));
        }
    }
}

/// Counting batch by batch gives the same total as counting all the samples at once.
pub proof fn law_coverage_of_batches(
    first: Seq<Set<usize>>,
    second: Seq<Set<usize>>,
    seeds: Set<usize>,
)
    ensures
        coverage(first + second, seeds) == coverage(first, seeds) + coverage(second, seeds),
    decreases second.len(),
{
    if second.len() == 0 {
        reveal(Seq::filter);
        assert(first + second =~= first);
    } else {
        law_coverage_of_batches(first, second.drop_last(), seeds);
        lemma_coverage_push(first + second.drop_last(), second.last(), seeds);
        lemma_coverage_push(second.drop_last(), second.last(), seeds);
        assert((first + second.drop_last()).push(second.last()) =~= first + second);
        assert(second.drop_last().push(second.last()) =~= second);
    }
}

/// The empty seed set covers nothing.
pub proof fn law_no_seeds_cover_nothing(samples: Seq<Set<usize>>)
    ensures
        coverage(samples, Set::empty()) == 0,
    decreases samples.len(),
{
    reveal(Seq::filter);
    if samples.len() > 0 {
        law_no_seeds_cover_nothing(samples.drop_last());
    }
}

/// The coverage is the number of positions whose sample has a node in common with the seeds.
pub proof fn law_coverage_counts_positions(samples: Seq<Set<usize>>, seeds: Set<usize>)
    ensures
        Set::new(
            |i: int|
                0 <= i < samples.len() && exists|v: usize|
                    samples[i].contains(v) && seeds.contains(v),
        ).finite(),
        coverage(samples, seeds) == Set::new(
            |i: int|
                0 <= i < samples.len() && exists|v: usize|
                    samples[i].contains(v) && seeds.contains(v),
        ).len(),
    decreases samples.len(),
{
    let hit = |i: int|
        0 <= i < samples.len() && exists|v: usize| samples[i].contains(v) && seeds.contains(v);
    if samples.len() == 0 {
        assert(Set::new(hit) =~= Set::<int>::empty());
        reveal(Seq::filter);
    } else {
        let rest = samples.drop_last();
        let last = samples.len() - 1;
        let hit_rest = |i: int|
            0 <= i < rest.len() && exists|v: usize| rest[i].contains(v) && seeds.contains(v);
        law_coverage_counts_positions(rest, seeds);
        lemma_coverage_push(rest, samples.last(), seeds);
        assert(rest.push(samples.last()) =~= samples);
        if hit(last) {
            assert(Set::new(hit) =~= Set::new(hit_rest).insert(last));
        } else {
            assert(Set::new(hit) =~= Set::new(hit_rest));
        }
    }
}

/// One more sample raises the coverage by one if it has a node of the seeds, and otherwise leaves
/// it; no samples have no coverage.
pub proof fn law_coverage_of_one_more(
    samples: Seq<Set<usize>>,
    rr: Set<usize>,
    seeds: Set<usize>,
)
    ensures
        coverage(Seq::empty(), seeds) == 0,
        (exists|v: usize| rr.contains(v) && seeds.contains(v)) ==> coverage(
            samples.push(rr),
            seeds,
        ) == coverage(samples, seeds) + 1,
        (forall|v: usize| rr.contains(v) ==> !seeds.contains(v)) ==> coverage(
            samples.push(rr),
            seeds,
        ) == coverage(samples, seeds),
{
    reveal(Seq::filter);
    lemma_coverage_push(samples, rr, seeds);
}

} // verus!
