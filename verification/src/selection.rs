//! The selection engine: tournament selection over fitness scores.
//!
//! Each output slot independently samples `tournament_size` population
//! indices uniformly at random, with replacement, and keeps the sampled
//! index with the lowest score. A tournament of size one degenerates to
//! uniform selection; one that covers the whole population picks the global
//! best (see `lemma_exhaustive_tournament`).

use vstd::prelude::*;
use crate::rng::RandomSource;

verus! {

/// `w` wins the tournament over `sample`: it is one of the sampled indices
/// and no sampled index has a lower score.
pub open spec fn is_tournament_winner(scores: Seq<u64>, sample: Seq<usize>, w: usize) -> bool {
    &&& sample.contains(w)
    &&& forall|j: int|
        0 <= j < sample.len() ==> scores[w as int] <= scores[(#[trigger] sample[j]) as int]
}

/// `w` could be the outcome of one tournament of `t_size` uniform draws.
pub open spec fn selected_by_tournament(scores: Seq<u64>, t_size: int, w: usize) -> bool {
    exists|sample: Seq<usize>|
        sample.len() == t_size && #[trigger] is_tournament_winner(scores, sample, w)
}

/// The winner of one tournament: the sampled index with the lowest score,
/// the last such when several tie.
pub fn tournament_winner(scores: &Vec<u64>, sample: &Vec<usize>) -> (w: usize)
    requires
        sample@.len() >= 1,
        forall|j: int| 0 <= j < sample@.len() ==> (#[trigger] sample@[j]) < scores@.len(),
    ensures
        w < scores@.len(),
        is_tournament_winner(scores@, sample@, w),
{
    let mut w = sample[0];
    proof {
        assert(sample@[0] == w);
    }
    let mut j: usize = 1;
    while j < sample.len()
        invariant
            1 <= j <= sample@.len(),
            forall|k: int| 0 <= k < sample@.len() ==> (#[trigger] sample@[k]) < scores@.len(),
            sample@.contains(w),
            w < scores@.len(),
            forall|k: int|
                0 <= k < j ==> scores@[w as int] <= scores@[(#[trigger] sample@[k]) as int],
        decreases sample@.len() - j,
    {
        let c = sample[j];
        if scores[c] <= scores[w] {
            w = c;
            proof {
                assert(sample@[j as int] == w);
            }
        }
        j = j + 1;
    }
    w
}

/// Tournament selection: for each of `output_count` slots independently,
/// sample `tournament_size` indices uniformly with replacement and keep the
/// best.
pub fn select_parents(
    scores: &Vec<u64>,
    tournament_size: usize,
    output_count: usize,
    rng: &mut RandomSource,
) -> (parents: Vec<usize>)
    requires
        scores@.len() >= 1,
        tournament_size >= 1,
    ensures
        parents@.len() == output_count,
        forall|i: int| 0 <= i < parents@.len() ==> (#[trigger] parents@[i]) < scores@.len(),
        forall|i: int|
            0 <= i < parents@.len() ==> selected_by_tournament(
                scores@,
                tournament_size as int,
                #[trigger] parents@[i],
            ),
{
    let mut parents: Vec<usize> = Vec::new();
    let mut i: usize = 0;
    while i < output_count
        invariant
            i <= output_count,
            scores@.len() >= 1,
            tournament_size >= 1,
            parents@.len() == i,
            forall|k: int| 0 <= k < i ==> (#[trigger] parents@[k]) < scores@.len(),
            forall|k: int|
                0 <= k < i ==> selected_by_tournament(
                    scores@,
                    tournament_size as int,
                    #[trigger] parents@[k],
                ),
        decreases output_count - i,
    {
        let mut sample: Vec<usize> = Vec::new();
        let mut t: usize = 0;
        while t < tournament_size
            invariant
                t <= tournament_size,
                scores@.len() >= 1,
                sample@.len() == t,
                forall|k: int| 0 <= k < t ==> (#[trigger] sample@[k]) < scores@.len(),
            decreases tournament_size - t,
        {
            let idx = rng.next_below(scores.len());
            sample.push(idx);
            t = t + 1;
        }
        let w = tournament_winner(scores, &sample);
        parents.push(w);
        proof {
            assert(is_tournament_winner(scores@, sample@, w));
            assert(selected_by_tournament(scores@, tournament_size as int, w));
        }
        i = i + 1;
    }
    parents
}

/// A tournament whose sample covers every population index picks the global
/// best whenever all scores are distinct: with `tournament_size` as large as
/// the population and full coverage, selection is deterministic.
pub proof fn lemma_exhaustive_tournament(
    scores: Seq<u64>,
    sample: Seq<usize>,
    w: usize,
    best: usize,
)
    requires
        is_tournament_winner(scores, sample, w),
        forall|j: int| 0 <= j < sample.len() ==> (#[trigger] sample[j]) < scores.len(),
        forall|i: int, j: int| 0 <= i < j < scores.len() ==> scores[i] != scores[j],
        forall|i: usize| (i as int) < scores.len() ==> sample.contains(i),
        (best as int) < scores.len(),
        forall|j: int| 0 <= j < scores.len() ==> scores[best as int] <= #[trigger] scores[j],
    ensures
        w == best,
{
    assert(sample.contains(w));
    let kw = choose|k: int| 0 <= k < sample.len() && sample[k] == w;
    assert((w as int) < scores.len());
    assert(sample.contains(best));
    let kb = choose|k: int| 0 <= k < sample.len() && sample[k] == best;
    assert(scores[w as int] <= scores[sample[kb] as int]);
    assert(scores[w as int] == scores[best as int]);
    if w != best {
        if (w as int) < (best as int) {
            assert(scores[w as int] != scores[best as int]);
        } else {
            assert(scores[best as int] != scores[w as int]);
        }
    }
}

} // verus!
