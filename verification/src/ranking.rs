//! Ranking: a stable ascending sort of population indices by fitness.
//!
//! The scheduler sorts indices rather than the candidates themselves; ties
//! are broken by the original population index, so the ranking is a
//! deterministic function of the scores.

use vstd::prelude::*;

verus! {

broadcast use vstd::seq_lib::group_to_multiset_ensures;

/// Index `i` may stand no later than `j` in a ranking over `scores`:
/// strictly better (lower) fitness, or equal fitness and no greater index.
pub open spec fn rank_le(scores: Seq<u64>, i: int, j: int) -> bool {
    scores[i] < scores[j] || (scores[i] == scores[j] && i <= j)
}

/// The sequence 0, 1, .., n-1.
pub open spec fn identity_perm(n: int) -> Seq<usize> {
    Seq::new(n as nat, |i: int| i as usize)
}

/// `perm` ranks all of `0 .. scores.len()`: it is a permutation of the index
/// range, ascending by fitness, ties broken by index.
pub open spec fn valid_ranking(perm: Seq<usize>, scores: Seq<u64>) -> bool {
    &&& perm.len() == scores.len()
    &&& (forall|k: int| 0 <= k < perm.len() ==> (#[trigger] perm[k]) < scores.len())
    &&& perm.to_multiset() == identity_perm(scores.len() as int).to_multiset()
    &&& (forall|k1: int, k2: int|
        0 <= k1 < k2 < perm.len() ==> rank_le(scores, #[trigger] perm[k1] as int, #[trigger] perm[k2] as int))
}

/// `v` is the least value of `s` (and occurs in it).
pub open spec fn is_min_of(v: u64, s: Seq<u64>) -> bool {
    &&& exists|i: int| 0 <= i < s.len() && s[i] == v
    &&& forall|i: int| 0 <= i < s.len() ==> v <= #[trigger] s[i]
}

/// In a valid ranking the first entry points at a least score.
pub proof fn lemma_ranking_first_is_min(perm: Seq<usize>, scores: Seq<u64>)
    requires
        valid_ranking(perm, scores),
        perm.len() >= 1,
        scores.len() <= usize::MAX,
    ensures
        is_min_of(scores[perm[0] as int], scores),
{
    let n = scores.len() as int;
    assert forall|j: int| 0 <= j < n implies scores[perm[0] as int] <= #[trigger] scores[j] by {
        assert(identity_perm(n)[j] == j as usize);
        assert(identity_perm(n).contains(j as usize));
        assert(identity_perm(n).to_multiset().count(j as usize) > 0);
        assert(perm.to_multiset().count(j as usize) > 0);
        assert(perm.contains(j as usize));
        let k = choose|k: int| 0 <= k < perm.len() && perm[k] == j as usize;
        if k > 0 {
            assert(rank_le(scores, perm[0] as int, perm[k] as int));
        }
    }
    assert(scores[perm[0] as int] == scores[perm[0] as int]);
}

fn rank_before(scores: &Vec<u64>, i: usize, j: usize) -> (r: bool)
    requires
        i < scores@.len(),
        j < scores@.len(),
    ensures
        r == rank_le(scores@, i as int, j as int),
{
    scores[i] < scores[j] || (scores[i] == scores[j] && i <= j)
}

/// Rank the population: a permutation of `0 .. scores.len()`, stably sorted
/// ascending by score (insertion sort).
pub fn rank_indices(scores: &Vec<u64>) -> (perm: Vec<usize>)
    ensures
        valid_ranking(perm@, scores@),
{
    let n = scores.len();
    let mut perm: Vec<usize> = Vec::new();
    let mut i: usize = 0;
    while i < n
        invariant
            i <= n,
            n == scores@.len(),
            perm@.len() == i,
            forall|k: int| 0 <= k < i ==> (#[trigger] perm@[k]) < n,
            perm@.to_multiset() == identity_perm(i as int).to_multiset(),
            forall|k1: int, k2: int|
                0 <= k1 < k2 < i ==> rank_le(scores@, #[trigger] perm@[k1] as int, #[trigger] perm@[k2] as int),
        decreases n - i,
    {
        let ghost old_perm = perm@;
        let mut pos: usize = 0;
        while pos < perm.len() && rank_before(scores, perm[pos], i)
            invariant
                perm@ == old_perm,
                perm@.len() == i,
                i < n,
                n == scores@.len(),
                forall|k: int| 0 <= k < i ==> (#[trigger] perm@[k]) < n,
                pos <= i,
                forall|k: int| 0 <= k < pos ==> rank_le(scores@, #[trigger] perm@[k] as int, i as int),
            decreases i - pos,
        {
            pos = pos + 1;
        }
        proof {
            if pos < perm@.len() {
                assert(!rank_le(scores@, perm@[pos as int] as int, i as int));
            }
        }
        perm.insert(pos, i);
        proof {
            old_perm.insert_ensures(pos as int, i as usize);
            assert(identity_perm((i + 1) as int) =~= identity_perm(i as int).push(i as usize));
            assert(perm@.to_multiset() == old_perm.to_multiset().insert(i as usize));
            assert(identity_perm((i + 1) as int).to_multiset() == identity_perm(
                i as int,
            ).to_multiset().insert(i as usize));
            assert forall|k1: int, k2: int|
                0 <= k1 < k2 < i + 1 implies rank_le(
                scores@,
                #[trigger] perm@[k1] as int,
                #[trigger] perm@[k2] as int,
            ) by {
                if k2 < pos {
                } else if k1 < pos && k2 == pos {
                    assert(perm@[k1] == old_perm[k1]);
                    assert(perm@[k2] == i as usize);
                } else if k1 < pos && k2 > pos {
                    assert(perm@[k1] == old_perm[k1]);
                    assert(perm@[k2] == old_perm[k2 - 1]);
                } else if k1 == pos {
                    assert(perm@[k1] == i as usize);
                    assert(perm@[k2] == old_perm[k2 - 1]);
                    assert(pos <= k2 - 1 < i);
                    assert(!rank_le(scores@, old_perm[pos as int] as int, i as int));
                    if k2 - 1 > pos {
                        assert(rank_le(scores@, old_perm[pos as int] as int, old_perm[k2 - 1] as int));
                    }
                } else {
                    assert(perm@[k1] == old_perm[k1 - 1]);
                    assert(perm@[k2] == old_perm[k2 - 1]);
                }
            }
        }
        i = i + 1;
    }
    perm
}

} // verus!
