//! Tests of tournament selection.

use ga::rng::RandomSource;
use ga::selection::{select_parents, tournament_winner};

#[test]
fn winner_is_lowest_scored_sample() {
    let scores: Vec<u64> = vec![5, 3, 9];
    assert_eq!(tournament_winner(&scores, &vec![0, 2]), 0);
    assert_eq!(tournament_winner(&scores, &vec![0, 1, 2]), 1);
    assert_eq!(tournament_winner(&scores, &vec![2]), 2);
}

#[test]
fn winner_takes_last_of_tied_samples() {
    let scores: Vec<u64> = vec![5, 5, 7];
    assert_eq!(tournament_winner(&scores, &vec![0, 1]), 1);
    assert_eq!(tournament_winner(&scores, &vec![1, 0]), 0);
}

#[test]
fn full_tournament_selects_global_best() {
    // Tournament size equal to the population size, covering every index,
    // with all-distinct scores: deterministically the global best.
    let scores: Vec<u64> = vec![40, 10, 30, 20];
    let sample: Vec<usize> = vec![0, 1, 2, 3];
    assert_eq!(tournament_winner(&scores, &sample), 1);
    // Duplicated coverage changes nothing.
    let sample2: Vec<usize> = vec![3, 2, 1, 0, 1, 2, 3];
    assert_eq!(tournament_winner(&scores, &sample2), 1);
}

#[test]
fn select_parents_yields_count_valid_indices() {
    let scores: Vec<u64> = vec![9, 2, 7, 4, 5];
    let mut rng = RandomSource::from_seed(11);
    let parents = select_parents(&scores, 3, 40, &mut rng);
    assert_eq!(parents.len(), 40);
    for p in &parents {
        assert!(*p < scores.len());
    }
}

#[test]
fn single_candidate_always_selected() {
    let scores: Vec<u64> = vec![123];
    let mut rng = RandomSource::from_entropy();
    let parents = select_parents(&scores, 5, 10, &mut rng);
    assert_eq!(parents, vec![0usize; 10]);
}

#[test]
fn seeded_selection_is_reproducible() {
    let scores: Vec<u64> = vec![9, 2, 7, 4, 5, 1, 8];
    let mut rng1 = RandomSource::from_seed(42);
    let mut rng2 = RandomSource::from_seed(42);
    let a = select_parents(&scores, 4, 25, &mut rng1);
    let b = select_parents(&scores, 4, 25, &mut rng2);
    assert_eq!(a, b);
}
