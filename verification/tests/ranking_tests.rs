//! Tests of the stable fitness ranking.

use ga::ranking::rank_indices;

#[test]
fn ranking_sorts_ascending() {
    let scores: Vec<u64> = vec![50, 10, 40, 20, 30];
    assert_eq!(rank_indices(&scores), vec![1, 3, 4, 2, 0]);
}

#[test]
fn ranking_breaks_ties_by_index() {
    let scores: Vec<u64> = vec![5, 3, 5, 3];
    assert_eq!(rank_indices(&scores), vec![1, 3, 0, 2]);
}

#[test]
fn ranking_of_empty_and_single() {
    assert_eq!(rank_indices(&Vec::new()), Vec::<usize>::new());
    assert_eq!(rank_indices(&vec![7u64]), vec![0]);
}
