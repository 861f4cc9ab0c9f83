//! Tests of crossover, mutation and next-generation construction.

use ga::reproduction::{create_next_generation, crossover, make_offspring, mutate_with};
use ga::rng::RandomSource;

#[test]
fn crossover_glues_prefix_and_suffix() {
    let p1: Vec<u8> = vec![1, 2, 3, 4];
    let p2: Vec<u8> = vec![5, 6, 7, 8];
    assert_eq!(crossover(&p1, &p2, 2), vec![1, 2, 7, 8]);
    assert_eq!(crossover(&p1, &p2, 0), p2);
    assert_eq!(crossover(&p1, &p2, 4), p1);
}

#[test]
fn mutation_replaces_exactly_where_coins_fall() {
    let buf: Vec<u8> = vec![10, 20, 30];
    let repl: Vec<u8> = vec![70, 80, 90];
    let coins: Vec<u32> = vec![5, 149, 150];
    assert_eq!(mutate_with(&buf, &coins, &repl, 150), vec![70, 80, 30]);
}

#[test]
fn mutation_rate_zero_changes_nothing() {
    let buf: Vec<u8> = vec![1, 2, 3, 4, 5];
    let repl: Vec<u8> = vec![9, 9, 9, 9, 9];
    let coins: Vec<u32> = vec![0, 1, 2, 3, 999_999];
    assert_eq!(mutate_with(&buf, &coins, &repl, 0), buf);
}

#[test]
fn mutation_rate_one_replaces_every_byte() {
    let buf: Vec<u8> = vec![1, 2, 3, 4, 5];
    let repl: Vec<u8> = vec![9, 8, 7, 6, 5];
    // The engine's coins are always drawn below one million.
    let coins: Vec<u32> = vec![0, 500_000, 999_999, 123, 42];
    assert_eq!(mutate_with(&buf, &coins, &repl, 1_000_000), repl);
}

fn is_crossover_of(child: &[u8], pop: &[Vec<u8>]) -> bool {
    for p1 in pop {
        for p2 in pop {
            for cut in 0..=p1.len() {
                let mut expect = p1[..cut].to_vec();
                expect.extend_from_slice(&p2[cut..]);
                if child == expect.as_slice() {
                    return true;
                }
            }
        }
    }
    false
}

#[test]
fn offspring_without_mutation_is_pure_crossover() {
    let a: Vec<u8> = vec![1, 2, 3, 4, 5, 6, 7, 8];
    let b: Vec<u8> = vec![101, 102, 103, 104, 105, 106, 107, 108];
    let ranked = vec![a, b];
    let parents: Vec<usize> = vec![0, 1];
    let mut rng = RandomSource::from_seed(7);
    for _ in 0..20 {
        let child = make_offspring(&ranked, &parents, 0, 8, &mut rng);
        assert_eq!(child.len(), 8);
        assert!(is_crossover_of(&child, &ranked), "foreign bytes in {child:?}");
    }
}

#[test]
fn next_generation_preserves_elites_in_order() {
    let a: Vec<u8> = vec![1, 1, 1, 1];
    let b: Vec<u8> = vec![2, 2, 2, 2];
    let c: Vec<u8> = vec![3, 3, 3, 3];
    let ranked = vec![a.clone(), b.clone(), c];
    let parents: Vec<usize> = vec![0, 1, 2];
    let next = create_next_generation(&ranked, &parents, 2, 0, 4);
    assert_eq!(next.len(), 3);
    assert_eq!(next[0], a);
    assert_eq!(next[1], b);
    assert_eq!(next[2].len(), 4);
    assert!(is_crossover_of(&next[2], &ranked));
}
