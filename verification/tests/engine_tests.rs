//! Tests of the generation scheduler: initialisation, the per-tick
//! invariants, elite preservation and the non-increasing best-fitness
//! history.

use ga::engine::{Config, Engine, EngineError};
use ga::fitness::fitness;
use ga::rng::RandomSource;

fn config() -> Config {
    Config {
        population_size: 12,
        mutation_rate_ppm: 1_000,
        elite_fraction_ppm: 200_000,
        tournament_size: 4,
        amplification_exponent: 2,
        snapshot_every: 10,
    }
}

fn red_target(w: u32, h: u32) -> Vec<u8> {
    let mut v: Vec<u8> = Vec::new();
    for _ in 0..(w * h) {
        v.extend_from_slice(&[255, 0, 0, 255]);
    }
    v
}

#[test]
fn default_configuration_is_accepted() {
    let cfg = Config::default();
    assert_eq!(cfg.population_size, 1000);
    assert_eq!(cfg.mutation_rate_ppm, 1000);
    assert_eq!(cfg.elite_fraction_ppm, 50_000);
    assert_eq!(cfg.tournament_size, 100);
    assert_eq!(cfg.amplification_exponent, 1);
    assert_eq!(cfg.snapshot_every, 10);
    let small = Config { population_size: 3, ..cfg };
    assert!(Engine::new(red_target(1, 1), 1, 1, small).is_ok());
}

#[test]
fn rejects_bad_configuration() {
    let t = red_target(2, 2);
    for bad in [
        Config { population_size: 0, ..config() },
        Config { mutation_rate_ppm: 1_000_001, ..config() },
        Config { elite_fraction_ppm: 1_000_000, ..config() },
        Config { tournament_size: 0, ..config() },
        Config { amplification_exponent: 9, ..config() },
        Config { snapshot_every: 0, ..config() },
    ] {
        assert_eq!(
            Engine::new(t.clone(), 2, 2, bad).err(),
            Some(EngineError::ConfigurationError)
        );
    }
}

#[test]
fn rejects_mismatched_dimensions() {
    let t = red_target(2, 2);
    assert_eq!(
        Engine::new(t.clone(), 2, 3, config()).err(),
        Some(EngineError::BufferSizeMismatch)
    );
    assert_eq!(
        Engine::new(t.clone(), 0, 2, config()).err(),
        Some(EngineError::BufferSizeMismatch)
    );
    let mut short = t.clone();
    short.pop();
    assert_eq!(
        Engine::new(short, 2, 2, config()).err(),
        Some(EngineError::BufferSizeMismatch)
    );
}

#[test]
fn new_engine_starts_at_generation_zero() {
    let e = Engine::new(red_target(3, 2), 3, 2, config()).unwrap();
    assert_eq!(e.generation, 0);
    assert!(e.fitness_history.is_empty());
    assert_eq!(e.population.len(), 12);
    for c in &e.population {
        assert_eq!(c.len(), 3 * 2 * 4);
        // The initial population is fully opaque.
        for (i, byte) in c.iter().enumerate() {
            if i % 4 == 3 {
                assert_eq!(*byte, 255);
            }
        }
    }
}

#[test]
fn population_invariants_hold_across_generations() {
    let mut e = Engine::new(red_target(2, 2), 2, 2, config()).unwrap();
    let mut rng = RandomSource::from_seed(3);
    for gen in 1..=15u64 {
        e.tick(&mut rng);
        assert_eq!(e.generation, gen);
        assert_eq!(e.population.len(), 12);
        for c in &e.population {
            assert_eq!(c.len(), 2 * 2 * 4);
        }
        assert_eq!(e.fitness_history.len(), gen as usize);
    }
}

#[test]
fn best_candidate_survives_byte_identical() {
    let mut e = Engine::new(red_target(2, 2), 2, 2, config()).unwrap();
    let mut rng = RandomSource::from_seed(5);
    for _ in 0..8 {
        // Find the best candidate of the current generation by hand
        // (lowest fitness, earliest index on ties).
        let mut best_idx = 0usize;
        let mut best_score = fitness(&e.target, &e.population[0], 2);
        for (i, c) in e.population.iter().enumerate().skip(1) {
            let s = fitness(&e.target, c, 2);
            if s < best_score {
                best_score = s;
                best_idx = i;
            }
        }
        let best = e.population[best_idx].clone();
        e.tick(&mut rng);
        // Elitism put it, byte for byte, at the head of the new population,
        // and recorded its score.
        assert_eq!(e.population[0], best);
        assert_eq!(*e.fitness_history.last().unwrap(), best_score);
    }
}

#[test]
fn history_never_increases_with_elitism() {
    let mut e = Engine::new(red_target(2, 2), 2, 2, config()).unwrap();
    let mut rng = RandomSource::from_seed(9);
    for _ in 0..20 {
        e.tick(&mut rng);
    }
    for w in e.fitness_history.windows(2) {
        assert!(w[1] <= w[0], "history rose: {:?}", e.fitness_history);
    }
}

#[test]
fn zero_mutation_offspring_have_no_foreign_bytes() {
    let cfg = Config { mutation_rate_ppm: 0, elite_fraction_ppm: 0, ..config() };
    let mut e = Engine::new(red_target(1, 2), 1, 2, cfg).unwrap();
    let before: Vec<Vec<u8>> = e.population.clone();
    let mut rng = RandomSource::from_seed(1);
    e.tick(&mut rng);
    for child in &e.population {
        let mut found = false;
        for p1 in &before {
            for p2 in &before {
                for cut in 0..=p1.len() {
                    let mut expect = p1[..cut].to_vec();
                    expect.extend_from_slice(&p2[cut..]);
                    if *child == expect {
                        found = true;
                    }
                }
            }
        }
        assert!(found, "offspring is not a crossover of the old population");
    }
}

#[test]
fn identical_population_scores_zero_history() {
    // Force the whole population to equal the target by mutating nothing
    // and seeding from the target: a tick must record fitness zero.
    let t = red_target(2, 2);
    let cfg = Config { mutation_rate_ppm: 0, ..config() };
    let mut e = Engine::new(t.clone(), 2, 2, cfg).unwrap();
    for c in e.population.iter_mut() {
        c.copy_from_slice(&t);
    }
    let mut rng = RandomSource::from_seed(2);
    e.tick(&mut rng);
    assert_eq!(*e.fitness_history.last().unwrap(), 0);
}
