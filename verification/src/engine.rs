//! The generation scheduler: engine state, initialisation, and the
//! evaluate -> rank -> select -> reproduce -> advance cycle.
//!
//! The engine owns the target image and the population between ticks. Each
//! tick evaluates every candidate (in parallel), ranks them stably by
//! fitness, records the best score, selects a parent pool by tournament, and
//! replaces the population with elites plus offspring, advancing the
//! generation counter by exactly one.

use vstd::prelude::*;
use rayon::iter::IntoParallelIterator;
use rayon::iter::ParallelIterator;
use crate::fitness::fitness_spec;
use crate::fitness::evaluate_population;
use crate::ranking::valid_ranking;
use crate::ranking::rank_indices;
use crate::ranking::is_min_of;
use crate::ranking::lemma_ranking_first_is_min;
use crate::reproduction::PPM;
use crate::reproduction::views;
use crate::reproduction::bred_from;
use crate::reproduction::copy_bytes;
use crate::reproduction::create_next_generation;
use crate::reproduction::lemma_bred_from_members;
use crate::selection::select_parents;
use crate::rng::RandomSource;

verus! {

/// The recognised configuration surface. Rates and fractions are integers
/// per million (`PPM` stands for 1.0).
#[derive(Clone, Copy, PartialEq, Eq, Structural, Debug)]
pub struct Config {
    /// Number of candidates; constant across all generations.
    pub population_size: usize,
    /// Per-byte probability of mutation, per million; in [0, PPM].
    pub mutation_rate_ppm: u32,
    /// Share of the population carried over unchanged, per million; in
    /// [0, PPM).
    pub elite_fraction_ppm: u32,
    /// Number of uniform draws per selection tournament; at least 1.
    pub tournament_size: usize,
    /// Exponent applied to the normalised per-pixel colour error; at most 8,
    /// which keeps every per-pixel score inside a machine word.
    pub amplification_exponent: u32,
    /// Generations between snapshot exports; consumed by the caller, never
    /// read by the engine itself.
    pub snapshot_every: u64,
}

impl Config {
    pub open spec fn valid(self) -> bool {
        &&& self.population_size >= 1
        &&& self.mutation_rate_ppm <= PPM
        &&& self.elite_fraction_ppm < PPM
        &&& self.tournament_size >= 1
        &&& self.amplification_exponent <= 8
        &&& self.snapshot_every >= 1
    }

    pub fn is_valid(&self) -> (r: bool)
        ensures
            r == self.valid(),
    {
        self.population_size >= 1 && self.mutation_rate_ppm <= PPM && self.elite_fraction_ppm
            < PPM && self.tournament_size >= 1 && self.amplification_exponent <= 8
            && self.snapshot_every >= 1
    }
}

impl Default for Config {
    /// A moderate default: one thousand candidates, 0.001 per-byte
    /// mutation, the top five percent kept, tournaments of one hundred, no
    /// error amplification.
    fn default() -> (c: Config)
        ensures
            c == (Config {
                population_size: 1000usize,
                mutation_rate_ppm: 1000u32,
                elite_fraction_ppm: 50_000u32,
                tournament_size: 100usize,
                amplification_exponent: 1u32,
                snapshot_every: 10u64,
            }),
            c.valid(),
    {
        Config {
            population_size: 1000,
            mutation_rate_ppm: 1000,
            elite_fraction_ppm: 50_000,
            tournament_size: 100,
            amplification_exponent: 1,
            snapshot_every: 10,
        }
    }
}

/// Fatal initialisation errors.
#[derive(Clone, Copy, PartialEq, Eq, Structural, Debug)]
pub enum EngineError {
    /// A configuration value is out of range.
    ConfigurationError,
    /// The target buffer length does not match width x height x 4 (or the
    /// image does not fit in the address space).
    BufferSizeMismatch,
}

/// Number of candidates carried over unchanged each generation.
pub open spec fn elite_count_spec(c: Config) -> int {
    (c.population_size as int) * (c.elite_fraction_ppm as int) / (PPM as int)
}

/// Acceptable target dimensions: at least one pixel, the buffer exactly
/// width x height x 4 bytes, and small enough for the address space.
pub open spec fn dims_ok(width: u32, height: u32, len: int) -> bool {
    &&& width >= 1
    &&& height >= 1
    &&& len == (width as int) * (height as int) * 4
    &&& len < usize::MAX
}

/// A well-formed RGBA image buffer: the right length and fully opaque.
pub open spec fn image_ok(img: Seq<u8>, width: u32, height: u32) -> bool {
    &&& img.len() == (width as int) * (height as int) * 4
    &&& forall|i: int| 0 <= i < img.len() && i % 4 == 3 ==> img[i] == 255
}

/// The recorded best-of-generation values never increase.
pub open spec fn non_increasing(h: Seq<u64>) -> bool {
    forall|i: int, j: int| 0 <= i <= j < h.len() ==> h[j] <= h[i]
}

/// The first `elite` slots of `newpop` are the ranked best of `oldpop`,
/// byte-identical and in rank order, for some valid ranking of `oldpop`.
pub open spec fn elites_match(
    newpop: Seq<Vec<u8>>,
    oldpop: Seq<Vec<u8>>,
    perm: Seq<usize>,
    elite: int,
) -> bool {
    forall|i: int| 0 <= i < elite ==> (#[trigger] newpop[i])@ == oldpop[perm[i] as int]@
}

pub open spec fn elites_ranked(
    newpop: Seq<Vec<u8>>,
    oldpop: Seq<Vec<u8>>,
    scores: Seq<u64>,
    elite: int,
) -> bool {
    exists|perm: Seq<usize>|
        #[trigger] valid_ranking(perm, scores) && elites_match(newpop, oldpop, perm, elite)
}

/// The engine's whole state between ticks.
pub struct Engine {
    /// The immutable target image, RGBA bytes.
    pub target: Vec<u8>,
    pub width: u32,
    pub height: u32,
    /// The current population; |population| == population_size always.
    pub population: Vec<Vec<u8>>,
    /// Completed cycles; starts at 0.
    pub generation: u64,
    /// Best (lowest) fitness recorded per completed generation.
    pub fitness_history: Vec<u64>,
    pub config: Config,
}

impl Engine {
    /// The fitness of candidate `i` against the target.
    pub open spec fn score_of(self, i: int) -> u64 {
        fitness_spec(
            self.target@,
            self.population@[i]@,
            self.config.amplification_exponent as nat,
        ) as u64
    }

    /// All candidate fitness values, by population index.
    pub open spec fn scores(self) -> Seq<u64> {
        Seq::new(self.population@.len(), |i: int| self.score_of(i))
    }

    /// The structural invariant: a valid configuration, a target of exactly
    /// width x height x 4 bytes, every candidate buffer of the same length,
    /// the population at its configured size, and one history entry per
    /// completed generation.
    pub open spec fn wf(self) -> bool {
        &&& self.config.valid()
        &&& dims_ok(self.width, self.height, self.target@.len() as int)
        &&& self.target@.len() % 4 == 0
        &&& self.target@.len() >= 4
        &&& self.population@.len() == self.config.population_size
        &&& forall|i: int|
            0 <= i < self.population@.len() ==> (#[trigger] self.population@[i])@.len()
                == self.target@.len()
        &&& self.fitness_history@.len() == self.generation
    }

    /// Some current candidate scores no worse than the last recorded best;
    /// elitism maintains this, and it is what keeps the history from rising.
    pub open spec fn best_witnessed(self) -> bool {
        self.fitness_history@.len() > 0 ==> exists|i: int|
            0 <= i < self.population@.len() && #[trigger] self.score_of(i)
                <= self.fitness_history@.last()
    }
}

fn draw_colors(n: usize, rng: &mut RandomSource) -> (out: Vec<(u8, u8, u8)>)
    ensures
        out@.len() == n,
{
    let mut out: Vec<(u8, u8, u8)> = Vec::new();
    let mut i: usize = 0;
    while i < n
        invariant
            i <= n,
            out@.len() == i,
        decreases n - i,
    {
        let r = rng.next_byte();
        let g = rng.next_byte();
        let b = rng.next_byte();
        out.push((r, g, b));
        i = i + 1;
    }
    out
}

/// A random, fully opaque image built from 2x2 single-colour blocks.
pub fn random_image(width: u32, height: u32, rng: &mut RandomSource) -> (img: Vec<u8>)
    requires
        width >= 1,
        height >= 1,
        (width as int) * (height as int) * 4 < usize::MAX,
    ensures
        image_ok(img@, width, height),
{
    let w = width as usize;
    let h = height as usize;
    let mut img: Vec<u8> = Vec::new();
    let mut colors: Vec<(u8, u8, u8)> = Vec::new();
    let mut py: usize = 0;
    while py < h
        invariant
            w == width as int,
            h == height as int,
            w >= 1,
            h >= 1,
            (w as int) * (h as int) * 4 < usize::MAX,
            py <= h,
            img@.len() == (py as int) * (w as int) * 4,
            forall|i: int| 0 <= i < img@.len() && i % 4 == 3 ==> img@[i] == 255,
            py % 2 == 1 ==> colors@.len() == ((w + 1) / 2) as int,
        decreases h - py,
    {
        proof {
            assert((py as int) * (w as int) * 4 <= ((h - 1) as int) * (w as int) * 4
                && ((h - 1) as int) * (w as int) * 4 + (w as int) * 4 == (h as int) * (w as int)
                * 4) by (nonlinear_arith)
                requires py <= h - 1 && w >= 1 && h >= 1;
            assert((h as int) * (w as int) * 4 == (w as int) * (h as int) * 4) by (nonlinear_arith);
        }
        if py % 2 == 0 {
            colors = draw_colors((w + 1) / 2, rng);
        }
        let mut px: usize = 0;
        while px < w
            invariant
                w >= 1,
                px <= w,
                colors@.len() == ((w + 1) / 2) as int,
                img@.len() == (py as int) * (w as int) * 4 + (px as int) * 4,
                (py as int) * (w as int) * 4 + (w as int) * 4 < usize::MAX,
                img@.len() % 4 == 0,
                forall|i: int| 0 <= i < img@.len() && i % 4 == 3 ==> img@[i] == 255,
            decreases w - px,
        {
            let c = colors[px / 2];
            img.push(c.0);
            img.push(c.1);
            img.push(c.2);
            img.push(255);
            px = px + 1;
        }
        proof {
            assert((py as int) * (w as int) * 4 + (w as int) * 4 == ((py + 1) as int) * (w as int)
                * 4) by (nonlinear_arith);
        }
        py = py + 1;
    }
    proof {
        assert((h as int) * (w as int) * 4 == (width as int) * (height as int) * 4)
            by (nonlinear_arith)
            requires w == width as int && h == height as int;
    }
    img
}

/// One parallel unit of population initialisation, with its own
/// independently seeded random source.
pub(crate) fn random_image_task(width: u32, height: u32) -> (img: Vec<u8>)
    requires
        width >= 1,
        height >= 1,
        (width as int) * (height as int) * 4 < usize::MAX,
    ensures
        image_ok(img@, width, height),
{
    let mut rng = RandomSource::from_entropy();
    random_image(width, height, &mut rng)
}

/// Relies on rayon's `into_par_iter().map().collect()` to produce exactly
/// `count` outputs, in order; each comes from the verified
/// `random_image_task`.
#[verifier::external_body]
pub(crate) fn random_population(width: u32, height: u32, count: usize) -> (pop: Vec<Vec<u8>>)
    requires
        width >= 1,
        height >= 1,
        (width as int) * (height as int) * 4 < usize::MAX,
    ensures
        pop@.len() == count,
        forall|i: int| 0 <= i < pop@.len() ==> image_ok((#[trigger] pop@[i])@, width, height),
{
    (0..count).into_par_iter().map(|_| random_image_task(width, height)).collect()
}

impl Engine {
    /// Build the engine: validate the configuration, check the target's
    /// dimensions once (failing fast before any tick), and initialise a
    /// random population of the configured size.
    pub fn new(target: Vec<u8>, width: u32, height: u32, config: Config) -> (r: Result<
        Engine,
        EngineError,
    >)
        ensures
            match r {
                Ok(e) => {
                    &&& config.valid()
                    &&& dims_ok(width, height, target@.len() as int)
                    &&& e.wf()
                    &&& e.config == config
                    &&& e.width == width
                    &&& e.height == height
                    &&& e.target@ == target@
                    &&& e.generation == 0
                    &&& e.fitness_history@.len() == 0
                    &&& e.best_witnessed()
                    &&& non_increasing(e.fitness_history@)
                },
                Err(err) => {
                    &&& (err == EngineError::ConfigurationError <==> !config.valid())
                    &&& (err == EngineError::BufferSizeMismatch <==> config.valid() && !dims_ok(
                        width,
                        height,
                        target@.len() as int,
                    ))
                },
            },
    {
        if !config.is_valid() {
            return Err(EngineError::ConfigurationError);
        }
        proof {
            assert((width as int) * (height as int) * 4 < 0x100_0000_0000_0000_0000int)
                by (nonlinear_arith);
        }
        let need: u128 = (width as u128) * (height as u128) * 4;
        let fits = width >= 1 && height >= 1 && need < usize::MAX as u128 && (target.len()
            as u128) == need;
        if !fits {
            return Err(EngineError::BufferSizeMismatch);
        }
        proof {
            assert((width as int) * (height as int) * 4 % 4 == 0 && (width as int) * (height
                as int) * 4 >= 4) by (nonlinear_arith)
                requires width >= 1 && height >= 1;
        }
        let population = random_population(width, height, config.population_size);
        Ok(
            Engine {
                target,
                width,
                height,
                population,
                generation: 0,
                fitness_history: Vec::new(),
                config,
            },
        )
    }

    /// One complete cycle: evaluate, rank, record the generation's best
    /// fitness, select parents, reproduce, advance the counter.
    ///
    /// The contract carries the engine's standing guarantees: the population
    /// keeps its size and buffer lengths; the recorded value is exactly the
    /// minimum fitness of the population that was evaluated; the elite slots
    /// of the new population are the ranked best of the old one, byte for
    /// byte; every other slot descends from two members of the old
    /// population by crossover and mutation; and with any elitism at all the
    /// recorded best-of-generation history never increases.
    pub fn tick(&mut self, rng: &mut RandomSource)
        requires
            old(self).wf(),
            old(self).generation < u64::MAX,
        ensures
            final(self).wf(),
            final(self).target@ == old(self).target@,
            final(self).width == old(self).width,
            final(self).height == old(self).height,
            final(self).config == old(self).config,
            final(self).generation == old(self).generation + 1,
            final(self).population@.len() == old(self).population@.len(),
            final(self).fitness_history@.len() == old(self).fitness_history@.len() + 1,
            forall|i: int|
                0 <= i < old(self).fitness_history@.len() ==> final(self).fitness_history@[i]
                    == old(self).fitness_history@[i],
            is_min_of(final(self).fitness_history@.last(), old(self).scores()),
            elites_ranked(
                final(self).population@,
                old(self).population@,
                old(self).scores(),
                elite_count_spec(old(self).config),
            ),
            forall|i: int|
                elite_count_spec(old(self).config) <= i < final(self).population@.len()
                    ==> bred_from(
                    (#[trigger] final(self).population@[i])@,
                    views(old(self).population@),
                    old(self).config.mutation_rate_ppm,
                ),
            elite_count_spec(old(self).config) >= 1 ==> final(self).best_witnessed(),
            old(self).best_witnessed() && non_increasing(old(self).fitness_history@)
                ==> non_increasing(final(self).fitness_history@),
    {
        let exponent = self.config.amplification_exponent;
        let scores = evaluate_population(&self.target, &self.population, exponent);
        proof {
            assert(scores@ =~= old(self).scores());
        }
        let perm = rank_indices(&scores);
        let n = self.population.len();
        let mut ranked: Vec<Vec<u8>> = Vec::new();
        let mut sorted_scores: Vec<u64> = Vec::new();
        let mut k: usize = 0;
        while k < n
            invariant
                *self == *old(self),
                old(self).wf(),
                n == self.population@.len(),
                scores@ == old(self).scores(),
                scores@.len() == n,
                valid_ranking(perm@, scores@),
                perm@.len() == n,
                k <= n,
                ranked@.len() == k,
                sorted_scores@.len() == k,
                forall|j: int|
                    0 <= j < k ==> (#[trigger] ranked@[j])@ == self.population@[perm@[j] as int]@,
                forall|j: int|
                    0 <= j < k ==> (#[trigger] sorted_scores@[j]) == scores@[perm@[j] as int],
            decreases n - k,
        {
            let idx = perm[k];
            ranked.push(copy_bytes(&self.population[idx]));
            sorted_scores.push(scores[idx]);
            k = k + 1;
        }
        let best = sorted_scores[0];
        proof {
            lemma_ranking_first_is_min(perm@, scores@);
        }
        self.fitness_history.push(best);
        let parents = select_parents(
            &sorted_scores,
            self.config.tournament_size,
            n,
            rng,
        );
        proof {
            assert((n as int) * (self.config.elite_fraction_ppm as int)
                < 0x1_0000_0000_0000_0000_0000_0000int) by (nonlinear_arith);
        }
        let elite128: u128 = (n as u128) * (self.config.elite_fraction_ppm as u128) / (
        PPM as u128);
        proof {
            assert((n as int) * (self.config.elite_fraction_ppm as int) / (PPM as int) < n
                as int) by (nonlinear_arith)
                requires
                    n >= 1 && self.config.elite_fraction_ppm < PPM && PPM == 1_000_000u32;
        }
        let elite = elite128 as usize;
        let buf_len = self.target.len();
        let next = create_next_generation(
            &ranked,
            &parents,
            elite,
            self.config.mutation_rate_ppm,
            buf_len,
        );
        self.population = next;
        self.generation = self.generation + 1;
        proof {
            let oldpop = old(self).population@;
            let oldscores = old(self).scores();
            let ec = elite_count_spec(old(self).config);
            assert(elite as int == ec);
            // elites: witness the computed ranking
            assert(elites_match(self.population@, oldpop, perm@, ec));
            assert(elites_ranked(self.population@, oldpop, oldscores, ec));
            // offspring provenance: ranked is made of members of the old
            // population, so descent from ranked is descent from it
            assert forall|i: int|
                ec <= i < self.population@.len() implies bred_from(
                (#[trigger] self.population@[i])@,
                views(oldpop),
                old(self).config.mutation_rate_ppm,
            ) by {
                assert forall|j: int|
                    0 <= j < views(ranked@).len() implies exists|m: int|
                    0 <= m < views(oldpop).len() && #[trigger] views(ranked@)[j] == views(
                    oldpop,
                )[m] by {
                    let m = perm@[j] as int;
                    assert(views(ranked@)[j] == ranked@[j]@);
                    assert(views(oldpop)[m] == oldpop[m]@);
                };
                lemma_bred_from_members(
                    self.population@[i]@,
                    views(ranked@),
                    views(oldpop),
                    old(self).config.mutation_rate_ppm,
                );
            }
            // the recorded value is the minimum of the evaluated scores
            assert(best == oldscores[perm@[0] as int]);
            assert(is_min_of(best, oldscores));
            // a best witness survives whenever there is any elitism
            if ec >= 1 {
                assert(self.population@[0]@ == oldpop[perm@[0] as int]@);
                assert(self.score_of(0) == oldscores[perm@[0] as int]);
                assert(self.fitness_history@.last() == best);
                assert(self.best_witnessed());
            }
            // the history cannot rise while a witness stands
            if old(self).best_witnessed() && non_increasing(old(self).fitness_history@) {
                let oldh = old(self).fitness_history@;
                if oldh.len() > 0 {
                    let wit = choose|i: int|
                        0 <= i < oldpop.len() && #[trigger] old(self).score_of(i) <= oldh.last();
                    assert(oldscores[wit] == old(self).score_of(wit));
                    assert(best <= oldh.last());
                }
                assert(non_increasing(self.fitness_history@));
            }
        }
    }
}

} // verus!
