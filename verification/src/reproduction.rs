//! The reproduction engine: elitism, single-point crossover and per-byte
//! mutation.
//!
//! The next generation keeps the `elite_count` best candidates byte for byte
//! and fills every remaining slot with an offspring: two parents drawn
//! uniformly (with replacement) from the selected pool, a prefix of the
//! first glued to the suffix of the second at a uniformly drawn cut, then
//! each byte independently replaced by a fresh random byte with probability
//! `rate_ppm` per million.

use vstd::prelude::*;
use rayon::iter::IntoParallelIterator;
use rayon::iter::ParallelIterator;
use crate::rng::RandomSource;

verus! {

/// Rates and fractions are given per million: `PPM` stands for probability
/// one.
pub const PPM: u32 = 1_000_000;

/// The views of a sequence of byte buffers.
pub open spec fn views(p: Seq<Vec<u8>>) -> Seq<Seq<u8>> {
    p.map_values(|v: Vec<u8>| v@)
}

/// Single-point crossover: the prefix of `p1` up to `cut`, then the suffix
/// of `p2` from `cut`.
pub open spec fn crossover_spec(p1: Seq<u8>, p2: Seq<u8>, cut: int) -> Seq<u8> {
    p1.take(cut) + p2.skip(cut)
}

/// Per-byte mutation: byte `i` becomes `repl[i]` where `coins[i]` falls
/// below the rate, else stays.
pub open spec fn mutate_spec(buf: Seq<u8>, coins: Seq<u32>, repl: Seq<u8>, rate_ppm: u32) -> Seq<
    u8,
> {
    Seq::new(buf.len(), |i: int| if coins[i] < rate_ppm { repl[i] } else { buf[i] })
}

/// `child` is one possible offspring of `p1` and `p2`: some cut and some
/// mutation draws produce it.
pub open spec fn is_offspring(child: Seq<u8>, p1: Seq<u8>, p2: Seq<u8>, rate_ppm: u32) -> bool {
    exists|cut: int, coins: Seq<u32>, repl: Seq<u8>|
        {
            &&& 0 <= cut <= p1.len()
            &&& coins.len() == p1.len()
            &&& repl.len() == p1.len()
            &&& (forall|i: int| 0 <= i < coins.len() ==> (#[trigger] coins[i]) < PPM)
            &&& child == #[trigger] mutate_spec(crossover_spec(p1, p2, cut), coins, repl, rate_ppm)
        }
}

/// `child` is one possible offspring of two members of `pop`.
pub open spec fn bred_from(child: Seq<u8>, pop: Seq<Seq<u8>>, rate_ppm: u32) -> bool {
    exists|a: int, b: int|
        0 <= a < pop.len() && 0 <= b < pop.len() && #[trigger] is_offspring(
            child,
            pop[a],
            pop[b],
            rate_ppm,
        )
}

/// `child` is one possible offspring of two candidates drawn from the
/// selected parent pool: both parents stand at pool positions, not merely
/// somewhere in the population.
pub open spec fn bred_from_pool(
    child: Seq<u8>,
    pop: Seq<Seq<u8>>,
    pool: Seq<usize>,
    rate_ppm: u32,
) -> bool {
    exists|a: int, b: int|
        0 <= a < pool.len() && 0 <= b < pool.len() && (pool[a] as int) < pop.len() && (
        pool[b] as int) < pop.len() && #[trigger] is_offspring(
            child,
            pop[pool[a] as int],
            pop[pool[b] as int],
            rate_ppm,
        )
}

/// An offspring of two pool-selected candidates is in particular an
/// offspring of two population members.
pub proof fn lemma_bred_from_pool_members(
    child: Seq<u8>,
    pop: Seq<Seq<u8>>,
    pool: Seq<usize>,
    rate_ppm: u32,
)
    requires
        bred_from_pool(child, pop, pool, rate_ppm),
    ensures
        bred_from(child, pop, rate_ppm),
{
    let (a, b) = choose|a: int, b: int|
        0 <= a < pool.len() && 0 <= b < pool.len() && (pool[a] as int) < pop.len() && (
        pool[b] as int) < pop.len() && #[trigger] is_offspring(
            child,
            pop[pool[a] as int],
            pop[pool[b] as int],
            rate_ppm,
        );
    assert(is_offspring(child, pop[pool[a] as int], pop[pool[b] as int], rate_ppm));
}

/// A mutation rate of zero changes nothing.
pub proof fn lemma_mutate_rate_zero(buf: Seq<u8>, coins: Seq<u32>, repl: Seq<u8>)
    ensures
        mutate_spec(buf, coins, repl, 0) == buf,
{
    assert(mutate_spec(buf, coins, repl, 0) =~= buf);
}

/// A mutation rate of one (`PPM`) replaces every byte with its fresh draw:
/// no byte of the input survives.
pub proof fn lemma_mutate_rate_one(buf: Seq<u8>, coins: Seq<u32>, repl: Seq<u8>)
    requires
        coins.len() == buf.len(),
        repl.len() == buf.len(),
        forall|i: int| 0 <= i < coins.len() ==> (#[trigger] coins[i]) < PPM,
    ensures
        mutate_spec(buf, coins, repl, PPM) == repl,
{
    assert(mutate_spec(buf, coins, repl, PPM) =~= repl);
}

/// With a mutation rate of zero, every offspring is an exact
/// prefix-of-one-parent plus suffix-of-the-other concatenation.
pub proof fn lemma_bred_from_rate_zero(child: Seq<u8>, pop: Seq<Seq<u8>>)
    requires
        bred_from(child, pop, 0),
    ensures
        exists|a: int, b: int, cut: int|
            0 <= a < pop.len() && 0 <= b < pop.len() && 0 <= cut <= pop[a].len() && child
                == #[trigger] crossover_spec(pop[a], pop[b], cut),
{
    let (a, b) = choose|a: int, b: int|
        0 <= a < pop.len() && 0 <= b < pop.len() && #[trigger] is_offspring(
            child,
            pop[a],
            pop[b],
            0,
        );
    let (cut, coins, repl) = choose|cut: int, coins: Seq<u32>, repl: Seq<u8>|
        {
            &&& 0 <= cut <= pop[a].len()
            &&& coins.len() == pop[a].len()
            &&& repl.len() == pop[a].len()
            &&& (forall|i: int| 0 <= i < coins.len() ==> (#[trigger] coins[i]) < PPM)
            &&& child == #[trigger] mutate_spec(
                crossover_spec(pop[a], pop[b], cut),
                coins,
                repl,
                0,
            )
        };
    lemma_mutate_rate_zero(crossover_spec(pop[a], pop[b], cut), coins, repl);
    assert(child == crossover_spec(pop[a], pop[b], cut));
}

/// An offspring of members of `sub` is an offspring of members of any
/// population that holds every buffer of `sub`.
pub proof fn lemma_bred_from_members(
    child: Seq<u8>,
    sub: Seq<Seq<u8>>,
    pop: Seq<Seq<u8>>,
    rate_ppm: u32,
)
    requires
        bred_from(child, sub, rate_ppm),
        forall|j: int|
            0 <= j < sub.len() ==> exists|k: int| 0 <= k < pop.len() && #[trigger] sub[j] == pop[k],
    ensures
        bred_from(child, pop, rate_ppm),
{
    let (a, b) = choose|a: int, b: int|
        0 <= a < sub.len() && 0 <= b < sub.len() && #[trigger] is_offspring(
            child,
            sub[a],
            sub[b],
            rate_ppm,
        );
    let ka = choose|k: int| 0 <= k < pop.len() && sub[a] == pop[k];
    let kb = choose|k: int| 0 <= k < pop.len() && sub[b] == pop[k];
    assert(is_offspring(child, pop[ka], pop[kb], rate_ppm));
}

pub(crate) fn copy_bytes(src: &Vec<u8>) -> (out: Vec<u8>)
    ensures
        out@ == src@,
{
    let mut out: Vec<u8> = Vec::new();
    let mut i: usize = 0;
    while i < src.len()
        invariant
            i <= src@.len(),
            out@.len() == i,
            forall|k: int| 0 <= k < i ==> out@[k] == src@[k],
        decreases src@.len() - i,
    {
        out.push(src[i]);
        i = i + 1;
    }
    proof {
        assert(out@ =~= src@);
    }
    out
}

/// Single-point crossover of two equal-length buffers.
pub fn crossover(p1: &Vec<u8>, p2: &Vec<u8>, cut: usize) -> (child: Vec<u8>)
    requires
        p1@.len() == p2@.len(),
        cut <= p1@.len(),
    ensures
        child@ == crossover_spec(p1@, p2@, cut as int),
        child@.len() == p1@.len(),
{
    let mut child: Vec<u8> = Vec::new();
    let mut i: usize = 0;
    while i < cut
        invariant
            i <= cut <= p1@.len(),
            child@.len() == i,
            forall|k: int| 0 <= k < i ==> child@[k] == p1@[k],
        decreases cut - i,
    {
        child.push(p1[i]);
        i = i + 1;
    }
    while i < p2.len()
        invariant
            cut <= i <= p2@.len(),
            p1@.len() == p2@.len(),
            child@.len() == i,
            forall|k: int| 0 <= k < cut ==> child@[k] == p1@[k],
            forall|k: int| cut <= k < i ==> child@[k] == p2@[k],
        decreases p2@.len() - i,
    {
        child.push(p2[i]);
        i = i + 1;
    }
    proof {
        assert(child@ =~= crossover_spec(p1@, p2@, cut as int));
    }
    child
}

/// Mutation with the random draws handed in: byte `i` becomes `repl[i]`
/// exactly where `coins[i] < rate_ppm`.
pub fn mutate_with(buf: &Vec<u8>, coins: &Vec<u32>, repl: &Vec<u8>, rate_ppm: u32) -> (out: Vec<
    u8,
>)
    requires
        coins@.len() == buf@.len(),
        repl@.len() == buf@.len(),
    ensures
        out@ == mutate_spec(buf@, coins@, repl@, rate_ppm),
        out@.len() == buf@.len(),
{
    let mut out: Vec<u8> = Vec::new();
    let mut i: usize = 0;
    while i < buf.len()
        invariant
            i <= buf@.len(),
            coins@.len() == buf@.len(),
            repl@.len() == buf@.len(),
            out@.len() == i,
            forall|k: int|
                0 <= k < i ==> out@[k] == (if coins@[k] < rate_ppm {
                    repl@[k]
                } else {
                    buf@[k]
                }),
        decreases buf@.len() - i,
    {
        if coins[i] < rate_ppm {
            out.push(repl[i]);
        } else {
            out.push(buf[i]);
        }
        i = i + 1;
    }
    proof {
        assert(out@ =~= mutate_spec(buf@, coins@, repl@, rate_ppm));
    }
    out
}

/// One offspring: two parents drawn uniformly with replacement from the
/// selected pool, one uniform cut, fresh mutation draws.
pub fn make_offspring(
    ranked: &Vec<Vec<u8>>,
    parents: &Vec<usize>,
    rate_ppm: u32,
    buf_len: usize,
    rng: &mut RandomSource,
) -> (child: Vec<u8>)
    requires
        ranked@.len() >= 1,
        parents@.len() >= 1,
        forall|i: int| 0 <= i < parents@.len() ==> (#[trigger] parents@[i]) < ranked@.len(),
        forall|i: int| 0 <= i < ranked@.len() ==> (#[trigger] ranked@[i])@.len() == buf_len,
        buf_len < usize::MAX,
    ensures
        child@.len() == buf_len,
        bred_from_pool(child@, views(ranked@), parents@, rate_ppm),
{
    let a = rng.next_below(parents.len());
    let b = rng.next_below(parents.len());
    let pa = parents[a];
    let pb = parents[b];
    let cut = rng.next_below(buf_len + 1);
    let crossed = crossover(&ranked[pa], &ranked[pb], cut);
    let mut coins: Vec<u32> = Vec::new();
    let mut repl: Vec<u8> = Vec::new();
    let mut i: usize = 0;
    while i < buf_len
        invariant
            i <= buf_len,
            coins@.len() == i,
            repl@.len() == i,
            forall|k: int| 0 <= k < i ==> (#[trigger] coins@[k]) < PPM,
        decreases buf_len - i,
    {
        let coin = rng.next_below(1_000_000);
        coins.push(coin as u32);
        repl.push(rng.next_byte());
        i = i + 1;
    }
    let child = mutate_with(&crossed, &coins, &repl, rate_ppm);
    proof {
        assert(child@ == mutate_spec(
            crossover_spec(ranked@[pa as int]@, ranked@[pb as int]@, cut as int),
            coins@,
            repl@,
            rate_ppm,
        ));
        assert(is_offspring(child@, ranked@[pa as int]@, ranked@[pb as int]@, rate_ppm));
        assert(views(ranked@)[pa as int] == ranked@[pa as int]@);
        assert(views(ranked@)[pb as int] == ranked@[pb as int]@);
        assert(is_offspring(child@, views(ranked@)[pa as int], views(ranked@)[pb as int], rate_ppm));
        assert(is_offspring(
            child@,
            views(ranked@)[parents@[a as int] as int],
            views(ranked@)[parents@[b as int] as int],
            rate_ppm,
        ));
        assert(bred_from_pool(child@, views(ranked@), parents@, rate_ppm));
    }
    child
}

/// One parallel unit of offspring work, with its own independently seeded
/// random source.
pub(crate) fn offspring_task(
    ranked: &Vec<Vec<u8>>,
    parents: &Vec<usize>,
    rate_ppm: u32,
    buf_len: usize,
) -> (child: Vec<u8>)
    requires
        ranked@.len() >= 1,
        parents@.len() >= 1,
        forall|i: int| 0 <= i < parents@.len() ==> (#[trigger] parents@[i]) < ranked@.len(),
        forall|i: int| 0 <= i < ranked@.len() ==> (#[trigger] ranked@[i])@.len() == buf_len,
        buf_len < usize::MAX,
    ensures
        child@.len() == buf_len,
        bred_from_pool(child@, views(ranked@), parents@, rate_ppm),
{
    let mut rng = RandomSource::from_entropy();
    make_offspring(ranked, parents, rate_ppm, buf_len, &mut rng)
}

/// Relies on rayon's `into_par_iter().map().collect()` to produce exactly
/// `count` outputs, in order; each comes from the verified `offspring_task`.
#[verifier::external_body]
pub(crate) fn make_offspring_batch(
    ranked: &Vec<Vec<u8>>,
    parents: &Vec<usize>,
    rate_ppm: u32,
    buf_len: usize,
    count: usize,
) -> (out: Vec<Vec<u8>>)
    requires
        ranked@.len() >= 1,
        parents@.len() >= 1,
        forall|i: int| 0 <= i < parents@.len() ==> (#[trigger] parents@[i]) < ranked@.len(),
        forall|i: int| 0 <= i < ranked@.len() ==> (#[trigger] ranked@[i])@.len() == buf_len,
        buf_len < usize::MAX,
    ensures
        out@.len() == count,
        forall|i: int| 0 <= i < out@.len() ==> (#[trigger] out@[i])@.len() == buf_len,
        forall|i: int|
            0 <= i < out@.len() ==> bred_from_pool(
                (#[trigger] out@[i])@,
                views(ranked@),
                parents@,
                rate_ppm,
            ),
{
    (0..count).into_par_iter().map(|_| offspring_task(ranked, parents, rate_ppm, buf_len)).collect()
}

/// The next generation: the `elite_count` best candidates byte-identical and
/// in rank order (never crossed or mutated), and each of the remaining
/// `N - elite_count` slots an offspring of two candidates drawn from the
/// selected parent pool.
pub fn create_next_generation(
    ranked: &Vec<Vec<u8>>,
    parents: &Vec<usize>,
    elite_count: usize,
    mutation_rate_ppm: u32,
    buf_len: usize,
) -> (next: Vec<Vec<u8>>)
    requires
        ranked@.len() >= 1,
        elite_count <= ranked@.len(),
        parents@.len() >= 1,
        forall|i: int| 0 <= i < parents@.len() ==> (#[trigger] parents@[i]) < ranked@.len(),
        forall|i: int| 0 <= i < ranked@.len() ==> (#[trigger] ranked@[i])@.len() == buf_len,
        buf_len < usize::MAX,
    ensures
        next@.len() == ranked@.len(),
        forall|i: int| 0 <= i < elite_count ==> (#[trigger] next@[i])@ == ranked@[i]@,
        forall|i: int| 0 <= i < next@.len() ==> (#[trigger] next@[i])@.len() == buf_len,
        forall|i: int|
            elite_count <= i < next@.len() ==> bred_from_pool(
                (#[trigger] next@[i])@,
                views(ranked@),
                parents@,
                mutation_rate_ppm,
            ),
        forall|i: int|
            elite_count <= i < next@.len() ==> bred_from(
                (#[trigger] next@[i])@,
                views(ranked@),
                mutation_rate_ppm,
            ),
{
    let mut next: Vec<Vec<u8>> = Vec::new();
    let mut i: usize = 0;
    while i < elite_count
        invariant
            i <= elite_count <= ranked@.len(),
            next@.len() == i,
            forall|k: int| 0 <= k < i ==> (#[trigger] next@[k])@ == ranked@[k]@,
        decreases elite_count - i,
    {
        next.push(copy_bytes(&ranked[i]));
        i = i + 1;
    }
    let count = ranked.len() - elite_count;
    let mut offspring = make_offspring_batch(ranked, parents, mutation_rate_ppm, buf_len, count);
    next.append(&mut offspring);
    proof {
        assert forall|i: int|
            elite_count <= i < next@.len() implies bred_from(
            (#[trigger] next@[i])@,
            views(ranked@),
            mutation_rate_ppm,
        ) by {
            lemma_bred_from_pool_members(next@[i]@, views(ranked@), parents@, mutation_rate_ppm);
        }
    }
    next
}

} // verus!
