//! The fitness evaluator: the mean, over all pixels, of the normalised
//! perceptual colour error between a candidate and the target, raised to a
//! configurable amplification exponent. Lower is better; equal buffers score
//! zero.

use vstd::prelude::*;
use rayon::iter::IntoParallelRefIterator;
use rayon::iter::ParallelIterator;
use crate::math::SCALE;
use crate::math::fpow;
use crate::math::fpow_spec;
use crate::math::fmul_spec;
use crate::math::lemma_fpow_bound8;
use crate::color::Lab;
use crate::color::rgb_to_lab;
use crate::color::rgb_to_lab_spec;
use crate::color::delta_e;
use crate::color::delta_e_spec;
use crate::color::lemma_delta_e_identical;

verus! {

/// An upper bound on the score of a single pixel pair (see
/// `lemma_fpow_bound8`).
pub const MAX_PIXEL_SCORE: u64 = 21_435_888_100_000;

/// A byte channel scaled to a fixed-point real in [0, 1].
pub open spec fn norm_spec(v: int) -> int {
    v * (SCALE as int) / 255
}

pub fn norm_channel(v: u8) -> (r: u64)
    ensures
        r == norm_spec(v as int),
        r <= SCALE,
{
    ((v as u64) * SCALE) / 255
}

/// The Lab colour of one RGBA pixel's colour channels (alpha is ignored).
pub open spec fn pixel_lab_spec(r: int, g: int, b: int) -> Lab {
    rgb_to_lab_spec(norm_spec(r), norm_spec(g), norm_spec(b))
}

/// The scored error of pixel pair `k`: Delta E between the two colours,
/// normalised by the reference maximum of 100, raised to exponent `e`.
pub open spec fn pixel_score_spec(t: Seq<u8>, c: Seq<u8>, k: int, e: nat) -> int {
    let tl = pixel_lab_spec(t[4 * k] as int, t[4 * k + 1] as int, t[4 * k + 2] as int);
    let cl = pixel_lab_spec(c[4 * k] as int, c[4 * k + 1] as int, c[4 * k + 2] as int);
    fpow_spec(delta_e_spec(tl, cl) / 100, e)
}

/// The sum of the scores of the first `n` pixel pairs.
pub open spec fn score_sum_spec(t: Seq<u8>, c: Seq<u8>, e: nat, n: int) -> int
    decreases n,
{
    if n <= 0 {
        0
    } else {
        score_sum_spec(t, c, e, n - 1) + pixel_score_spec(t, c, n - 1, e)
    }
}

/// The fitness of a candidate against a target of the same length: the mean
/// per-pixel score.
pub open spec fn fitness_spec(t: Seq<u8>, c: Seq<u8>, e: nat) -> int {
    score_sum_spec(t, c, e, (t.len() / 4) as int) / ((t.len() / 4) as int)
}

/// The score of pixel pair `k` of two equal-length RGBA buffers.
#[verifier::rlimit(100)]
pub fn pixel_score(target: &Vec<u8>, candidate: &Vec<u8>, k: usize, exponent: u32) -> (p: u64)
    requires
        target@.len() == candidate@.len(),
        4 * k + 3 < target@.len(),
        exponent <= 8,
    ensures
        p == pixel_score_spec(target@, candidate@, k as int, exponent as nat),
        p <= MAX_PIXEL_SCORE,
{
    let len = target.len();
    proof {
        assert(4 * k + 3 < len);
    }
    let base = 4 * k;
    let tl = rgb_to_lab(
        norm_channel(target[base]),
        norm_channel(target[base + 1]),
        norm_channel(target[base + 2]),
    );
    let cl = rgb_to_lab(
        norm_channel(candidate[base]),
        norm_channel(candidate[base + 1]),
        norm_channel(candidate[base + 2]),
    );
    let d = delta_e(tl, cl);
    let dn = d / 100;
    let p = fpow(dn, exponent);
    proof {
        lemma_fpow_bound8(dn as int, exponent as nat);
    }
    p
}

pub fn fitness(target: &Vec<u8>, candidate: &Vec<u8>, exponent: u32) -> (score: u64)
    requires
        target@.len() == candidate@.len(),
        target@.len() % 4 == 0,
        target@.len() >= 4,
        exponent <= 8,
    ensures
        score == fitness_spec(target@, candidate@, exponent as nat),
        score <= MAX_PIXEL_SCORE,
{
    let n = target.len() / 4;
    let mut acc: u128 = 0;
    let mut k: usize = 0;
    while k < n
        invariant
            target@.len() == candidate@.len(),
            target@.len() % 4 == 0,
            target@.len() >= 4,
            exponent <= 8,
            n == target@.len() / 4,
            k <= n,
            acc == score_sum_spec(target@, candidate@, exponent as nat, k as int),
            acc <= (k as int) * (MAX_PIXEL_SCORE as int),
        decreases n - k,
    {
        let p = pixel_score(target, candidate, k, exponent);
        proof {
            assert((acc as int) + p <= ((k + 1) as int) * (MAX_PIXEL_SCORE as int));
        }
        acc = acc + (p as u128);
        k = k + 1;
    }
    let score128 = acc / (n as u128);
    proof {
        assert((acc as int) / (n as int) <= MAX_PIXEL_SCORE as int) by (nonlinear_arith)
            requires
                acc <= (n as int) * (MAX_PIXEL_SCORE as int) && n >= 1 && acc >= 0;
    }
    score128 as u64
}

proof fn lemma_fpow_zero(e: nat)
    requires
        e >= 1,
    ensures
        fpow_spec(0, e) == 0,
{
    assert(fpow_spec(0, e) == fmul_spec(0, fpow_spec(0, (e - 1) as nat)));
}

proof fn lemma_score_sum_identical(b: Seq<u8>, e: nat, n: int)
    requires
        e >= 1,
    ensures
        score_sum_spec(b, b, e, n) == 0,
    decreases n,
{
    if n <= 0 {
    } else {
        lemma_score_sum_identical(b, e, n - 1);
        let l = pixel_lab_spec(b[4 * (n - 1)] as int, b[4 * (n - 1) + 1] as int, b[4 * (n - 1) + 2] as int);
        lemma_delta_e_identical(l);
        lemma_fpow_zero(e);
    }
}

/// A candidate identical to the target has fitness zero, for any
/// amplification exponent of at least one.
pub proof fn lemma_fitness_identical(b: Seq<u8>, e: nat)
    requires
        e >= 1,
        b.len() >= 4,
    ensures
        fitness_spec(b, b, e) == 0,
{
    lemma_score_sum_identical(b, e, (b.len() / 4) as int);
}

/// Relies on rayon's `par_iter().map().collect()` to produce exactly one
/// output per input candidate, in input order; each output comes from the
/// verified `fitness`.
#[verifier::external_body]
pub(crate) fn evaluate_population(
    target: &Vec<u8>,
    population: &Vec<Vec<u8>>,
    exponent: u32,
) -> (scores: Vec<u64>)
    requires
        forall|i: int|
            0 <= i < population@.len() ==> (#[trigger] population@[i])@.len() == target@.len(),
        target@.len() % 4 == 0,
        target@.len() >= 4,
        exponent <= 8,
    ensures
        scores@.len() == population@.len(),
        forall|i: int|
            0 <= i < scores@.len() ==> scores@[i] == fitness_spec(
                target@,
                (#[trigger] population@[i])@,
                exponent as nat,
            ),
{
    population.par_iter().map(|c| fitness(target, c, exponent)).collect()
}

} // verus!
