//! Fixed-point arithmetic: multiplication, integer roots and powers.
//!
//! A real number x is represented by the integer `x * SCALE`, rounded toward
//! zero. All operations floor.

use vstd::prelude::*;

verus! {

/// Fixed-point scale: the integer 100_000 stands for the real number 1.0.
pub const SCALE: u64 = 100_000;

/// Floor of `x * y / SCALE`: fixed-point multiplication.
pub open spec fn fmul_spec(x: int, y: int) -> int {
    (x * y) / (SCALE as int)
}

/// Fixed-point multiply of two values in [0, SCALE] (reals in [0, 1]).
pub fn fmul_unit(x: u64, y: u64) -> (r: u64)
    requires
        x <= SCALE,
        y <= SCALE,
    ensures
        r == fmul_spec(x as int, y as int),
        r <= SCALE,
{
    proof {
        assert(x * y <= SCALE * SCALE) by (nonlinear_arith)
            requires x <= SCALE && y <= SCALE;
    }
    (x * y) / SCALE
}

/// Fixed-point multiplication keeps [0, 1] closed.
pub proof fn lemma_fmul_bounds(x: int, y: int)
    requires
        0 <= x <= SCALE,
        0 <= y <= SCALE,
    ensures
        0 <= fmul_spec(x, y) <= SCALE,
{
    assert(0 <= (x * y) / 100000 <= 100000) by (nonlinear_arith)
        requires 0 <= x <= 100000 && 0 <= y <= 100000;
}

/// Integer square root, by halving: `isqrt_spec(v)` is the largest r with
/// r * r <= v (see `lemma_isqrt`).
pub open spec fn isqrt_spec(v: int) -> int
    decreases v,
{
    if v < 1 {
        0
    } else {
        let s = 2 * isqrt_spec(v / 4);
        if (s + 1) * (s + 1) <= v {
            s + 1
        } else {
            s
        }
    }
}

pub proof fn lemma_isqrt(v: int)
    requires
        v >= 0,
    ensures
        0 <= isqrt_spec(v),
        isqrt_spec(v) * isqrt_spec(v) <= v,
        v < (isqrt_spec(v) + 1) * (isqrt_spec(v) + 1),
    decreases v,
{
    if v < 1 {
    } else {
        let q = v / 4;
        lemma_isqrt(q);
        let r4 = isqrt_spec(q);
        let s = 2 * r4;
        assert(v == 4 * q + v % 4);
        assert(s * s <= 4 * q) by (nonlinear_arith)
            requires r4 * r4 <= q && s == 2 * r4;
        assert((s + 2) * (s + 2) > 4 * q + 3) by (nonlinear_arith)
            requires q < (r4 + 1) * (r4 + 1) && s == 2 * r4 && r4 >= 0;
    }
}

/// Integer square root of a machine word.
pub fn isqrt(v: u64) -> (r: u64)
    ensures
        r == isqrt_spec(v as int),
        r * r <= v,
        (v as int) < (r + 1) * (r + 1),
    decreases v,
{
    proof {
        lemma_isqrt(v as int);
    }
    if v < 1 {
        0
    } else {
        let h = isqrt(v / 4);
        proof {
            assert(h <= 0x8000_0000u64) by (nonlinear_arith)
                requires h * h <= v / 4 && (v as int) / 4 < 0x4000_0000_0000_0000 && h >= 0;
        }
        let s = 2 * h;
        proof {
            assert(((s + 1) as int) * ((s + 1) as int) < 0x1_0000_0000_0000_0000_0000int)
                by (nonlinear_arith)
                requires s <= 0x1_0000_0000u64;
        }
        if ((s + 1) as u128) * ((s + 1) as u128) <= v as u128 {
            s + 1
        } else {
            s
        }
    }
}

/// Integer cube root, by halving: the largest r with r^3 <= v
/// (see `lemma_cbrt`).
pub open spec fn cbrt_spec(v: int) -> int
    decreases v,
{
    if v < 1 {
        0
    } else {
        let s = 2 * cbrt_spec(v / 8);
        if (s + 1) * (s + 1) * (s + 1) <= v {
            s + 1
        } else {
            s
        }
    }
}

pub proof fn lemma_cbrt(v: int)
    requires
        v >= 0,
    ensures
        0 <= cbrt_spec(v),
        cbrt_spec(v) * cbrt_spec(v) * cbrt_spec(v) <= v,
        v < (cbrt_spec(v) + 1) * (cbrt_spec(v) + 1) * (cbrt_spec(v) + 1),
    decreases v,
{
    if v < 1 {
    } else {
        let q = v / 8;
        lemma_cbrt(q);
        let r8 = cbrt_spec(q);
        let s = 2 * r8;
        assert(v == 8 * q + v % 8);
        assert(s * s * s <= 8 * q) by (nonlinear_arith)
            requires r8 * r8 * r8 <= q && s == 2 * r8;
        assert((s + 2) * (s + 2) * (s + 2) > 8 * q + 7) by (nonlinear_arith)
            requires q < (r8 + 1) * (r8 + 1) * (r8 + 1) && s == 2 * r8 && r8 >= 0;
    }
}

/// Integer cube root of a machine word.
pub fn cbrt(v: u64) -> (r: u64)
    ensures
        r == cbrt_spec(v as int),
        r * r * r <= v,
        (v as int) < (r + 1) * (r + 1) * (r + 1),
    decreases v,
{
    proof {
        lemma_cbrt(v as int);
    }
    if v < 1 {
        0
    } else {
        let h = cbrt(v / 8);
        proof {
            assert(h <= 0x20_0000u64) by (nonlinear_arith)
                requires h * h * h <= v / 8 && (v as int) / 8 < 0x2000_0000_0000_0000 && h >= 0;
        }
        let s = 2 * h;
        proof {
            let t = (s + 1) as int;
            assert(t * t < 0x1_0000_0000_0000_0000_0000int
                && t * t * t < 0x1_0000_0000_0000_0000_0000int) by (nonlinear_arith)
                requires t == s + 1 && s <= 0x40_0000u64;
        }
        let s1 = (s + 1) as u128;
        if s1 * s1 * s1 <= v as u128 {
            s + 1
        } else {
            s
        }
    }
}

pub open spec fn pow5(x: int) -> int {
    x * x * x * x * x
}

/// Integer fifth root, by halving: the largest r with r^5 <= v
/// (see `lemma_root5`).
pub open spec fn root5_spec(v: int) -> int
    decreases v,
{
    if v < 1 {
        0
    } else {
        let s = 2 * root5_spec(v / 32);
        if pow5(s + 1) <= v {
            s + 1
        } else {
            s
        }
    }
}

pub proof fn lemma_root5(v: int)
    requires
        v >= 0,
    ensures
        0 <= root5_spec(v),
        pow5(root5_spec(v)) <= v,
        v < pow5(root5_spec(v) + 1),
    decreases v,
{
    if v < 1 {
    } else {
        let q = v / 32;
        lemma_root5(q);
        let r32 = root5_spec(q);
        let s = 2 * r32;
        assert(v == 32 * q + v % 32);
        assert(pow5(s) <= 32 * q) by (nonlinear_arith)
            requires pow5(r32) <= q && s == 2 * r32;
        assert(pow5(s + 2) > 32 * q + 31) by (nonlinear_arith)
            requires q < pow5(r32 + 1) && s == 2 * r32 && r32 >= 0;
    }
}

/// Integer fifth root of a wide word below 2^110.
pub fn root5(v: u128) -> (r: u64)
    requires
        v < (1u128 << 110),
    ensures
        r == root5_spec(v as int),
        pow5(r as int) <= v,
        (v as int) < pow5(r + 1),
    decreases v,
{
    proof {
        lemma_root5(v as int);
        assert((1u128 << 110) == 0x4000_0000_0000_0000_0000_0000_0000u128) by (bit_vector);
    }
    if v < 1 {
        0
    } else {
        let h = root5(v / 32);
        proof {
            assert(h <= 0x40_0000u64) by (nonlinear_arith)
                requires
                    pow5(h as int) <= v / 32
                        && (v as int) / 32 < 0x200_0000_0000_0000_0000_0000_0000
                        && h >= 0;
        }
        let s = 2 * h;
        proof {
            let t = (s + 1) as int;
            assert(t * t < 0x1000_0000_0000_0000_0000_0000_0000_0000int
                && t * t * t < 0x1000_0000_0000_0000_0000_0000_0000_0000int
                && t * t * t * t < 0x1000_0000_0000_0000_0000_0000_0000_0000int
                && t * t * t * t * t < 0x1000_0000_0000_0000_0000_0000_0000_0000int)
                by (nonlinear_arith)
                requires t == s + 1 && s <= 0x80_0000u64;
        }
        let s1 = (s + 1) as u128;
        if s1 * s1 * s1 * s1 * s1 <= v {
            s + 1
        } else {
            s
        }
    }
}

/// Fixed-point power: `fpow_spec(base, e)` stands for base^e with base a
/// fixed-point real, so `fpow_spec(base, 0) == SCALE` (the real 1.0).
pub open spec fn fpow_spec(base: int, e: nat) -> int
    decreases e,
{
    if e == 0 {
        SCALE as int
    } else {
        fmul_spec(base, fpow_spec(base, (e - 1) as nat))
    }
}

pub open spec fn pow11(e: nat) -> int
    decreases e,
{
    if e == 0 {
        1
    } else {
        11 * pow11((e - 1) as nat)
    }
}

pub proof fn lemma_fpow_bound(base: int, e: nat)
    requires
        0 <= base <= 1_048_575,
    ensures
        0 <= fpow_spec(base, e) <= (SCALE as int) * pow11(e),
    decreases e,
{
    if e == 0 {
    } else {
        lemma_fpow_bound(base, (e - 1) as nat);
        let y = fpow_spec(base, (e - 1) as nat);
        assert(0 <= (base * y) / 100000 <= 11 * y) by (nonlinear_arith)
            requires 0 <= base <= 1_048_575 && 0 <= y;
    }
}

/// A numeric form of `lemma_fpow_bound` for exponents up to 8.
pub proof fn lemma_fpow_bound8(base: int, e: nat)
    requires
        0 <= base <= 1_048_575,
        e <= 8,
    ensures
        0 <= fpow_spec(base, e) <= 21_435_888_100_000,
{
    lemma_fpow_bound(base, e);
    lemma_pow11_mono(e, 8);
    assert(pow11(8) == 214_358_881) by {
        reveal_with_fuel(pow11, 9);
    }
}

pub proof fn lemma_pow11_mono(e1: nat, e2: nat)
    requires
        e1 <= e2,
    ensures
        1 <= pow11(e1) <= pow11(e2),
    decreases e2,
{
    if e2 == 0 {
    } else if e1 == e2 {
        lemma_pow11_mono((e1 - 1) as nat, (e2 - 1) as nat);
    } else {
        lemma_pow11_mono(e1, (e2 - 1) as nat);
    }
}

/// Fixed-point power of a base below 2^20, for small exponents.
pub fn fpow(base: u64, e: u32) -> (r: u64)
    requires
        base <= 1_048_575,
        e <= 8,
    ensures
        r == fpow_spec(base as int, e as nat),
{
    let mut r: u64 = SCALE;
    let mut k: u32 = 0;
    while k < e
        invariant
            base <= 1_048_575,
            e <= 8,
            k <= e,
            r == fpow_spec(base as int, k as nat),
        decreases e - k,
    {
        proof {
            lemma_fpow_bound8(base as int, k as nat);
            assert((r as int) * (base as int) == (base as int) * (r as int)) by (nonlinear_arith);
            assert((r as int) * (base as int) <= 21_435_888_100_000int * 1_048_575int)
                by (nonlinear_arith)
                requires r <= 21_435_888_100_000 && base <= 1_048_575;
        }
        let prod: u128 = (r as u128) * (base as u128);
        r = (prod / (SCALE as u128)) as u64;
        k = k + 1;
    }
    r
}

} // verus!
