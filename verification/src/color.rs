//! The colour model: sRGB to Lab conversion and the CIE76 colour distance.
//!
//! Channels come in as fixed-point reals in [0, 1] (see [`crate::math::SCALE`]).
//! The conversion follows the usual pipeline: inverse sRGB companding, the
//! D65 linear transform to XYZ, white-point normalisation, and the Lab
//! nonlinearity. Exponent 2.4 is computed as the fifth root raised to the
//! twelfth power; the cube root and square root are exact integer roots.
//!
//! The transform keeps each XYZ coordinate as the exact weighted sum of the
//! companded channels, and the white point it normalises by is the
//! transform's own white (each matrix row's sum), so each axis is floored
//! exactly once. Equal channels therefore land exactly on the achromatic
//! L axis: see `lemma_rgb_to_lab_achromatic`.

use vstd::prelude::*;
use vstd::arithmetic::div_mod::lemma_div_multiples_vanish_quotient;
use crate::math::SCALE;
use crate::math::fmul_spec;
use crate::math::fmul_unit;
use crate::math::lemma_fmul_bounds;
use crate::math::isqrt;
use crate::math::isqrt_spec;
use crate::math::cbrt;
use crate::math::cbrt_spec;
use crate::math::root5;
use crate::math::root5_spec;
use crate::math::pow5;
use crate::math::lemma_root5;
use crate::math::lemma_cbrt;

verus! {

/// A colour in Lab space, fixed-point at `SCALE`: `l == 10_000_000` stands
/// for L = 100.0.
#[derive(Clone, Copy, PartialEq, Eq, Structural, Debug)]
pub struct Lab {
    pub l: i64,
    pub a: i64,
    pub b: i64,
}

/// Inverse sRGB companding of a channel in [0, 1]: below the 0.04045 knee
/// the curve is linear (divide by 12.92), above it is
/// ((c + 0.055) / 1.055)^2.4.
pub open spec fn compand_spec(c: int) -> int {
    if c <= 4045 {
        c * 100 / 1292
    } else {
        let u = (c + 5500) * (SCALE as int) / 105500;
        let r = root5_spec(u * (SCALE as int) * (SCALE as int) * (SCALE as int) * (SCALE as int));
        let r2 = fmul_spec(r, r);
        let r4 = fmul_spec(r2, r2);
        let r8 = fmul_spec(r4, r4);
        fmul_spec(r8, r4)
    }
}

/// Companding keeps [0, 1] closed.
pub proof fn lemma_compand_bounds(c: int)
    requires
        0 <= c <= SCALE,
    ensures
        0 <= compand_spec(c) <= SCALE,
{
    if c <= 4045 {
    } else {
        let u = (c + 5500) * (SCALE as int) / 105500;
        assert(0 <= u <= SCALE);
        let v = u * (SCALE as int) * (SCALE as int) * (SCALE as int) * (SCALE as int);
        lemma_root5(v);
        let r = root5_spec(v);
        assert(r <= 100_000) by (nonlinear_arith)
            requires r >= 0 && r * r * r * r * r <= 10_000_000_000_000_000_000_000_000int;
        lemma_fmul_bounds(r, r);
        lemma_fmul_bounds(fmul_spec(r, r), fmul_spec(r, r));
        let r4 = fmul_spec(fmul_spec(r, r), fmul_spec(r, r));
        lemma_fmul_bounds(r4, r4);
        lemma_fmul_bounds(fmul_spec(r4, r4), r4);
    }
}

pub fn compand(c: u64) -> (r: u64)
    requires
        c <= SCALE,
    ensures
        r == compand_spec(c as int),
        r <= SCALE,
{
    if c <= 4045 {
        (c * 100) / 1292
    } else {
        let u = ((c + 5500) * SCALE) / 105500;
        let w: u128 = (u as u128) * (SCALE as u128) * (SCALE as u128) * (SCALE as u128)
            * (SCALE as u128);
        proof {
            assert(w < (1u128 << 110)) by (bit_vector)
                requires w <= 10_000_000_000_000_000_000_000_000u128;
        }
        let t = root5(w);
        proof {
            assert(t <= SCALE) by (nonlinear_arith)
                requires
                    pow5(t as int) <= 10_000_000_000_000_000_000_000_000int && t >= 0;
        }
        let t2 = fmul_unit(t, t);
        let t4 = fmul_unit(t2, t2);
        let t8 = fmul_unit(t4, t4);
        fmul_unit(t8, t4)
    }
}

/// The linear sRGB -> XYZ (D65) transform on companded channels scaled to
/// [0, 100]. Matrix coefficients are scaled by 10^7 and the weighted sums
/// are kept exact (scale `SCALE` x 10^7 on the usual [0, 100] axes), so no
/// precision is lost before the white-point step.
pub open spec fn xyz_spec(r: int, g: int, b: int) -> (int, int, int) {
    let cr = compand_spec(r) * 100;
    let cg = compand_spec(g) * 100;
    let cb = compand_spec(b) * 100;
    (
        cr * 4124564 + cg * 3575761 + cb * 1804375,
        cr * 2126729 + cg * 7151522 + cb * 721750,
        cr * 193339 + cg * 1191920 + cb * 9503041,
    )
}

pub fn rgb_to_xyz(r: u64, g: u64, b: u64) -> (xyz: (u64, u64, u64))
    requires
        r <= SCALE,
        g <= SCALE,
        b <= SCALE,
    ensures
        (xyz.0 as int, xyz.1 as int, xyz.2 as int) == xyz_spec(r as int, g as int, b as int),
        xyz.0 <= 95_047_000_000_000,
        xyz.1 <= 100_000_010_000_000,
        xyz.2 <= 108_883_000_000_000,
{
    let cr = compand(r) * 100;
    let cg = compand(g) * 100;
    let cb = compand(b) * 100;
    let x = cr * 4124564 + cg * 3575761 + cb * 1804375;
    let y = cr * 2126729 + cg * 7151522 + cb * 721750;
    let z = cr * 193339 + cg * 1191920 + cb * 9503041;
    (x, y, z)
}

/// The Lab nonlinearity on a white-point-normalised axis value in [0, 1]:
/// the cube root above the 0.008856 knee, else the linear segment
/// 7.787 t + 16/116.
pub open spec fn lab_f_spec(t: int) -> int {
    if t > 885 {
        cbrt_spec(t * (SCALE as int) * (SCALE as int))
    } else {
        7787 * t / 1000 + 13793
    }
}

/// The Lab nonlinearity maps [0, 1] into [16/116, 1].
pub proof fn lemma_lab_f_bounds(t: int)
    requires
        0 <= t <= SCALE,
    ensures
        13793 <= lab_f_spec(t) <= SCALE,
{
    if t > 885 {
        let v = t * (SCALE as int) * (SCALE as int);
        lemma_cbrt(v);
        let r = cbrt_spec(v);
        assert(r <= 100_000 && r >= 13_793) by (nonlinear_arith)
            requires
                r >= 0 && r * r * r <= v && v < ((r + 1) * (r + 1)) * (r + 1)
                    && 8_860_000_000_000 <= v <= 1_000_000_000_000_000;
    }
}

pub fn lab_f(t: u64) -> (r: u64)
    requires
        t <= SCALE,
    ensures
        r == lab_f_spec(t as int),
        13793 <= r <= SCALE,
{
    if t > 885 {
        let r = cbrt(t * SCALE * SCALE);
        proof {
            assert(r <= 100_000 && r >= 13_793) by (nonlinear_arith)
                requires
                    r * r * r <= (t as int) * 100_000 * 100_000
                        && (t as int) * 100_000 * 100_000 < ((r + 1) * (r + 1)) * (r + 1)
                        && 886 <= t <= 100_000
                        && r >= 0;
        }
        r
    } else {
        (7787 * t) / 1000 + 13793
    }
}

/// White-point normalisation followed by the Lab nonlinearity and the
/// L, a, b combination. Each axis is divided exactly once, by one hundred
/// times its matrix row's sum (the transform's own white: 95.047,
/// 100.0000001, 108.883), so equal axis weights give equal normalised
/// values.
pub open spec fn lab_from_xyz_spec(x: int, y: int, z: int) -> Lab {
    let fx = lab_f_spec(x / 950_470_000);
    let fy = lab_f_spec(y / 1_000_000_100);
    let fz = lab_f_spec(z / 1_088_830_000);
    Lab {
        l: (116 * fy - 1600000) as i64,
        a: (500 * (fx - fy)) as i64,
        b: (200 * (fy - fz)) as i64,
    }
}

/// Bounds that every colour produced by `rgb_to_lab` satisfies; they keep
/// the distance arithmetic within machine words.
pub open spec fn lab_wf(c: Lab) -> bool {
    &&& -12 <= c.l <= 10_000_000
    &&& -43_103_500 <= c.a <= 43_103_500
    &&& -17_241_400 <= c.b <= 17_241_400
}

pub fn xyz_to_lab(x: u64, y: u64, z: u64) -> (lab: Lab)
    requires
        x <= 95_047_000_000_000,
        y <= 100_000_010_000_000,
        z <= 108_883_000_000_000,
    ensures
        lab == lab_from_xyz_spec(x as int, y as int, z as int),
        lab_wf(lab),
{
    let xn = x / 950_470_000;
    let yn = y / 1_000_000_100;
    let zn = z / 1_088_830_000;
    let fx = lab_f(xn);
    let fy = lab_f(yn);
    let fz = lab_f(zn);
    let l = 116 * (fy as i64) - 1600000;
    let a = 500 * ((fx as i64) - (fy as i64));
    let b = 200 * ((fy as i64) - (fz as i64));
    Lab { l, a, b }
}

/// sRGB (fixed-point channels in [0, 1]) to Lab.
#[verifier::opaque]
pub open spec fn rgb_to_lab_spec(r: int, g: int, b: int) -> Lab {
    let xyz = xyz_spec(r, g, b);
    lab_from_xyz_spec(xyz.0, xyz.1, xyz.2)
}

pub fn rgb_to_lab(r: u64, g: u64, b: u64) -> (lab: Lab)
    requires
        r <= SCALE,
        g <= SCALE,
        b <= SCALE,
    ensures
        lab == rgb_to_lab_spec(r as int, g as int, b as int),
        lab_wf(lab),
{
    proof {
        reveal(rgb_to_lab_spec);
    }
    let xyz = rgb_to_xyz(r, g, b);
    xyz_to_lab(xyz.0, xyz.1, xyz.2)
}

/// CIE76 colour distance: the Euclidean distance in Lab space, rounded down.
#[verifier::opaque]
pub open spec fn delta_e_spec(c1: Lab, c2: Lab) -> int {
    isqrt_spec(
        (c1.l - c2.l) * (c1.l - c2.l) + (c1.a - c2.a) * (c1.a - c2.a) + (c1.b - c2.b) * (c1.b
            - c2.b),
    )
}

pub fn delta_e(c1: Lab, c2: Lab) -> (d: u64)
    requires
        lab_wf(c1),
        lab_wf(c2),
    ensures
        d == delta_e_spec(c1, c2),
        d <= 93_400_000,
{
    proof {
        reveal(delta_e_spec);
    }
    let dl = c1.l - c2.l;
    let da = c1.a - c2.a;
    let db = c1.b - c2.b;
    proof {
        assert(dl * dl <= 10_000_012int * 10_000_012int) by (nonlinear_arith)
            requires -10_000_012 <= dl <= 10_000_012;
        assert(da * da <= 86_207_000int * 86_207_000int) by (nonlinear_arith)
            requires -86_207_000 <= da <= 86_207_000;
        assert(db * db <= 34_482_800int * 34_482_800int) by (nonlinear_arith)
            requires -34_482_800 <= db <= 34_482_800;
        assert(dl * dl >= 0) by (nonlinear_arith);
        assert(da * da >= 0) by (nonlinear_arith);
        assert(db * db >= 0) by (nonlinear_arith);
    }
    let sq = (dl * dl + da * da + db * db) as u64;
    let d = isqrt(sq);
    proof {
        assert(d <= 93_400_000) by (nonlinear_arith)
            requires
                (d as int) * (d as int) <= 8_720_710_600_000_000int && d >= 0;
    }
    d
}

/// Equal channels land exactly on the achromatic L axis: a and b vanish and
/// L stays in [0 - 0.00012, 100]. With every axis floored exactly once, the
/// three normalised coordinates of a grey are identical, so the a and b
/// differences cancel to zero.
pub proof fn lemma_rgb_to_lab_achromatic(c: int)
    requires
        0 <= c <= SCALE,
    ensures
        rgb_to_lab_spec(c, c, c).a == 0,
        rgb_to_lab_spec(c, c, c).b == 0,
        -12 <= rgb_to_lab_spec(c, c, c).l <= 10_000_000,
{
    reveal(rgb_to_lab_spec);
    lemma_compand_bounds(c);
    let k = compand_spec(c) * 100;
    let xyz = xyz_spec(c, c, c);
    assert(xyz.0 == k * 9504700);
    assert(xyz.1 == k * 10000001);
    assert(xyz.2 == k * 10888300);
    lemma_div_multiples_vanish_quotient(9504700, k, 100);
    lemma_div_multiples_vanish_quotient(10000001, k, 100);
    lemma_div_multiples_vanish_quotient(10888300, k, 100);
    assert(k * 9504700 == 9504700 * k && k * 10000001 == 10000001 * k && k * 10888300 == 10888300
        * k) by (nonlinear_arith);
    assert(xyz.0 / 950_470_000 == k / 100);
    assert(xyz.1 / 1_000_000_100 == k / 100);
    assert(xyz.2 / 1_088_830_000 == k / 100);
    lemma_lab_f_bounds(k / 100);
}

/// A fully saturated white channel companded is exactly 1.0.
proof fn lemma_compand_full()
    ensures
        compand_spec(SCALE as int) == SCALE as int,
{
    let v = 10_000_000_000_000_000_000_000_000int;
    lemma_root5(v);
    let r = root5_spec(v);
    assert(r <= 100_000) by (nonlinear_arith)
        requires r >= 0 && r * r * r * r * r <= 10_000_000_000_000_000_000_000_000int;
    assert(r >= 100_000) by (nonlinear_arith)
        requires
            r >= 0 && 10_000_000_000_000_000_000_000_000int < (r + 1) * (r + 1) * (r + 1) * (r
                + 1) * (r + 1);
    assert(fmul_spec(100_000, 100_000) == 100_000);
}

/// The Lab nonlinearity at exactly 1.0 is exactly 1.0.
proof fn lemma_lab_f_full()
    ensures
        lab_f_spec(SCALE as int) == SCALE as int,
{
    let v = 1_000_000_000_000_000int;
    assert(100_000int * 100_000int * 100_000int == 1_000_000_000_000_000int) by (nonlinear_arith);
    assert(lab_f_spec(SCALE as int) == cbrt_spec(v));
    lemma_cbrt(v);
    let r = cbrt_spec(v);
    assert(r <= 100_000) by (nonlinear_arith)
        requires r >= 0 && r * r * r <= 1_000_000_000_000_000int;
    assert(r >= 100_000) by (nonlinear_arith)
        requires r >= 0 && 1_000_000_000_000_000int < (r + 1) * (r + 1) * (r + 1);
}

/// Full white maps exactly to L = 100, a = 0, b = 0: the two nonlinearities
/// are exact at 1.0 and each axis normalises by its own row's white.
pub proof fn lemma_rgb_to_lab_white()
    ensures
        rgb_to_lab_spec(SCALE as int, SCALE as int, SCALE as int) == (Lab {
            l: 10_000_000,
            a: 0,
            b: 0,
        }),
{
    reveal(rgb_to_lab_spec);
    lemma_compand_full();
    let xyz = xyz_spec(SCALE as int, SCALE as int, SCALE as int);
    assert(xyz.0 == 95_047_000_000_000 && xyz.1 == 100_000_010_000_000 && xyz.2
        == 108_883_000_000_000);
    lemma_lab_f_full();
}

/// Black maps to a = 0, b = 0 and an L within one eighth of a thousandth of
/// zero: the linear Lab segment floors 16/116 to 0.13793, so L lands at
/// -0.00012 instead of 0.
pub proof fn lemma_rgb_to_lab_black()
    ensures
        rgb_to_lab_spec(0, 0, 0) == (Lab { l: -12i64, a: 0, b: 0 }),
{
    reveal(rgb_to_lab_spec);
    assert(compand_spec(0) == 0);
    assert(lab_f_spec(0) == 13_793);
}

/// The distance from any Lab colour to itself is zero.
pub proof fn lemma_delta_e_identical(c: Lab)
    ensures
        delta_e_spec(c, c) == 0,
{
    reveal(delta_e_spec);
    assert(delta_e_spec(c, c) == isqrt_spec(0));
}

} // verus!
