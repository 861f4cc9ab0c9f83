//! Tests of the fixed-point colour model against exact values and against a
//! floating-point reference implementation of the same formulas.

use ga::color::{delta_e, rgb_to_lab, Lab};
use ga::math::SCALE;

/// Floating-point reference for the sRGB -> Lab conversion, used only to
/// bound the fixed-point implementation's error.
fn rgb_to_lab_ref(r: f64, g: f64, b: f64) -> (f64, f64, f64) {
    fn compand(c: f64) -> f64 {
        if c > 0.04045 {
            ((c + 0.055) / 1.055).powf(2.4)
        } else {
            c / 12.92
        }
    }
    let r = compand(r) * 100.0;
    let g = compand(g) * 100.0;
    let b = compand(b) * 100.0;
    let x = r * 0.4124564 + g * 0.3575761 + b * 0.1804375;
    let y = r * 0.2126729 + g * 0.7151522 + b * 0.0721750;
    let z = r * 0.0193339 + g * 0.1191920 + b * 0.9503041;
    let f = |t: f64| {
        if t > 0.008856 {
            t.powf(1.0 / 3.0)
        } else {
            7.787 * t + 16.0 / 116.0
        }
    };
    let fx = f(x / 95.047);
    let fy = f(y / 100.0);
    let fz = f(z / 108.883);
    (116.0 * fy - 16.0, 500.0 * (fx - fy), 200.0 * (fy - fz))
}

fn fixed_of_byte(v: u8) -> u64 {
    (v as u64) * SCALE / 255
}

fn assert_close(lab: Lab, reference: (f64, f64, f64), tol: f64) {
    let l = lab.l as f64 / SCALE as f64;
    let a = lab.a as f64 / SCALE as f64;
    let b = lab.b as f64 / SCALE as f64;
    assert!(
        (l - reference.0).abs() < tol && (a - reference.1).abs() < tol
            && (b - reference.2).abs() < tol,
        "got ({l}, {a}, {b}), reference {reference:?}"
    );
}

#[test]
fn black_is_origin() {
    // f(0) floors 16/116 to 0.13793, so L comes out at -0.00012 rather than
    // exactly 0: within any reasonable tolerance of the origin.
    let lab = rgb_to_lab(0, 0, 0);
    assert_eq!(lab.a, 0);
    assert_eq!(lab.b, 0);
    assert!(lab.l.abs() <= 100, "L = {}", lab.l);
}

#[test]
fn white_is_l100_exactly() {
    let lab = rgb_to_lab(SCALE, SCALE, SCALE);
    assert_eq!(lab, Lab { l: 100 * SCALE as i64, a: 0, b: 0 });
}

#[test]
fn primaries_match_float_reference() {
    let cases: [(u8, u8, u8); 6] =
        [(255, 0, 0), (0, 255, 0), (0, 0, 255), (128, 128, 128), (200, 150, 30), (10, 60, 230)];
    for (r, g, b) in cases {
        let lab = rgb_to_lab(fixed_of_byte(r), fixed_of_byte(g), fixed_of_byte(b));
        let reference =
            rgb_to_lab_ref(r as f64 / 255.0, g as f64 / 255.0, b as f64 / 255.0);
        assert_close(lab, reference, 0.5);
    }
}

#[test]
fn equal_channels_are_achromatic() {
    // Greys sit exactly on the L axis: a and b vanish and L stays within
    // 0.001 of [0, 100]. Dark greys such as byte 32 exercise the steep part
    // of the cube root, where any unequal flooring of the axes would show.
    for byte in [1u8, 16, 32, 33, 64, 77, 128, 200, 254, 255] {
        let c = fixed_of_byte(byte);
        let lab = rgb_to_lab(c, c, c);
        assert_eq!(lab.a, 0, "a for grey {byte}");
        assert_eq!(lab.b, 0, "b for grey {byte}");
        assert!(-100 <= lab.l && lab.l <= 10_000_100, "L for grey {byte}: {}", lab.l);
    }
}

#[test]
fn delta_e_of_identical_lab_is_zero() {
    let labs = [
        Lab { l: 0, a: 0, b: 0 },
        Lab { l: 10_000_000, a: -43_103_500, b: 17_241_400 },
        Lab { l: 5_321_987, a: 123_456, b: -654_321 },
    ];
    for lab in labs {
        assert_eq!(delta_e(lab, lab), 0);
    }
}

#[test]
fn delta_e_is_euclidean() {
    // A 3-4-5 triangle in the (l, a) plane: distance exactly 500.
    let c1 = Lab { l: 300, a: 400, b: 0 };
    let c2 = Lab { l: 0, a: 0, b: 0 };
    assert_eq!(delta_e(c1, c2), 500);
    // Rounds down: (1,1,1) has distance sqrt(3) = 1.73.
    let c3 = Lab { l: 1, a: 1, b: 1 };
    assert_eq!(delta_e(c3, c2), 1);
}

#[test]
fn delta_e_black_white_near_100() {
    let black = rgb_to_lab(0, 0, 0);
    let white = rgb_to_lab(SCALE, SCALE, SCALE);
    let d = delta_e(black, white) as f64 / SCALE as f64;
    assert!((d - 100.0).abs() < 0.01, "distance {d}");
}
