//! Tests of the fitness evaluator: exact values on small buffers and the
//! all-red scenario.

use ga::fitness::fitness;

fn red_2x2() -> Vec<u8> {
    let mut v: Vec<u8> = Vec::new();
    for _ in 0..4 {
        v.extend_from_slice(&[255, 0, 0, 255]);
    }
    v
}

fn black_2x2() -> Vec<u8> {
    let mut v: Vec<u8> = Vec::new();
    for _ in 0..4 {
        v.extend_from_slice(&[0, 0, 0, 255]);
    }
    v
}

#[test]
fn identical_buffers_score_zero() {
    let t = red_2x2();
    assert_eq!(fitness(&t, &t, 1), 0);
    assert_eq!(fitness(&t, &t, 2), 0);
    assert_eq!(fitness(&t, &t, 8), 0);
}

#[test]
fn red_target_scenario() {
    // A 2x2 all-red target scores zero against itself and strictly more
    // against all black.
    let t = red_2x2();
    let c = black_2x2();
    assert_eq!(fitness(&t, &t, 2), 0);
    assert!(fitness(&t, &c, 2) > 0);
}

#[test]
fn black_versus_white_scores_one() {
    // Black against white is the reference-maximum colour difference, so the
    // normalised error of the single pixel is 1.0 (100_000 fixed-point), at
    // any exponent.
    let t: Vec<u8> = vec![0, 0, 0, 255];
    let c: Vec<u8> = vec![255, 255, 255, 255];
    assert_eq!(fitness(&t, &c, 1), 100_000);
    assert_eq!(fitness(&t, &c, 2), 100_000);
    // Exponent zero turns every per-pixel error into 1.0 by convention.
    assert_eq!(fitness(&t, &t, 0), 100_000);
}

#[test]
fn alpha_is_ignored() {
    let t: Vec<u8> = vec![10, 200, 30, 255, 90, 14, 230, 255];
    let mut c = t.clone();
    c[3] = 0;
    c[7] = 17;
    assert_eq!(fitness(&t, &c, 1), 0);
}

#[test]
fn fitness_is_a_mean_over_pixels() {
    // One matching pixel and one black-versus-white pixel: the mean halves
    // the single pixel's error of 1.0.
    let t: Vec<u8> = vec![0, 0, 0, 255, 40, 80, 120, 255];
    let c: Vec<u8> = vec![255, 255, 255, 255, 40, 80, 120, 255];
    assert_eq!(fitness(&t, &c, 1), 50_000);
}
