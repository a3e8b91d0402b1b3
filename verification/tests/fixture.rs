use idct_test::fdct::{fdct, llm_fdct, round_coefficients, FDCT_SCALE, LLM_FDCT_SCALE};
use idct_test::idct::{
    ap922_idct, fast_idct, fast_idct_f64, idct, idct1, idct3, idct4, idct5, idct6, idct7, idct8,
    idct9, idct_f64, llm_idct,
};

const ZZ: [i32; 64] = [
    568, 0, 0, -4, -4, 0, 4, 0, -27, 9, -4, -4, 0, -5, 5, -5, -49, -4, 4, 4, 0, 0, 0, 0, -12, -4, 0,
    0, 5, 0, 0, 0, -14, -5, 0, 0, 0, 0, 0, 0, -5, 0, 0, 0, 0, 0, 0, 0, -5, 0, 0, 0, 0, 0, 0, 0, 0, 0,
    0, 0, 0, 0, 0, 1,
];

const Z: [u8; 64] = [
    128, 128, 128, 128, 128, 128, 128, 128, 128, 255, 255, 255, 255, 255, 255, 255, 128, 255, 255,
    255, 255, 255, 255, 255, 128, 255, 255, 255, 255, 255, 255, 255, 128, 255, 128, 128, 128, 128,
    128, 128, 128, 255, 128, 0, 0, 0, 0, 0, 128, 255, 128, 0, 0, 0, 0, 0, 128, 255, 128, 0, 0, 0, 0,
    0,
];

fn float_idct(f: &[i32]) -> Vec<u8> {
    (0..64)
        .map(|i| {
            let (x, y) = ((i % 8) as f64, (i / 8) as f64);
            let mut val = 0.0f64;
            for u in 0..8 {
                let cu = if u == 0 { 1.0 / 2.0f64.sqrt() } else { 1.0 };
                for v in 0..8 {
                    let cv = if v == 0 { 1.0 / 2.0f64.sqrt() } else { 1.0 };
                    val += cu
                        * cv
                        * (f[v * 8 + u] as f64)
                        * ((2.0 * x + 1.0) * u as f64 * std::f64::consts::PI / 16.0).cos()
                        * ((2.0 * y + 1.0) * v as f64 * std::f64::consts::PI / 16.0).cos();
                }
            }
            let v = (val / 4.0).round() as i32 + 128;
            v.clamp(0, 255) as u8
        })
        .collect()
}

fn largest_gap(a: &[u8], b: &[u8]) -> i32 {
    assert_eq!(a.len(), b.len());
    a.iter().zip(b.iter()).map(|(p, q)| (*p as i32 - *q as i32).abs()).max().unwrap_or(0)
}

#[test]
fn reference_matches_floating_point_on_fixture() {
    assert_eq!(idct(&ZZ), float_idct(&ZZ));
    assert_eq!(idct_f64(&ZZ), float_idct(&ZZ));
}

#[test]
fn matrix_methods_equal_reference_on_fixture() {
    let reference = idct(&ZZ);
    assert_eq!(idct1(&ZZ), reference);
    assert_eq!(idct3(&ZZ), reference);
    assert_eq!(idct4(&ZZ), reference);
    assert_eq!(idct6(&ZZ), reference);
    assert_eq!(idct7(&ZZ), reference);
    assert_eq!(idct8(&ZZ), reference);
    assert_eq!(idct9(&ZZ), reference);
}

#[test]
fn fast_methods_within_one_on_fixture() {
    let reference = idct(&ZZ);
    assert!(largest_gap(&llm_idct(&ZZ), &reference) <= 1);
    assert!(largest_gap(&fast_idct(&ZZ), &reference) <= 1);
    assert!(largest_gap(&fast_idct_f64(&ZZ), &reference) <= 1);
    assert!(largest_gap(&ap922_idct(&ZZ), &reference) <= 1);
    assert!(largest_gap(&idct_f64(&ZZ), &reference) <= 1);
}

#[test]
fn coarse_method_within_two_on_fixture() {
    assert!(largest_gap(&idct5(&ZZ), &idct(&ZZ)) <= 2);
}

#[test]
fn fixture_survives_forward_then_inverse() {
    let c = round_coefficients(&fdct(&Z), FDCT_SCALE);
    assert!(largest_gap(&idct(&c), &Z) <= 1);
}

#[test]
fn fixture_survives_fast_forward_then_fast_inverse() {
    let c = round_coefficients(&llm_fdct(&Z), LLM_FDCT_SCALE);
    assert_eq!(c, round_coefficients(&fdct(&Z), FDCT_SCALE));
    assert!(largest_gap(&llm_idct(&c), &Z) <= 1);
    assert!(largest_gap(&fast_idct(&c), &Z) <= 1);
    assert!(largest_gap(&ap922_idct(&c), &Z) <= 1);
}

#[test]
fn fixture_forward_coefficients() {
    let c = round_coefficients(&fdct(&Z), FDCT_SCALE);
    assert_eq!(c.len(), 64);
    // The DC term is an eighth of the sum of the samples less 128.
    let total: i32 = Z.iter().map(|s| *s as i32 - 128).sum();
    assert_eq!(c[0], (total as f64 / 8.0).round() as i32);
}
