use idct_test::fdct::{fdct, llm_fdct, round_coefficients, FDCT_SCALE, LLM_FDCT_SCALE};
use idct_test::fixed::{to_coefficient, to_sample};
use idct_test::idct::print_vec;

#[test]
fn samples_round_to_nearest() {
    assert_eq!(to_sample(0, 8), 128);
    assert_eq!(to_sample(3, 8), 128);
    assert_eq!(to_sample(5, 8), 129);
    assert_eq!(to_sample(-3, 8), 128);
    assert_eq!(to_sample(-5, 8), 127);
    assert_eq!(to_sample(80, 8), 138);
    assert_eq!(to_sample(-80, 8), 118);
}

#[test]
fn sample_ties_round_away_from_zero() {
    assert_eq!(to_sample(4, 8), 129);
    assert_eq!(to_sample(-4, 8), 127);
    assert_eq!(to_sample(12, 8), 130);
    assert_eq!(to_sample(-12, 8), 126);
    assert_eq!(to_sample(1, 2), 129);
    assert_eq!(to_sample(-1, 2), 127);
}

#[test]
fn samples_clamp_at_both_ends() {
    assert_eq!(to_sample(127 * 8, 8), 255);
    assert_eq!(to_sample(127 * 8 + 3, 8), 255);
    assert_eq!(to_sample(127 * 8 + 4, 8), 255);
    assert_eq!(to_sample(126 * 8 + 3, 8), 254);
    assert_eq!(to_sample(-128 * 8, 8), 0);
    assert_eq!(to_sample(-128 * 8 - 4, 8), 0);
    assert_eq!(to_sample(-127 * 8 - 3, 8), 1);
    assert_eq!(to_sample(i128::MAX, 1), 255);
    assert_eq!(to_sample(i128::MIN, 1), 0);
    assert_eq!(to_sample(i128::MAX, i128::MAX), 129);
    assert_eq!(to_sample(i128::MIN, i128::MAX), 127);
}

#[test]
fn coefficients_round_and_clamp() {
    assert_eq!(to_coefficient(0, 16), 0);
    assert_eq!(to_coefficient(7, 16), 0);
    assert_eq!(to_coefficient(8, 16), 1);
    assert_eq!(to_coefficient(-7, 16), 0);
    assert_eq!(to_coefficient(-8, 16), -1);
    assert_eq!(to_coefficient(1000 * 16 + 9, 16), 1001);
    assert_eq!(to_coefficient(i128::MAX, 1), i32::MAX);
    assert_eq!(to_coefficient(i128::MIN, 1), i32::MIN);
    assert_eq!(to_coefficient(2147483647, 1), 2147483647);
    assert_eq!(to_coefficient(2147483648, 1), 2147483647);
    assert_eq!(to_coefficient(-2147483648, 1), -2147483648);
    assert_eq!(to_coefficient(-2147483649, 1), -2147483648);
    assert_eq!(round_coefficients(&[8, -8, 7, 24], 16), vec![1, -1, 0, 2]);
    assert_eq!(round_coefficients(&[], 16), Vec::<i32>::new());
}

#[test]
fn forward_of_mid_grey_is_zero() {
    let s = [128u8; 64];
    assert_eq!(fdct(&s), vec![0i128; 64]);
    assert_eq!(llm_fdct(&s), vec![0i128; 64]);
}

#[test]
fn forward_of_white_has_only_a_dc_term() {
    let s = [255u8; 64];
    let c = fdct(&s);
    // 64 samples of 127, each weighted by cos(pi / 4) squared with 20
    // fractional bits, and by 1.0 twice for the two cosines of frequency 0.
    assert_eq!(c[0], 64 * 127 * 741455 * 741455 * (1i128 << 40));
    let rounded = round_coefficients(&c, FDCT_SCALE);
    assert_eq!(rounded[0], 1016);
    for i in 1..64 {
        assert_eq!(rounded[i], 0);
    }
    let fast = llm_fdct(&s);
    assert_eq!(fast[0], 64 * 127 * (1i128 << 80));
    assert_eq!(round_coefficients(&fast, LLM_FDCT_SCALE), rounded);
}

#[test]
fn forward_scales_are_powers_of_two() {
    assert_eq!(FDCT_SCALE, 1i128 << 82);
    assert_eq!(LLM_FDCT_SCALE, 1i128 << 83);
}

#[test]
fn forward_of_a_ramp_matches_floating_point() {
    let s: Vec<u8> = (0..64).map(|i| (i * 4) as u8).collect();
    let c = fdct(&s);
    let fast = llm_fdct(&s);
    for v in 0..8 {
        for u in 0..8 {
            let mut val = 0.0f64;
            for y in 0..8 {
                for x in 0..8 {
                    val += (s[y * 8 + x] as f64 - 128.0)
                        * ((2 * x + 1) as f64 * u as f64 * std::f64::consts::PI / 16.0).cos()
                        * ((2 * y + 1) as f64 * v as f64 * std::f64::consts::PI / 16.0).cos();
                }
            }
            let cu = if u == 0 { 1.0 / 2.0f64.sqrt() } else { 1.0 };
            let cv = if v == 0 { 1.0 / 2.0f64.sqrt() } else { 1.0 };
            let expected = cu * cv * val / 4.0;
            assert!((c[v * 8 + u] as f64 / FDCT_SCALE as f64 - expected).abs() < 1e-3);
            assert!((fast[v * 8 + u] as f64 / LLM_FDCT_SCALE as f64 - expected).abs() < 1e-3);
        }
    }
}

#[test]
fn block_prints_as_eight_padded_lines() {
    let mut f = [0u8; 64];
    for i in 0..64 {
        f[i] = (i * 4) as u8;
    }
    f[63] = 255;
    f[1] = 9;
    f[2] = 10;
    f[3] = 99;
    f[4] = 100;
    let text = print_vec(&f);
    let lines: Vec<&str> = text.split('\n').collect();
    assert_eq!(lines.len(), 9);
    assert_eq!(lines[8], "");
    assert_eq!(lines[0], "  0   9  10  99 100  20  24  28");
    assert_eq!(lines[1], " 32  36  40  44  48  52  56  60");
    assert_eq!(lines[7], "224 228 232 236 240 244 248 255");
    let expected: String = (0..8)
        .map(|r| {
            format!(
                "{:3} {:3} {:3} {:3} {:3} {:3} {:3} {:3}\n",
                f[r * 8],
                f[r * 8 + 1],
                f[r * 8 + 2],
                f[r * 8 + 3],
                f[r * 8 + 4],
                f[r * 8 + 5],
                f[r * 8 + 6],
                f[r * 8 + 7]
            )
        })
        .collect();
    assert_eq!(text, expected);
}
