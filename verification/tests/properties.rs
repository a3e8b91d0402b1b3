use idct_test::fdct::{
    coefficients, fdct, llm_fdct, round_coefficients, FDCT_SCALE, LLM_FDCT_SCALE,
};
use idct_test::basis::Precision;
use idct_test::idct::{
    ap922_idct, fast_idct, fast_idct_f64, idct, idct1, idct3, idct4, idct5, idct6, idct7, idct8,
    idct9, idct_f64, inverse_transform, llm_idct,
};
use idct_test::kernel::Kernel;

/// A small linear congruential generator, so that the sampled blocks are the
/// same on every run.
fn next(state: &mut u64) -> u64 {
    *state = state.wrapping_mul(6364136223846793005).wrapping_add(1442695040888963407);
    *state >> 33
}

fn sample_block(state: &mut u64) -> Vec<u8> {
    (0..64).map(|_| (next(state) % 256) as u8).collect()
}

fn coefficient_block(state: &mut u64, spread: i64) -> Vec<i32> {
    (0..64).map(|_| ((next(state) as i64 % (2 * spread + 1)) - spread) as i32).collect()
}

fn largest_gap(a: &[u8], b: &[u8]) -> i32 {
    assert_eq!(a.len(), b.len());
    a.iter().zip(b.iter()).map(|(p, q)| (*p as i32 - *q as i32).abs()).max().unwrap_or(0)
}

fn check_against_reference(f: &[i32]) {
    let reference = idct(f);
    assert_eq!(reference.len(), 64);
    assert_eq!(idct1(f), reference);
    assert_eq!(idct3(f), reference);
    assert_eq!(idct4(f), reference);
    assert_eq!(idct6(f), reference);
    assert_eq!(idct7(f), reference);
    assert_eq!(idct8(f), reference);
    assert_eq!(idct9(f), reference);
    assert!(largest_gap(&idct_f64(f), &reference) <= 1);
    assert!(largest_gap(&llm_idct(f), &reference) <= 1);
    assert!(largest_gap(&fast_idct(f), &reference) <= 1);
    assert!(largest_gap(&fast_idct_f64(f), &reference) <= 1);
    assert!(largest_gap(&ap922_idct(f), &reference) <= 1);
}

#[test]
fn round_trip_of_sampled_blocks_within_one() {
    let mut state = 2024u64;
    for _ in 0..200 {
        let s = sample_block(&mut state);
        let c = coefficients(&s);
        assert_eq!(c, round_coefficients(&fdct(&s), FDCT_SCALE));
        assert!(largest_gap(&idct(&c), &s) <= 1);
    }
}

#[test]
fn fast_round_trip_of_sampled_blocks_within_one() {
    let mut state = 7u64;
    for _ in 0..100 {
        let s = sample_block(&mut state);
        let c = round_coefficients(&llm_fdct(&s), LLM_FDCT_SCALE);
        assert!(largest_gap(&llm_idct(&c), &s) <= 1);
    }
}

#[test]
fn forward_transforms_agree_on_sampled_blocks() {
    let mut state = 99u64;
    for _ in 0..100 {
        let s = sample_block(&mut state);
        let a = fdct(&s);
        let b = llm_fdct(&s);
        let rounded_a = round_coefficients(&a, FDCT_SCALE);
        let rounded_b = round_coefficients(&b, LLM_FDCT_SCALE);
        for i in 0..64 {
            assert!((rounded_a[i] - rounded_b[i]).abs() <= 1);
        }
        for i in 0..64 {
            let x = a[i] as f64 / FDCT_SCALE as f64;
            let y = b[i] as f64 / LLM_FDCT_SCALE as f64;
            assert!((x - y).abs() < 1e-3);
        }
    }
}

#[test]
fn all_zero_block_is_mid_grey_everywhere() {
    let f = [0i32; 64];
    let grey = vec![128u8; 64];
    assert_eq!(idct(&f), grey);
    assert_eq!(idct_f64(&f), grey);
    assert_eq!(idct5(&f), grey);
    assert_eq!(llm_idct(&f), grey);
    assert_eq!(fast_idct(&f), grey);
    assert_eq!(fast_idct_f64(&f), grey);
    assert_eq!(ap922_idct(&f), grey);
    check_against_reference(&f);
}

#[test]
fn single_impulse_at_each_position() {
    for position in 0..64 {
        for value in [100, -100, 1, -1, 1000, -1000] {
            let mut f = [0i32; 64];
            f[position] = value;
            check_against_reference(&f);
        }
    }
}

#[test]
fn sampled_coefficient_blocks() {
    let mut state = 31337u64;
    for _ in 0..100 {
        let f = coefficient_block(&mut state, 255);
        check_against_reference(&f);
    }
    for _ in 0..100 {
        let f = coefficient_block(&mut state, 2048);
        check_against_reference(&f);
    }
}

#[test]
fn coarse_constants_within_two_on_small_blocks() {
    let mut state = 5u64;
    for _ in 0..100 {
        let f = coefficient_block(&mut state, 30);
        assert!(largest_gap(&idct5(&f), &idct(&f)) <= 2);
    }
}

#[test]
fn dc_only_block_is_flat() {
    for c in [0, 1, -1, 5, -5, 60, -60, 100, -100, 127, -128] {
        let mut f = [0i32; 64];
        f[0] = 8 * c;
        let flat = vec![(c + 128) as u8; 64];
        assert_eq!(idct(&f), flat);
        assert_eq!(idct1(&f), flat);
        assert_eq!(idct3(&f), flat);
        assert_eq!(idct4(&f), flat);
        assert_eq!(idct5(&f), flat);
        assert_eq!(idct6(&f), flat);
        assert_eq!(idct7(&f), flat);
        assert_eq!(idct8(&f), flat);
        assert_eq!(idct9(&f), flat);
        assert_eq!(idct_f64(&f), flat);
        assert_eq!(llm_idct(&f), flat);
        assert_eq!(fast_idct(&f), flat);
        assert_eq!(fast_idct_f64(&f), flat);
        assert_eq!(ap922_idct(&f), flat);
    }
}

#[test]
fn dc_only_block_saturates() {
    for (c, expected) in [(128, 255u8), (129, 255), (5000, 255), (-129, 0), (-130, 0), (-5000, 0)] {
        let mut f = [0i32; 64];
        f[0] = 8 * c;
        let flat = vec![expected; 64];
        assert_eq!(idct(&f), flat);
        assert_eq!(idct5(&f), flat);
        assert_eq!(idct_f64(&f), flat);
        assert_eq!(llm_idct(&f), flat);
        assert_eq!(fast_idct(&f), flat);
        assert_eq!(fast_idct_f64(&f), flat);
        assert_eq!(ap922_idct(&f), flat);
        assert_eq!(idct9(&f), flat);
    }
}

#[test]
fn extreme_dc_saturates() {
    for (value, expected) in [(i32::MAX, 255u8), (i32::MIN, 0u8)] {
        let mut f = [0i32; 64];
        f[0] = value;
        let flat = vec![expected; 64];
        assert_eq!(idct(&f), flat);
        assert_eq!(idct_f64(&f), flat);
        assert_eq!(llm_idct(&f), flat);
        assert_eq!(fast_idct(&f), flat);
        assert_eq!(fast_idct_f64(&f), flat);
        assert_eq!(ap922_idct(&f), flat);
        assert_eq!(idct5(&f), flat);
        assert_eq!(idct7(&f), flat);
    }
}

#[test]
fn every_coefficient_at_an_extreme_stays_in_range() {
    // No overflow and no wrap-around with the largest inputs there are.
    for value in [i32::MAX, i32::MIN] {
        let f = [value; 64];
        check_against_reference(&f);
        let out = idct(&f);
        // The first sample is the sum of all the weights, which are positive there.
        assert_eq!(out[0], if value > 0 { 255 } else { 0 });
    }
}

#[test]
fn engineered_blocks_clamp_both_ways() {
    // A strong horizontal edge: the left half is driven above 255, the right below 0.
    let mut f = [0i32; 64];
    f[1] = 30000;
    let out = idct(&f);
    for y in 0..8 {
        for x in 0..4 {
            assert_eq!(out[y * 8 + x], 255);
        }
        for x in 4..8 {
            assert_eq!(out[y * 8 + x], 0);
        }
    }
    assert_eq!(llm_idct(&f), out);
    assert_eq!(fast_idct(&f), out);
    assert_eq!(fast_idct_f64(&f), out);
    assert_eq!(ap922_idct(&f), out);
    assert_eq!(idct8(&f), out);
}

#[test]
fn horizontal_impulse_has_the_cosine_shape() {
    let mut f = [0i32; 64];
    f[1] = 100;
    let out = idct(&f);
    for y in 0..8 {
        assert_eq!(&out[y * 8..y * 8 + 8], &[145u8, 143, 138, 131, 125, 118, 113, 111]);
    }
}

#[test]
fn vertical_impulse_has_the_cosine_shape() {
    let mut f = [0i32; 64];
    f[8] = -300;
    let out = idct(&f);
    let column: Vec<u8> = (0..8).map(|y| out[y * 8]).collect();
    assert_eq!(column, vec![76u8, 84, 99, 118, 138, 157, 172, 180]);
    for y in 0..8 {
        for x in 0..8 {
            assert_eq!(out[y * 8 + x], column[y]);
        }
    }
}

#[test]
fn a_tie_rounds_away_from_zero_where_the_dc_path_is_exact() {
    // A DC term of 4 stands for 0.5 in every sample.
    let mut f = [0i32; 64];
    f[0] = 4;
    assert_eq!(llm_idct(&f), vec![129u8; 64]);
    assert_eq!(ap922_idct(&f), vec![129u8; 64]);
    f[0] = -4;
    assert_eq!(llm_idct(&f), vec![127u8; 64]);
    assert_eq!(ap922_idct(&f), vec![127u8; 64]);
}

#[test]
fn huge_coefficients_that_cancel_show_the_rounding_of_the_constants() {
    // Beyond the magnitudes of image data the fast transforms may leave the
    // reference by more than one: the two terms cancel in the first column,
    // and what is left is the difference of the rounded constants.
    let mut f = [0i32; 64];
    f[1] = 17023975;
    f[2] = -18072555;
    let reference = idct(&f);
    let fast = ap922_idct(&f);
    assert_eq!(reference[0], 128);
    assert_eq!(fast[0], 124);
}

#[test]
fn a_round_trip_may_be_two_off() {
    // The rounding of the 64 coefficients can add up: this block comes back
    // with one sample two below what went in, and none further off.
    let s: [u8; 64] = [
        45, 159, 252, 169, 253, 144, 5, 194, 178, 244, 231, 60, 183, 72, 185, 74, 235, 210, 6, 36,
        159, 224, 236, 36, 114, 129, 241, 126, 28, 31, 64, 94, 166, 205, 241, 191, 49, 253, 93, 58,
        169, 67, 162, 180, 56, 211, 22, 195, 60, 249, 22, 41, 149, 142, 14, 158, 11, 129, 206, 66,
        189, 136, 168, 241,
    ];
    let c = coefficients(&s);
    let back = idct(&c);
    assert_eq!(s[16], 235);
    assert_eq!(back[16], 233);
    assert_eq!(largest_gap(&back, &s), 2);
}

#[test]
fn round_trip_of_flat_blocks_is_exact() {
    for level in [0u8, 1, 127, 128, 129, 254, 255] {
        let s = [level; 64];
        let c = round_coefficients(&fdct(&s), FDCT_SCALE);
        assert_eq!(c[0], 8 * (level as i32 - 128));
        assert_eq!(idct(&c), s.to_vec());
    }
}

#[test]
fn every_kernel_through_one_entry_point() {
    let mut state = 11u64;
    let f = coefficient_block(&mut state, 300);
    assert_eq!(inverse_transform(Kernel::Reference(Precision::Single), &f), idct(&f));
    assert_eq!(inverse_transform(Kernel::Reference(Precision::Double), &f), idct_f64(&f));
    assert_eq!(inverse_transform(Kernel::Reference(Precision::Coarse), &f), idct5(&f));
    assert_eq!(inverse_transform(Kernel::Llm, &f), llm_idct(&f));
    assert_eq!(inverse_transform(Kernel::Aan, &f), fast_idct(&f));
    assert_eq!(inverse_transform(Kernel::AanDouble, &f), fast_idct_f64(&f));
    assert_eq!(inverse_transform(Kernel::Ap922, &f), ap922_idct(&f));
    let reference = idct(&f);
    for k in [Kernel::Llm, Kernel::Aan, Kernel::AanDouble, Kernel::Ap922] {
        assert!(largest_gap(&inverse_transform(k, &f), &reference) <= 1);
    }
}

#[test]
fn round_trip_of_extreme_blocks_within_three() {
    // Blocks of black and white only, which make the largest coefficients.
    let mut state = 4242u64;
    for _ in 0..200 {
        let s: Vec<u8> = (0..64).map(|_| if next(&mut state) % 2 == 0 { 0u8 } else { 255u8 }).collect();
        let back = idct(&coefficients(&s));
        assert!(largest_gap(&back, &s) <= 3);
    }
}
