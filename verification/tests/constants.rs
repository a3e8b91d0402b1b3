use idct_test::aan;
use idct_test::aan_double;
use idct_test::ap922;
use idct_test::basis::{basis_table, cosine_table, unit_of, Precision};
use idct_test::llm;
use idct_test::llm_forward;
use std::f64::consts::PI;

fn close(value: i128, one: i128, expected: f64) -> bool {
    (value as f64 / one as f64 - expected).abs() < 1e-6
}

#[test]
fn llm_constants_match_closed_forms() {
    let one = llm::ONE;
    assert_eq!(one, 1 << 20);
    assert!(close(llm::ALPHA, one, 2.0f64.sqrt() * (3.0 * PI / 8.0).cos()));
    assert!(close(llm::BETA, one, 2.0f64.sqrt() * (3.0 * PI / 8.0).sin()));
    assert!(close(llm::GAMMA, one, 2.0f64.sqrt()));
    assert!(close(llm::ETA, one, (3.0 * PI / 16.0).cos()));
    assert!(close(llm::THETA, one, (3.0 * PI / 16.0).sin()));
    assert!(close(llm::DELTA, one, (PI / 16.0).cos()));
    assert!(close(llm::EPSILON, one, (PI / 16.0).sin()));
}

#[test]
fn forward_llm_constants_match_closed_forms() {
    let one = llm_forward::ONE;
    assert!(close(llm_forward::M0, one, 1.0 / 2.0f64.sqrt()));
    assert!(close(llm_forward::M1, one, 2.0f64.sqrt() * (PI / 16.0).cos()));
    assert!(close(llm_forward::M2, one, 2.0f64.sqrt() * (2.0 * PI / 16.0).cos()));
    assert!(close(llm_forward::M3, one, 2.0f64.sqrt() * (3.0 * PI / 16.0).cos()));
    assert!(close(llm_forward::M5, one, 2.0f64.sqrt() * (5.0 * PI / 16.0).cos()));
    assert!(close(llm_forward::M6, one, 2.0f64.sqrt() * (6.0 * PI / 16.0).cos()));
    assert!(close(llm_forward::M7, one, 2.0f64.sqrt() * (7.0 * PI / 16.0).cos()));
}

#[test]
fn aan_constants_match_closed_forms() {
    let one = aan::ONE;
    assert_eq!(one, 1 << 20);
    assert!(close(aan::M0, one, 2.0 * (PI / 8.0).cos()));
    assert!(close(aan::M1, one, 2.0f64.sqrt()));
    assert!(close(aan::M3, one, 2.0f64.sqrt()));
    assert!(close(aan::M5, one, 2.0 * (3.0 * PI / 8.0).cos()));
    assert_eq!(aan::M2, aan::M0 - aan::M5);
    assert_eq!(aan::M4, aan::M0 + aan::M5);
    let scales = [aan::S0, aan::S1, aan::S2, aan::S3, aan::S4, aan::S5, aan::S6, aan::S7];
    assert!(close(scales[0], one, 1.0 / (2.0 * 2.0f64.sqrt())));
    for k in 1..8 {
        assert!(close(scales[k], one, (k as f64 * PI / 16.0).cos() / 2.0));
    }
}

#[test]
fn wide_aan_constants_match_closed_forms() {
    let one = aan_double::ONE;
    assert_eq!(one, 1 << 22);
    assert!(close(aan_double::M0, one, 2.0 * (PI / 8.0).cos()));
    assert!(close(aan_double::M1, one, 2.0f64.sqrt()));
    assert!(close(aan_double::M3, one, 2.0f64.sqrt()));
    assert!(close(aan_double::M5, one, 2.0 * (3.0 * PI / 8.0).cos()));
    assert_eq!(aan_double::M2, aan_double::M0 - aan_double::M5);
    assert_eq!(aan_double::M4, aan_double::M0 + aan_double::M5);
    let scales = [
        aan_double::S0,
        aan_double::S1,
        aan_double::S2,
        aan_double::S3,
        aan_double::S4,
        aan_double::S5,
        aan_double::S6,
        aan_double::S7,
    ];
    assert!(close(scales[0], one, 1.0 / (2.0 * 2.0f64.sqrt())));
    for k in 1..8 {
        assert!(close(scales[k], one, (k as f64 * PI / 16.0).cos() / 2.0));
    }
}

#[test]
fn ap922_constants_match_closed_forms() {
    let one = ap922::ONE;
    let g = |k: usize| (k as f64 * PI / 16.0).cos();
    assert!(close(ap922::G4, one, g(4)));
    assert!(close(ap922::T1, one, g(6) / g(2)));
    assert!(close(ap922::T2, one, g(7) / g(1)));
    assert!(close(ap922::T3, one, g(5) / g(3)));
    let group_constant = [g(4), g(1), g(2), g(3)];
    for group in 0..4 {
        let row = ap922::products(group);
        for k in 0..7 {
            assert!(close(row[k], one, g(k + 1) * 0.25 * group_constant[group]));
        }
    }
    assert_eq!(ap922::ROW_TO_GROUP, [0, 1, 2, 3, 0, 3, 2, 1]);
}

#[test]
fn cosine_tables_match_the_cosine() {
    for (precision, tolerance) in
        [(Precision::Coarse, 1.0 / 512.0), (Precision::Single, 1e-6), (Precision::Double, 1e-6)]
    {
        let one = unit_of(precision);
        let table = cosine_table(precision);
        for k in 0..32 {
            let expected = (k as f64 * PI / 16.0).cos();
            assert!((table[k] as f64 / one as f64 - expected).abs() <= tolerance);
        }
    }
}

#[test]
fn basis_tables_match_the_basis() {
    for (precision, tolerance) in
        [(Precision::Coarse, 1.0 / 512.0), (Precision::Single, 1e-6), (Precision::Double, 1e-6)]
    {
        let one = unit_of(precision);
        let table = basis_table(precision);
        for x in 0..8 {
            for u in 0..8 {
                let c = if u == 0 { 1.0 / 2.0f64.sqrt() } else { 1.0 };
                let expected = c * ((2 * x + 1) as f64 * u as f64 * PI / 16.0).cos();
                assert!((table[x * 8 + u] as f64 / one as f64 - expected).abs() <= tolerance);
            }
        }
    }
}

#[test]
fn coarse_basis_is_the_table_scaled_by_256() {
    let table = basis_table(Precision::Coarse);
    assert_eq!(&table[0..8], &[181i128, 251, 237, 213, 181, 142, 98, 50]);
    assert_eq!(&table[8..16], &[181i128, 213, 98, -50, -181, -251, -237, -142]);
    assert_eq!(&table[56..64], &[181i128, -251, 237, -213, 181, -142, 98, -50]);
}
