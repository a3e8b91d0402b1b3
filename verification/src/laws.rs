//! What holds of the transforms as a whole: a block with only its DC term
//! set comes out flat, sums beyond the range of a sample saturate, and the
//! fast transforms stay within one of the reference.
use crate::ap922::first_pass;
use crate::basis::{basis, cos16, cosine, lemma_basis_bound, unit, Precision};
use crate::butterfly::{even, matrix, odd, Network};
use crate::closeness::{
    lemma_magnitude_bound, lemma_samples_close, lemma_sums_close, magnitude, weights_within,
};
use crate::fixed::{
    clamp_sample, lemma_round_div_is, lemma_round_div_near, lemma_sample_saturates, sample_of,
};
use crate::kernel::{
    centered, divisor, forward, inverse, is_inverse, lemma_row_terms, lemma_sum_rows, rounded,
    row_prefix, sample, sum, term, weight, Kernel,
};
use crate::linear::{holds_on_grid, lemma_grid, lemma_mul_bound};
use vstd::prelude::*;

verus! {

/// Where `a` is `g * b` to within `d1` and `a2` is `h * b2` to within `d2`,
/// and `g * h` is `c` to within `g2`, the product `a * a2` is `c * (b * b2)`
/// to within `g2 * s * s + g * s * d2 + h * s * d1 + d1 * d2`, for `s` a
/// bound on `b` and `b2`.
pub proof fn lemma_product_close(
    a: int,
    a2: int,
    b: int,
    b2: int,
    g: int,
    h: int,
    c: int,
    s: int,
    d1: int,
    d2: int,
    g2: int,
    bound: int,
)
    requires
        g >= 0,
        h >= 0,
        -s <= b <= s,
        -s <= b2 <= s,
        -d1 <= a - g * b <= d1,
        -d2 <= a2 - h * b2 <= d2,
        -g2 <= g * h - c <= g2,
        bound == g2 * (s * s) + (g * s) * d2 + (h * s) * d1 + d1 * d2,
    ensures
        -bound <= a * a2 - c * (b * b2) <= bound,
{
    let e1 = a - g * b;
    let e2 = a2 - h * b2;
    let gb = g * b;
    let hb2 = h * b2;
    let bb = b * b2;
    let gg = g * h - c;
    assert(a * a2 == gb * hb2 + gb * e2 + hb2 * e1 + e1 * e2) by (nonlinear_arith)
        requires
            a == gb + e1,
            a2 == hb2 + e2,
    ;
    assert(gb * hb2 == (g * h) * bb) by (nonlinear_arith)
        requires
            gb == g * b,
            hb2 == h * b2,
            bb == b * b2,
    ;
    assert((g * h) * bb - c * bb == gg * bb) by (nonlinear_arith)
        requires
            gg == g * h - c,
    ;
    lemma_mul_bound(b, b2, s, s);
    lemma_mul_bound(gg, bb, g2, s * s);
    lemma_mul_bound(g, b, g, s);
    lemma_mul_bound(h, b2, h, s);
    lemma_mul_bound(gb, e2, g * s, d2);
    lemma_mul_bound(hb2, e1, h * s, d1);
    lemma_mul_bound(e1, e2, d1, d2);
}

/// `a` and `b` are at most `d` apart.
pub open spec fn nearly(a: int, b: int, d: int) -> bool {
    -d <= a - b <= d
}

/// Entry `(x, u)` of the matrix of the inverse butterfly of
/// Loeffler-Ligtenberg-Moschytz is `sqrt(2)` times that entry of the basis,
/// to within one unit of the basis.
pub open spec fn llm_entry_close(x: int, u: int) -> bool {
    nearly(matrix(Network::Llm, x, u), 1482910 * basis(Precision::Single, x, u), 0x10_0000)
}

/// Every entry of the matrix is close to its basis entry.
#[verifier::rlimit(50)]
#[verifier::spinoff_prover]
pub proof fn lemma_llm_entries()
    ensures
        forall|x: int, u: int| 0 <= x < 8 && 0 <= u < 8 ==> llm_entry_close(x, u),
{
    reveal(even);
    reveal(odd);
    let p = |x: int, u: int| llm_entry_close(x, u);
    assert(holds_on_grid(p));
    lemma_grid(p);
    assert forall|x: int, u: int| 0 <= x < 8 && 0 <= u < 8 implies llm_entry_close(x, u) by {
        assert(p(x, u));
    }
}

/// Entry `(x, u)` of the matrix of the Arai-Agui-Nakajima butterfly is half
/// that entry of the basis, to within five units of the basis.
pub open spec fn aan_entry_close(x: int, u: int) -> bool {
    nearly(2 * matrix(Network::Aan, x, u), 0x10_0000 * basis(Precision::Single, x, u), 0x50_0000)
}

/// The same for the butterfly with 22-bit constants, whose entries carry 44
/// fractional bits.
pub open spec fn aan_double_entry_close(x: int, u: int) -> bool {
    nearly(
        matrix(Network::AanDouble, x, u),
        0x80_0000 * basis(Precision::Single, x, u),
        0x50_0000,
    )
}

/// Entry `(x, u)` of the basis with 22 fractional bits is the entry with 20,
/// to within two units.
pub open spec fn double_entry_close(x: int, u: int) -> bool {
    nearly(basis(Precision::Double, x, u), 4 * basis(Precision::Single, x, u), 2)
}

/// Entry `(x, u)` of the basis with 20 fractional bits is the entry with 8,
/// to within 1994 units.
pub open spec fn coarse_entry_close(x: int, u: int) -> bool {
    nearly(basis(Precision::Single, x, u), 4096 * basis(Precision::Coarse, x, u), 1994)
}

/// The constant of the group of coefficient column `u` in AP-922:
/// `cos(k * pi / 16)` for `k` = 4, 1, 2, 3, 4, 3, 2, 1.
pub open spec fn group_constant(u: int) -> int {
    if u == 0 || u == 4 {
        cosine(Precision::Single, 4)
    } else if u == 1 || u == 7 {
        cosine(Precision::Single, 1)
    } else if u == 2 || u == 6 {
        cosine(Precision::Single, 2)
    } else {
        cosine(Precision::Single, 3)
    }
}

/// A number times the constant of the group of coefficient column `u`.
pub open spec fn times_group_constant(u: int, t: int) -> int {
    if u == 0 || u == 4 {
        741455 * t
    } else if u == 1 || u == 7 {
        1028428 * t
    } else if u == 2 || u == 6 {
        968758 * t
    } else {
        871859 * t
    }
}

/// The constants of the groups are entries of the cosine table.
pub proof fn lemma_times_group_constant(u: int, t: int)
    ensures
        times_group_constant(u, t) == t * group_constant(u),
        times_group_constant(u, t) == group_constant(u) * t,
        741455 <= group_constant(u) <= 1048576,
{
    let g = group_constant(u);
    assert(g * t == t * g) by (nonlinear_arith);
    if u == 0 || u == 4 {
        assert(g * t == 741455 * t) by (nonlinear_arith)
            requires
                g == 741455,
        ;
    } else if u == 1 || u == 7 {
        assert(g * t == 1028428 * t) by (nonlinear_arith)
            requires
                g == 1028428,
        ;
    } else if u == 2 || u == 6 {
        assert(g * t == 968758 * t) by (nonlinear_arith)
            requires
                g == 968758,
        ;
    } else {
        assert(g * t == 871859 * t) by (nonlinear_arith)
            requires
                g == 871859,
        ;
    }
}

/// Entry `(x, u)` of the matrix of the second pass of AP-922, times the
/// constant of the group of `u`, is that entry of the basis.
pub open spec fn ap922_second_close(x: int, u: int) -> bool {
    nearly(
        times_group_constant(u, matrix(Network::Ap922, x, u)),
        0x100_0000_0000 * basis(Precision::Single, x, u),
        0xc0_0000_0000,
    )
}

/// Entry `(y, v)` of the matrix of the first pass of AP-922 for column `u`
/// is a quarter of that entry of the basis times the constant of the group.
pub open spec fn ap922_first_close(u: int, y: int, v: int) -> bool {
    nearly(
        0x40_0000 * matrix(first_pass(u), y, v),
        times_group_constant(u, basis(Precision::Single, y, v)),
        0x1c_0000,
    )
}

/// Every entry of the matrices of Arai-Agui-Nakajima is close to its basis entry.
#[verifier::rlimit(50)]
#[verifier::spinoff_prover]
pub proof fn lemma_aan_entries()
    ensures
        forall|x: int, u: int| 0 <= x < 8 && 0 <= u < 8 ==> aan_entry_close(x, u),
        forall|x: int, u: int| 0 <= x < 8 && 0 <= u < 8 ==> aan_double_entry_close(x, u),
{
    reveal(even);
    reveal(odd);
    let p = |x: int, u: int| aan_entry_close(x, u);
    assert(holds_on_grid(p));
    lemma_grid(p);
    assert forall|x: int, u: int| 0 <= x < 8 && 0 <= u < 8 implies aan_entry_close(x, u) by {
        assert(p(x, u));
    }
    let q = |x: int, u: int| aan_double_entry_close(x, u);
    assert(holds_on_grid(q));
    lemma_grid(q);
    assert forall|x: int, u: int| 0 <= x < 8 && 0 <= u < 8 implies aan_double_entry_close(x, u) by {
        assert(q(x, u));
    }
}

/// The basis with 22 fractional bits is the basis with 20.
#[verifier::rlimit(50)]
#[verifier::spinoff_prover]
pub proof fn lemma_double_entries()
    ensures
        forall|x: int, u: int| 0 <= x < 8 && 0 <= u < 8 ==> double_entry_close(x, u),
{
    let p = |x: int, u: int| double_entry_close(x, u);
    assert(holds_on_grid(p));
    lemma_grid(p);
    assert forall|x: int, u: int| 0 <= x < 8 && 0 <= u < 8 implies double_entry_close(x, u) by {
        assert(p(x, u));
    }
}

/// The basis with 8 fractional bits is the basis with 20.
#[verifier::rlimit(50)]
#[verifier::spinoff_prover]
pub proof fn lemma_coarse_entries()
    ensures
        forall|x: int, u: int| 0 <= x < 8 && 0 <= u < 8 ==> coarse_entry_close(x, u),
{
    let p = |x: int, u: int| coarse_entry_close(x, u);
    assert(holds_on_grid(p));
    lemma_grid(p);
    assert forall|x: int, u: int| 0 <= x < 8 && 0 <= u < 8 implies coarse_entry_close(x, u) by {
        assert(p(x, u));
    }
}

/// Every entry of the matrix of the second pass of AP-922 is close to its basis entry.
#[verifier::rlimit(50)]
#[verifier::spinoff_prover]
pub proof fn lemma_ap922_second_entries()
    ensures
        forall|x: int, u: int| 0 <= x < 8 && 0 <= u < 8 ==> ap922_second_close(x, u),
{
    reveal(even);
    reveal(odd);
    let p = |x: int, u: int| ap922_second_close(x, u);
    assert(holds_on_grid(p));
    lemma_grid(p);
    assert forall|x: int, u: int| 0 <= x < 8 && 0 <= u < 8 implies ap922_second_close(x, u) by {
        assert(p(x, u));
    }
}

/// Every entry of the matrix of the first pass of AP-922 for column `u` is
/// close to its basis entry.
#[verifier::rlimit(50)]
#[verifier::spinoff_prover]
pub proof fn lemma_ap922_first_entries(u: int)
    requires
        0 <= u < 8,
    ensures
        forall|y: int, v: int| 0 <= y < 8 && 0 <= v < 8 ==> ap922_first_close(u, y, v),
{
    reveal(even);
    reveal(odd);
    let r = if u < 4 {
        u
    } else {
        8 - u
    };
    if r == 0 {
        let p = |y: int, v: int| ap922_first_close(0, y, v);
        assert(holds_on_grid(p));
        lemma_grid(p);
        assert forall|y: int, v: int| 0 <= y < 8 && 0 <= v < 8 implies ap922_first_close(u, y, v) by {
            assert(p(y, v));
        }
    } else if r == 1 {
        let p = |y: int, v: int| ap922_first_close(1, y, v);
        assert(holds_on_grid(p));
        lemma_grid(p);
        assert forall|y: int, v: int| 0 <= y < 8 && 0 <= v < 8 implies ap922_first_close(u, y, v) by {
            assert(p(y, v));
        }
    } else if r == 2 {
        let p = |y: int, v: int| ap922_first_close(2, y, v);
        assert(holds_on_grid(p));
        lemma_grid(p);
        assert forall|y: int, v: int| 0 <= y < 8 && 0 <= v < 8 implies ap922_first_close(u, y, v) by {
            assert(p(y, v));
        }
    } else if r == 3 {
        let p = |y: int, v: int| ap922_first_close(3, y, v);
        assert(holds_on_grid(p));
        lemma_grid(p);
        assert forall|y: int, v: int| 0 <= y < 8 && 0 <= v < 8 implies ap922_first_close(u, y, v) by {
            assert(p(y, v));
        }
    } else {
        let p = |y: int, v: int| ap922_first_close(4, y, v);
        assert(holds_on_grid(p));
        lemma_grid(p);
        assert forall|y: int, v: int| 0 <= y < 8 && 0 <= v < 8 implies ap922_first_close(u, y, v) by {
            assert(p(y, v));
        }
    }
}

/// The kernel every other inverse kernel is measured against.
pub open spec fn reference() -> Kernel {
    Kernel::Reference(Precision::Single)
}

/// The weights of the Loeffler-Ligtenberg-Moschytz kernel are those of the reference.
proof fn lemma_llm_weights(x: int, y: int)
    requires
        0 <= x < 8,
        0 <= y < 8,
    ensures
        weights_within(
            Kernel::Llm,
            0x8_0000_0000_0000_0000_0000,
            reference(),
            0x400_0000_0000,
            x,
            y,
            0xfd_7ee4_0000_0000_0000_0000_0000,
        ),
{
    lemma_llm_entries();
    assert forall|u: int, v: int| 0 <= u < 8 && 0 <= v < 8 implies -(0xfd_7ee4_0000_0000_0000_0000_0000) <= #[trigger] weight(Kernel::Llm, x, y, u, v) * 0x400_0000_0000
        - weight(reference(), x, y, u, v) * 0x8_0000_0000_0000_0000_0000 <= 0xfd_7ee4_0000_0000_0000_0000_0000 by {
        lemma_basis_bound(Precision::Single, x, u);
        lemma_basis_bound(Precision::Single, y, v);
        assert(llm_entry_close(x, u) && llm_entry_close(y, v));
        lemma_product_close(
            matrix(Network::Llm, x, u),
            matrix(Network::Llm, y, v),
            basis(Precision::Single, x, u),
            basis(Precision::Single, y, v),
            1482910,
            1482910,
            0x200_0000_0000,
            0x10_0000,
            0x10_0000,
            0x10_0000,
            1187452,
            0x3f5f_b900_0000_0000,
        );
    }
}

/// The weights of the Arai-Agui-Nakajima kernel are those of the reference.
proof fn lemma_aan_weights(x: int, y: int)
    requires
        0 <= x < 8,
        0 <= y < 8,
    ensures
        weights_within(
            Kernel::Aan,
            0x1_0000_0000_0000_0000_0000,
            reference(),
            0x400_0000_0000,
            x,
            y,
            0xa0_0019_0000_0000_0000_0000_0000,
        ),
{
    lemma_aan_entries();
    assert forall|u: int, v: int| 0 <= u < 8 && 0 <= v < 8 implies -(0xa0_0019_0000_0000_0000_0000_0000) <= #[trigger] weight(Kernel::Aan, x, y, u, v)
        * 0x400_0000_0000 - weight(reference(), x, y, u, v) * 0x1_0000_0000_0000_0000_0000
        <= 0xa0_0019_0000_0000_0000_0000_0000 by {
        lemma_basis_bound(Precision::Single, x, u);
        lemma_basis_bound(Precision::Single, y, v);
        assert(aan_entry_close(x, u) && aan_entry_close(y, v));
        let a = matrix(Network::Aan, x, u);
        let a2 = matrix(Network::Aan, y, v);
        lemma_product_close(
            2 * a,
            2 * a2,
            basis(Precision::Single, x, u),
            basis(Precision::Single, y, v),
            0x10_0000,
            0x10_0000,
            0x100_0000_0000,
            0x10_0000,
            0x50_0000,
            0x50_0000,
            0,
            0xa000_1900_0000_0000,
        );
        assert((2 * a) * (2 * a2) == 4 * (a * a2)) by (nonlinear_arith);
    }
}

/// The weights of the Arai-Agui-Nakajima kernel with 22-bit constants are
/// those of the reference.
proof fn lemma_aan_double_weights(x: int, y: int)
    requires
        0 <= x < 8,
        0 <= y < 8,
    ensures
        weights_within(
            Kernel::AanDouble,
            0x100_0000_0000_0000_0000_0000,
            reference(),
            0x400_0000_0000,
            x,
            y,
            0x1400_0064_0000_0000_0000_0000_0000,
        ),
{
    lemma_aan_entries();
    assert forall|u: int, v: int| 0 <= u < 8 && 0 <= v < 8 implies -(0x1400_0064_0000_0000_0000_0000_0000) <= #[trigger] weight(
        Kernel::AanDouble,
        x,
        y,
        u,
        v,
    ) * 0x400_0000_0000 - weight(reference(), x, y, u, v) * 0x100_0000_0000_0000_0000_0000
        <= 0x1400_0064_0000_0000_0000_0000_0000 by {
        lemma_basis_bound(Precision::Single, x, u);
        lemma_basis_bound(Precision::Single, y, v);
        assert(aan_double_entry_close(x, u) && aan_double_entry_close(y, v));
        lemma_product_close(
            matrix(Network::AanDouble, x, u),
            matrix(Network::AanDouble, y, v),
            basis(Precision::Single, x, u),
            basis(Precision::Single, y, v),
            0x80_0000,
            0x80_0000,
            0x4000_0000_0000,
            0x10_0000,
            0x50_0000,
            0x50_0000,
            0,
            0x5_0000_1900_0000_0000,
        );
    }
}

/// The weights of the reference kernel with 22-bit constants are those of
/// the reference.
proof fn lemma_double_weights(x: int, y: int)
    requires
        0 <= x < 8,
        0 <= y < 8,
    ensures
        weights_within(
            Kernel::Reference(Precision::Double),
            0x4000_0000_0000,
            reference(),
            0x400_0000_0000,
            x,
            y,
            0x4_0000_1000_0000_0000,
        ),
{
    lemma_double_entries();
    assert forall|u: int, v: int| 0 <= u < 8 && 0 <= v < 8 implies -(0x4_0000_1000_0000_0000)
        <= #[trigger] weight(Kernel::Reference(Precision::Double), x, y, u, v) * 0x400_0000_0000
        - weight(reference(), x, y, u, v) * 0x4000_0000_0000 <= 0x4_0000_1000_0000_0000 by {
        lemma_basis_bound(Precision::Single, x, u);
        lemma_basis_bound(Precision::Single, y, v);
        assert(double_entry_close(x, u) && double_entry_close(y, v));
        lemma_product_close(
            basis(Precision::Double, x, u),
            basis(Precision::Double, y, v),
            basis(Precision::Single, x, u),
            basis(Precision::Single, y, v),
            4,
            4,
            16,
            0x10_0000,
            2,
            2,
            0,
            0x100_0004,
        );
    }
}

/// The weights of the reference kernel with 8-bit constants are those of the
/// reference, less closely.
proof fn lemma_coarse_weights(x: int, y: int)
    requires
        0 <= x < 8,
        0 <= y < 8,
    ensures
        weights_within(
            Kernel::Reference(Precision::Coarse),
            0x4_0000,
            reference(),
            0x400_0000_0000,
            x,
            y,
            0x3_e5f2_ad90_0000,
        ),
{
    lemma_coarse_entries();
    assert forall|u: int, v: int| 0 <= u < 8 && 0 <= v < 8 implies -(0x3_e5f2_ad90_0000)
        <= #[trigger] weight(Kernel::Reference(Precision::Coarse), x, y, u, v) * 0x400_0000_0000
        - weight(reference(), x, y, u, v) * 0x4_0000 <= 0x3_e5f2_ad90_0000 by {
        lemma_basis_bound(Precision::Coarse, x, u);
        lemma_basis_bound(Precision::Coarse, y, v);
        assert(coarse_entry_close(x, u) && coarse_entry_close(y, v));
        lemma_product_close(
            basis(Precision::Single, x, u),
            basis(Precision::Single, y, v),
            basis(Precision::Coarse, x, u),
            basis(Precision::Coarse, y, v),
            4096,
            4096,
            0x100_0000,
            0x100,
            1994,
            1994,
            0,
            4185697124,
        );
    }
}

/// The weights of the AP-922 kernel are those of the reference.
proof fn lemma_ap922_weights(x: int, y: int)
    requires
        0 <= x < 8,
        0 <= y < 8,
    ensures
        weights_within(
            Kernel::Ap922,
            0x1000_0000_0000_0000,
            reference(),
            0x400_0000_0000,
            x,
            y,
            0x4_0000_0000_0000_0000_0000,
        ),
{
    lemma_ap922_second_entries();
    assert forall|u: int, v: int| 0 <= u < 8 && 0 <= v < 8 implies -0x4_0000_0000_0000_0000_0000
        <= #[trigger] weight(Kernel::Ap922, x, y, u, v) * 0x400_0000_0000 - weight(
        reference(),
        x,
        y,
        u,
        v,
    ) * 0x1000_0000_0000_0000 <= 0x4_0000_0000_0000_0000_0000 by {
        lemma_ap922_first_entries(u);
        lemma_basis_bound(Precision::Single, x, u);
        lemma_basis_bound(Precision::Single, y, v);
        assert(ap922_second_close(x, u) && ap922_first_close(u, y, v));
        let p = matrix(Network::Ap922, x, u);
        let r = matrix(first_pass(u), y, v);
        let g = group_constant(u);
        lemma_times_group_constant(u, p);
        lemma_times_group_constant(u, basis(Precision::Single, y, v));
        let bb = basis(Precision::Single, x, u) * basis(Precision::Single, y, v);
        let bound = (0x100_0000_0000 * 0x10_0000) * 0x1c_0000 + (g * 0x10_0000) * 0xc0_0000_0000
            + 0xc0_0000_0000 * 0x1c_0000;
        lemma_product_close(
            p * g,
            0x40_0000 * r,
            basis(Precision::Single, x, u),
            basis(Precision::Single, y, v),
            0x100_0000_0000,
            g,
            0x100_0000_0000 * g,
            0x10_0000,
            0xc0_0000_0000,
            0x1c_0000,
            0,
            bound,
        );
        let t = 0x40_0000 * (p * r) - 0x100_0000_0000 * bb;
        assert((p * g) * (0x40_0000 * r) - (0x100_0000_0000 * g) * bb == g * t) by (nonlinear_arith)
            requires
                t == 0x40_0000 * (p * r) - 0x100_0000_0000 * bb,
        ;
        assert(-0x4000_0000_0000_0000 <= t <= 0x4000_0000_0000_0000) by (nonlinear_arith)
            requires
                741455 <= g <= 1048576,
                bound == (0x100_0000_0000 * 0x10_0000) * 0x1c_0000 + (g * 0x10_0000)
                    * 0xc0_0000_0000 + 0xc0_0000_0000 * 0x1c_0000,
                -bound <= g * t <= bound,
        ;
    }
}

/// The inverse kernels that agree with the reference to within one.
pub open spec fn near_reference(k: Kernel) -> bool {
    k == Kernel::Llm || k == Kernel::Aan || k == Kernel::AanDouble || k == Kernel::Ap922 || k
        == Kernel::Reference(Precision::Double) || k == reference()
}

/// The fast inverse transforms agree with the reference to within one: for
/// every coefficient block whose magnitudes add up to at most 2^18, each
/// sample of the Loeffler-Ligtenberg-Moschytz, the Arai-Agui-Nakajima (at
/// either precision) and the AP-922 transform, and of the reference with
/// 22-bit constants, differs from that sample of the reference by at most one.
pub proof fn law_fast_within_one_of_reference(k: Kernel, f: Seq<i32>, i: int)
    requires
        near_reference(k),
        f.len() == 64,
        magnitude(f) <= 0x4_0000,
        0 <= i < 64,
    ensures
        -1 <= inverse(k, f)[i] - inverse(reference(), f)[i] <= 1,
{
    let x = i % 8;
    let y = i / 8;
    lemma_sample_saturates(sum(k, f, x, y), divisor(k));
    lemma_sample_saturates(sum(reference(), f, x, y), divisor(reference()));
    if k == Kernel::Llm {
        lemma_llm_weights(x, y);
        lemma_samples_close(k, reference(), f, i, 0xfd_7ee4_0000_0000_0000_0000_0000, 0x4_0000, 1);
    } else if k == Kernel::Aan {
        lemma_aan_weights(x, y);
        lemma_samples_close(
            k,
            reference(),
            f,
            i,
            0xa0_0019_0000_0000_0000_0000_0000,
            0x4_0000,
            1,
        );
    } else if k == Kernel::AanDouble {
        lemma_aan_double_weights(x, y);
        lemma_samples_close(
            k,
            reference(),
            f,
            i,
            0x1400_0064_0000_0000_0000_0000_0000,
            0x4_0000,
            1,
        );
    } else if k == Kernel::Ap922 {
        lemma_ap922_weights(x, y);
        lemma_samples_close(k, reference(), f, i, 0x4_0000_0000_0000_0000_0000, 0x4_0000, 1);
    } else if k == Kernel::Reference(Precision::Double) {
        lemma_double_weights(x, y);
        lemma_samples_close(k, reference(), f, i, 0x4_0000_1000_0000_0000, 0x4_0000, 1);
    }
}

/// The reference with every constant scaled by 256 only agrees with the
/// reference to within two, for every coefficient block whose magnitudes add
/// up to at most 2048.
pub proof fn law_coarse_within_two_of_reference(f: Seq<i32>, i: int)
    requires
        f.len() == 64,
        magnitude(f) <= 2048,
        0 <= i < 64,
    ensures
        -2 <= inverse(Kernel::Reference(Precision::Coarse), f)[i] - inverse(reference(), f)[i] <= 2,
{
    let k = Kernel::Reference(Precision::Coarse);
    let x = i % 8;
    let y = i / 8;
    lemma_sample_saturates(sum(k, f, x, y), divisor(k));
    lemma_sample_saturates(sum(reference(), f, x, y), divisor(reference()));
    lemma_coarse_weights(x, y);
    lemma_samples_close(k, reference(), f, i, 0x3_e5f2_ad90_0000, 2048, 2);
}

/// The coefficient block with its DC term at `v` and nothing else.
pub open spec fn dc_block(v: i32) -> Seq<i32> {
    Seq::new(64, |i: int| if i == 0 { v } else { 0i32 })
}

/// The weight an inverse kernel gives the DC term; it is the same for every sample.
pub open spec fn dc_weight(k: Kernel) -> int {
    match k {
        Kernel::Reference(Precision::Coarse) => 32761,
        Kernel::Reference(Precision::Single) => 549755517025,
        Kernel::Reference(Precision::Double) => 8796094204041,
        Kernel::Llm => 0x1_0000_0000_0000_0000_0000,
        Kernel::Aan => 151116053470220421955584,
        Kernel::AanDouble => 38685605337791630776729600,
        Kernel::Ap922 => 0x200_0000_0000_0000,
        _ => 0,
    }
}

/// Every sample gives the DC term the same weight.
pub proof fn lemma_dc_weight(k: Kernel, x: int, y: int)
    requires
        is_inverse(k),
        0 <= x < 8,
        0 <= y < 8,
    ensures
        weight(k, x, y, 0, 0) == dc_weight(k),
{
    reveal(even);
    reveal(odd);
    match k {
        Kernel::Reference(p) => {
            let c = cosine(p, 4);
            assert(basis(p, x, 0) == c && basis(p, y, 0) == c);
            assert(basis(p, x, 0) * basis(p, y, 0) == c * c) by (nonlinear_arith)
                requires
                    basis(p, x, 0) == c,
                    basis(p, y, 0) == c,
            ;
            match p {
                Precision::Coarse => {
                    assert(c * c == 32761) by (nonlinear_arith)
                        requires
                            c == 181,
                    ;
                },
                Precision::Single => {
                    assert(c * c == 549755517025) by (nonlinear_arith)
                        requires
                            c == 741455,
                    ;
                },
                Precision::Double => {
                    assert(c * c == 8796094204041) by (nonlinear_arith)
                        requires
                            c == 2965821,
                    ;
                },
            }
        },
        Kernel::Llm => {
            lemma_dc_column(Network::Llm, x, 0x100_0000_0000);
            lemma_dc_column(Network::Llm, y, 0x100_0000_0000);
            let a = matrix(Network::Llm, x, 0);
            let b = matrix(Network::Llm, y, 0);
            assert(a * b == 0x1_0000_0000_0000_0000_0000) by (nonlinear_arith)
                requires
                    a == 0x100_0000_0000,
                    b == 0x100_0000_0000,
            ;
        },
        Kernel::Aan => {
            lemma_dc_column(Network::Aan, x, 388736483328);
            lemma_dc_column(Network::Aan, y, 388736483328);
            let a = matrix(Network::Aan, x, 0);
            let b = matrix(Network::Aan, y, 0);
            assert(a * b == 151116053470220421955584) by (nonlinear_arith)
                requires
                    a == 388736483328,
                    b == 388736483328,
            ;
        },
        Kernel::AanDouble => {
            lemma_dc_column(Network::AanDouble, x, 6219775344640);
            lemma_dc_column(Network::AanDouble, y, 6219775344640);
            let a = matrix(Network::AanDouble, x, 0);
            let b = matrix(Network::AanDouble, y, 0);
            assert(a * b == 38685605337791630776729600) by (nonlinear_arith)
                requires
                    a == 6219775344640,
                    b == 6219775344640,
            ;
        },
        Kernel::Ap922 => {
            lemma_dc_column(Network::Ap922, x, 0x100_0000_0000);
            lemma_dc_column(Network::Ap922Row0, y, 0x2_0000);
            let a = matrix(Network::Ap922, x, 0);
            let b = matrix(first_pass(0), y, 0);
            assert(a * b == 0x200_0000_0000_0000) by (nonlinear_arith)
                requires
                    a == 0x100_0000_0000,
                    b == 0x2_0000,
            ;
        },
        _ => {},
    }
}

/// The first column of the matrix of an inverse network holds one value.
proof fn lemma_dc_column(n: Network, x: int, c: int)
    requires
        !crate::butterfly::is_forward(n),
        0 <= x < 8,
        matrix(n, 0, 0) == c,
        matrix(n, 1, 0) == c,
        matrix(n, 2, 0) == c,
        matrix(n, 3, 0) == c,
    ensures
        matrix(n, x, 0) == c,
{
    if x >= 4 {
        crate::butterfly::lemma_matrix_mirror(n, 7 - x, 0);
    }
}

/// A block with nothing but its DC term has the DC term's share as its sum.
pub proof fn lemma_dc_sum(k: Kernel, v: i32, x: int, y: int)
    ensures
        sum(k, dc_block(v), x, y) == weight(k, x, y, 0, 0) * v,
{
    let f = dc_block(v);
    lemma_sum_rows(k, f, x, y);
    assert forall|r: int| 0 <= r < 8 implies #[trigger] row_prefix(k, f, x, y, r, 8) == if r == 0 {
        weight(k, x, y, 0, 0) * v
    } else {
        0
    } by {
        lemma_row_terms(k, f, x, y, r);
        assert forall|u: int| 0 <= u < 8 && (u != 0 || r != 0) implies #[trigger] term(
            k,
            f,
            x,
            y,
            u,
            r,
        ) == 0 by {
            let w = weight(k, x, y, u, r);
            assert(f[r * 8 + u] == 0);
            assert(w * 0 == 0) by (nonlinear_arith);
        }
        assert(f[0] == v);
    }
}

/// Where `8 * w` is the scale `d` to within one part in 258, the sample for
/// the sum `8 * c * w` is `c` with the level shift, clamped.
pub proof fn lemma_dc_sample(c: int, w: int, d: int)
    requires
        d > 0,
        w > 0,
        258 * (d - 8 * w) <= d,
        258 * (8 * w - d) <= d,
    ensures
        sample_of(w * (8 * c), d) == clamp_sample(c + 128),
{
    let n = w * (8 * c);
    lemma_sample_saturates(n, d);
    if c >= 128 {
        assert(2 * n >= 255 * d) by (nonlinear_arith)
            requires
                n == w * (8 * c),
                c >= 128,
                w > 0,
                258 * (d - 8 * w) <= d,
        ;
    } else if c <= -129 {
        assert(2 * n <= -257 * d) by (nonlinear_arith)
            requires
                n == w * (8 * c),
                c <= -129,
                w > 0,
                258 * (d - 8 * w) <= d,
        ;
    } else {
        let g = 8 * w - d;
        assert(n == d * c + g * c) by (nonlinear_arith)
            requires
                n == w * (8 * c),
                g == 8 * w - d,
        ;
        assert(-d < 2 * (g * c) < d) by (nonlinear_arith)
            requires
                -128 <= c <= 127,
                d > 0,
                258 * g <= d,
                258 * (-g) <= d,
        ;
        assert(n >= 0 <==> c >= 0) by (nonlinear_arith)
            requires
                n == w * (8 * c),
                w > 0,
        ;
        lemma_round_div_is(n, d, c);
    }
}

/// A coefficient block with only its DC term set, to `8 * c`, comes out of
/// every inverse transform flat: each sample is `c + 128`, clamped to 0..=255.
pub proof fn law_dc_only_block_is_flat(k: Kernel, c: int)
    requires
        is_inverse(k),
        -0x1000_0000 <= c < 0x1000_0000,
    ensures
        inverse(k, dc_block((8 * c) as i32)) == Seq::new(64, |i: int| clamp_sample(c + 128) as u8),
{
    let v = (8 * c) as i32;
    let f = dc_block(v);
    assert forall|i: int| 0 <= i < 64 implies sample(k, f, i) == clamp_sample(c + 128) by {
        let x = i % 8;
        let y = i / 8;
        lemma_dc_sum(k, v, x, y);
        lemma_dc_weight(k, x, y);
        lemma_dc_sample(c, dc_weight(k), divisor(k));
    }
    assert(inverse(k, f) =~= Seq::new(64, |i: int| clamp_sample(c + 128) as u8));
}

/// Sums beyond the range of a sample saturate: every sample lies in 0..=255,
/// it is 255 where the sum stands for 127.5 or more, and 0 where the sum
/// stands for -128.5 or less.
pub proof fn law_samples_saturate(k: Kernel, f: Seq<i32>, i: int)
    requires
        is_inverse(k),
        0 <= i < 64,
    ensures
        0 <= sample(k, f, i) <= 255,
        inverse(k, f)[i] == sample(k, f, i),
        2 * sum(k, f, i % 8, i / 8) >= 255 * divisor(k) ==> inverse(k, f)[i] == 255,
        2 * sum(k, f, i % 8, i / 8) <= -257 * divisor(k) ==> inverse(k, f)[i] == 0,
{
    lemma_divisor_positive(k);
    lemma_sample_saturates(sum(k, f, i % 8, i / 8), divisor(k));
}

/// The scale of a kernel is positive.
pub proof fn lemma_divisor_positive(k: Kernel)
    ensures
        divisor(k) > 0,
{
    match k {
        Kernel::Reference(p) => {
            assert(unit(p) * unit(p) > 0) by (nonlinear_arith)
                requires
                    unit(p) > 0,
            ;
        },
        Kernel::Forward(p) => {
            let s = unit(p) * unit(p);
            assert(s > 0 && s * s > 0) by (nonlinear_arith)
                requires
                    unit(p) > 0,
                    s == unit(p) * unit(p),
            ;
        },
        _ => {},
    }
}

/// Entry `(x, u)` of the matrix of the forward butterfly of
/// Loeffler-Ligtenberg-Moschytz, the weight of sample `u` in frequency `x`,
/// is `sqrt(2)` times entry `(u, x)` of the basis, to within one unit.
pub open spec fn llm_forward_entry_close(x: int, u: int) -> bool {
    nearly(matrix(Network::LlmForward, x, u), 1482910 * basis(Precision::Single, u, x), 0x10_0000)
}

/// Every entry of the matrix of the forward butterfly is close to its basis entry.
#[verifier::rlimit(50)]
#[verifier::spinoff_prover]
pub proof fn lemma_llm_forward_entries()
    ensures
        forall|x: int, u: int| 0 <= x < 8 && 0 <= u < 8 ==> llm_forward_entry_close(x, u),
{
    reveal(even);
    reveal(odd);
    let p = |x: int, u: int| llm_forward_entry_close(x, u);
    assert(holds_on_grid(p));
    lemma_grid(p);
    assert forall|x: int, u: int| 0 <= x < 8 && 0 <= u < 8 implies llm_forward_entry_close(x, u) by {
        assert(p(x, u));
    }
}

/// The weights of the forward Loeffler-Ligtenberg-Moschytz kernel are those
/// of the defining formula of the forward transform.
proof fn lemma_llm_forward_weights(x: int, y: int)
    requires
        0 <= x < 8,
        0 <= y < 8,
    ensures
        weights_within(
            Kernel::LlmForward,
            0x8_0000_0000_0000_0000_0000,
            Kernel::Forward(Precision::Single),
            0x4_0000_0000_0000_0000_0000,
            x,
            y,
            0xfd7e_e400_0000_0000_0000_0000_0000_0000_0000int,
        ),
{
    let p = Precision::Single;
    lemma_llm_forward_entries();
    assert forall|u: int, v: int| 0 <= u < 8 && 0 <= v < 8 implies -0xfd7e_e400_0000_0000_0000_0000_0000_0000_0000int <= #[trigger] weight(
        Kernel::LlmForward,
        x,
        y,
        u,
        v,
    ) * 0x4_0000_0000_0000_0000_0000 - weight(Kernel::Forward(p), x, y, u, v)
        * 0x8_0000_0000_0000_0000_0000 <= 0xfd7e_e400_0000_0000_0000_0000_0000_0000_0000int by {
        lemma_basis_bound(p, u, x);
        lemma_basis_bound(p, v, y);
        assert(llm_forward_entry_close(x, u) && llm_forward_entry_close(y, v));
        let b = basis(p, u, x);
        let b2 = basis(p, v, y);
        lemma_product_close(
            matrix(Network::LlmForward, x, u),
            matrix(Network::LlmForward, y, v),
            b,
            b2,
            1482910,
            1482910,
            0x200_0000_0000,
            0x10_0000,
            0x10_0000,
            0x10_0000,
            1187452,
            0x3f5f_b900_0000_0000,
        );
        crate::roundtrip::lemma_forward_weight(x, y, u, v);
        assert((0x10_0000 * b) * (0x10_0000 * b2) == 0x100_0000_0000 * (b * b2)) by (nonlinear_arith);
    }
}

/// The forward transforms agree: for every sample block, each coefficient of
/// the forward Loeffler-Ligtenberg-Moschytz transform, rounded to an integer,
/// is within one of that coefficient of the defining formula, rounded.
pub proof fn law_forward_transforms_agree(s: Seq<u8>, i: int)
    requires
        s.len() == 64,
        0 <= i < 64,
    ensures
        -1 <= rounded(Kernel::LlmForward, s)[i] - rounded(Kernel::Forward(Precision::Single), s)[i]
            <= 1,
{
    let ka = Kernel::LlmForward;
    let kb = Kernel::Forward(Precision::Single);
    let c = centered(s);
    let x = i % 8;
    let y = i / 8;
    lemma_divisor_positive(kb);
    assert(divisor(kb) == 0x4_0000_0000_0000_0000_0000) by {
        let one = unit(Precision::Single);
        assert((one * one) * (one * one) == 0x1_0000_0000_0000_0000_0000) by (nonlinear_arith)
            requires
                one == 0x10_0000,
        ;
    }
    lemma_magnitude_bound(c, 128);
    lemma_llm_forward_weights(x, y);
    lemma_sums_close(ka, kb, c, x, y, 0xfd7e_e400_0000_0000_0000_0000_0000_0000_0000int, 8192, 1);
    lemma_round_div_near(sum(ka, c, x, y), divisor(ka), sum(kb, c, x, y), divisor(kb), 1);
}

/// The cosine tables obey the half-angle formula: at every precision and for
/// `k` in `0..=8`, the entry for `cos(k * pi / 16)` is not negative and twice
/// its square is `1 + cos(2 * k * pi / 16)`, to within two units. From
/// `cos(pi / 2) = 0` on, this pins every entry to its closed form.
pub proof fn law_cosines_obey_half_angle(p: Precision, k: int)
    requires
        0 <= k <= 8,
    ensures
        0 <= cosine(p, k) <= unit(p),
        cosine(p, 8) == 0,
        nearly(
            2 * (cosine(p, k) * cosine(p, k)),
            unit(p) * (unit(p) + cos16(p, 2 * k)),
            2 * unit(p),
        ),
{
    let c = cosine(p, k);
    let one = unit(p);
    let d = cos16(p, 2 * k);
    match p {
        Precision::Coarse => {
            assert(nearly(2 * (c * c), one * (one + d), 2 * one));
        },
        Precision::Single => {
            assert(nearly(2 * (c * c), one * (one + d), 2 * one));
        },
        Precision::Double => {
            assert(nearly(2 * (c * c), one * (one + d), 2 * one));
        },
    }
}

} // verus!
