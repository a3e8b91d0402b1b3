//! The reference kernel taken apart: a pass over each coefficient column,
//! then a pass over what the columns gave.
use crate::basis::{
    basis, cos16, lemma_basis_bound, lemma_basis_mirror, lemma_cos16_bound, norm, unit, Precision,
};
use crate::kernel::{block_col, col_prefix, lemma_col_factored, term, weight, Kernel};
use crate::linear::{dot8, lemma_mul_bound, lemma_mul_negate};
use vstd::prelude::*;

verus! {

/// Row `y` of the inverse basis.
pub open spec fn basis_row(p: Precision, y: int) -> Seq<int> {
    Seq::new(8, |v: int| basis(p, y, v))
}

/// What the even frequencies of coefficient column `u` add to sample row `y`.
pub open spec fn column_even(p: Precision, f: Seq<i32>, y: int, u: int) -> int {
    basis(p, y, 0) * f[u] + basis(p, y, 2) * f[16 + u] + basis(p, y, 4) * f[32 + u] + basis(p, y, 6)
        * f[48 + u]
}

/// What the odd frequencies of coefficient column `u` add to sample row `y`.
pub open spec fn column_odd(p: Precision, f: Seq<i32>, y: int, u: int) -> int {
    basis(p, y, 1) * f[8 + u] + basis(p, y, 3) * f[24 + u] + basis(p, y, 5) * f[40 + u] + basis(
        p,
        y,
        7,
    ) * f[56 + u]
}

/// Coefficient column `u` transformed to sample row `y`.
pub open spec fn column_sum(p: Precision, f: Seq<i32>, y: int, u: int) -> int {
    dot8(basis_row(p, y), block_col(f, u))
}

/// The first `n` terms of `column_sum`.
pub open spec fn column_prefix(p: Precision, f: Seq<i32>, y: int, u: int, n: int) -> int
    decreases n,
{
    if n <= 0 {
        0
    } else {
        column_prefix(p, f, y, u, n - 1) + basis(p, y, n - 1) * f[(n - 1) * 8 + u]
    }
}

/// All eight terms of the prefix make the column sum.
pub proof fn lemma_column_prefix_full(p: Precision, f: Seq<i32>, y: int, u: int)
    requires
        f.len() == 64,
        0 <= u < 8,
    ensures
        column_prefix(p, f, y, u, 8) == column_sum(p, f, y, u),
{
    reveal_with_fuel(column_prefix, 9);
}

/// A column sum is its even part plus its odd part; for the mirrored row the
/// odd part is subtracted.
pub proof fn lemma_column_halves(p: Precision, f: Seq<i32>, y: int, u: int)
    requires
        f.len() == 64,
        0 <= y < 8,
        0 <= u < 8,
    ensures
        column_sum(p, f, y, u) == column_even(p, f, y, u) + column_odd(p, f, y, u),
        column_sum(p, f, 7 - y, u) == column_even(p, f, y, u) - column_odd(p, f, y, u),
{
    lemma_basis_mirror(p, y, 0);
    lemma_basis_mirror(p, y, 1);
    lemma_basis_mirror(p, y, 2);
    lemma_basis_mirror(p, y, 3);
    lemma_basis_mirror(p, y, 4);
    lemma_basis_mirror(p, y, 5);
    lemma_basis_mirror(p, y, 6);
    lemma_basis_mirror(p, y, 7);
    lemma_mul_negate(basis(p, y, 1), f[8 + u] as int);
    lemma_mul_negate(basis(p, y, 3), f[24 + u] as int);
    lemma_mul_negate(basis(p, y, 5), f[40 + u] as int);
    lemma_mul_negate(basis(p, y, 7), f[56 + u] as int);
}

/// A column sum times the basis entry of its frequency is that column's
/// share of the weighted sum of the block.
pub proof fn lemma_column_share(p: Precision, f: Seq<i32>, x: int, y: int, u: int)
    requires
        f.len() == 64,
        0 <= u < 8,
    ensures
        basis(p, x, u) * column_sum(p, f, y, u) == col_prefix(Kernel::Reference(p), f, x, y, u, 8),
{
    let k = Kernel::Reference(p);
    assert forall|v: int| 0 <= v < 8 implies #[trigger] weight(k, x, y, u, v) == basis(p, x, u)
        * basis_row(p, y)[v] by {}
    lemma_col_factored(k, f, x, y, u, basis_row(p, y), basis(p, x, u));
}

/// The same for the mirrored sample column: there the odd frequencies change sign.
pub proof fn lemma_column_share_mirror(p: Precision, f: Seq<i32>, x: int, y: int, u: int)
    requires
        f.len() == 64,
        0 <= x < 8,
        0 <= u < 8,
    ensures
        u % 2 == 0 ==> basis(p, x, u) * column_sum(p, f, y, u) == col_prefix(
            Kernel::Reference(p),
            f,
            7 - x,
            y,
            u,
            8,
        ),
        u % 2 == 1 ==> -(basis(p, x, u) * column_sum(p, f, y, u)) == col_prefix(
            Kernel::Reference(p),
            f,
            7 - x,
            y,
            u,
            8,
        ),
{
    lemma_basis_mirror(p, x, u);
    lemma_column_share(p, f, 7 - x, y, u);
    lemma_mul_negate(basis(p, x, u), column_sum(p, f, y, u));
}

/// A column sum is less than eight times the largest coefficient, with the
/// fractional bits of the basis added.
pub proof fn lemma_column_bound(p: Precision, f: Seq<i32>, y: int, u: int)
    requires
        f.len() == 64,
        0 <= u < 8,
    ensures
        -0x1000_0000_0000_0000 <= column_sum(p, f, y, u) <= 0x1000_0000_0000_0000,
        -0x800_0000_0000_0000 <= column_even(p, f, y, u) <= 0x800_0000_0000_0000,
        -0x800_0000_0000_0000 <= column_odd(p, f, y, u) <= 0x800_0000_0000_0000,
        forall|v: int|
            0 <= v < 8 ==> -0x20_0000_0000_0000 <= #[trigger] (basis(p, y, v) * f[v * 8 + u])
                <= 0x20_0000_0000_0000,
        forall|n: int|
            0 <= n <= 8 ==> -n * 0x20_0000_0000_0000 <= #[trigger] column_prefix(p, f, y, u, n) <= n
                * 0x20_0000_0000_0000,
{
    assert forall|v: int| 0 <= v < 8 implies -0x20_0000_0000_0000 <= #[trigger] basis(p, y, v) * f[v
        * 8 + u] <= 0x20_0000_0000_0000 by {
        lemma_basis_bound(p, y, v);
        lemma_mul_bound(basis(p, y, v), f[v * 8 + u] as int, 0x40_0000, 0x8000_0000);
    }
    assert(basis(p, y, 0) * f[0 * 8 + u] == basis(p, y, 0) * f[u]);
    assert(basis(p, y, 1) * f[1 * 8 + u] == basis(p, y, 1) * f[8 + u]);
    assert(basis(p, y, 2) * f[2 * 8 + u] == basis(p, y, 2) * f[16 + u]);
    assert(basis(p, y, 3) * f[3 * 8 + u] == basis(p, y, 3) * f[24 + u]);
    assert(basis(p, y, 4) * f[4 * 8 + u] == basis(p, y, 4) * f[32 + u]);
    assert(basis(p, y, 5) * f[5 * 8 + u] == basis(p, y, 5) * f[40 + u]);
    assert(basis(p, y, 6) * f[6 * 8 + u] == basis(p, y, 6) * f[48 + u]);
    assert(basis(p, y, 7) * f[7 * 8 + u] == basis(p, y, 7) * f[56 + u]);
    reveal_with_fuel(column_prefix, 9);
}

/// The index of a sample row or column within its mirrored pair.
pub open spec fn fold4(t: int) -> int {
    if t < 4 {
        t
    } else {
        7 - t
    }
}

/// A column sum times a basis entry stays within 80 bits.
pub proof fn lemma_share_bound(p: Precision, f: Seq<i32>, x: int, y: int, u: int)
    requires
        f.len() == 64,
        0 <= u < 8,
    ensures
        -0x4_0000_0000_0000_0000_0000 <= basis(p, x, u) * column_sum(p, f, y, u)
            <= 0x4_0000_0000_0000_0000_0000,
{
    lemma_basis_bound(p, x, u);
    lemma_column_bound(p, f, y, u);
    lemma_mul_bound(basis(p, x, u), column_sum(p, f, y, u), 0x40_0000, 0x1000_0000_0000_0000);
}

/// One term of the defining formula, `C(u) * C(v) * F * cos * cos`, as the
/// product a loop forms from the cosine table: it is the term of the reference
/// kernel with the fractional bits of two more constants.
pub proof fn lemma_direct_term(p: Precision, f: Seq<i32>, x: int, y: int, u: int, v: int)
    requires
        f.len() == 64,
        0 <= x < 8,
        0 <= y < 8,
        0 <= u < 8,
        0 <= v < 8,
    ensures
        (((norm(p, u) * norm(p, v)) * f[v * 8 + u]) * cos16(p, (2 * x + 1) * u)) * cos16(
            p,
            (2 * y + 1) * v,
        ) == (unit(p) * unit(p)) * term(Kernel::Reference(p), f, x, y, u, v),
        -0x1000_0000_0000 <= norm(p, u) * norm(p, v) <= 0x1000_0000_0000,
        -0x800_0000_0000_0000_0000 <= (norm(p, u) * norm(p, v)) * f[v * 8 + u]
            <= 0x800_0000_0000_0000_0000,
        -0x2_0000_0000_0000_0000_0000_0000 <= ((norm(p, u) * norm(p, v)) * f[v * 8 + u]) * cos16(
            p,
            (2 * x + 1) * u,
        ) <= 0x2_0000_0000_0000_0000_0000_0000,
        -0x80_0000_0000_0000_0000_0000_0000_0000 <= (unit(p) * unit(p)) * term(
            Kernel::Reference(p),
            f,
            x,
            y,
            u,
            v,
        ) <= 0x80_0000_0000_0000_0000_0000_0000_0000,
{
    let a = norm(p, u);
    let b = norm(p, v);
    let c = f[v * 8 + u] as int;
    let d = cos16(p, (2 * x + 1) * u);
    let e = cos16(p, (2 * y + 1) * v);
    let s = unit(p);
    let bx = basis(p, x, u);
    let by = basis(p, y, v);
    lemma_cos16_bound(p, (2 * x + 1) * u);
    lemma_cos16_bound(p, (2 * y + 1) * v);
    assert(a * d == s * bx) by {
        if u == 0 {
            assert((2 * x + 1) * u == 0) by (nonlinear_arith)
                requires
                    u == 0,
            ;
            assert(a * d == s * bx) by (nonlinear_arith)
                requires
                    a == bx,
                    d == s,
            ;
        }
    }
    assert(b * e == s * by) by {
        if v == 0 {
            assert((2 * y + 1) * v == 0) by (nonlinear_arith)
                requires
                    v == 0,
            ;
            assert(b * e == s * by) by (nonlinear_arith)
                requires
                    b == by,
                    e == s,
            ;
        }
    }
    let ab = a * b;
    let abc = ab * c;
    let abcd = abc * d;
    lemma_mul_bound(a, b, 0x40_0000, 0x40_0000);
    lemma_mul_bound(ab, c, 0x1000_0000_0000, 0x8000_0000);
    lemma_mul_bound(abc, d, 0x800_0000_0000_0000_0000, 0x40_0000);
    lemma_mul_bound(abcd, e, 0x2_0000_0000_0000_0000_0000_0000, 0x40_0000);
    let bc = b * c;
    let ad = a * d;
    let be = b * e;
    assert(abcd == ad * bc) by (nonlinear_arith)
        requires
            abcd == ((a * b) * c) * d,
            ad == a * d,
            bc == b * c,
    ;
    assert((ad * bc) * e == ad * (be * c)) by (nonlinear_arith)
        requires
            bc == b * c,
            be == b * e,
    ;
    assert((s * bx) * ((s * by) * c) == (s * s) * ((bx * by) * c)) by (nonlinear_arith);
}

/// What one coefficient column adds to the four samples of a mirrored quad:
/// with `t1` and `t2` its sums for rows `y` and `7 - y`, times the basis entry
/// for column `x`, the samples at `7 - x` get the same with the sign of the
/// odd frequencies flipped.
pub proof fn lemma_quad_step(p: Precision, f: Seq<i32>, x: int, y: int, u: int, t1: int, t2: int)
    requires
        f.len() == 64,
        0 <= x < 8,
        0 <= y < 8,
        0 <= u < 8,
        t1 == basis(p, x, u) * column_sum(p, f, y, u),
        t2 == basis(p, x, u) * column_sum(p, f, 7 - y, u),
    ensures
        col_prefix(Kernel::Reference(p), f, x, y, u, 8) == t1,
        col_prefix(Kernel::Reference(p), f, x, 7 - y, u, 8) == t2,
        col_prefix(Kernel::Reference(p), f, 7 - x, y, u, 8) == if u % 2 == 0 {
            t1
        } else {
            -t1
        },
        col_prefix(Kernel::Reference(p), f, 7 - x, 7 - y, u, 8) == if u % 2 == 0 {
            t2
        } else {
            -t2
        },
        -0x4_0000_0000_0000_0000_0000 <= t1 <= 0x4_0000_0000_0000_0000_0000,
        -0x4_0000_0000_0000_0000_0000 <= t2 <= 0x4_0000_0000_0000_0000_0000,
{
    lemma_column_share(p, f, x, y, u);
    lemma_column_share_mirror(p, f, x, y, u);
    lemma_share_bound(p, f, x, y, u);
    lemma_column_share(p, f, x, 7 - y, u);
    lemma_column_share_mirror(p, f, x, 7 - y, u);
    lemma_share_bound(p, f, x, 7 - y, u);
}

/// The samples that step `i` of a walk over mirrored pairs completes: those
/// at `x` and `7 - x` in row `y`, for `x = i % 4` and `y = i / 4`.
pub proof fn lemma_pair_cover(j: int, i: int)
    requires
        0 <= j < 64,
        0 <= i < 32,
        (j / 8) * 4 + fold4(j % 8) == i,
    ensures
        j == (i / 4) * 8 + i % 4 || j == (i / 4) * 8 + (7 - i % 4),
{
}

/// The samples that step `i` of a walk over mirrored quads completes.
pub proof fn lemma_quad_cover(j: int, i: int)
    requires
        0 <= j < 64,
        0 <= i < 16,
        fold4(j / 8) * 4 + fold4(j % 8) == i,
    ensures
        j == (i / 4) * 8 + i % 4 || j == (i / 4) * 8 + (7 - i % 4) || j == (7 - i / 4) * 8 + i % 4 || j
            == (7 - i / 4) * 8 + (7 - i % 4),
{
}

} // verus!
