//! The forward transform followed by the inverse transform, with the
//! coefficients rounded to integers in between.
use crate::basis::{basis, cos16, lemma_basis_bound, norm, unit, Precision};
use crate::fixed::{
    clamp_sample, lemma_round_div_bounds, lemma_round_div_scale, round_div,
};
use crate::kernel::{
    block_row, centered, divisor, forward, inverse, lemma_rows_then_columns, rounded, sample, sum,
    weight, Kernel,
};
use crate::laws::nearly;
use crate::linear::{
    abs_sum8, add8, dot8, holds_on_grid, lemma_grid, lemma_dot8_abs, lemma_dot8_add, lemma_dot8_commutes, lemma_dot8_scale,
    lemma_dot8_unit, lemma_swap8, magnitude_of, row8, scale8, unit8,
};
use crate::separable::basis_row;
use vstd::prelude::*;

verus! {

/// Each row of a block weighted by `a`.
pub open spec fn rows_dot(a: Seq<int>, blk: Seq<int>) -> Seq<int> {
    Seq::new(8, |v: int| dot8(a, row8(blk, v)))
}

/// A block weighted by `a` along its rows and by `b` along its columns: the
/// sum over `(u, v)` of `a[u] * b[v] * blk[v * 8 + u]`.
pub open spec fn bilinear(a: Seq<int>, b: Seq<int>, blk: Seq<int>) -> int {
    dot8(b, rows_dot(a, blk))
}

/// The numbers of a block as mathematical integers.
pub open spec fn ints32(f: Seq<i32>) -> Seq<int> {
    Seq::new(f.len(), |i: int| f[i] as int)
}

/// Column `u` of the inverse basis.
pub open spec fn basis_col(u: int) -> Seq<int> {
    Seq::new(8, |x: int| basis(Precision::Single, x, u))
}

/// The sum of two blocks, place by place.
pub open spec fn add64(p: Seq<int>, q: Seq<int>) -> Seq<int> {
    Seq::new(64, |i: int| p[i] + q[i])
}

/// A block with every number multiplied by `k`.
pub open spec fn scale64(k: int, p: Seq<int>) -> Seq<int> {
    Seq::new(64, |i: int| k * p[i])
}

/// The weighted sum of a sum of blocks is the sum of the weighted sums.
pub proof fn lemma_bilinear_add(a: Seq<int>, b: Seq<int>, p: Seq<int>, q: Seq<int>)
    requires
        a.len() == 8,
        b.len() == 8,
        p.len() == 64,
        q.len() == 64,
    ensures
        bilinear(a, b, add64(p, q)) == bilinear(a, b, p) + bilinear(a, b, q),
{
    let pq = add64(p, q);
    assert forall|v: int| 0 <= v < 8 implies #[trigger] rows_dot(a, pq)[v] == rows_dot(a, p)[v]
        + rows_dot(a, q)[v] by {
        assert(row8(pq, v) =~= add8(row8(p, v), row8(q, v)));
        lemma_dot8_add(a, row8(p, v), row8(q, v));
    }
    assert(rows_dot(a, pq) =~= add8(rows_dot(a, p), rows_dot(a, q)));
    lemma_dot8_add(b, rows_dot(a, p), rows_dot(a, q));
}

/// The weighted sum of a multiple of a block is the multiple of the weighted sum.
pub proof fn lemma_bilinear_scale(a: Seq<int>, b: Seq<int>, k: int, p: Seq<int>)
    requires
        a.len() == 8,
        b.len() == 8,
        p.len() == 64,
    ensures
        bilinear(a, b, scale64(k, p)) == k * bilinear(a, b, p),
{
    let kp = scale64(k, p);
    assert forall|v: int| 0 <= v < 8 implies #[trigger] rows_dot(a, kp)[v] == k * rows_dot(a, p)[v] by {
        assert(row8(kp, v) =~= scale8(k, row8(p, v)));
        lemma_dot8_scale(a, k, row8(p, v));
    }
    assert(rows_dot(a, kp) =~= scale8(k, rows_dot(a, p)));
    lemma_dot8_scale(b, k, rows_dot(a, p));
}

/// The weighted sum is additive in the weights of the rows.
pub proof fn lemma_bilinear_add_rows(a1: Seq<int>, a2: Seq<int>, b: Seq<int>, s: Seq<int>)
    requires
        a1.len() == 8,
        a2.len() == 8,
        b.len() == 8,
        s.len() == 64,
    ensures
        bilinear(add8(a1, a2), b, s) == bilinear(a1, b, s) + bilinear(a2, b, s),
{
    let a = add8(a1, a2);
    assert forall|v: int| 0 <= v < 8 implies #[trigger] rows_dot(a, s)[v] == rows_dot(a1, s)[v]
        + rows_dot(a2, s)[v] by {
        let r = row8(s, v);
        lemma_dot8_commutes(a, r);
        lemma_dot8_add(r, a1, a2);
        lemma_dot8_commutes(a1, r);
        lemma_dot8_commutes(a2, r);
    }
    assert(rows_dot(a, s) =~= add8(rows_dot(a1, s), rows_dot(a2, s)));
    lemma_dot8_add(b, rows_dot(a1, s), rows_dot(a2, s));
}

/// The weighted sum is additive in the weights of the columns.
pub proof fn lemma_bilinear_add_columns(a: Seq<int>, b1: Seq<int>, b2: Seq<int>, s: Seq<int>)
    requires
        a.len() == 8,
        b1.len() == 8,
        b2.len() == 8,
        s.len() == 64,
    ensures
        bilinear(a, add8(b1, b2), s) == bilinear(a, b1, s) + bilinear(a, b2, s),
{
    let r = rows_dot(a, s);
    lemma_dot8_commutes(add8(b1, b2), r);
    lemma_dot8_add(r, b1, b2);
    lemma_dot8_commutes(b1, r);
    lemma_dot8_commutes(b2, r);
}

/// A factor of the weights of the rows moves out of the weighted sum.
pub proof fn lemma_bilinear_scale_rows(k: int, a: Seq<int>, b: Seq<int>, s: Seq<int>)
    requires
        a.len() == 8,
        b.len() == 8,
        s.len() == 64,
    ensures
        bilinear(scale8(k, a), b, s) == k * bilinear(a, b, s),
{
    let ka = scale8(k, a);
    assert forall|v: int| 0 <= v < 8 implies #[trigger] rows_dot(ka, s)[v] == k * rows_dot(a, s)[v] by {
        let r = row8(s, v);
        lemma_dot8_commutes(ka, r);
        lemma_dot8_scale(r, k, a);
        lemma_dot8_commutes(a, r);
    }
    assert(rows_dot(ka, s) =~= scale8(k, rows_dot(a, s)));
    lemma_dot8_scale(b, k, rows_dot(a, s));
}

/// A factor of the weights of the columns moves out of the weighted sum.
pub proof fn lemma_bilinear_scale_columns(k: int, a: Seq<int>, b: Seq<int>, s: Seq<int>)
    requires
        a.len() == 8,
        b.len() == 8,
        s.len() == 64,
    ensures
        bilinear(a, scale8(k, b), s) == k * bilinear(a, b, s),
{
    let r = rows_dot(a, s);
    lemma_dot8_commutes(scale8(k, b), r);
    lemma_dot8_scale(r, k, b);
    lemma_dot8_commutes(b, r);
}

/// With a single one among the weights of the rows and of the columns, the
/// weighted sum picks one number of the block.
pub proof fn lemma_bilinear_unit(x: int, y: int, s: Seq<int>)
    requires
        0 <= x < 8,
        0 <= y < 8,
        s.len() == 64,
    ensures
        bilinear(unit8(x), unit8(y), s) == s[y * 8 + x],
{
    let r = rows_dot(unit8(x), s);
    assert forall|v: int| 0 <= v < 8 implies #[trigger] r[v] == s[v * 8 + x] by {
        let row = row8(s, v);
        lemma_dot8_unit(x, row);
        assert(row[x] == s[v * 8 + x]);
    }
    lemma_dot8_unit(y, r);
}

/// A weighted sum is at most the magnitudes of the weights of the rows, added
/// up, times those of the columns, times the largest magnitude in the block.
pub proof fn lemma_bilinear_bound(
    a: Seq<int>,
    b: Seq<int>,
    s: Seq<int>,
    sa: int,
    sb: int,
    m: int,
    am: int,
    bound: int,
)
    requires
        a.len() == 8,
        b.len() == 8,
        s.len() == 64,
        abs_sum8(a) <= sa,
        abs_sum8(b) <= sb,
        forall|i: int| 0 <= i < 64 ==> -m <= #[trigger] s[i] <= m,
        am == sa * m,
        bound == sb * am,
    ensures
        -bound <= bilinear(a, b, s) <= bound,
{
    let r = rows_dot(a, s);
    assert forall|v: int| 0 <= v < 8 implies -am <= #[trigger] r[v] <= am by {
        let row = row8(s, v);
        assert forall|u: int| 0 <= u < 8 implies -m <= #[trigger] row[u] <= m by {
            assert(row[u] == s[v * 8 + u]);
        }
        lemma_dot8_abs(a, row, sa, m, am);
    }
    lemma_dot8_abs(b, r, sb, am, bound);
}

/// The block whose entry `v * 8 + u` is `s` weighted by column `u` of the
/// basis along its rows and by column `v` along its columns: the forward
/// transform of `s`, each coefficient times four and with 40 fractional bits.
pub open spec fn forward_block(s: Seq<int>) -> Seq<int> {
    Seq::new(64, |k: int| bilinear(basis_col(k % 8), basis_col(k / 8), s))
}

/// The weights `a` taken through the basis and back: entry `x` is `a`
/// weighted by row `x` of the basis.
pub open spec fn gram_row(a: Seq<int>) -> Seq<int> {
    Seq::new(8, |x: int| dot8(a, basis_row(Precision::Single, x)))
}

/// What column `u` of the basis makes of row `y` of a block.
pub open spec fn row_through(s: Seq<int>, y: int, u: int) -> int {
    dot8(basis_col(u), row8(s, y))
}

/// Row `y` of a block weighted by `a` taken through the basis and back is
/// `a` weighting what the columns of the basis make of that row.
proof fn lemma_compose_rows(a: Seq<int>, s: Seq<int>, y: int)
    requires
        a.len() == 8,
        s.len() == 64,
        0 <= y < 8,
    ensures
        rows_dot(gram_row(a), s)[y] == dot8(a, Seq::new(8, |u: int| row_through(s, y, u))),
{
    let p = Precision::Single;
    let row = row8(s, y);
    let m = |u: int, x: int| basis(p, x, u);
    let through = Seq::new(8, |u: int| row_through(s, y, u));
    lemma_swap8(a, m, row, through, gram_row(a));
}

/// Entry `(u, v)` of the forward transform of a block is column `v` of the
/// basis weighting what column `u` makes of the rows.
proof fn lemma_forward_entry(s: Seq<int>, u: int, v: int)
    requires
        s.len() == 64,
        0 <= u < 8,
        0 <= v < 8,
    ensures
        forward_block(s)[v * 8 + u] == dot8(
            basis_col(v),
            Seq::new(8, |y: int| row_through(s, y, u)),
        ),
{
    assert((v * 8 + u) % 8 == u && (v * 8 + u) / 8 == v);
    assert(rows_dot(basis_col(u), s) =~= Seq::new(8, |y: int| row_through(s, y, u)));
}

/// Row `v` of the forward transform of a block, weighted by `a`, is column
/// `v` of the basis weighting what `a`, taken through the basis and back,
/// makes of the rows of the block.
proof fn lemma_compose_first(a: Seq<int>, s: Seq<int>, v: int)
    requires
        a.len() == 8,
        s.len() == 64,
        0 <= v < 8,
    ensures
        rows_dot(a, forward_block(s))[v] == dot8(basis_col(v), rows_dot(gram_row(a), s)),
{
    let v_seq = rows_dot(gram_row(a), s);
    let col = basis_col(v);
    let t = |u: int, y: int| row_through(s, y, u);
    let x = row8(forward_block(s), v);
    assert forall|u: int| 0 <= u < 8 implies #[trigger] x[u] == t(u, 0) * col[0] + t(u, 1) * col[1]
        + t(u, 2) * col[2] + t(u, 3) * col[3] + t(u, 4) * col[4] + t(u, 5) * col[5] + t(u, 6) * col[6]
        + t(u, 7) * col[7] by {
        lemma_forward_entry(s, u, v);
        let through = Seq::new(8, |y: int| row_through(s, y, u));
        lemma_dot8_commutes(col, through);
    }
    assert forall|y: int| 0 <= y < 8 implies #[trigger] v_seq[y] == a[0] * t(0, y) + a[1] * t(1, y)
        + a[2] * t(2, y) + a[3] * t(3, y) + a[4] * t(4, y) + a[5] * t(5, y) + a[6] * t(6, y) + a[7]
        * t(7, y) by {
        lemma_compose_rows(a, s, y);
    }
    lemma_swap8(a, t, col, x, v_seq);
    lemma_dot8_commutes(v_seq, col);
}

/// Weighting the forward transform of a block is weighting the block itself,
/// with the weights taken through the basis and back.
pub proof fn lemma_compose(a: Seq<int>, b: Seq<int>, s: Seq<int>)
    requires
        a.len() == 8,
        b.len() == 8,
        s.len() == 64,
    ensures
        bilinear(a, b, forward_block(s)) == bilinear(gram_row(a), gram_row(b), s),
{
    let p = Precision::Single;
    let v_seq = rows_dot(gram_row(a), s);
    let m = |v: int, y: int| basis(p, y, v);
    let x = rows_dot(a, forward_block(s));
    assert forall|v: int| 0 <= v < 8 implies #[trigger] x[v] == m(v, 0) * v_seq[0] + m(v, 1) * v_seq[1]
        + m(v, 2) * v_seq[2] + m(v, 3) * v_seq[3] + m(v, 4) * v_seq[4] + m(v, 5) * v_seq[5] + m(v, 6)
        * v_seq[6] + m(v, 7) * v_seq[7] by {
        lemma_compose_first(a, s, v);
    }
    lemma_swap8(b, m, v_seq, x, gram_row(b));
}

/// The weighted sum of the reference kernel is the coefficient block
/// weighted by two rows of the basis.
pub proof fn lemma_inverse_is_bilinear(f: Seq<i32>, x: int, y: int)
    requires
        f.len() == 64,
        0 <= x < 8,
        0 <= y < 8,
    ensures
        sum(Kernel::Reference(Precision::Single), f, x, y) == bilinear(
            basis_row(Precision::Single, x),
            basis_row(Precision::Single, y),
            ints32(f),
        ),
{
    let p = Precision::Single;
    let k = Kernel::Reference(p);
    let a = basis_row(p, x);
    let b = basis_row(p, y);
    let mid = rows_dot(a, ints32(f));
    assert forall|v: int| 0 <= v < 8 implies #[trigger] mid[v] == dot8(a, block_row(f, v)) by {
        assert(block_row(f, v) =~= row8(ints32(f), v));
    }
    assert forall|u: int, v: int| 0 <= u < 8 && 0 <= v < 8 implies #[trigger] weight(k, x, y, u, v)
        == a[u] * b[v] by {}
    lemma_rows_then_columns(k, f, x, y, a, b, mid);
}

/// A factor `C(u)` times the cosine is 1.0 times the entry of the basis.
proof fn lemma_norm_cosine(x: int, u: int)
    requires
        0 <= x < 8,
        0 <= u < 8,
    ensures
        norm(Precision::Single, u) * cos16(Precision::Single, (2 * x + 1) * u) == 0x10_0000 * basis(
            Precision::Single,
            x,
            u,
        ),
{
    let p = Precision::Single;
    if u == 0 {
        assert((2 * x + 1) * u == 0) by (nonlinear_arith)
            requires
                u == 0,
        ;
        let c = norm(p, u);
        assert(c * 0x10_0000 == 0x10_0000 * c) by (nonlinear_arith);
    }
}

/// A weight of the forward kernel is the product of two entries of the
/// basis, each with 20 more fractional bits.
pub proof fn lemma_forward_weight(u: int, v: int, x: int, y: int)
    requires
        0 <= u < 8,
        0 <= v < 8,
        0 <= x < 8,
        0 <= y < 8,
    ensures
        weight(Kernel::Forward(Precision::Single), u, v, x, y) == (0x10_0000 * basis(
            Precision::Single,
            x,
            u,
        )) * (0x10_0000 * basis(Precision::Single, y, v)),
{
    let p = Precision::Single;
    lemma_norm_cosine(x, u);
    lemma_norm_cosine(y, v);
    let nu = norm(p, u);
    let nv = norm(p, v);
    let cx = cos16(p, (2 * x + 1) * u);
    let cy = cos16(p, (2 * y + 1) * v);
    assert((nu * nv) * (cx * cy) == (nu * cx) * (nv * cy)) by (nonlinear_arith);
}

/// The weighted sum of the forward kernel is the centred sample block
/// weighted by two columns of the basis, each with 20 more fractional bits.
proof fn lemma_forward_is_scaled_bilinear(c: Seq<i32>, u: int, v: int)
    requires
        c.len() == 64,
        0 <= u < 8,
        0 <= v < 8,
    ensures
        sum(Kernel::Forward(Precision::Single), c, u, v) == bilinear(
            scale8(0x10_0000, basis_col(u)),
            scale8(0x10_0000, basis_col(v)),
            ints32(c),
        ),
{
    let k = Kernel::Forward(Precision::Single);
    let ci = ints32(c);
    let a = scale8(0x10_0000, basis_col(u));
    let b = scale8(0x10_0000, basis_col(v));
    let mid = rows_dot(a, ci);
    assert forall|y: int| 0 <= y < 8 implies #[trigger] mid[y] == dot8(a, block_row(c, y)) by {
        assert(block_row(c, y) =~= row8(ci, y));
    }
    assert forall|x: int, y: int| 0 <= x < 8 && 0 <= y < 8 implies #[trigger] weight(k, u, v, x, y)
        == a[x] * b[y] by {
        lemma_forward_weight(u, v, x, y);
        assert(a[x] == 0x10_0000 * basis(Precision::Single, x, u));
        assert(b[y] == 0x10_0000 * basis(Precision::Single, y, v));
    }
    lemma_rows_then_columns(k, c, u, v, a, b, mid);
}

/// The weighted sum of the forward kernel is the centred sample block
/// weighted by two columns of the basis, with 40 more fractional bits.
pub proof fn lemma_forward_is_bilinear(c: Seq<i32>, u: int, v: int)
    requires
        c.len() == 64,
        0 <= u < 8,
        0 <= v < 8,
    ensures
        sum(Kernel::Forward(Precision::Single), c, u, v) == 0x100_0000_0000 * forward_block(
            ints32(c),
        )[v * 8 + u],
{
    let ci = ints32(c);
    let b = scale8(0x10_0000, basis_col(v));
    lemma_forward_is_scaled_bilinear(c, u, v);
    lemma_scaled_twice(basis_col(u), basis_col(v), ci);
    lemma_forward_block_entry(ci, u, v);
}

/// A factor of 1.0 in the weights of the rows and of the columns is a factor
/// of 1.0 squared in the weighted sum.
proof fn lemma_scaled_twice(a: Seq<int>, b: Seq<int>, s: Seq<int>)
    requires
        a.len() == 8,
        b.len() == 8,
        s.len() == 64,
    ensures
        bilinear(scale8(0x10_0000, a), scale8(0x10_0000, b), s) == 0x100_0000_0000 * bilinear(a, b, s),
{
    let sb = scale8(0x10_0000, b);
    let t1 = bilinear(scale8(0x10_0000, a), sb, s);
    let t2 = bilinear(a, sb, s);
    let t3 = bilinear(a, b, s);
    assert(t1 == 0x10_0000 * t2) by {
        lemma_bilinear_scale_rows(0x10_0000, a, sb, s);
    }
    assert(t2 == 0x10_0000 * t3) by {
        lemma_bilinear_scale_columns(0x10_0000, a, b, s);
    }
}

/// Entry `v * 8 + u` of the forward transform of a block.
proof fn lemma_forward_block_entry(s: Seq<int>, u: int, v: int)
    requires
        0 <= u < 8,
        0 <= v < 8,
    ensures
        forward_block(s)[v * 8 + u] == bilinear(basis_col(u), basis_col(v), s),
{
    assert((v * 8 + u) % 8 == u && (v * 8 + u) / 8 == v);
}

/// Rows `x` and `x2` of the basis weighted by each other: four times 1.0
/// squared for a row with itself, nothing for two different rows, to within
/// one unit of the basis.
pub open spec fn gram_close(x: int, x2: int) -> bool {
    nearly(
        dot8(basis_row(Precision::Single, x), basis_row(Precision::Single, x2)),
        if x == x2 {
            0x400_0000_0000
        } else {
            0
        },
        0x10_1000,
    )
}

/// Row `x` of the basis applied to eight numbers, the entries written out.
pub open spec fn basis_form(
    x: int,
    a0: int,
    a1: int,
    a2: int,
    a3: int,
    a4: int,
    a5: int,
    a6: int,
    a7: int,
) -> int {
    if x == 0 {
        741455 * a0 + 1028428 * a1 + 968758 * a2 + 871859 * a3 + 741455 * a4 + 582558 * a5 + 401273 * a6 + 204567 * a7
    } else if x == 1 {
        741455 * a0 + 871859 * a1 + 401273 * a2 + -204567 * a3 + -741455 * a4 + -1028428 * a5 + -968758 * a6 + -582558 * a7
    } else if x == 2 {
        741455 * a0 + 582558 * a1 + -401273 * a2 + -1028428 * a3 + -741455 * a4 + 204567 * a5 + 968758 * a6 + 871859 * a7
    } else if x == 3 {
        741455 * a0 + 204567 * a1 + -968758 * a2 + -582558 * a3 + 741455 * a4 + 871859 * a5 + -401273 * a6 + -1028428 * a7
    } else if x == 4 {
        741455 * a0 + -204567 * a1 + -968758 * a2 + 582558 * a3 + 741455 * a4 + -871859 * a5 + -401273 * a6 + 1028428 * a7
    } else if x == 5 {
        741455 * a0 + -582558 * a1 + -401273 * a2 + 1028428 * a3 + -741455 * a4 + -204567 * a5 + 968758 * a6 + -871859 * a7
    } else if x == 6 {
        741455 * a0 + -871859 * a1 + 401273 * a2 + 204567 * a3 + -741455 * a4 + 1028428 * a5 + -968758 * a6 + 582558 * a7
    } else {
        741455 * a0 + -1028428 * a1 + 968758 * a2 + -871859 * a3 + 741455 * a4 + -582558 * a5 + 401273 * a6 + -204567 * a7
    }
}

/// The written-out rows are the rows of the basis.
pub proof fn lemma_basis_form(x: int, a: Seq<int>)
    requires
        0 <= x < 8,
        a.len() == 8,
    ensures
        dot8(basis_row(Precision::Single, x), a) == basis_form(
            x,
            a[0],
            a[1],
            a[2],
            a[3],
            a[4],
            a[5],
            a[6],
            a[7],
        ),
{
    let r = basis_row(Precision::Single, x);
    if x == 0 {
        assert(r[0] * a[0] == basis_form(x, a[0], 0, 0, 0, 0, 0, 0, 0));
        assert(r[1] * a[1] == basis_form(x, 0, a[1], 0, 0, 0, 0, 0, 0));
        assert(r[2] * a[2] == basis_form(x, 0, 0, a[2], 0, 0, 0, 0, 0));
        assert(r[3] * a[3] == basis_form(x, 0, 0, 0, a[3], 0, 0, 0, 0));
        assert(r[4] * a[4] == basis_form(x, 0, 0, 0, 0, a[4], 0, 0, 0));
        assert(r[5] * a[5] == basis_form(x, 0, 0, 0, 0, 0, a[5], 0, 0));
        assert(r[6] * a[6] == basis_form(x, 0, 0, 0, 0, 0, 0, a[6], 0));
        assert(r[7] * a[7] == basis_form(x, 0, 0, 0, 0, 0, 0, 0, a[7]));
    } else if x == 1 {
        assert(r[0] * a[0] == basis_form(x, a[0], 0, 0, 0, 0, 0, 0, 0));
        assert(r[1] * a[1] == basis_form(x, 0, a[1], 0, 0, 0, 0, 0, 0));
        assert(r[2] * a[2] == basis_form(x, 0, 0, a[2], 0, 0, 0, 0, 0));
        assert(r[3] * a[3] == basis_form(x, 0, 0, 0, a[3], 0, 0, 0, 0));
        assert(r[4] * a[4] == basis_form(x, 0, 0, 0, 0, a[4], 0, 0, 0));
        assert(r[5] * a[5] == basis_form(x, 0, 0, 0, 0, 0, a[5], 0, 0));
        assert(r[6] * a[6] == basis_form(x, 0, 0, 0, 0, 0, 0, a[6], 0));
        assert(r[7] * a[7] == basis_form(x, 0, 0, 0, 0, 0, 0, 0, a[7]));
    } else if x == 2 {
        assert(r[0] * a[0] == basis_form(x, a[0], 0, 0, 0, 0, 0, 0, 0));
        assert(r[1] * a[1] == basis_form(x, 0, a[1], 0, 0, 0, 0, 0, 0));
        assert(r[2] * a[2] == basis_form(x, 0, 0, a[2], 0, 0, 0, 0, 0));
        assert(r[3] * a[3] == basis_form(x, 0, 0, 0, a[3], 0, 0, 0, 0));
        assert(r[4] * a[4] == basis_form(x, 0, 0, 0, 0, a[4], 0, 0, 0));
        assert(r[5] * a[5] == basis_form(x, 0, 0, 0, 0, 0, a[5], 0, 0));
        assert(r[6] * a[6] == basis_form(x, 0, 0, 0, 0, 0, 0, a[6], 0));
        assert(r[7] * a[7] == basis_form(x, 0, 0, 0, 0, 0, 0, 0, a[7]));
    } else if x == 3 {
        assert(r[0] * a[0] == basis_form(x, a[0], 0, 0, 0, 0, 0, 0, 0));
        assert(r[1] * a[1] == basis_form(x, 0, a[1], 0, 0, 0, 0, 0, 0));
        assert(r[2] * a[2] == basis_form(x, 0, 0, a[2], 0, 0, 0, 0, 0));
        assert(r[3] * a[3] == basis_form(x, 0, 0, 0, a[3], 0, 0, 0, 0));
        assert(r[4] * a[4] == basis_form(x, 0, 0, 0, 0, a[4], 0, 0, 0));
        assert(r[5] * a[5] == basis_form(x, 0, 0, 0, 0, 0, a[5], 0, 0));
        assert(r[6] * a[6] == basis_form(x, 0, 0, 0, 0, 0, 0, a[6], 0));
        assert(r[7] * a[7] == basis_form(x, 0, 0, 0, 0, 0, 0, 0, a[7]));
    } else if x == 4 {
        assert(r[0] * a[0] == basis_form(x, a[0], 0, 0, 0, 0, 0, 0, 0));
        assert(r[1] * a[1] == basis_form(x, 0, a[1], 0, 0, 0, 0, 0, 0));
        assert(r[2] * a[2] == basis_form(x, 0, 0, a[2], 0, 0, 0, 0, 0));
        assert(r[3] * a[3] == basis_form(x, 0, 0, 0, a[3], 0, 0, 0, 0));
        assert(r[4] * a[4] == basis_form(x, 0, 0, 0, 0, a[4], 0, 0, 0));
        assert(r[5] * a[5] == basis_form(x, 0, 0, 0, 0, 0, a[5], 0, 0));
        assert(r[6] * a[6] == basis_form(x, 0, 0, 0, 0, 0, 0, a[6], 0));
        assert(r[7] * a[7] == basis_form(x, 0, 0, 0, 0, 0, 0, 0, a[7]));
    } else if x == 5 {
        assert(r[0] * a[0] == basis_form(x, a[0], 0, 0, 0, 0, 0, 0, 0));
        assert(r[1] * a[1] == basis_form(x, 0, a[1], 0, 0, 0, 0, 0, 0));
        assert(r[2] * a[2] == basis_form(x, 0, 0, a[2], 0, 0, 0, 0, 0));
        assert(r[3] * a[3] == basis_form(x, 0, 0, 0, a[3], 0, 0, 0, 0));
        assert(r[4] * a[4] == basis_form(x, 0, 0, 0, 0, a[4], 0, 0, 0));
        assert(r[5] * a[5] == basis_form(x, 0, 0, 0, 0, 0, a[5], 0, 0));
        assert(r[6] * a[6] == basis_form(x, 0, 0, 0, 0, 0, 0, a[6], 0));
        assert(r[7] * a[7] == basis_form(x, 0, 0, 0, 0, 0, 0, 0, a[7]));
    } else if x == 6 {
        assert(r[0] * a[0] == basis_form(x, a[0], 0, 0, 0, 0, 0, 0, 0));
        assert(r[1] * a[1] == basis_form(x, 0, a[1], 0, 0, 0, 0, 0, 0));
        assert(r[2] * a[2] == basis_form(x, 0, 0, a[2], 0, 0, 0, 0, 0));
        assert(r[3] * a[3] == basis_form(x, 0, 0, 0, a[3], 0, 0, 0, 0));
        assert(r[4] * a[4] == basis_form(x, 0, 0, 0, 0, a[4], 0, 0, 0));
        assert(r[5] * a[5] == basis_form(x, 0, 0, 0, 0, 0, a[5], 0, 0));
        assert(r[6] * a[6] == basis_form(x, 0, 0, 0, 0, 0, 0, a[6], 0));
        assert(r[7] * a[7] == basis_form(x, 0, 0, 0, 0, 0, 0, 0, a[7]));
    } else {
        assert(r[0] * a[0] == basis_form(x, a[0], 0, 0, 0, 0, 0, 0, 0));
        assert(r[1] * a[1] == basis_form(x, 0, a[1], 0, 0, 0, 0, 0, 0));
        assert(r[2] * a[2] == basis_form(x, 0, 0, a[2], 0, 0, 0, 0, 0));
        assert(r[3] * a[3] == basis_form(x, 0, 0, 0, a[3], 0, 0, 0, 0));
        assert(r[4] * a[4] == basis_form(x, 0, 0, 0, 0, a[4], 0, 0, 0));
        assert(r[5] * a[5] == basis_form(x, 0, 0, 0, 0, 0, a[5], 0, 0));
        assert(r[6] * a[6] == basis_form(x, 0, 0, 0, 0, 0, 0, a[6], 0));
        assert(r[7] * a[7] == basis_form(x, 0, 0, 0, 0, 0, 0, 0, a[7]));
    }
}

/// The rows of the basis are orthogonal, as far as their rounding allows.
pub proof fn lemma_gram()
    ensures
        forall|x: int, x2: int| 0 <= x < 8 && 0 <= x2 < 8 ==> gram_close(x, x2),
{
    assert forall|x: int, x2: int| 0 <= x < 8 && 0 <= x2 < 8 implies gram_close(x, x2) by {
        lemma_basis_form(x, basis_row(Precision::Single, x2));
        lemma_gram_row(x, x2);
    }
}

/// One entry of the products of the rows, from the written-out row.
#[verifier::rlimit(60)]
#[verifier::spinoff_prover]
proof fn lemma_gram_row(x: int, x2: int)
    requires
        0 <= x < 8,
        0 <= x2 < 8,
    ensures
        nearly(
            basis_form(
                x,
                basis(Precision::Single, x2, 0),
                basis(Precision::Single, x2, 1),
                basis(Precision::Single, x2, 2),
                basis(Precision::Single, x2, 3),
                basis(Precision::Single, x2, 4),
                basis(Precision::Single, x2, 5),
                basis(Precision::Single, x2, 6),
                basis(Precision::Single, x2, 7),
            ),
            if x == x2 {
                0x400_0000_0000
            } else {
                0
            },
            0x10_1000,
        ),
{
    let p = |x: int, x2: int|
        nearly(
            basis_form(
                x,
                basis(Precision::Single, x2, 0),
                basis(Precision::Single, x2, 1),
                basis(Precision::Single, x2, 2),
                basis(Precision::Single, x2, 3),
                basis(Precision::Single, x2, 4),
                basis(Precision::Single, x2, 5),
                basis(Precision::Single, x2, 6),
                basis(Precision::Single, x2, 7),
            ),
            if x == x2 {
                0x400_0000_0000int
            } else {
                0int
            },
            0x10_1000,
        );
    assert(holds_on_grid(p));
    lemma_grid(p);
    assert(p(x, x2));
}

/// An entry of the basis, from the written-out row.
proof fn lemma_basis_entry(x: int, u: int)
    requires
        0 <= x < 8,
        0 <= u < 8,
    ensures
        basis(Precision::Single, x, u) == basis_form(
            x,
            unit8(u)[0],
            unit8(u)[1],
            unit8(u)[2],
            unit8(u)[3],
            unit8(u)[4],
            unit8(u)[5],
            unit8(u)[6],
            unit8(u)[7],
        ),
{
    let r = basis_row(Precision::Single, x);
    lemma_basis_form(x, unit8(u));
    lemma_dot8_unit(u, r);
    assert(r[u] == basis(Precision::Single, x, u));
}

/// The magnitudes of a row of the basis add up to less than 5.3.
pub proof fn lemma_basis_row_magnitude(x: int)
    requires
        0 <= x < 8,
    ensures
        abs_sum8(basis_row(Precision::Single, x)) <= 5545000,
{
    let r = basis_row(Precision::Single, x);
    lemma_basis_entry(x, 0);
    lemma_basis_entry(x, 1);
    lemma_basis_entry(x, 2);
    lemma_basis_entry(x, 3);
    lemma_basis_entry(x, 4);
    lemma_basis_entry(x, 5);
    lemma_basis_entry(x, 6);
    lemma_basis_entry(x, 7);
    assert(r[0] == basis(Precision::Single, x, 0) && r[1] == basis(Precision::Single, x, 1) && r[2]
        == basis(Precision::Single, x, 2) && r[3] == basis(Precision::Single, x, 3) && r[4] == basis(
        Precision::Single,
        x,
        4,
    ) && r[5] == basis(Precision::Single, x, 5) && r[6] == basis(Precision::Single, x, 6) && r[7]
        == basis(Precision::Single, x, 7));
}

/// The magnitudes of a column of the basis add up to at most 8.
pub proof fn lemma_basis_col_magnitude(u: int)
    requires
        0 <= u < 8,
    ensures
        abs_sum8(basis_col(u)) <= 0x80_0000,
{
    let c = basis_col(u);
    lemma_basis_bound(Precision::Single, 0, u);
    lemma_basis_bound(Precision::Single, 1, u);
    lemma_basis_bound(Precision::Single, 2, u);
    lemma_basis_bound(Precision::Single, 3, u);
    lemma_basis_bound(Precision::Single, 4, u);
    lemma_basis_bound(Precision::Single, 5, u);
    lemma_basis_bound(Precision::Single, 6, u);
    lemma_basis_bound(Precision::Single, 7, u);
    assert(c[0] == basis(Precision::Single, 0, u) && c[1] == basis(Precision::Single, 1, u) && c[2]
        == basis(Precision::Single, 2, u) && c[3] == basis(Precision::Single, 3, u) && c[4] == basis(
        Precision::Single,
        4,
        u,
    ) && c[5] == basis(Precision::Single, 5, u) && c[6] == basis(Precision::Single, 6, u) && c[7]
        == basis(Precision::Single, 7, u));
}

/// What a row of the basis, taken through the basis and back, misses of four
/// times 1.0 squared at its own place and of nothing elsewhere.
pub open spec fn gram_error(x: int) -> Seq<int> {
    Seq::new(
        8,
        |i: int|
            gram_row(basis_row(Precision::Single, x))[i] - 0x400_0000_0000 * unit8(x)[i],
    )
}

/// A row of the basis taken through the basis and back is four times 1.0
/// squared at its own place, and a small error.
pub proof fn lemma_gram_split(x: int)
    requires
        0 <= x < 8,
    ensures
        gram_row(basis_row(Precision::Single, x)) == add8(
            scale8(0x400_0000_0000, unit8(x)),
            gram_error(x),
        ),
        abs_sum8(gram_error(x)) <= 0x80_8000,
        abs_sum8(gram_row(basis_row(Precision::Single, x))) <= 0x400_0080_8000,
{
    let g = gram_row(basis_row(Precision::Single, x));
    let e = gram_error(x);
    lemma_gram();
    assert forall|i: int| 0 <= i < 8 implies -0x10_1000 <= #[trigger] e[i] <= 0x10_1000 && g[i] == e[i]
        + 0x400_0000_0000 * unit8(x)[i] by {
        assert(gram_close(x, i));
    }
    assert(g =~= add8(scale8(0x400_0000_0000, unit8(x)), e));
    assert(magnitude_of(e[0]) <= 0x10_1000 && magnitude_of(e[1]) <= 0x10_1000 && magnitude_of(e[2])
        <= 0x10_1000 && magnitude_of(e[3]) <= 0x10_1000 && magnitude_of(e[4]) <= 0x10_1000
        && magnitude_of(e[5]) <= 0x10_1000 && magnitude_of(e[6]) <= 0x10_1000 && magnitude_of(e[7])
        <= 0x10_1000);
    assert(magnitude_of(g[0]) + magnitude_of(g[1]) + magnitude_of(g[2]) + magnitude_of(g[3])
        + magnitude_of(g[4]) + magnitude_of(g[5]) + magnitude_of(g[6]) + magnitude_of(g[7])
        <= 0x400_0080_8000);
}

/// Weighting the forward transform of a block by rows `x` and `y` of the
/// basis gives back the number at `(x, y)`, times four times 1.0 squared,
/// squared, and a small error.
pub proof fn lemma_round_trip_sum(s: Seq<int>, x: int, y: int)
    requires
        s.len() == 64,
        0 <= x < 8,
        0 <= y < 8,
        forall|i: int| 0 <= i < 64 ==> -128 <= #[trigger] s[i] <= 128,
    ensures
        -0x202_0020_4020_0000_0000 <= bilinear(
            basis_row(Precision::Single, x),
            basis_row(Precision::Single, y),
            forward_block(s),
        ) - 0x400_0000_0000 * (0x400_0000_0000 * s[y * 8 + x]) <= 0x202_0020_4020_0000_0000,
{
    let p = Precision::Single;
    let ga = gram_row(basis_row(p, x));
    let gb = gram_row(basis_row(p, y));
    let ex = scale8(0x400_0000_0000, unit8(x));
    let ey = scale8(0x400_0000_0000, unit8(y));
    let ea = gram_error(x);
    let eb = gram_error(y);
    lemma_compose(basis_row(p, x), basis_row(p, y), s);
    lemma_gram_split(x);
    lemma_gram_split(y);
    // the rows: the own place and the error
    lemma_bilinear_add_rows(ex, ea, gb, s);
    let t1 = bilinear(ea, gb, s);
    lemma_bilinear_bound(ea, gb, s, 0x80_8000, 0x400_0080_8000, 128, 0x4040_0000, 0x101_0020_4020_0000_0000);
    lemma_bilinear_scale_rows(0x400_0000_0000, unit8(x), gb, s);
    // the columns: the own place and the error
    lemma_bilinear_add_columns(unit8(x), ey, eb, s);
    let t2 = bilinear(unit8(x), eb, s);
    lemma_dot8_unit(x, unit8(x));
    lemma_bilinear_bound(unit8(x), eb, s, 1, 0x80_8000, 128, 128, 0x4040_0000);
    lemma_bilinear_scale_columns(0x400_0000_0000, unit8(x), unit8(y), s);
    lemma_bilinear_unit(x, y, s);
    assert(bilinear(ga, gb, s) == 0x400_0000_0000 * (0x400_0000_0000 * s[y * 8 + x] + t2) + t1);
}

/// The forward transform of the centred samples, before the 40 fractional
/// bits that the kernel adds.
pub open spec fn exact_forward(s: Seq<u8>) -> Seq<int> {
    forward_block(ints32(centered(s)))
}

/// A rounded coefficient is the exact one divided by four times 1.0 squared,
/// rounded; it is within half of that quotient and fits 32 bits with room.
proof fn lemma_rounded_coefficient(s: Seq<u8>, k: int)
    requires
        s.len() == 64,
        0 <= k < 64,
    ensures
        rounded(Kernel::Forward(Precision::Single), s)[k] == round_div(exact_forward(s)[k], 0x400_0000_0000),
        -0x400_0000_0000 <= 2 * (0x400_0000_0000 * rounded(Kernel::Forward(Precision::Single), s)[k] - exact_forward(s)[k])
            <= 0x400_0000_0000,
{
    let p = Precision::Single;
    let c = centered(s);
    let ci = ints32(c);
    let u = k % 8;
    let v = k / 8;
    let m = exact_forward(s)[k];
    assert(v * 8 + u == k);
    lemma_forward_is_bilinear(c, u, v);
    lemma_forward_block_entry(ci, u, v);
    lemma_basis_col_magnitude(u);
    lemma_basis_col_magnitude(v);
    assert forall|i: int| 0 <= i < 64 implies -128 <= #[trigger] ci[i] <= 128 by {
        assert(ci[i] == c[i]);
    }
    lemma_bilinear_bound(
        basis_col(u),
        basis_col(v),
        ci,
        0x80_0000,
        0x80_0000,
        128,
        0x4000_0000,
        0x20_0000_0000_0000,
    );
    assert(divisor(Kernel::Forward(p)) == 0x4_0000_0000_0000_0000_0000) by {
        let one = crate::basis::unit(p);
        assert(one == 0x10_0000);
        assert((one * one) * (one * one) == 0x1_0000_0000_0000_0000_0000) by (nonlinear_arith)
            requires
                one == 0x10_0000,
        ;
    }
    assert(0x4_0000_0000_0000_0000_0000 == 0x100_0000_0000 * 0x400_0000_0000);
    lemma_round_div_scale(m, 0x400_0000_0000, 0x100_0000_0000);
    let q = round_div(m, 0x400_0000_0000);
    lemma_round_div_bounds(m, 0x400_0000_0000);
    assert(forward(Kernel::Forward(p), s)[k] == 0x100_0000_0000 * m);
}

/// Twice what the rounding added to each coefficient, with 42 fractional bits.
pub open spec fn rounding_noise(s: Seq<u8>) -> Seq<int> {
    Seq::new(
        64,
        |j: int| 2 * (0x400_0000_0000 * rounded(Kernel::Forward(Precision::Single), s)[j] - exact_forward(s)[j]),
    )
}

/// The rounding of the coefficients, weighted by two rows of the basis, stays
/// below the bound of the rows squared times half a coefficient.
proof fn lemma_noise_bound(s: Seq<u8>, x: int, y: int)
    requires
        s.len() == 64,
        0 <= x < 8,
        0 <= y < 8,
    ensures
        -0x6f_db66_0319_0000_0000_0000 <= bilinear(
            basis_row(Precision::Single, x),
            basis_row(Precision::Single, y),
            rounding_noise(s),
        ) <= 0x6f_db66_0319_0000_0000_0000,
{
    let r2 = rounding_noise(s);
    assert forall|j: int| 0 <= j < 64 implies -0x400_0000_0000 <= #[trigger] r2[j] <= 0x400_0000_0000 by {
        lemma_rounded_coefficient(s, j);
    }
    lemma_basis_row_magnitude(x);
    lemma_basis_row_magnitude(y);
    lemma_bilinear_bound(
        basis_row(Precision::Single, x),
        basis_row(Precision::Single, y),
        r2,
        5545000,
        5545000,
        0x400_0000_0000,
        0x1_5270_a000_0000_0000,
        0x6f_db66_0319_0000_0000_0000,
    );
}

/// The weighted sum of the rounded coefficients, taken twice and with 42
/// more fractional bits, is twice the weighted exact coefficients and the
/// weighted rounding.
proof fn lemma_weighted_parts(s: Seq<u8>, x: int, y: int)
    requires
        s.len() == 64,
        0 <= x < 8,
        0 <= y < 8,
    ensures
        0x800_0000_0000 * sum(Kernel::Reference(Precision::Single), rounded(Kernel::Forward(Precision::Single), s), x, y) == 2
            * bilinear(
            basis_row(Precision::Single, x),
            basis_row(Precision::Single, y),
            exact_forward(s),
        ) + bilinear(
            basis_row(Precision::Single, x),
            basis_row(Precision::Single, y),
            rounding_noise(s),
        ),
{
    let p = Precision::Single;
    let cc = rounded(Kernel::Forward(Precision::Single), s);
    let cci = ints32(cc);
    let m = exact_forward(s);
    let a = basis_row(p, x);
    let b = basis_row(p, y);
    let r2 = rounding_noise(s);
    lemma_inverse_is_bilinear(cc, x, y);
    assert forall|j: int| 0 <= j < 64 implies 0x800_0000_0000 * #[trigger] cci[j] == 2 * m[j] + r2[j] by {
        assert(cci[j] == cc[j]);
    }
    lemma_parts(a, b, cci, m, r2);
}

/// Where each number of a block, taken twice and with 42 more fractional
/// bits, is twice a number of a second block and a number of a third, the
/// same holds of their weighted sums.
proof fn lemma_parts(a: Seq<int>, b: Seq<int>, c: Seq<int>, m: Seq<int>, r: Seq<int>)
    requires
        a.len() == 8,
        b.len() == 8,
        c.len() == 64,
        m.len() == 64,
        r.len() == 64,
        forall|j: int| 0 <= j < 64 ==> 0x800_0000_0000 * #[trigger] c[j] == 2 * m[j] + r[j],
    ensures
        0x800_0000_0000 * bilinear(a, b, c) == 2 * bilinear(a, b, m) + bilinear(a, b, r),
{
    lemma_bilinear_scale(a, b, 0x800_0000_0000, c);
    lemma_bilinear_scale(a, b, 2, m);
    assert(scale64(0x800_0000_0000, c) =~= add64(scale64(2, m), r));
    lemma_bilinear_add(a, b, scale64(2, m), r);
}

/// Before the last rounding the round trip is less than 3.5 off.
proof fn lemma_round_trip_weighted(s: Seq<u8>, x: int, y: int)
    requires
        s.len() == 64,
        0 <= x < 8,
        0 <= y < 8,
    ensures
        -7 * 0x400_0000_0000 < 2 * sum(
            Kernel::Reference(Precision::Single),
            rounded(Kernel::Forward(Precision::Single), s),
            x,
            y,
        ) - 2 * (0x400_0000_0000 * (s[y * 8 + x] - 128)) < 7 * 0x400_0000_0000,
{
    let p = Precision::Single;
    let ci = ints32(centered(s));
    assert forall|j: int| 0 <= j < 64 implies -128 <= #[trigger] ci[j] <= 128 by {
        assert(ci[j] == centered(s)[j]);
    }
    assert(ci[y * 8 + x] == s[y * 8 + x] - 128) by {
        assert(ci[y * 8 + x] == centered(s)[y * 8 + x]);
    }
    lemma_round_trip_sum(ci, x, y);
    lemma_noise_bound(s, x, y);
    lemma_weighted_parts(s, x, y);
    let n = sum(Kernel::Reference(p), rounded(Kernel::Forward(Precision::Single), s), x, y);
    let back = bilinear(basis_row(p, x), basis_row(p, y), exact_forward(s));
    let noise = bilinear(basis_row(p, x), basis_row(p, y), rounding_noise(s));
    let sc = s[y * 8 + x] - 128;
    assert(0x800_0000_0000 * n == 2 * back + noise);
    assert(-0x202_0020_4020_0000_0000 <= back - 0x400_0000_0000 * (0x400_0000_0000 * sc) <= 0x202_0020_4020_0000_0000);
}

/// The round trip: a sample block taken through the forward transform, the
/// coefficients rounded to integers, and back through the reference inverse
/// transform comes out with every sample within three of what went in.
pub proof fn law_round_trip_within_three(s: Seq<u8>, i: int)
    requires
        s.len() == 64,
        0 <= i < 64,
    ensures
        -3 <= inverse(Kernel::Reference(Precision::Single), rounded(Kernel::Forward(Precision::Single), s))[i] - s[i] <= 3,
{
    let k = Kernel::Reference(Precision::Single);
    let x = i % 8;
    let y = i / 8;
    assert(y * 8 + x == i);
    let cc = rounded(Kernel::Forward(Precision::Single), s);
    let n = sum(k, cc, x, y);
    let sc = s[i] - 128;
    lemma_round_trip_weighted(s, x, y);
    lemma_round_div_bounds(n, 0x400_0000_0000);
    let q = round_div(n, 0x400_0000_0000);
    assert(-3 <= q - sc <= 3);
    assert(sample(k, cc, i) == clamp_sample(q + 128));
}

} // verus!
