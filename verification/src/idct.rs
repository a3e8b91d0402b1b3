//! The inverse transforms: one 8x8 coefficient block in, one 8x8 sample block out.
use crate::ap922::first_pass_of;
use crate::basis::{
    basis, basis_table, cosine_at, cosine_table, is_basis_table, is_cosine_table,
    lemma_basis_bound, lemma_basis_mirror, norm_at, unit, unit_of, Precision,
};
use crate::butterfly::{lemma_output_is_dot, matrix, matrix_row, output, Network};
use crate::fixed::{lemma_round_div_scale, lemma_sample_saturates, to_sample};
use crate::kernel::{
    block_col, block_row, col_prefix, cols_prefix, divisor, inverse, is_inverse,
    lemma_columns_then_rows,
    lemma_reference_term, lemma_rows_then_columns, lemma_sum_by_columns, sample, sum, term, weight,
    Kernel,
};
use crate::linear::{col8, dot8, ints, lemma_mul_bound, lemma_mul_split, row8};
use crate::passes::{columns_pass, finish, rows_pass, widen};
use crate::separable::{
    basis_row, column_even, column_odd, column_prefix, column_sum, fold4, lemma_column_bound,
    lemma_column_halves, lemma_column_prefix_full, lemma_column_share, lemma_column_share_mirror,
    lemma_direct_term, lemma_pair_cover, lemma_quad_cover, lemma_quad_step, lemma_share_bound,
};
use crate::text::{lines, push_line};
use vstd::prelude::*;

verus! {

/// The scale of the reference sums: four times 1.0 squared.
fn reference_scale(p: Precision) -> (d: i128)
    ensures
        d == divisor(Kernel::Reference(p)),
        d > 0,
{
    match p {
        Precision::Coarse => 0x4_0000,
        Precision::Single => 0x400_0000_0000,
        Precision::Double => 0x4000_0000_0000,
    }
}

/// 1.0 squared.
fn unit_squared(p: Precision) -> (s: i128)
    ensures
        s == unit(p) * unit(p),
        s > 0,
{
    match p {
        Precision::Coarse => 0x1_0000,
        Precision::Single => 0x100_0000_0000,
        Precision::Double => 0x1000_0000_0000,
    }
}

/// One term of the defining formula: `C(u) * C(v) * F(u, v)` times the two cosines.
fn direct_term(
    Ghost(p): Ghost<Precision>,
    cos: &[i128; 32],
    one: i128,
    f: &[i32],
    x: usize,
    y: usize,
    u: usize,
    v: usize,
) -> (t: i128)
    requires
        f.len() == 64,
        is_cosine_table(cos@, p),
        one == unit(p),
        x < 8,
        y < 8,
        u < 8,
        v < 8,
    ensures
        t == (unit(p) * unit(p)) * term(Kernel::Reference(p), f@, x as int, y as int, u as int, v as int),
        -0x80_0000_0000_0000_0000_0000_0000_0000 <= t <= 0x80_0000_0000_0000_0000_0000_0000_0000,
{
    let cu = norm_at(Ghost(p), cos, one, u);
    let cv = norm_at(Ghost(p), cos, one, v);
    let cx = cosine_at(Ghost(p), cos, x, u);
    let cy = cosine_at(Ghost(p), cos, y, v);
    proof {
        lemma_direct_term(p, f@, x as int, y as int, u as int, v as int);
    }
    cu * cv * (f[v * 8 + u] as i128) * cx * cy
}

/// The defining formula, term by term: for each sample the sum over all
/// `(u, v)` of `C(u) * C(v) * F(u, v) * cos((2x + 1) * u * pi / 16) * cos((2y + 1) * v * pi / 16)`,
/// divided by four, rounded, level shifted and clamped.
fn direct(p: Precision, f: &[i32]) -> (r: Vec<u8>)
    requires
        f.len() == 64,
    ensures
        r@ == inverse(Kernel::Reference(p), f@),
{
    let ghost k = Kernel::Reference(p);
    let cos = cosine_table(p);
    let one = unit_of(p);
    let scale = unit_squared(p);
    let d = reference_scale(p);
    proof {
        assert(0 < scale * d <= 0x4_0000_0000_0000_0000_0000_0000) by (nonlinear_arith)
            requires
                0 < scale <= 0x1000_0000_0000,
                0 < d <= 0x4000_0000_0000,
        ;
    }
    let wide = scale * d;
    let mut vals: Vec<u8> = Vec::new();
    let mut i: usize = 0;
    while i < 64
        invariant
            i <= 64,
            f.len() == 64,
            vals.len() == i,
            k == Kernel::Reference(p),
            is_cosine_table(cos@, p),
            one == unit(p),
            scale == unit(p) * unit(p),
            scale > 0,
            d == divisor(k),
            d > 0,
            wide == scale * d,
            wide > 0,
            forall|j: int| 0 <= j < i ==> #[trigger] vals[j] == sample(k, f@, j),
        decreases 64 - i,
    {
        let x = i % 8;
        let y = i / 8;
        let mut val: i128 = 0;
        let ghost mut acc: int = 0;
        let mut u: usize = 0;
        while u < 8
            invariant
                u <= 8,
                x < 8,
                y < 8,
                f.len() == 64,
                k == Kernel::Reference(p),
                is_cosine_table(cos@, p),
                one == unit(p),
                scale == unit(p) * unit(p),
                acc == cols_prefix(k, f@, x as int, y as int, u as int),
                val == scale * acc,
                -(8 * u) * 0x80_0000_0000_0000_0000_0000_0000_0000 <= val <= (8 * u)
                    * 0x80_0000_0000_0000_0000_0000_0000_0000,
            decreases 8 - u,
        {
            let ghost before = acc;
            let mut v: usize = 0;
            while v < 8
                invariant
                    v <= 8,
                    u < 8,
                    x < 8,
                    y < 8,
                    f.len() == 64,
                    k == Kernel::Reference(p),
                    is_cosine_table(cos@, p),
                    one == unit(p),
                    scale == unit(p) * unit(p),
                    before == cols_prefix(k, f@, x as int, y as int, u as int),
                    acc == before + col_prefix(k, f@, x as int, y as int, u as int, v as int),
                    val == scale * acc,
                    -(8 * u + v) * 0x80_0000_0000_0000_0000_0000_0000_0000 <= val <= (8 * u + v)
                        * 0x80_0000_0000_0000_0000_0000_0000_0000,
                decreases 8 - v,
            {
                let t = direct_term(Ghost(p), &cos, one, f, x, y, u, v);
                proof {
                    lemma_mul_split(
                        scale as int,
                        acc,
                        term(k, f@, x as int, y as int, u as int, v as int),
                    );
                    acc = acc + term(k, f@, x as int, y as int, u as int, v as int);
                }
                val += t;
                v += 1;
            }
            u += 1;
        }
        proof {
            let n = sum(k, f@, x as int, y as int);
            lemma_sum_by_columns(k, f@, x as int, y as int);
            lemma_round_div_scale(n, d as int, scale as int);
            lemma_sample_saturates(n, d as int);
        }
        vals.push(to_sample(val, wide));
        i += 1;
    }
    assert(vals@ =~= inverse(k, f@));
    vals
}

/// The reference inverse transform: the defining formula with 20-bit constants.
pub fn idct(f: &[i32]) -> (r: Vec<u8>)
    requires
        f.len() == 64,
    ensures
        r@ == inverse(Kernel::Reference(Precision::Single), f@),
{
    direct(Precision::Single, f)
}

/// The reference inverse transform with 22-bit constants.
pub fn idct_f64(f: &[i32]) -> (r: Vec<u8>)
    requires
        f.len() == 64,
    ensures
        r@ == inverse(Kernel::Reference(Precision::Double), f@),
{
    direct(Precision::Double, f)
}

/// The first of the matrix methods: the defining formula as it stands.
pub fn idct1(f: &[i32]) -> (r: Vec<u8>)
    requires
        f.len() == 64,
    ensures
        r@ == inverse(Kernel::Reference(Precision::Single), f@),
{
    direct(Precision::Single, f)
}

/// The double sum over a precomputed basis matrix, one product per coefficient.
pub fn idct3(f: &[i32]) -> (r: Vec<u8>)
    requires
        f.len() == 64,
    ensures
        r@ == inverse(Kernel::Reference(Precision::Single), f@),
{
    let ghost k = Kernel::Reference(Precision::Single);
    let c_table = basis_table(Precision::Single);
    let mut vals: Vec<u8> = Vec::new();
    let mut i: usize = 0;
    while i < 64
        invariant
            i <= 64,
            f.len() == 64,
            vals.len() == i,
            k == Kernel::Reference(Precision::Single),
            is_basis_table(c_table@, Precision::Single),
            forall|j: int| 0 <= j < i ==> #[trigger] vals[j] == sample(k, f@, j),
        decreases 64 - i,
    {
        let x = i % 8;
        let y = i / 8;
        let mut val: i128 = 0;
        let mut u: usize = 0;
        while u < 8
            invariant
                u <= 8,
                x < 8,
                y < 8,
                f.len() == 64,
                k == Kernel::Reference(Precision::Single),
                is_basis_table(c_table@, Precision::Single),
                val == cols_prefix(k, f@, x as int, y as int, u as int),
                -(8 * u) * 0x80_0000_0000_0000_0000 <= val <= (8 * u) * 0x80_0000_0000_0000_0000,
            decreases 8 - u,
        {
            let ghost before = val;
            let mut v: usize = 0;
            while v < 8
                invariant
                    v <= 8,
                    u < 8,
                    x < 8,
                    y < 8,
                    f.len() == 64,
                    k == Kernel::Reference(Precision::Single),
                    is_basis_table(c_table@, Precision::Single),
                    val == before + col_prefix(k, f@, x as int, y as int, u as int, v as int),
                    -(8 * u) * 0x80_0000_0000_0000_0000 <= before <= (8 * u)
                        * 0x80_0000_0000_0000_0000,
                    -v * 0x80_0000_0000_0000_0000 <= val - before <= v * 0x80_0000_0000_0000_0000,
                decreases 8 - v,
            {
                proof {
                    lemma_reference_term(Precision::Single, f@, x as int, y as int, u as int, v as int);
                }
                val += f[v * 8 + u] as i128 * c_table[x * 8 + u] * c_table[y * 8 + v];
                v += 1;
            }
            u += 1;
        }
        proof {
            lemma_sum_by_columns(k, f@, x as int, y as int);
            lemma_sample_saturates(sum(k, f@, x as int, y as int), 0x400_0000_0000);
        }
        vals.push(to_sample(val, 0x400_0000_0000));
        i += 1;
    }
    assert(vals@ =~= inverse(k, f@));
    vals
}

/// Two passes: each coefficient column is summed against a row of the basis
/// matrix, and the eight column sums against a row of the same matrix.
fn separable(p: Precision, f: &[i32]) -> (r: Vec<u8>)
    requires
        f.len() == 64,
    ensures
        r@ == inverse(Kernel::Reference(p), f@),
{
    let ghost k = Kernel::Reference(p);
    let c_table = basis_table(p);
    let d = reference_scale(p);
    let mut vals: Vec<u8> = Vec::new();
    let mut i: usize = 0;
    while i < 64
        invariant
            i <= 64,
            f.len() == 64,
            vals.len() == i,
            k == Kernel::Reference(p),
            is_basis_table(c_table@, p),
            d == divisor(k),
            d > 0,
            forall|j: int| 0 <= j < i ==> #[trigger] vals[j] == sample(k, f@, j),
        decreases 64 - i,
    {
        let x = i % 8;
        let y = i / 8;
        let mut val: i128 = 0;
        let mut u: usize = 0;
        while u < 8
            invariant
                u <= 8,
                x < 8,
                y < 8,
                f.len() == 64,
                k == Kernel::Reference(p),
                is_basis_table(c_table@, p),
                val == cols_prefix(k, f@, x as int, y as int, u as int),
                -u * 0x4_0000_0000_0000_0000_0000 <= val <= u * 0x4_0000_0000_0000_0000_0000,
            decreases 8 - u,
        {
            let mut uval: i128 = 0;
            let mut v: usize = 0;
            while v < 8
                invariant
                    v <= 8,
                    u < 8,
                    y < 8,
                    f.len() == 64,
                    is_basis_table(c_table@, p),
                    uval == column_prefix(p, f@, y as int, u as int, v as int),
                decreases 8 - v,
            {
                proof {
                    lemma_column_bound(p, f@, y as int, u as int);
                    assert(column_prefix(p, f@, y as int, u as int, v + 1) == column_prefix(
                        p,
                        f@,
                        y as int,
                        u as int,
                        v as int,
                    ) + basis(p, y as int, v as int) * f[v * 8 + u]);
                }
                uval += c_table[y * 8 + v] * (f[v * 8 + u] as i128);
                v += 1;
            }
            proof {
                lemma_column_prefix_full(p, f@, y as int, u as int);
                lemma_column_share(p, f@, x as int, y as int, u as int);
                lemma_share_bound(p, f@, x as int, y as int, u as int);
            }
            val += c_table[x * 8 + u] * uval;
            u += 1;
        }
        proof {
            lemma_sum_by_columns(k, f@, x as int, y as int);
            lemma_sample_saturates(sum(k, f@, x as int, y as int), d as int);
        }
        vals.push(to_sample(val, d));
        i += 1;
    }
    assert(vals@ =~= inverse(k, f@));
    vals
}

/// The two passes with 20-bit constants.
pub fn idct4(f: &[i32]) -> (r: Vec<u8>)
    requires
        f.len() == 64,
    ensures
        r@ == inverse(Kernel::Reference(Precision::Single), f@),
{
    separable(Precision::Single, f)
}

/// The two passes with every constant scaled by 256 only.
pub fn idct5(f: &[i32]) -> (r: Vec<u8>)
    requires
        f.len() == 64,
    ensures
        r@ == inverse(Kernel::Reference(Precision::Coarse), f@),
{
    separable(Precision::Coarse, f)
}

/// Coefficient column `u` weighted by the eight numbers `w`, the products
/// written out.
fn dot_column(w: &[i128; 8], f: &[i32], u: usize) -> (r: i128)
    requires
        f.len() == 64,
        u < 8,
        forall|i: int| 0 <= i < 8 ==> -0x40_0000 <= #[trigger] w[i] <= 0x40_0000,
    ensures
        r == dot8(ints(w@), block_col(f@, u as int)),
{
    let ghost a = ints(w@);
    let ghost c = block_col(f@, u as int);
    proof {
        assert forall|i: int| 0 <= i < 8 implies -0x20_0000_0000_0000 <= #[trigger] (a[i] * c[i])
            <= 0x20_0000_0000_0000 by {
            assert(a[i] == w[i]);
            lemma_mul_bound(a[i], c[i], 0x40_0000, 0x8000_0000);
        }
        assert(a[0] * c[0] == w[0] * f[u as int]);
        assert(a[1] * c[1] == w[1] * f[8 + u]);
        assert(a[2] * c[2] == w[2] * f[16 + u]);
        assert(a[3] * c[3] == w[3] * f[24 + u]);
        assert(a[4] * c[4] == w[4] * f[32 + u]);
        assert(a[5] * c[5] == w[5] * f[40 + u]);
        assert(a[6] * c[6] == w[6] * f[48 + u]);
        assert(a[7] * c[7] == w[7] * f[56 + u]);
    }
    let mut uval: i128 = 0;
    uval += w[0] * (f[u] as i128);
    uval += w[1] * (f[8 + u] as i128);
    uval += w[2] * (f[16 + u] as i128);
    uval += w[3] * (f[24 + u] as i128);
    uval += w[4] * (f[32 + u] as i128);
    uval += w[5] * (f[40 + u] as i128);
    uval += w[6] * (f[48 + u] as i128);
    uval += w[7] * (f[56 + u] as i128);
    uval
}

/// Row `y` of the basis matrix.
fn table_row(Ghost(p): Ghost<Precision>, c_table: &[i128; 64], y: usize) -> (w: [i128; 8])
    requires
        is_basis_table(c_table@, p),
        y < 8,
    ensures
        ints(w@) == basis_row(p, y as int),
        forall|i: int| 0 <= i < 8 ==> -0x40_0000 <= #[trigger] w[i] <= 0x40_0000,
{
    let w: [i128; 8] = [
        c_table[y * 8],
        c_table[y * 8 + 1],
        c_table[y * 8 + 2],
        c_table[y * 8 + 3],
        c_table[y * 8 + 4],
        c_table[y * 8 + 5],
        c_table[y * 8 + 6],
        c_table[y * 8 + 7],
    ];
    proof {
        assert(w[0] == c_table[y * 8 + 0]);
        assert forall|v: int| 0 <= v < 8 implies -0x40_0000 <= #[trigger] w[v] <= 0x40_0000 && w[v]
            == basis(p, y as int, v) by {
            lemma_basis_bound(p, y as int, v);
            assert(w[v] == c_table[y * 8 + v]);
        }
        assert(ints(w@) =~= basis_row(p, y as int));
    }
    w
}

/// Coefficient column `u` summed against row `y` of the basis matrix.
fn column_dot(Ghost(p): Ghost<Precision>, c_table: &[i128; 64], f: &[i32], y: usize, u: usize) -> (r:
    i128)
    requires
        f.len() == 64,
        is_basis_table(c_table@, p),
        y < 8,
        u < 8,
    ensures
        r == column_sum(p, f@, y as int, u as int),
{
    let w = table_row(Ghost(p), c_table, y);
    dot_column(&w, f, u)
}

/// The two passes with the inner loop written out.
pub fn idct6(f: &[i32]) -> (r: Vec<u8>)
    requires
        f.len() == 64,
    ensures
        r@ == inverse(Kernel::Reference(Precision::Single), f@),
{
    let ghost p = Precision::Single;
    let ghost k = Kernel::Reference(p);
    let c_table = basis_table(Precision::Single);
    let mut vals: Vec<u8> = Vec::new();
    let mut i: usize = 0;
    while i < 64
        invariant
            i <= 64,
            f.len() == 64,
            vals.len() == i,
            p == Precision::Single,
            k == Kernel::Reference(p),
            is_basis_table(c_table@, p),
            forall|j: int| 0 <= j < i ==> #[trigger] vals[j] == sample(k, f@, j),
        decreases 64 - i,
    {
        let x = i % 8;
        let y = i / 8;
        let mut val: i128 = 0;
        let mut u: usize = 0;
        while u < 8
            invariant
                u <= 8,
                x < 8,
                y < 8,
                f.len() == 64,
                k == Kernel::Reference(p),
                is_basis_table(c_table@, p),
                val == cols_prefix(k, f@, x as int, y as int, u as int),
                -u * 0x4_0000_0000_0000_0000_0000 <= val <= u * 0x4_0000_0000_0000_0000_0000,
            decreases 8 - u,
        {
            let uval = column_dot(Ghost(p), &c_table, f, y, u);
            proof {
                lemma_column_share(p, f@, x as int, y as int, u as int);
                lemma_share_bound(p, f@, x as int, y as int, u as int);
            }
            val += c_table[x * 8 + u] * uval;
            u += 1;
        }
        proof {
            lemma_sum_by_columns(k, f@, x as int, y as int);
            lemma_sample_saturates(sum(k, f@, x as int, y as int), 0x400_0000_0000);
        }
        vals.push(to_sample(val, 0x400_0000_0000));
        i += 1;
    }
    assert(vals@ =~= inverse(k, f@));
    vals
}

/// Sets the sample at `(x, y)` from its weighted sum.
fn put(vals: &mut Vec<u8>, Ghost(f): Ghost<Seq<i32>>, x: usize, y: usize, val: i128)
    requires
        old(vals).len() == 64,
        x < 8,
        y < 8,
        val == sum(Kernel::Reference(Precision::Single), f, x as int, y as int),
    ensures
        final(vals).len() == 64,
        final(vals)@ == old(vals)@.update(
            y * 8 + x,
            sample(Kernel::Reference(Precision::Single), f, y * 8 + x) as u8,
        ),
        0 <= sample(Kernel::Reference(Precision::Single), f, y * 8 + x) <= 255,
{
    proof {
        lemma_sample_saturates(val as int, 0x400_0000_0000);
    }
    vals.set(y * 8 + x, to_sample(val, 0x400_0000_0000));
}

/// The two passes, two samples at a time: the samples at `x` and `7 - x`
/// share their products, and differ in the sign of the odd frequencies only.
pub fn idct7(f: &[i32]) -> (r: Vec<u8>)
    requires
        f.len() == 64,
    ensures
        r@ == inverse(Kernel::Reference(Precision::Single), f@),
{
    let ghost p = Precision::Single;
    let ghost k = Kernel::Reference(p);
    let c_table = basis_table(Precision::Single);
    let mut vals: Vec<u8> = vec![0u8; 64];
    let mut i: usize = 0;
    while i < 32
        invariant
            i <= 32,
            f.len() == 64,
            vals.len() == 64,
            p == Precision::Single,
            k == Kernel::Reference(p),
            is_basis_table(c_table@, p),
            forall|j: int|
                0 <= j < 64 && (j / 8) * 4 + fold4(j % 8) < i ==> #[trigger] vals[j] == sample(
                    k,
                    f@,
                    j,
                ),
        decreases 32 - i,
    {
        let x = i % 4;
        let y = i / 4;
        let mut val1: i128 = 0;
        let mut val2: i128 = 0;
        let mut plus_minus: i128 = 1;
        let mut u: usize = 0;
        while u < 8
            invariant
                u <= 8,
                x < 4,
                y < 8,
                f.len() == 64,
                p == Precision::Single,
                k == Kernel::Reference(p),
                is_basis_table(c_table@, p),
                plus_minus == if u % 2 == 0 {
                    1int
                } else {
                    -1int
                },
                val1 == cols_prefix(k, f@, x as int, y as int, u as int),
                val2 == cols_prefix(k, f@, 7 - x, y as int, u as int),
                -u * 0x4_0000_0000_0000_0000_0000 <= val1 <= u * 0x4_0000_0000_0000_0000_0000,
                -u * 0x4_0000_0000_0000_0000_0000 <= val2 <= u * 0x4_0000_0000_0000_0000_0000,
            decreases 8 - u,
        {
            let uval1 = column_dot(Ghost(p), &c_table, f, y, u);
            proof {
                lemma_column_share(p, f@, x as int, y as int, u as int);
                lemma_column_share_mirror(p, f@, x as int, y as int, u as int);
                lemma_share_bound(p, f@, x as int, y as int, u as int);
            }
            let t = c_table[x * 8 + u] * uval1;
            val1 += t;
            val2 += if plus_minus == 1 {
                t
            } else {
                -t
            };
            plus_minus = -plus_minus;
            u += 1;
        }
        proof {
            lemma_sum_by_columns(k, f@, x as int, y as int);
            lemma_sum_by_columns(k, f@, 7 - x, y as int);
        }
        let ghost done = vals@;
        put(&mut vals, Ghost(f@), x, y, val1);
        put(&mut vals, Ghost(f@), 7 - x, y, val2);
        proof {
            assert forall|j: int| 0 <= j < 64 && (j / 8) * 4 + fold4(j % 8) < i + 1 implies #[trigger] vals[j]
                == sample(k, f@, j) by {
                if (j / 8) * 4 + fold4(j % 8) == i {
                    lemma_pair_cover(j, i as int);
                } else {
                    assert(done[j] == sample(k, f@, j));
                }
            }
        }
        i += 1;
    }
    assert(vals@ =~= inverse(k, f@));
    vals
}

/// Coefficient column `u` summed against row `7 - y` of the basis matrix,
/// as row `y` with the constants of the odd frequencies negated.
fn column_dot_mirror(
    Ghost(p): Ghost<Precision>,
    c_table: &[i128; 64],
    f: &[i32],
    y: usize,
    u: usize,
) -> (r: i128)
    requires
        f.len() == 64,
        is_basis_table(c_table@, p),
        y < 8,
        u < 8,
    ensures
        r == column_sum(p, f@, 7 - y, u as int),
{
    let c = table_row(Ghost(p), c_table, y);
    let w: [i128; 8] = [c[0], -c[1], c[2], -c[3], c[4], -c[5], c[6], -c[7]];
    proof {
        let row = basis_row(p, y as int);
        let mirrored = basis_row(p, 7 - y);
        assert forall|v: int| 0 <= v < 8 implies #[trigger] ints(w@)[v] == mirrored[v] by {
            lemma_basis_mirror(p, y as int, v);
            assert(ints(c@)[v] == row[v]);
        }
        assert(ints(w@) =~= mirrored);
    }
    dot_column(&w, f, u)
}

/// The even and the odd frequencies of coefficient column `u`, each summed
/// against row `y` of the basis matrix.
fn column_halves(
    Ghost(p): Ghost<Precision>,
    c_table: &[i128; 64],
    f: &[i32],
    y: usize,
    u: usize,
) -> (r: (i128, i128))
    requires
        f.len() == 64,
        is_basis_table(c_table@, p),
        y < 8,
        u < 8,
    ensures
        r.0 == column_even(p, f@, y as int, u as int),
        r.1 == column_odd(p, f@, y as int, u as int),
        -0x800_0000_0000_0000 <= r.0 <= 0x800_0000_0000_0000,
        -0x800_0000_0000_0000 <= r.1 <= 0x800_0000_0000_0000,
{
    proof {
        lemma_column_bound(p, f@, y as int, u as int);
        assert(basis(p, y as int, 0) * f[0 * 8 + u] == c_table[y * 8 + 0] * f[u as int]);
        assert(basis(p, y as int, 1) * f[1 * 8 + u] == c_table[y * 8 + 1] * f[8 + u]);
        assert(basis(p, y as int, 2) * f[2 * 8 + u] == c_table[y * 8 + 2] * f[16 + u]);
        assert(basis(p, y as int, 3) * f[3 * 8 + u] == c_table[y * 8 + 3] * f[24 + u]);
        assert(basis(p, y as int, 4) * f[4 * 8 + u] == c_table[y * 8 + 4] * f[32 + u]);
        assert(basis(p, y as int, 5) * f[5 * 8 + u] == c_table[y * 8 + 5] * f[40 + u]);
        assert(basis(p, y as int, 6) * f[6 * 8 + u] == c_table[y * 8 + 6] * f[48 + u]);
        assert(basis(p, y as int, 7) * f[7 * 8 + u] == c_table[y * 8 + 7] * f[56 + u]);
    }
    let temp1 = c_table[y * 8] * (f[u] as i128) + c_table[y * 8 + 2] * (f[16 + u] as i128)
        + c_table[y * 8 + 4] * (f[32 + u] as i128) + c_table[y * 8 + 6] * (f[48 + u] as i128);
    let temp2 = c_table[y * 8 + 1] * (f[8 + u] as i128) + c_table[y * 8 + 3] * (f[24 + u] as i128)
        + c_table[y * 8 + 5] * (f[40 + u] as i128) + c_table[y * 8 + 7] * (f[56 + u] as i128);
    (temp1, temp2)
}

/// The sums of coefficient column `u` against rows `y` and `7 - y` of the
/// basis matrix: with `shared` from the sum and the difference of the even
/// and the odd products, without it from products of their own.
fn column_sums(
    Ghost(p): Ghost<Precision>,
    c_table: &[i128; 64],
    f: &[i32],
    y: usize,
    u: usize,
    shared: bool,
) -> (r: (i128, i128))
    requires
        f.len() == 64,
        is_basis_table(c_table@, p),
        y < 8,
        u < 8,
    ensures
        r.0 == column_sum(p, f@, y as int, u as int),
        r.1 == column_sum(p, f@, 7 - y, u as int),
{
    if shared {
        let (temp1, temp2) = column_halves(Ghost(p), c_table, f, y, u);
        proof {
            lemma_column_halves(p, f@, y as int, u as int);
        }
        (temp1 + temp2, temp1 - temp2)
    } else {
        (column_dot(Ghost(p), c_table, f, y, u), column_dot_mirror(Ghost(p), c_table, f, y, u))
    }
}

/// What coefficient column `u` adds to the samples at `(x, y)` and `(x, 7 - y)`.
fn quad_terms(
    Ghost(p): Ghost<Precision>,
    c_table: &[i128; 64],
    f: &[i32],
    x: usize,
    y: usize,
    u: usize,
    shared: bool,
) -> (r: (i128, i128))
    requires
        f.len() == 64,
        is_basis_table(c_table@, p),
        x < 8,
        y < 8,
        u < 8,
    ensures
        r.0 == col_prefix(Kernel::Reference(p), f@, x as int, y as int, u as int, 8),
        r.1 == col_prefix(Kernel::Reference(p), f@, x as int, 7 - y, u as int, 8),
        col_prefix(Kernel::Reference(p), f@, 7 - x, y as int, u as int, 8) == if u % 2 == 0 {
            r.0 as int
        } else {
            -r.0
        },
        col_prefix(Kernel::Reference(p), f@, 7 - x, 7 - y, u as int, 8) == if u % 2 == 0 {
            r.1 as int
        } else {
            -r.1
        },
        -0x4_0000_0000_0000_0000_0000 <= r.0 <= 0x4_0000_0000_0000_0000_0000,
        -0x4_0000_0000_0000_0000_0000 <= r.1 <= 0x4_0000_0000_0000_0000_0000,
{
    let (uval1, uval2) = column_sums(Ghost(p), c_table, f, y, u, shared);
    proof {
        lemma_quad_step(
            p,
            f@,
            x as int,
            y as int,
            u as int,
            c_table[x * 8 + u] * uval1,
            c_table[x * 8 + u] * uval2,
        );
    }
    (c_table[x * 8 + u] * uval1, c_table[x * 8 + u] * uval2)
}

/// The two passes, four samples at a time: the samples at `(x, y)`,
/// `(7 - x, y)`, `(x, 7 - y)` and `(7 - x, 7 - y)` are made of the same
/// products. With `shared` the column sums for `y` and `7 - y` come from one
/// set of eight products, without it from sixteen.
fn quad(f: &[i32], shared: bool) -> (r: Vec<u8>)
    requires
        f.len() == 64,
    ensures
        r@ == inverse(Kernel::Reference(Precision::Single), f@),
{
    let ghost p = Precision::Single;
    let ghost k = Kernel::Reference(p);
    let c_table = basis_table(Precision::Single);
    let mut vals: Vec<u8> = vec![0u8; 64];
    let mut i: usize = 0;
    while i < 16
        invariant
            i <= 16,
            f.len() == 64,
            vals.len() == 64,
            p == Precision::Single,
            k == Kernel::Reference(p),
            is_basis_table(c_table@, p),
            forall|j: int|
                0 <= j < 64 && fold4(j / 8) * 4 + fold4(j % 8) < i ==> #[trigger] vals[j] == sample(
                    k,
                    f@,
                    j,
                ),
        decreases 16 - i,
    {
        let x = i % 4;
        let y = i / 4;
        let mut val11: i128 = 0;
        let mut val12: i128 = 0;
        let mut val21: i128 = 0;
        let mut val22: i128 = 0;
        let mut plus_minus: i128 = 1;
        let mut u: usize = 0;
        while u < 8
            invariant
                u <= 8,
                x < 4,
                y < 4,
                f.len() == 64,
                p == Precision::Single,
                k == Kernel::Reference(p),
                is_basis_table(c_table@, p),
                plus_minus == if u % 2 == 0 {
                    1int
                } else {
                    -1int
                },
                val11 == cols_prefix(k, f@, x as int, y as int, u as int),
                val12 == cols_prefix(k, f@, 7 - x, y as int, u as int),
                val21 == cols_prefix(k, f@, x as int, 7 - y, u as int),
                val22 == cols_prefix(k, f@, 7 - x, 7 - y, u as int),
                -u * 0x4_0000_0000_0000_0000_0000 <= val11 <= u * 0x4_0000_0000_0000_0000_0000,
                -u * 0x4_0000_0000_0000_0000_0000 <= val12 <= u * 0x4_0000_0000_0000_0000_0000,
                -u * 0x4_0000_0000_0000_0000_0000 <= val21 <= u * 0x4_0000_0000_0000_0000_0000,
                -u * 0x4_0000_0000_0000_0000_0000 <= val22 <= u * 0x4_0000_0000_0000_0000_0000,
            decreases 8 - u,
        {
            let (t1, t2) = quad_terms(Ghost(p), &c_table, f, x, y, u, shared);
            val11 += t1;
            val21 += t2;
            if plus_minus == 1 {
                val12 += t1;
                val22 += t2;
            } else {
                val12 -= t1;
                val22 -= t2;
            }
            plus_minus = -plus_minus;
            u += 1;
        }
        proof {
            lemma_sum_by_columns(k, f@, x as int, y as int);
            lemma_sum_by_columns(k, f@, 7 - x, y as int);
            lemma_sum_by_columns(k, f@, x as int, 7 - y);
            lemma_sum_by_columns(k, f@, 7 - x, 7 - y);
        }
        let ghost done = vals@;
        put(&mut vals, Ghost(f@), x, y, val11);
        put(&mut vals, Ghost(f@), 7 - x, y, val12);
        put(&mut vals, Ghost(f@), x, 7 - y, val21);
        put(&mut vals, Ghost(f@), 7 - x, 7 - y, val22);
        proof {
            assert forall|j: int| 0 <= j < 64 && fold4(j / 8) * 4 + fold4(j % 8) < i + 1 implies #[trigger] vals[j]
                == sample(k, f@, j) by {
                if fold4(j / 8) * 4 + fold4(j % 8) == i {
                    lemma_quad_cover(j, i as int);
                } else {
                    assert(done[j] == sample(k, f@, j));
                }
            }
        }
        i += 1;
    }
    assert(vals@ =~= inverse(k, f@));
    vals
}

/// The two passes, four samples at a time, the mirrored column sum from
/// products of its own.
pub fn idct8(f: &[i32]) -> (r: Vec<u8>)
    requires
        f.len() == 64,
    ensures
        r@ == inverse(Kernel::Reference(Precision::Single), f@),
{
    quad(f, false)
}

/// The two passes, four samples at a time, both column sums from the sum and
/// the difference of the even and the odd products.
pub fn idct9(f: &[i32]) -> (r: Vec<u8>)
    requires
        f.len() == 64,
    ensures
        r@ == inverse(Kernel::Reference(Precision::Single), f@),
{
    quad(f, true)
}

/// Rows first, then columns: the network of the second pass applied to what
/// the first pass made of the eight coefficient rows gives the weighted sum of
/// the block.
proof fn lemma_rows_first(k: Kernel, n: Network, f: Seq<i32>, x: int, y: int, mid: Seq<int>)
    requires
        f.len() == 64,
        0 <= x < 8,
        0 <= y < 8,
        mid.len() == 8,
        forall|u: int, v: int|
            0 <= u < 8 && 0 <= v < 8 ==> #[trigger] weight(k, x, y, u, v) == matrix(n, x, u) * matrix(
                n,
                y,
                v,
            ),
        forall|v: int| 0 <= v < 8 ==> #[trigger] mid[v] == output(n, x, block_row(f, v)),
    ensures
        output(n, y, mid) == sum(k, f, x, y),
{
    lemma_output_is_dot(n, y, mid);
    assert forall|v: int| 0 <= v < 8 implies #[trigger] mid[v] == dot8(
        matrix_row(n, x),
        block_row(f, v),
    ) by {
        lemma_output_is_dot(n, x, block_row(f, v));
    }
    lemma_rows_then_columns(k, f, x, y, matrix_row(n, x), matrix_row(n, y), mid);
}

/// Columns first, then rows: network `n` applied to what the networks
/// `first(u)` made of the eight coefficient columns gives the weighted sum of
/// the block.
proof fn lemma_columns_first(
    k: Kernel,
    n: Network,
    first: spec_fn(int) -> Network,
    f: Seq<i32>,
    x: int,
    y: int,
    mid: Seq<int>,
)
    requires
        f.len() == 64,
        0 <= x < 8,
        0 <= y < 8,
        mid.len() == 8,
        forall|u: int, v: int|
            0 <= u < 8 && 0 <= v < 8 ==> #[trigger] weight(k, x, y, u, v) == matrix(n, x, u) * matrix(
                first(u),
                y,
                v,
            ),
        forall|u: int| 0 <= u < 8 ==> #[trigger] mid[u] == output(first(u), y, block_col(f, u)),
    ensures
        output(n, x, mid) == sum(k, f, x, y),
{
    lemma_output_is_dot(n, x, mid);
    let g = |u: int| matrix_row(first(u), y);
    assert forall|u: int| 0 <= u < 8 implies #[trigger] mid[u] == dot8(g(u), block_col(f, u)) by {
        lemma_output_is_dot(first(u), y, block_col(f, u));
    }
    lemma_columns_then_rows(k, f, x, y, matrix_row(n, x), g, mid);
}

/// The Loeffler-Ligtenberg-Moschytz inverse transform: the butterfly over the
/// eight coefficient rows, then over the eight columns of what that gave.
pub fn llm_idct(f: &[i32]) -> (r: Vec<u8>)
    requires
        f.len() == 64,
    ensures
        r@ == inverse(Kernel::Llm, f@),
{
    let w = widen(f);
    let mid = rows_pass(Network::Llm, &w);
    let nets = [Network::Llm; 8];
    let sums = columns_pass(&nets, &mid);
    let vals = finish(&sums, 0x8_0000_0000_0000_0000_0000);
    proof {
        assert forall|k: int| 0 <= k < 64 implies #[trigger] sums[k] == sum(
            Kernel::Llm,
            f@,
            k % 8,
            k / 8,
        ) by {
            let x = k % 8;
            let y = k / 8;
            let column = col8(ints(mid@), x);
            assert forall|v: int| 0 <= v < 8 implies #[trigger] column[v] == output(
                Network::Llm,
                x,
                block_row(f@, v),
            ) by {
                assert(row8(ints(w@), v) =~= block_row(f@, v));
                assert(column[v] == mid[v * 8 + x]);
            }
            lemma_rows_first(Kernel::Llm, Network::Llm, f@, x, y, column);
        }
        assert(vals@ =~= inverse(Kernel::Llm, f@));
    }
    vals
}

/// Columns first through the networks `nets`, then rows through `second`.
fn columns_then_rows(
    Ghost(k): Ghost<Kernel>,
    nets: &[Network; 8],
    second: Network,
    d: i128,
    f: &[i32],
) -> (r: Vec<u8>)
    requires
        f.len() == 64,
        d == divisor(k),
        d > 0,
        forall|x: int, y: int, u: int, v: int|
            0 <= x < 8 && 0 <= y < 8 && 0 <= u < 8 && 0 <= v < 8 ==> #[trigger] weight(k, x, y, u, v)
                == matrix(second, x, u) * matrix(nets[u], y, v),
    ensures
        r@ == inverse(k, f@),
{
    let w = widen(f);
    let mid = columns_pass(nets, &w);
    let sums = rows_pass(second, &mid);
    let vals = finish(&sums, d);
    proof {
        let first = |u: int| nets[u];
        assert forall|n: int| 0 <= n < 64 implies #[trigger] sums[n] == sum(k, f@, n % 8, n / 8) by {
            let x = n % 8;
            let y = n / 8;
            let row = row8(ints(mid@), y);
            assert forall|u: int| 0 <= u < 8 implies #[trigger] row[u] == output(
                first(u),
                y,
                block_col(f@, u),
            ) by {
                assert(col8(ints(w@), u) =~= block_col(f@, u));
                assert(row[u] == mid[y * 8 + u]);
            }
            lemma_columns_first(k, second, first, f@, x, y, row);
        }
        assert(vals@ =~= inverse(k, f@));
    }
    vals
}

/// The Arai-Agui-Nakajima inverse transform with 20-bit constants: the
/// pre-scaled butterfly over the eight coefficient columns, then over the
/// eight rows of what that gave.
pub fn fast_idct(f: &[i32]) -> (r: Vec<u8>)
    requires
        f.len() == 64,
    ensures
        r@ == inverse(Kernel::Aan, f@),
{
    let nets = [Network::Aan; 8];
    columns_then_rows(Ghost(Kernel::Aan), &nets, Network::Aan, 0x1_0000_0000_0000_0000_0000, f)
}

/// The Arai-Agui-Nakajima inverse transform with 22-bit constants.
pub fn fast_idct_f64(f: &[i32]) -> (r: Vec<u8>)
    requires
        f.len() == 64,
    ensures
        r@ == inverse(Kernel::AanDouble, f@),
{
    let nets = [Network::AanDouble; 8];
    columns_then_rows(
        Ghost(Kernel::AanDouble),
        &nets,
        Network::AanDouble,
        0x100_0000_0000_0000_0000_0000,
        f,
    )
}

/// The AP-922 inverse transform: the first pass over the eight coefficient
/// columns, each through the network of its group, then the second pass over
/// the eight rows of what that gave.
pub fn ap922_idct(f: &[i32]) -> (r: Vec<u8>)
    requires
        f.len() == 64,
    ensures
        r@ == inverse(Kernel::Ap922, f@),
{
    let nets = [
        first_pass_of(0),
        first_pass_of(1),
        first_pass_of(2),
        first_pass_of(3),
        first_pass_of(4),
        first_pass_of(5),
        first_pass_of(6),
        first_pass_of(7),
    ];
    columns_then_rows(Ghost(Kernel::Ap922), &nets, Network::Ap922, 0x1000_0000_0000_0000, f)
}

/// The inverse transform of kernel `k`, by the transform that computes it.
pub fn inverse_transform(k: Kernel, f: &[i32]) -> (r: Vec<u8>)
    requires
        is_inverse(k),
        f.len() == 64,
    ensures
        r@ == inverse(k, f@),
{
    match k {
        Kernel::Reference(Precision::Coarse) => idct5(f),
        Kernel::Reference(Precision::Single) => idct(f),
        Kernel::Reference(Precision::Double) => idct_f64(f),
        Kernel::Llm => llm_idct(f),
        Kernel::Aan => fast_idct(f),
        Kernel::AanDouble => fast_idct_f64(f),
        Kernel::Ap922 => ap922_idct(f),
        Kernel::Forward(_) => Vec::new(),
        Kernel::LlmForward => Vec::new(),
    }
}

/// The block as text: eight lines of eight samples, each sample padded on the
/// left to three characters, a space between neighbours.
pub fn print_vec(f: &[u8]) -> (r: String)
    requires
        f.len() == 64,
    ensures
        r@ == lines(f@, 8),
{
    let mut text = String::new();
    let mut i: usize = 0;
    while i < 8
        invariant
            i <= 8,
            f.len() == 64,
            text@ == lines(f@, i as int),
        decreases 8 - i,
    {
        push_line(&mut text, f, i);
        i += 1;
    }
    text
}

} // verus!
