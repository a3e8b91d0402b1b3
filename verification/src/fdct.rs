//! The forward transforms: one 8x8 sample block in, one 8x8 block of
//! coefficients out. A coefficient comes out as an integer with a fixed
//! number of fractional bits; nothing is rounded away.
use crate::basis::{
    cosine_at, cosine_table, is_cosine_table, norm_at, unit, unit_of, Precision,
};
use crate::butterfly::{lemma_output_is_dot, matrix_row, Network};
use crate::fixed::{clamp_coefficient, round_div, to_coefficient};
use crate::kernel::{
    block_col, centered, forward, lemma_columns_then_rows, rounded, row_prefix, rows_prefix, sum,
    term, Kernel,
};
use crate::linear::{col8, dot8, ints, lemma_mul_bound, row8};
use crate::passes::{columns_pass, rows_pass, within};
use vstd::prelude::*;

verus! {

/// The scale of the coefficients `fdct` returns: 2^82.
pub const FDCT_SCALE: i128 = 0x4_0000_0000_0000_0000_0000;

/// The scale of the coefficients `llm_fdct` returns: 2^83.
pub const LLM_FDCT_SCALE: i128 = 0x8_0000_0000_0000_0000_0000;

/// The samples with the level shift taken off, widened for the arithmetic.
fn center(f: &[u8]) -> (w: [i128; 64])
    requires
        f.len() == 64,
    ensures
        forall|k: int| 0 <= k < 64 ==> #[trigger] w[k] == centered(f@)[k],
        within(w@, 0x8000_0000),
{
    let mut w: [i128; 64] = [0; 64];
    let mut k: usize = 0;
    while k < 64
        invariant
            k <= 64,
            f.len() == 64,
            forall|n: int| 0 <= n < k ==> #[trigger] w[n] == centered(f@)[n],
            forall|n: int| 0 <= n < 64 ==> -128 <= #[trigger] w[n] <= 127,
        decreases 64 - k,
    {
        w[k] = f[k] as i128 - 128;
        k += 1;
    }
    w
}

/// One term of the defining formula of the forward transform.
fn forward_term(
    Ghost(p): Ghost<Precision>,
    cos: &[i128; 32],
    one: i128,
    f: &[u8],
    u: usize,
    v: usize,
    x: usize,
    y: usize,
) -> (t: i128)
    requires
        f.len() == 64,
        is_cosine_table(cos@, p),
        one == unit(p),
        x < 8,
        y < 8,
        u < 8,
        v < 8,
    ensures
        t == term(Kernel::Forward(p), centered(f@), u as int, v as int, x as int, y as int),
        -0x80_0000_0000_0000_0000_0000_0000 <= t <= 0x80_0000_0000_0000_0000_0000_0000,
{
    let cu = norm_at(Ghost(p), cos, one, u);
    let cv = norm_at(Ghost(p), cos, one, v);
    let cx = cosine_at(Ghost(p), cos, x, u);
    let cy = cosine_at(Ghost(p), cos, y, v);
    let s = f[y * 8 + x] as i128 - 128;
    proof {
        crate::basis::lemma_cos16_bound(p, (2 * x + 1) * u);
        crate::basis::lemma_cos16_bound(p, (2 * y + 1) * v);
        lemma_mul_bound(cu as int, cv as int, 0x40_0000, 0x40_0000);
        lemma_mul_bound(cx as int, cy as int, 0x40_0000, 0x40_0000);
        lemma_mul_bound(cu * cv, cx * cy, 0x1000_0000_0000, 0x1000_0000_0000);
        lemma_mul_bound((cu * cv) * (cx * cy), s as int, 0x100_0000_0000_0000_0000_0000, 128);
        assert(centered(f@)[y * 8 + x] == s);
    }
    (cu * cv) * (cx * cy) * s
}

/// The forward transform by its defining formula with 20-bit constants: for
/// each coefficient the sum over all samples, less 128 each, of
/// `C(u) * C(v) * cos((2x + 1) * u * pi / 16) * cos((2y + 1) * v * pi / 16)`
/// times the sample. The coefficients come out times `FDCT_SCALE`.
pub fn fdct(f: &[u8]) -> (r: Vec<i128>)
    requires
        f.len() == 64,
    ensures
        r.len() == 64,
        forall|i: int|
            0 <= i < 64 ==> #[trigger] r[i] == forward(Kernel::Forward(Precision::Single), f@)[i],
{
    let ghost p = Precision::Single;
    let ghost k = Kernel::Forward(p);
    let ghost c = centered(f@);
    let cos = cosine_table(Precision::Single);
    let one = unit_of(Precision::Single);
    let mut vals: Vec<i128> = Vec::new();
    let mut i: usize = 0;
    while i < 64
        invariant
            i <= 64,
            f.len() == 64,
            vals.len() == i,
            p == Precision::Single,
            k == Kernel::Forward(p),
            c == centered(f@),
            is_cosine_table(cos@, p),
            one == unit(p),
            forall|j: int| 0 <= j < i ==> #[trigger] vals[j] == sum(k, c, j % 8, j / 8),
        decreases 64 - i,
    {
        let u = i % 8;
        let v = i / 8;
        let mut val: i128 = 0;
        let mut y: usize = 0;
        while y < 8
            invariant
                y <= 8,
                u < 8,
                v < 8,
                f.len() == 64,
                k == Kernel::Forward(p),
                c == centered(f@),
                is_cosine_table(cos@, p),
                one == unit(p),
                val == rows_prefix(k, c, u as int, v as int, y as int),
                -(8 * y) * 0x80_0000_0000_0000_0000_0000_0000 <= val <= (8 * y)
                    * 0x80_0000_0000_0000_0000_0000_0000,
            decreases 8 - y,
        {
            let ghost before = val;
            let mut x: usize = 0;
            while x < 8
                invariant
                    x <= 8,
                    y < 8,
                    u < 8,
                    v < 8,
                    f.len() == 64,
                    k == Kernel::Forward(p),
                    c == centered(f@),
                    is_cosine_table(cos@, p),
                    one == unit(p),
                    before == rows_prefix(k, c, u as int, v as int, y as int),
                    val == before + row_prefix(k, c, u as int, v as int, y as int, x as int),
                    -(8 * y + x) * 0x80_0000_0000_0000_0000_0000_0000 <= val <= (8 * y + x)
                        * 0x80_0000_0000_0000_0000_0000_0000,
                decreases 8 - x,
            {
                let t = forward_term(Ghost(p), &cos, one, f, u, v, x, y);
                val += t;
                x += 1;
            }
            y += 1;
        }
        vals.push(val);
        i += 1;
    }
    vals
}

/// The forward Loeffler-Ligtenberg-Moschytz transform: the forward butterfly
/// over the eight sample columns, then over the eight rows of what that gave.
/// The coefficients come out times `LLM_FDCT_SCALE`.
pub fn llm_fdct(f: &[u8]) -> (r: Vec<i128>)
    requires
        f.len() == 64,
    ensures
        r.len() == 64,
        forall|i: int| 0 <= i < 64 ==> #[trigger] r[i] == forward(Kernel::LlmForward, f@)[i],
{
    let ghost k = Kernel::LlmForward;
    let ghost n = Network::LlmForward;
    let ghost c = centered(f@);
    let w = center(f);
    let nets = [Network::LlmForward; 8];
    let mid = columns_pass(&nets, &w);
    let zz = rows_pass(Network::LlmForward, &mid);
    proof {
        assert forall|i: int| 0 <= i < 64 implies #[trigger] zz[i] == sum(k, c, i % 8, i / 8) by {
            let x = i % 8;
            let y = i / 8;
            let row = row8(ints(mid@), y);
            let g = |u: int| matrix_row(n, y);
            assert forall|u: int| 0 <= u < 8 implies #[trigger] row[u] == dot8(g(u), block_col(c, u)) by {
                assert(col8(ints(w@), u) =~= block_col(c, u));
                assert(row[u] == mid[y * 8 + u]);
                lemma_output_is_dot(n, y, block_col(c, u));
            }
            lemma_output_is_dot(n, x, row);
            lemma_columns_then_rows(k, c, x, y, matrix_row(n, x), g, row);
        }
    }
    let mut vals: Vec<i128> = Vec::new();
    let mut i: usize = 0;
    while i < 64
        invariant
            i <= 64,
            vals.len() == i,
            forall|j: int| 0 <= j < i ==> #[trigger] vals[j] == zz[j],
        decreases 64 - i,
    {
        vals.push(zz[i]);
        i += 1;
    }
    vals
}

/// The coefficients rounded to integers: each divided by `scale`, rounded to
/// nearest with a tie away from zero, and limited to 32 bits.
pub fn round_coefficients(scaled: &[i128], scale: i128) -> (r: Vec<i32>)
    requires
        scale > 0,
    ensures
        r.len() == scaled.len(),
        forall|i: int|
            0 <= i < scaled.len() ==> #[trigger] r[i] == clamp_coefficient(
                round_div(scaled[i] as int, scale as int),
            ),
{
    let mut vals: Vec<i32> = Vec::new();
    let mut i: usize = 0;
    while i < scaled.len()
        invariant
            i <= scaled.len(),
            scale > 0,
            vals.len() == i,
            forall|j: int|
                0 <= j < i ==> #[trigger] vals[j] == clamp_coefficient(
                    round_div(scaled[j] as int, scale as int),
                ),
        decreases scaled.len() - i,
    {
        vals.push(to_coefficient(scaled[i], scale));
        i += 1;
    }
    vals
}

/// The forward transform of a sample block, rounded to integer coefficients:
/// what the inverse transforms take.
pub fn coefficients(f: &[u8]) -> (r: Vec<i32>)
    requires
        f.len() == 64,
    ensures
        r@ == rounded(Kernel::Forward(Precision::Single), f@),
{
    let scaled = fdct(f);
    let r = round_coefficients(&scaled, FDCT_SCALE);
    proof {
        let one = unit(Precision::Single);
        assert((one * one) * (one * one) == 0x1_0000_0000_0000_0000_0000) by (nonlinear_arith)
            requires
                one == 0x10_0000,
        ;
        assert(r@ =~= rounded(Kernel::Forward(Precision::Single), f@));
    }
    r
}

} // verus!
