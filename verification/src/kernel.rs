//! What an inverse transform computes: a weighted sum of the 64 coefficients
//! for each output sample, rounded, level shifted and clamped.
use crate::ap922::first_pass;
use crate::basis::{basis, cos16, lemma_basis_bound, norm, unit, Precision};
use crate::butterfly::{matrix, Network};
use crate::fixed::{clamp_coefficient, round_div, sample_of};
use crate::linear::{dot8, lemma_dot8_factor};
use vstd::prelude::*;

verus! {

/// The algorithms, told apart by the weights they give their inputs. For an
/// inverse transform `(x, y)` is a sample and `(u, v)` a coefficient; for a
/// forward transform `(x, y)` is a coefficient and `(u, v)` a sample.
#[derive(Clone, Copy, PartialEq, Eq, Structural, Debug)]
pub enum Kernel {
    /// The defining double sum over the cosine basis.
    Reference(Precision),
    /// The Loeffler-Ligtenberg-Moschytz butterfly in both directions.
    Llm,
    /// The Arai-Agui-Nakajima butterfly in both directions.
    Aan,
    /// The same with wider constants.
    AanDouble,
    /// AP-922: a first pass that depends on the coefficient column, and a second pass.
    Ap922,
    /// The defining double sum of the forward transform.
    Forward(Precision),
    /// The forward Loeffler-Ligtenberg-Moschytz butterfly in both directions.
    LlmForward,
}

/// The kernels of the inverse transforms.
pub open spec fn is_inverse(k: Kernel) -> bool {
    k != Kernel::LlmForward && !(k is Forward)
}

/// The weight of input `(u, v)` in output `(x, y)`.
pub open spec fn weight(k: Kernel, x: int, y: int, u: int, v: int) -> int {
    match k {
        Kernel::Reference(p) => basis(p, x, u) * basis(p, y, v),
        Kernel::Llm => matrix(Network::Llm, x, u) * matrix(Network::Llm, y, v),
        Kernel::Aan => matrix(Network::Aan, x, u) * matrix(Network::Aan, y, v),
        Kernel::AanDouble => matrix(Network::AanDouble, x, u) * matrix(Network::AanDouble, y, v),
        Kernel::Ap922 => matrix(Network::Ap922, x, u) * matrix(first_pass(u), y, v),
        Kernel::Forward(p) => (norm(p, x) * norm(p, y)) * (cos16(p, (2 * u + 1) * x) * cos16(
            p,
            (2 * v + 1) * y,
        )),
        Kernel::LlmForward => matrix(Network::LlmForward, x, u) * matrix(Network::LlmForward, y, v),
    }
}

/// The scale of the weighted sum: the sum divided by this is the sample
/// before the level shift, or the coefficient.
pub open spec fn divisor(k: Kernel) -> int {
    match k {
        Kernel::Reference(p) => 4 * (unit(p) * unit(p)),
        Kernel::Llm => 0x8_0000_0000_0000_0000_0000,
        Kernel::Aan => 0x1_0000_0000_0000_0000_0000,
        Kernel::AanDouble => 0x100_0000_0000_0000_0000_0000,
        Kernel::Ap922 => 0x1000_0000_0000_0000,
        Kernel::Forward(p) => 4 * ((unit(p) * unit(p)) * (unit(p) * unit(p))),
        Kernel::LlmForward => 0x8_0000_0000_0000_0000_0000,
    }
}

/// The contribution of input `(u, v)` to output `(x, y)`.
pub open spec fn term(k: Kernel, f: Seq<i32>, x: int, y: int, u: int, v: int) -> int {
    weight(k, x, y, u, v) * f[v * 8 + u]
}

/// The terms of input row `v` for the columns `u < n`, added up.
pub open spec fn row_prefix(k: Kernel, f: Seq<i32>, x: int, y: int, v: int, n: int) -> int
    decreases n,
{
    if n <= 0 {
        0
    } else {
        row_prefix(k, f, x, y, v, n - 1) + term(k, f, x, y, n - 1, v)
    }
}

/// The terms of input column `u` for the rows `v < n`, added up.
pub open spec fn col_prefix(k: Kernel, f: Seq<i32>, x: int, y: int, u: int, n: int) -> int
    decreases n,
{
    if n <= 0 {
        0
    } else {
        col_prefix(k, f, x, y, u, n - 1) + term(k, f, x, y, u, n - 1)
    }
}

/// The first `n` input rows, added up.
pub open spec fn rows_prefix(k: Kernel, f: Seq<i32>, x: int, y: int, n: int) -> int
    decreases n,
{
    if n <= 0 {
        0
    } else {
        rows_prefix(k, f, x, y, n - 1) + row_prefix(k, f, x, y, n - 1, 8)
    }
}

/// The first `n` input columns, added up.
pub open spec fn cols_prefix(k: Kernel, f: Seq<i32>, x: int, y: int, n: int) -> int
    decreases n,
{
    if n <= 0 {
        0
    } else {
        cols_prefix(k, f, x, y, n - 1) + col_prefix(k, f, x, y, n - 1, 8)
    }
}

/// The weighted sum of all 64 inputs for output `(x, y)`.
pub open spec fn sum(k: Kernel, f: Seq<i32>, x: int, y: int) -> int {
    rows_prefix(k, f, x, y, 8)
}

/// Output sample `i` (row-major) of the inverse transform of `f`.
pub open spec fn sample(k: Kernel, f: Seq<i32>, i: int) -> int {
    sample_of(sum(k, f, i % 8, i / 8), divisor(k))
}

/// The inverse transform of the coefficient block `f` under kernel `k`.
pub open spec fn inverse(k: Kernel, f: Seq<i32>) -> Seq<u8> {
    Seq::new(64, |i: int| sample(k, f, i) as u8)
}

/// The samples with the level shift taken off: each less 128.
pub open spec fn centered(s: Seq<u8>) -> Seq<i32> {
    Seq::new(s.len(), |i: int| (s[i] - 128) as i32)
}

/// The forward transform of the sample block `s` under kernel `k`: entry
/// `v * 8 + u` is coefficient `(u, v)` times `divisor(k)`.
pub open spec fn forward(k: Kernel, s: Seq<u8>) -> Seq<int> {
    Seq::new(64, |i: int| sum(k, centered(s), i % 8, i / 8))
}

/// The coefficients of the sample block `s` under the forward kernel `k`,
/// rounded to integers: each sum divided by the scale of the kernel, rounded
/// to nearest with a tie away from zero.
pub open spec fn rounded(k: Kernel, s: Seq<u8>) -> Seq<i32> {
    Seq::new(64, |i: int| clamp_coefficient(round_div(forward(k, s)[i], divisor(k))) as i32)
}

/// A row written out term by term.
pub proof fn lemma_row_terms(k: Kernel, f: Seq<i32>, x: int, y: int, v: int)
    ensures
        row_prefix(k, f, x, y, v, 8) == term(k, f, x, y, 0, v) + term(k, f, x, y, 1, v) + term(
            k,
            f,
            x,
            y,
            2,
            v,
        ) + term(k, f, x, y, 3, v) + term(k, f, x, y, 4, v) + term(k, f, x, y, 5, v) + term(
            k,
            f,
            x,
            y,
            6,
            v,
        ) + term(k, f, x, y, 7, v),
{
    reveal_with_fuel(row_prefix, 9);
}

/// A column written out term by term.
pub proof fn lemma_col_terms(k: Kernel, f: Seq<i32>, x: int, y: int, u: int)
    ensures
        col_prefix(k, f, x, y, u, 8) == term(k, f, x, y, u, 0) + term(k, f, x, y, u, 1) + term(
            k,
            f,
            x,
            y,
            u,
            2,
        ) + term(k, f, x, y, u, 3) + term(k, f, x, y, u, 4) + term(k, f, x, y, u, 5) + term(
            k,
            f,
            x,
            y,
            u,
            6,
        ) + term(k, f, x, y, u, 7),
{
    reveal_with_fuel(col_prefix, 9);
}

/// Adding up by columns gives the same sum as adding up by rows.
pub proof fn lemma_sum_by_columns(k: Kernel, f: Seq<i32>, x: int, y: int)
    ensures
        cols_prefix(k, f, x, y, 8) == sum(k, f, x, y),
{
    reveal_with_fuel(rows_prefix, 9);
    reveal_with_fuel(cols_prefix, 9);
    lemma_row_terms(k, f, x, y, 0);
    lemma_row_terms(k, f, x, y, 1);
    lemma_row_terms(k, f, x, y, 2);
    lemma_row_terms(k, f, x, y, 3);
    lemma_row_terms(k, f, x, y, 4);
    lemma_row_terms(k, f, x, y, 5);
    lemma_row_terms(k, f, x, y, 6);
    lemma_row_terms(k, f, x, y, 7);
    lemma_col_terms(k, f, x, y, 0);
    lemma_col_terms(k, f, x, y, 1);
    lemma_col_terms(k, f, x, y, 2);
    lemma_col_terms(k, f, x, y, 3);
    lemma_col_terms(k, f, x, y, 4);
    lemma_col_terms(k, f, x, y, 5);
    lemma_col_terms(k, f, x, y, 6);
    lemma_col_terms(k, f, x, y, 7);
}

/// A term of the reference kernel, as the product a loop forms, and its size.
pub proof fn lemma_reference_term(p: Precision, f: Seq<i32>, x: int, y: int, u: int, v: int)
    requires
        f.len() == 64,
        0 <= u < 8,
        0 <= v < 8,
    ensures
        term(Kernel::Reference(p), f, x, y, u, v) == (f[v * 8 + u] * basis(p, x, u)) * basis(p, y, v),
        -0x8000_0000 * (unit(p) * unit(p)) <= term(Kernel::Reference(p), f, x, y, u, v)
            <= 0x8000_0000 * (unit(p) * unit(p)),
        -0x8000_0000 * unit(p) <= f[v * 8 + u] * basis(p, x, u) <= 0x8000_0000 * unit(p),
{
    let c = f[v * 8 + u] as int;
    let a = basis(p, x, u);
    let b = basis(p, y, v);
    let s = unit(p);
    lemma_basis_bound(p, x, u);
    lemma_basis_bound(p, y, v);
    assert((a * b) * c == (c * a) * b && -0x8000_0000 * (s * s) <= (a * b) * c <= 0x8000_0000 * (s * s)
        && -0x8000_0000 * s <= c * a <= 0x8000_0000 * s) by (nonlinear_arith)
        requires
            -0x8000_0000 <= c <= 0x8000_0000,
            -s <= a <= s,
            -s <= b <= s,
            s > 0,
    ;
}

/// Coefficient row `v` of the block.
pub open spec fn block_row(f: Seq<i32>, v: int) -> Seq<int> {
    Seq::new(8, |u: int| f[v * 8 + u] as int)
}

/// Coefficient column `u` of the block.
pub open spec fn block_col(f: Seq<i32>, u: int) -> Seq<int> {
    Seq::new(8, |v: int| f[v * 8 + u] as int)
}

/// Where the weights of a coefficient row share the factor `b`, the row is
/// `b` times the row weighted by what is left.
pub proof fn lemma_row_factored(k: Kernel, f: Seq<i32>, x: int, y: int, v: int, a: Seq<int>, b: int)
    requires
        a.len() == 8,
        forall|u: int| 0 <= u < 8 ==> #[trigger] weight(k, x, y, u, v) == a[u] * b,
    ensures
        row_prefix(k, f, x, y, v, 8) == b * dot8(a, block_row(f, v)),
{
    lemma_row_terms(k, f, x, y, v);
    lemma_dot8_factor(a, block_row(f, v), b);
}

/// Where the weights of a coefficient column share the factor `b`, the column is
/// `b` times the column weighted by what is left.
pub proof fn lemma_col_factored(k: Kernel, f: Seq<i32>, x: int, y: int, u: int, a: Seq<int>, b: int)
    requires
        a.len() == 8,
        forall|v: int| 0 <= v < 8 ==> #[trigger] weight(k, x, y, u, v) == b * a[v],
    ensures
        col_prefix(k, f, x, y, u, 8) == b * dot8(a, block_col(f, u)),
{
    lemma_col_terms(k, f, x, y, u);
    lemma_dot8_factor(a, block_col(f, u), b);
}

/// The rows of a block added up one by one.
pub proof fn lemma_sum_rows(k: Kernel, f: Seq<i32>, x: int, y: int)
    ensures
        sum(k, f, x, y) == row_prefix(k, f, x, y, 0, 8) + row_prefix(k, f, x, y, 1, 8) + row_prefix(
            k,
            f,
            x,
            y,
            2,
            8,
        ) + row_prefix(k, f, x, y, 3, 8) + row_prefix(k, f, x, y, 4, 8) + row_prefix(k, f, x, y, 5, 8)
            + row_prefix(k, f, x, y, 6, 8) + row_prefix(k, f, x, y, 7, 8),
{
    reveal_with_fuel(rows_prefix, 9);
}

/// The columns of a block added up one by one.
pub proof fn lemma_sum_cols(k: Kernel, f: Seq<i32>, x: int, y: int)
    ensures
        sum(k, f, x, y) == col_prefix(k, f, x, y, 0, 8) + col_prefix(k, f, x, y, 1, 8) + col_prefix(
            k,
            f,
            x,
            y,
            2,
            8,
        ) + col_prefix(k, f, x, y, 3, 8) + col_prefix(k, f, x, y, 4, 8) + col_prefix(k, f, x, y, 5, 8)
            + col_prefix(k, f, x, y, 6, 8) + col_prefix(k, f, x, y, 7, 8),
{
    lemma_sum_by_columns(k, f, x, y);
    reveal_with_fuel(cols_prefix, 9);
}

/// Rows first: where each weight is a factor `a[u]` for the column times a
/// factor `b[v]` for the row, weighting the rows by `a` and what that gives by
/// `b` yields the weighted sum of the block.
pub proof fn lemma_rows_then_columns(
    k: Kernel,
    f: Seq<i32>,
    x: int,
    y: int,
    a: Seq<int>,
    b: Seq<int>,
    mid: Seq<int>,
)
    requires
        a.len() == 8,
        b.len() == 8,
        mid.len() == 8,
        forall|u: int, v: int|
            0 <= u < 8 && 0 <= v < 8 ==> #[trigger] weight(k, x, y, u, v) == a[u] * b[v],
        forall|v: int| 0 <= v < 8 ==> #[trigger] mid[v] == dot8(a, block_row(f, v)),
    ensures
        dot8(b, mid) == sum(k, f, x, y),
{
    assert forall|v: int| 0 <= v < 8 implies b[v] * #[trigger] mid[v] == row_prefix(k, f, x, y, v, 8) by {
        lemma_row_factored(k, f, x, y, v, a, b[v]);
    }
    lemma_sum_rows(k, f, x, y);
}

/// Columns first: where each weight is a factor `p[u]` times a factor
/// `g(u)[v]`, weighting column `u` by `g(u)` and what that gives by `p` yields
/// the weighted sum of the block.
pub proof fn lemma_columns_then_rows(
    k: Kernel,
    f: Seq<i32>,
    x: int,
    y: int,
    p: Seq<int>,
    g: spec_fn(int) -> Seq<int>,
    mid: Seq<int>,
)
    requires
        p.len() == 8,
        mid.len() == 8,
        forall|u: int| 0 <= u < 8 ==> (#[trigger] g(u)).len() == 8,
        forall|u: int, v: int|
            0 <= u < 8 && 0 <= v < 8 ==> #[trigger] weight(k, x, y, u, v) == p[u] * g(u)[v],
        forall|u: int| 0 <= u < 8 ==> #[trigger] mid[u] == dot8(g(u), block_col(f, u)),
    ensures
        dot8(p, mid) == sum(k, f, x, y),
{
    assert forall|u: int| 0 <= u < 8 implies p[u] * #[trigger] mid[u] == col_prefix(k, f, x, y, u, 8) by {
        assert(g(u).len() == 8);
        lemma_col_factored(k, f, x, y, u, g(u), p[u]);
    }
    lemma_sum_cols(k, f, x, y);
}

} // verus!
