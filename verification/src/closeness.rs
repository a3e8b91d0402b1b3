//! How far apart two kernels can be: where their weights agree to within a
//! tolerance, their sums agree to within that tolerance times the total
//! magnitude of the inputs.
use crate::fixed::lemma_sample_near;
use crate::kernel::{divisor, row_prefix, rows_prefix, sample, sum, term, weight, Kernel};
use crate::linear::{lemma_mul_bound, lemma_mul_split};
use vstd::prelude::*;

verus! {

/// The magnitude of a number.
pub open spec fn abs(v: int) -> int {
    if v < 0 {
        -v
    } else {
        v
    }
}

/// The magnitudes of the inputs `u < n` of row `v`, added up.
pub open spec fn row_magnitude(f: Seq<i32>, v: int, n: int) -> int
    decreases n,
{
    if n <= 0 {
        0
    } else {
        row_magnitude(f, v, n - 1) + abs(f[v * 8 + n - 1] as int)
    }
}

/// The magnitudes of the inputs of the first `n` rows, added up.
pub open spec fn magnitude_prefix(f: Seq<i32>, n: int) -> int
    decreases n,
{
    if n <= 0 {
        0
    } else {
        magnitude_prefix(f, n - 1) + row_magnitude(f, n - 1, 8)
    }
}

/// The magnitudes of all 64 inputs of a block, added up.
pub open spec fn magnitude(f: Seq<i32>) -> int {
    magnitude_prefix(f, 8)
}

/// Kernel `ka` at scale `da` and kernel `kb` at scale `db` give input
/// `(u, v)` of output `(x, y)` weights that agree to within `e`, both brought
/// to the scale `da * db`.
pub open spec fn weights_within(ka: Kernel, da: int, kb: Kernel, db: int, x: int, y: int, e: int) -> bool {
    forall|u: int, v: int|
        0 <= u < 8 && 0 <= v < 8 ==> -e <= #[trigger] weight(ka, x, y, u, v) * db - weight(
            kb,
            x,
            y,
            u,
            v,
        ) * da <= e
}

/// A magnitude is not negative.
pub proof fn lemma_row_magnitude_nonnegative(f: Seq<i32>, v: int, n: int)
    ensures
        row_magnitude(f, v, n) >= 0,
    decreases n,
{
    if n > 0 {
        lemma_row_magnitude_nonnegative(f, v, n - 1);
    }
}

/// A magnitude is not negative.
pub proof fn lemma_magnitude_nonnegative(f: Seq<i32>, n: int)
    ensures
        magnitude_prefix(f, n) >= 0,
    decreases n,
{
    if n > 0 {
        lemma_magnitude_nonnegative(f, n - 1);
        lemma_row_magnitude_nonnegative(f, n - 1, 8);
    }
}

/// One step of the comparison: a term added to both sums moves their
/// difference by at most the tolerance times the magnitude of the input.
proof fn lemma_close_step(
    sa: int,
    sb: int,
    wa: int,
    wb: int,
    c: int,
    da: int,
    db: int,
    e: int,
    m: int,
    em: int,
)
    requires
        -e <= wa * db - wb * da <= e,
        em == e * m,
        -em <= sa * db - sb * da <= em,
    ensures
        -(e * (m + abs(c))) <= (sa + wa * c) * db - (sb + wb * c) * da <= e * (m + abs(c)),
{
    let t = wa * db - wb * da;
    let ac = abs(c);
    assert((wa * c) * db - (wb * c) * da == t * c) by (nonlinear_arith)
        requires
            t == wa * db - wb * da,
    ;
    lemma_mul_bound(t, c, e, ac);
    assert((sa + wa * c) * db == sa * db + (wa * c) * db) by (nonlinear_arith);
    assert((sb + wb * c) * da == sb * da + (wb * c) * da) by (nonlinear_arith);
    lemma_mul_split(e, m, ac);
}

/// The sums of one row under two kernels differ by at most the tolerance
/// times the magnitude of the row.
pub proof fn lemma_row_close(
    ka: Kernel,
    da: int,
    kb: Kernel,
    db: int,
    f: Seq<i32>,
    x: int,
    y: int,
    v: int,
    n: int,
    e: int,
)
    requires
        0 <= v < 8,
        0 <= n <= 8,
        weights_within(ka, da, kb, db, x, y, e),
    ensures
        -(e * row_magnitude(f, v, n)) <= row_prefix(ka, f, x, y, v, n) * db - row_prefix(
            kb,
            f,
            x,
            y,
            v,
            n,
        ) * da <= e * row_magnitude(f, v, n),
    decreases n,
{
    if n <= 0 {
        assert(e * 0 == 0) by (nonlinear_arith);
        assert(0 * db == 0 && 0 * da == 0) by (nonlinear_arith);
    } else {
        lemma_row_close(ka, da, kb, db, f, x, y, v, n - 1, e);
        let wa = weight(ka, x, y, n - 1, v);
        let wb = weight(kb, x, y, n - 1, v);
        assert(-e <= wa * db - wb * da <= e);
        lemma_close_step(
            row_prefix(ka, f, x, y, v, n - 1),
            row_prefix(kb, f, x, y, v, n - 1),
            wa,
            wb,
            f[v * 8 + n - 1] as int,
            da,
            db,
            e,
            row_magnitude(f, v, n - 1),
            e * row_magnitude(f, v, n - 1),
        );
    }
}

/// The sums of the first `n` rows under two kernels differ by at most the
/// tolerance times the magnitude of those rows.
pub proof fn lemma_rows_close(
    ka: Kernel,
    da: int,
    kb: Kernel,
    db: int,
    f: Seq<i32>,
    x: int,
    y: int,
    n: int,
    e: int,
)
    requires
        0 <= n <= 8,
        weights_within(ka, da, kb, db, x, y, e),
    ensures
        -(e * magnitude_prefix(f, n)) <= rows_prefix(ka, f, x, y, n) * db - rows_prefix(
            kb,
            f,
            x,
            y,
            n,
        ) * da <= e * magnitude_prefix(f, n),
    decreases n,
{
    if n <= 0 {
        assert(e * 0 == 0) by (nonlinear_arith);
        assert(0 * db == 0 && 0 * da == 0) by (nonlinear_arith);
    } else {
        lemma_rows_close(ka, da, kb, db, f, x, y, n - 1, e);
        lemma_row_close(ka, da, kb, db, f, x, y, n - 1, 8, e);
        let sa = rows_prefix(ka, f, x, y, n - 1);
        let sb = rows_prefix(kb, f, x, y, n - 1);
        let ra = row_prefix(ka, f, x, y, n - 1, 8);
        let rb = row_prefix(kb, f, x, y, n - 1, 8);
        let m = magnitude_prefix(f, n - 1);
        let r = row_magnitude(f, n - 1, 8);
        assert((sa + ra) * db == sa * db + ra * db) by (nonlinear_arith);
        assert((sb + rb) * da == sb * da + rb * da) by (nonlinear_arith);
        lemma_mul_split(e, m, r);
    }
}

/// Where the weights of two kernels agree to within `e` and `e` times the
/// magnitude of the block stays below `t` times the product of the two
/// scales, the sums of the two kernels, each divided by its scale, are less
/// than `t` apart.
pub proof fn lemma_sums_close(
    ka: Kernel,
    kb: Kernel,
    f: Seq<i32>,
    x: int,
    y: int,
    e: int,
    limit: int,
    t: int,
)
    requires
        divisor(ka) > 0,
        divisor(kb) > 0,
        e >= 0,
        t >= 1,
        weights_within(ka, divisor(ka), kb, divisor(kb), x, y, e),
        magnitude(f) <= limit,
        e * limit < t * (divisor(ka) * divisor(kb)),
    ensures
        -(t * (divisor(ka) * divisor(kb))) < sum(ka, f, x, y) * divisor(kb) - sum(kb, f, x, y)
            * divisor(ka) < t * (divisor(ka) * divisor(kb)),
{
    let da = divisor(ka);
    let db = divisor(kb);
    let m = magnitude(f);
    lemma_rows_close(ka, da, kb, db, f, x, y, 8, e);
    lemma_magnitude_nonnegative(f, 8);
    assert(e * m <= e * limit) by (nonlinear_arith)
        requires
            e >= 0,
            m <= limit,
    ;
}

/// Where the weights of two kernels agree to within `e` and `e` times the
/// magnitude of the block stays below `t` times the product of the two
/// scales, the samples of the two kernels differ by at most `t`.
pub proof fn lemma_samples_close(
    ka: Kernel,
    kb: Kernel,
    f: Seq<i32>,
    i: int,
    e: int,
    limit: int,
    t: int,
)
    requires
        0 <= i < 64,
        divisor(ka) > 0,
        divisor(kb) > 0,
        e >= 0,
        t >= 1,
        weights_within(ka, divisor(ka), kb, divisor(kb), i % 8, i / 8, e),
        magnitude(f) <= limit,
        e * limit < t * (divisor(ka) * divisor(kb)),
    ensures
        -t <= sample(ka, f, i) - sample(kb, f, i) <= t,
{
    lemma_sums_close(ka, kb, f, i % 8, i / 8, e, limit, t);
    lemma_sample_near(
        sum(ka, f, i % 8, i / 8),
        divisor(ka),
        sum(kb, f, i % 8, i / 8),
        divisor(kb),
        t,
    );
}

/// A row of numbers of magnitude at most `m` has a magnitude of at most `n * m`.
pub proof fn lemma_row_magnitude_bound(f: Seq<i32>, v: int, n: int, m: int)
    requires
        f.len() == 64,
        0 <= v < 8,
        0 <= n <= 8,
        forall|i: int| 0 <= i < 64 ==> -m <= #[trigger] f[i] <= m,
    ensures
        row_magnitude(f, v, n) <= n * m,
    decreases n,
{
    if n > 0 {
        lemma_row_magnitude_bound(f, v, n - 1, m);
        assert(-m <= f[v * 8 + n - 1] <= m);
        assert((n - 1) * m + m == n * m) by (nonlinear_arith);
    } else {
        assert(0 * m == 0) by (nonlinear_arith);
    }
}

/// A block of numbers of magnitude at most `m` has a magnitude of at most `64 * m`.
pub proof fn lemma_magnitude_bound(f: Seq<i32>, m: int)
    requires
        f.len() == 64,
        forall|i: int| 0 <= i < 64 ==> -m <= #[trigger] f[i] <= m,
    ensures
        magnitude(f) <= 64 * m,
{
    reveal_with_fuel(magnitude_prefix, 9);
    lemma_row_magnitude_bound(f, 0, 8, m);
    lemma_row_magnitude_bound(f, 1, 8, m);
    lemma_row_magnitude_bound(f, 2, 8, m);
    lemma_row_magnitude_bound(f, 3, 8, m);
    lemma_row_magnitude_bound(f, 4, 8, m);
    lemma_row_magnitude_bound(f, 5, 8, m);
    lemma_row_magnitude_bound(f, 6, 8, m);
    lemma_row_magnitude_bound(f, 7, 8, m);
}

} // verus!
