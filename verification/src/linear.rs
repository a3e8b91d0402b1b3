//! Weighted sums of eight numbers, and the few facts about products that the
//! proofs of the transforms rest on.
use vstd::prelude::*;

verus! {

/// The sequence of eight with a one at place `u` and zeros elsewhere.
pub open spec fn unit8(u: int) -> Seq<int> {
    Seq::new(8, |i: int| if i == u { 1int } else { 0int })
}

/// The numbers held in a buffer, as mathematical integers.
pub open spec fn ints(a: Seq<i128>) -> Seq<int> {
    Seq::new(a.len(), |i: int| a[i] as int)
}

/// Row `v` of an 8x8 block held in row-major order.
pub open spec fn row8(s: Seq<int>, v: int) -> Seq<int> {
    Seq::new(8, |u: int| s[v * 8 + u])
}

/// Column `u` of an 8x8 block held in row-major order.
pub open spec fn col8(s: Seq<int>, u: int) -> Seq<int> {
    Seq::new(8, |v: int| s[v * 8 + u])
}

/// Eight numbers `c` weighted by eight factors `a` and added up.
pub open spec fn dot8(a: Seq<int>, c: Seq<int>) -> int {
    a[0] * c[0] + a[1] * c[1] + a[2] * c[2] + a[3] * c[3] + a[4] * c[4] + a[5] * c[5] + a[6] * c[6]
        + a[7] * c[7]
}

/// `(a * b) * c`, in either order of the first two, is `b * (a * c)`.
pub proof fn lemma_mul_shift(a: int, b: int, c: int)
    ensures
        (a * b) * c == b * (a * c),
        (b * a) * c == b * (a * c),
{
    assert((a * b) * c == b * (a * c)) by (nonlinear_arith);
    assert((b * a) * c == b * (a * c)) by (nonlinear_arith);
}

/// Multiplication distributes over a sum of two.
pub proof fn lemma_mul_split(b: int, s: int, t: int)
    ensures
        b * (s + t) == b * s + b * t,
{
    assert(b * (s + t) == b * s + b * t) by (nonlinear_arith);
}

/// Negating a factor negates the product.
pub proof fn lemma_mul_negate(a: int, b: int)
    ensures
        (-a) * b == -(a * b),
{
    assert((-a) * b == -(a * b)) by (nonlinear_arith);
}

/// A product is no larger than the product of the bounds of its factors.
pub proof fn lemma_mul_bound(a: int, b: int, ma: int, mb: int)
    requires
        -ma <= a <= ma,
        -mb <= b <= mb,
    ensures
        -(ma * mb) <= a * b <= ma * mb,
{
    assert(-(ma * mb) <= a * b <= ma * mb) by (nonlinear_arith)
        requires
            -ma <= a <= ma,
            -mb <= b <= mb,
    ;
}

/// A common factor moves out of a weighted sum.
pub proof fn lemma_dot8_factor(a: Seq<int>, c: Seq<int>, b: int)
    requires
        a.len() == 8,
        c.len() == 8,
    ensures
        (a[0] * b) * c[0] + (a[1] * b) * c[1] + (a[2] * b) * c[2] + (a[3] * b) * c[3] + (a[4] * b)
            * c[4] + (a[5] * b) * c[5] + (a[6] * b) * c[6] + (a[7] * b) * c[7] == b * dot8(a, c),
        (b * a[0]) * c[0] + (b * a[1]) * c[1] + (b * a[2]) * c[2] + (b * a[3]) * c[3] + (b * a[4])
            * c[4] + (b * a[5]) * c[5] + (b * a[6]) * c[6] + (b * a[7]) * c[7] == b * dot8(a, c),
{
    let t0 = a[0] * c[0];
    let t1 = a[1] * c[1];
    let t2 = a[2] * c[2];
    let t3 = a[3] * c[3];
    let t4 = a[4] * c[4];
    let t5 = a[5] * c[5];
    let t6 = a[6] * c[6];
    let t7 = a[7] * c[7];
    lemma_mul_shift(a[0], b, c[0]);
    lemma_mul_shift(a[1], b, c[1]);
    lemma_mul_shift(a[2], b, c[2]);
    lemma_mul_shift(a[3], b, c[3]);
    lemma_mul_shift(a[4], b, c[4]);
    lemma_mul_shift(a[5], b, c[5]);
    lemma_mul_shift(a[6], b, c[6]);
    lemma_mul_shift(a[7], b, c[7]);
    lemma_mul_split(b, t0, t1);
    lemma_mul_split(b, t0 + t1, t2);
    lemma_mul_split(b, t0 + t1 + t2, t3);
    lemma_mul_split(b, t0 + t1 + t2 + t3, t4);
    lemma_mul_split(b, t0 + t1 + t2 + t3 + t4, t5);
    lemma_mul_split(b, t0 + t1 + t2 + t3 + t4 + t5, t6);
    lemma_mul_split(b, t0 + t1 + t2 + t3 + t4 + t5 + t6, t7);
}

/// A weighted sum of eight is at most eight times the bound `b` of its terms,
/// `b` being the bound of the weights times the bound of the numbers.
pub proof fn lemma_dot8_bound(a: Seq<int>, c: Seq<int>, ma: int, mc: int, b: int)
    requires
        a.len() == 8,
        c.len() == 8,
        forall|i: int| 0 <= i < 8 ==> -ma <= #[trigger] a[i] <= ma,
        forall|i: int| 0 <= i < 8 ==> -mc <= #[trigger] c[i] <= mc,
        b == ma * mc,
    ensures
        -8 * b <= dot8(a, c) <= 8 * b,
{
    lemma_mul_bound(a[0], c[0], ma, mc);
    lemma_mul_bound(a[1], c[1], ma, mc);
    lemma_mul_bound(a[2], c[2], ma, mc);
    lemma_mul_bound(a[3], c[3], ma, mc);
    lemma_mul_bound(a[4], c[4], ma, mc);
    lemma_mul_bound(a[5], c[5], ma, mc);
    lemma_mul_bound(a[6], c[6], ma, mc);
    lemma_mul_bound(a[7], c[7], ma, mc);
}

/// The magnitude of a number.
pub open spec fn magnitude_of(v: int) -> int {
    if v < 0 {
        -v
    } else {
        v
    }
}

/// The magnitudes of eight numbers added up.
pub open spec fn abs_sum8(a: Seq<int>) -> int {
    magnitude_of(a[0]) + magnitude_of(a[1]) + magnitude_of(a[2]) + magnitude_of(a[3])
        + magnitude_of(a[4]) + magnitude_of(a[5]) + magnitude_of(a[6]) + magnitude_of(a[7])
}

/// The sum of two sequences of eight, place by place.
pub open spec fn add8(p: Seq<int>, q: Seq<int>) -> Seq<int> {
    Seq::new(8, |i: int| p[i] + q[i])
}

/// A sequence of eight with every number multiplied by `k`.
pub open spec fn scale8(k: int, p: Seq<int>) -> Seq<int> {
    Seq::new(8, |i: int| k * p[i])
}

/// A weighted sum does not depend on which sequence holds the weights.
pub proof fn lemma_dot8_commutes(a: Seq<int>, c: Seq<int>)
    requires
        a.len() == 8,
        c.len() == 8,
    ensures
        dot8(a, c) == dot8(c, a),
{
    assert(a[0] * c[0] == c[0] * a[0]) by (nonlinear_arith);
    assert(a[1] * c[1] == c[1] * a[1]) by (nonlinear_arith);
    assert(a[2] * c[2] == c[2] * a[2]) by (nonlinear_arith);
    assert(a[3] * c[3] == c[3] * a[3]) by (nonlinear_arith);
    assert(a[4] * c[4] == c[4] * a[4]) by (nonlinear_arith);
    assert(a[5] * c[5] == c[5] * a[5]) by (nonlinear_arith);
    assert(a[6] * c[6] == c[6] * a[6]) by (nonlinear_arith);
    assert(a[7] * c[7] == c[7] * a[7]) by (nonlinear_arith);
}

/// A weighted sum of a sum is the sum of the weighted sums.
pub proof fn lemma_dot8_add(a: Seq<int>, p: Seq<int>, q: Seq<int>)
    requires
        a.len() == 8,
        p.len() == 8,
        q.len() == 8,
    ensures
        dot8(a, add8(p, q)) == dot8(a, p) + dot8(a, q),
{
    lemma_mul_split(a[0], p[0], q[0]);
    lemma_mul_split(a[1], p[1], q[1]);
    lemma_mul_split(a[2], p[2], q[2]);
    lemma_mul_split(a[3], p[3], q[3]);
    lemma_mul_split(a[4], p[4], q[4]);
    lemma_mul_split(a[5], p[5], q[5]);
    lemma_mul_split(a[6], p[6], q[6]);
    lemma_mul_split(a[7], p[7], q[7]);
}

/// A weighted sum of multiples is the multiple of the weighted sum.
pub proof fn lemma_dot8_scale(a: Seq<int>, k: int, p: Seq<int>)
    requires
        a.len() == 8,
        p.len() == 8,
    ensures
        dot8(a, scale8(k, p)) == k * dot8(a, p),
{
    let s = scale8(k, p);
    assert forall|i: int| 0 <= i < 8 implies a[i] * #[trigger] s[i] == (a[i] * k) * p[i] by {
        assert(a[i] * (k * p[i]) == (a[i] * k) * p[i]) by (nonlinear_arith);
    }
    lemma_dot8_factor(a, p, k);
}

/// The sum of eight numbers times a factor is the sum of the eight products.
pub proof fn lemma_sum8_times(t: Seq<int>, b: int)
    requires
        t.len() == 8,
    ensures
        (t[0] + t[1] + t[2] + t[3] + t[4] + t[5] + t[6] + t[7]) * b == t[0] * b + t[1] * b + t[2] * b
            + t[3] * b + t[4] * b + t[5] * b + t[6] * b + t[7] * b,
{
    let s1 = t[0] + t[1];
    let s2 = s1 + t[2];
    let s3 = s2 + t[3];
    let s4 = s3 + t[4];
    let s5 = s4 + t[5];
    let s6 = s5 + t[6];
    assert((t[0] + t[1]) * b == t[0] * b + t[1] * b) by (nonlinear_arith);
    assert((s1 + t[2]) * b == s1 * b + t[2] * b) by (nonlinear_arith);
    assert((s2 + t[3]) * b == s2 * b + t[3] * b) by (nonlinear_arith);
    assert((s3 + t[4]) * b == s3 * b + t[4] * b) by (nonlinear_arith);
    assert((s4 + t[5]) * b == s4 * b + t[5] * b) by (nonlinear_arith);
    assert((s5 + t[6]) * b == s5 * b + t[6] * b) by (nonlinear_arith);
    assert((s6 + t[7]) * b == s6 * b + t[7] * b) by (nonlinear_arith);
}

/// A weighted sum is at most the sum of the magnitudes of the weights, bounded
/// by `sa`, times the bound `mc` of the numbers; `b` is the product of the two.
pub proof fn lemma_dot8_abs(a: Seq<int>, c: Seq<int>, sa: int, mc: int, b: int)
    requires
        a.len() == 8,
        c.len() == 8,
        abs_sum8(a) <= sa,
        forall|i: int| 0 <= i < 8 ==> -mc <= #[trigger] c[i] <= mc,
        b == sa * mc,
    ensures
        -b <= dot8(a, c) <= b,
{
    assert forall|i: int| 0 <= i < 8 implies -(magnitude_of(a[i]) * mc) <= #[trigger] (a[i] * c[i])
        <= magnitude_of(a[i]) * mc by {
        lemma_mul_bound(a[i], c[i], magnitude_of(a[i]), mc);
    }
    assert(-mc <= c[0] <= mc);
    let m = Seq::new(8, |i: int| magnitude_of(a[i]));
    lemma_sum8_times(m, mc);
    assert(abs_sum8(a) * mc <= sa * mc) by (nonlinear_arith)
        requires
            abs_sum8(a) <= sa,
            mc >= 0,
    ;
    assert(a[0] * c[0] <= m[0] * mc);
    assert(a[1] * c[1] <= m[1] * mc);
    assert(a[2] * c[2] <= m[2] * mc);
    assert(a[3] * c[3] <= m[3] * mc);
    assert(a[4] * c[4] <= m[4] * mc);
    assert(a[5] * c[5] <= m[5] * mc);
    assert(a[6] * c[6] <= m[6] * mc);
    assert(a[7] * c[7] <= m[7] * mc);
}

/// Two nested weighted sums may be taken in either order. With `x[i]` the
/// sum over `j` of `m(i, j) * b[j]` and `y[j]` the sum over `i` of
/// `a[i] * m(i, j)`, the numbers `x` weighted by `a` are the numbers `b`
/// weighted by `y`.
pub proof fn lemma_swap8(a: Seq<int>, m: spec_fn(int, int) -> int, b: Seq<int>, x: Seq<int>, y: Seq<int>)
    requires
        a.len() == 8,
        b.len() == 8,
        x.len() == 8,
        y.len() == 8,
        forall|i: int|
            0 <= i < 8 ==> #[trigger] x[i] == m(i, 0) * b[0] + m(i, 1) * b[1] + m(i, 2) * b[2] + m(i, 3)
                * b[3] + m(i, 4) * b[4] + m(i, 5) * b[5] + m(i, 6) * b[6] + m(i, 7) * b[7],
        forall|j: int|
            0 <= j < 8 ==> #[trigger] y[j] == a[0] * m(0, j) + a[1] * m(1, j) + a[2] * m(2, j) + a[3]
                * m(3, j) + a[4] * m(4, j) + a[5] * m(5, j) + a[6] * m(6, j) + a[7] * m(7, j),
    ensures
        dot8(a, x) == dot8(y, b),
{
    let atom = |i: int, j: int| (a[i] * m(i, j)) * b[j];
    assert forall|i: int| 0 <= i < 8 implies a[i] * #[trigger] x[i] == atom(i, 0) + atom(i, 1) + atom(
        i,
        2,
    ) + atom(i, 3) + atom(i, 4) + atom(i, 5) + atom(i, 6) + atom(i, 7) by {
        let row = Seq::new(8, |j: int| m(i, j));
        lemma_dot8_factor(row, b, a[i]);
    }
    assert forall|j: int| 0 <= j < 8 implies #[trigger] y[j] * b[j] == atom(0, j) + atom(1, j) + atom(
        2,
        j,
    ) + atom(3, j) + atom(4, j) + atom(5, j) + atom(6, j) + atom(7, j) by {
        let t = Seq::new(8, |i: int| a[i] * m(i, j));
        lemma_sum8_times(t, b[j]);
    }
    assert(a[0] * x[0] == atom(0, 0) + atom(0, 1) + atom(0, 2) + atom(0, 3) + atom(0, 4) + atom(0, 5) + atom(0, 6) + atom(0, 7));
    assert(a[1] * x[1] == atom(1, 0) + atom(1, 1) + atom(1, 2) + atom(1, 3) + atom(1, 4) + atom(1, 5) + atom(1, 6) + atom(1, 7));
    assert(a[2] * x[2] == atom(2, 0) + atom(2, 1) + atom(2, 2) + atom(2, 3) + atom(2, 4) + atom(2, 5) + atom(2, 6) + atom(2, 7));
    assert(a[3] * x[3] == atom(3, 0) + atom(3, 1) + atom(3, 2) + atom(3, 3) + atom(3, 4) + atom(3, 5) + atom(3, 6) + atom(3, 7));
    assert(a[4] * x[4] == atom(4, 0) + atom(4, 1) + atom(4, 2) + atom(4, 3) + atom(4, 4) + atom(4, 5) + atom(4, 6) + atom(4, 7));
    assert(a[5] * x[5] == atom(5, 0) + atom(5, 1) + atom(5, 2) + atom(5, 3) + atom(5, 4) + atom(5, 5) + atom(5, 6) + atom(5, 7));
    assert(a[6] * x[6] == atom(6, 0) + atom(6, 1) + atom(6, 2) + atom(6, 3) + atom(6, 4) + atom(6, 5) + atom(6, 6) + atom(6, 7));
    assert(a[7] * x[7] == atom(7, 0) + atom(7, 1) + atom(7, 2) + atom(7, 3) + atom(7, 4) + atom(7, 5) + atom(7, 6) + atom(7, 7));
    assert(y[0] * b[0] == atom(0, 0) + atom(1, 0) + atom(2, 0) + atom(3, 0) + atom(4, 0) + atom(5, 0) + atom(6, 0) + atom(7, 0));
    assert(y[1] * b[1] == atom(0, 1) + atom(1, 1) + atom(2, 1) + atom(3, 1) + atom(4, 1) + atom(5, 1) + atom(6, 1) + atom(7, 1));
    assert(y[2] * b[2] == atom(0, 2) + atom(1, 2) + atom(2, 2) + atom(3, 2) + atom(4, 2) + atom(5, 2) + atom(6, 2) + atom(7, 2));
    assert(y[3] * b[3] == atom(0, 3) + atom(1, 3) + atom(2, 3) + atom(3, 3) + atom(4, 3) + atom(5, 3) + atom(6, 3) + atom(7, 3));
    assert(y[4] * b[4] == atom(0, 4) + atom(1, 4) + atom(2, 4) + atom(3, 4) + atom(4, 4) + atom(5, 4) + atom(6, 4) + atom(7, 4));
    assert(y[5] * b[5] == atom(0, 5) + atom(1, 5) + atom(2, 5) + atom(3, 5) + atom(4, 5) + atom(5, 5) + atom(6, 5) + atom(7, 5));
    assert(y[6] * b[6] == atom(0, 6) + atom(1, 6) + atom(2, 6) + atom(3, 6) + atom(4, 6) + atom(5, 6) + atom(6, 6) + atom(7, 6));
    assert(y[7] * b[7] == atom(0, 7) + atom(1, 7) + atom(2, 7) + atom(3, 7) + atom(4, 7) + atom(5, 7) + atom(6, 7) + atom(7, 7));
}

/// Weighting by a single one picks one number.
pub proof fn lemma_dot8_unit(x: int, c: Seq<int>)
    requires
        0 <= x < 8,
        c.len() == 8,
    ensures
        dot8(unit8(x), c) == c[x],
        dot8(c, unit8(x)) == c[x],
        abs_sum8(unit8(x)) == 1,
{
    let e = unit8(x);
    assert forall|u: int| 0 <= u < 8 implies #[trigger] (e[u] * c[u]) == if u == x {
        c[u]
    } else {
        0
    } by {
        if u == x {
            assert(e[u] * c[u] == c[u]) by (nonlinear_arith)
                requires
                    e[u] == 1,
            ;
        } else {
            assert(e[u] * c[u] == 0) by (nonlinear_arith)
                requires
                    e[u] == 0,
            ;
        }
    }
    assert(e[0] * c[0] + e[1] * c[1] + e[2] * c[2] + e[3] * c[3] + e[4] * c[4] + e[5] * c[5] + e[6]
        * c[6] + e[7] * c[7] == c[x]);
    lemma_dot8_commutes(c, e);
}

/// `p` holds at every place of the 8x8 grid.
pub open spec fn holds_on_grid(p: spec_fn(int, int) -> bool) -> bool {
        &&& p(0, 0) && p(0, 1) && p(0, 2) && p(0, 3) && p(0, 4) && p(0, 5) && p(0, 6) && p(0, 7)
        &&& p(1, 0) && p(1, 1) && p(1, 2) && p(1, 3) && p(1, 4) && p(1, 5) && p(1, 6) && p(1, 7)
        &&& p(2, 0) && p(2, 1) && p(2, 2) && p(2, 3) && p(2, 4) && p(2, 5) && p(2, 6) && p(2, 7)
        &&& p(3, 0) && p(3, 1) && p(3, 2) && p(3, 3) && p(3, 4) && p(3, 5) && p(3, 6) && p(3, 7)
        &&& p(4, 0) && p(4, 1) && p(4, 2) && p(4, 3) && p(4, 4) && p(4, 5) && p(4, 6) && p(4, 7)
        &&& p(5, 0) && p(5, 1) && p(5, 2) && p(5, 3) && p(5, 4) && p(5, 5) && p(5, 6) && p(5, 7)
        &&& p(6, 0) && p(6, 1) && p(6, 2) && p(6, 3) && p(6, 4) && p(6, 5) && p(6, 6) && p(6, 7)
        &&& p(7, 0) && p(7, 1) && p(7, 2) && p(7, 3) && p(7, 4) && p(7, 5) && p(7, 6) && p(7, 7)
}

/// What holds at each of the 64 places holds for every pair of indices in range.
pub proof fn lemma_grid(p: spec_fn(int, int) -> bool)
    requires
        holds_on_grid(p),
    ensures
        forall|x: int, u: int| 0 <= x < 8 && 0 <= u < 8 ==> #[trigger] p(x, u),
{
    assert forall|x: int, u: int| 0 <= x < 8 && 0 <= u < 8 implies #[trigger] p(x, u) by {
        if x == 0 {
            if u == 0 {
                assert(p(0, 0));
            } else if u == 1 {
                assert(p(0, 1));
            } else if u == 2 {
                assert(p(0, 2));
            } else if u == 3 {
                assert(p(0, 3));
            } else if u == 4 {
                assert(p(0, 4));
            } else if u == 5 {
                assert(p(0, 5));
            } else if u == 6 {
                assert(p(0, 6));
            } else {
                assert(p(0, 7));
            }
        } else if x == 1 {
            if u == 0 {
                assert(p(1, 0));
            } else if u == 1 {
                assert(p(1, 1));
            } else if u == 2 {
                assert(p(1, 2));
            } else if u == 3 {
                assert(p(1, 3));
            } else if u == 4 {
                assert(p(1, 4));
            } else if u == 5 {
                assert(p(1, 5));
            } else if u == 6 {
                assert(p(1, 6));
            } else {
                assert(p(1, 7));
            }
        } else if x == 2 {
            if u == 0 {
                assert(p(2, 0));
            } else if u == 1 {
                assert(p(2, 1));
            } else if u == 2 {
                assert(p(2, 2));
            } else if u == 3 {
                assert(p(2, 3));
            } else if u == 4 {
                assert(p(2, 4));
            } else if u == 5 {
                assert(p(2, 5));
            } else if u == 6 {
                assert(p(2, 6));
            } else {
                assert(p(2, 7));
            }
        } else if x == 3 {
            if u == 0 {
                assert(p(3, 0));
            } else if u == 1 {
                assert(p(3, 1));
            } else if u == 2 {
                assert(p(3, 2));
            } else if u == 3 {
                assert(p(3, 3));
            } else if u == 4 {
                assert(p(3, 4));
            } else if u == 5 {
                assert(p(3, 5));
            } else if u == 6 {
                assert(p(3, 6));
            } else {
                assert(p(3, 7));
            }
        } else if x == 4 {
            if u == 0 {
                assert(p(4, 0));
            } else if u == 1 {
                assert(p(4, 1));
            } else if u == 2 {
                assert(p(4, 2));
            } else if u == 3 {
                assert(p(4, 3));
            } else if u == 4 {
                assert(p(4, 4));
            } else if u == 5 {
                assert(p(4, 5));
            } else if u == 6 {
                assert(p(4, 6));
            } else {
                assert(p(4, 7));
            }
        } else if x == 5 {
            if u == 0 {
                assert(p(5, 0));
            } else if u == 1 {
                assert(p(5, 1));
            } else if u == 2 {
                assert(p(5, 2));
            } else if u == 3 {
                assert(p(5, 3));
            } else if u == 4 {
                assert(p(5, 4));
            } else if u == 5 {
                assert(p(5, 5));
            } else if u == 6 {
                assert(p(5, 6));
            } else {
                assert(p(5, 7));
            }
        } else if x == 6 {
            if u == 0 {
                assert(p(6, 0));
            } else if u == 1 {
                assert(p(6, 1));
            } else if u == 2 {
                assert(p(6, 2));
            } else if u == 3 {
                assert(p(6, 3));
            } else if u == 4 {
                assert(p(6, 4));
            } else if u == 5 {
                assert(p(6, 5));
            } else if u == 6 {
                assert(p(6, 6));
            } else {
                assert(p(6, 7));
            }
        } else {
            if u == 0 {
                assert(p(7, 0));
            } else if u == 1 {
                assert(p(7, 1));
            } else if u == 2 {
                assert(p(7, 2));
            } else if u == 3 {
                assert(p(7, 3));
            } else if u == 4 {
                assert(p(7, 4));
            } else if u == 5 {
                assert(p(7, 5));
            } else if u == 6 {
                assert(p(7, 6));
            } else {
                assert(p(7, 7));
            }
        }
    }
}

} // verus!
