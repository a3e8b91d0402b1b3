//! The cosine basis of the 8-point transform, as integers at three precisions.
use vstd::prelude::*;

verus! {

/// How many fractional bits the basis constants carry.
#[derive(Clone, Copy, PartialEq, Eq, Structural, Debug)]
pub enum Precision {
    /// 8 fractional bits: every constant scaled by 256.
    Coarse,
    /// 20 fractional bits: constants good to one part in a million.
    Single,
    /// 22 fractional bits: the most for which the exact product of four
    /// constants and any 32-bit coefficient, added up over a block, still fits
    /// 128 bits.
    Double,
}

/// The integer that stands for 1.0.
pub open spec fn unit(p: Precision) -> int {
    match p {
        Precision::Coarse => 0x100,
        Precision::Single => 0x10_0000,
        Precision::Double => 0x40_0000,
    }
}

/// `cos(k * pi / 16)` for `k` in `0..=8`, times `unit(p)`, rounded to nearest.
pub open spec fn cosine(p: Precision, k: int) -> int {
    match p {
        Precision::Coarse => if k == 0 {
            256
        } else if k == 1 {
            251
        } else if k == 2 {
            237
        } else if k == 3 {
            213
        } else if k == 4 {
            181
        } else if k == 5 {
            142
        } else if k == 6 {
            98
        } else if k == 7 {
            50
        } else {
            0
        },
        Precision::Single => if k == 0 {
            1048576
        } else if k == 1 {
            1028428
        } else if k == 2 {
            968758
        } else if k == 3 {
            871859
        } else if k == 4 {
            741455
        } else if k == 5 {
            582558
        } else if k == 6 {
            401273
        } else if k == 7 {
            204567
        } else {
            0
        },
        Precision::Double => if k == 0 {
            4194304
        } else if k == 1 {
            4113712
        } else if k == 2 {
            3875032
        } else if k == 3 {
            3487436
        } else if k == 4 {
            2965821
        } else if k == 5 {
            2330230
        } else if k == 6 {
            1605091
        } else if k == 7 {
            818268
        } else {
            0
        },
    }
}

/// `cos(k * pi / 16)` for every `k`, by the period 32 and the two mirror
/// symmetries of the cosine.
pub open spec fn cos16(p: Precision, k: int) -> int {
    let m = k % 32;
    if m <= 8 {
        cosine(p, m)
    } else if m <= 16 {
        -cosine(p, 16 - m)
    } else if m <= 24 {
        -cosine(p, m - 16)
    } else {
        cosine(p, 32 - m)
    }
}

/// The normalisation factor `C(u)`: `1/sqrt(2)` for the DC term, 1 otherwise.
pub open spec fn norm(p: Precision, u: int) -> int {
    if u == 0 {
        cosine(p, 4)
    } else {
        unit(p)
    }
}

/// Entry `(x, u)` of the inverse basis: `C(u) * cos((2x + 1) * u * pi / 16)`.
pub open spec fn basis(p: Precision, x: int, u: int) -> int {
    if u == 0 {
        cosine(p, 4)
    } else {
        cos16(p, (2 * x + 1) * u)
    }
}

/// Every cosine lies between minus one and one.
pub proof fn lemma_cos16_bound(p: Precision, k: int)
    ensures
        -unit(p) <= cos16(p, k) <= unit(p),
{
}

/// A basis entry lies between minus one and one.
pub proof fn lemma_basis_bound(p: Precision, x: int, u: int)
    ensures
        -unit(p) <= basis(p, x, u) <= unit(p),
{
}

/// Mirroring the sample index flips the sign of the odd frequencies only.
#[verifier::rlimit(30)]
pub proof fn lemma_basis_mirror(p: Precision, x: int, u: int)
    requires
        0 <= x < 8,
        0 <= u < 8,
    ensures
        basis(p, 7 - x, u) == if u % 2 == 0 {
            basis(p, x, u)
        } else {
            -basis(p, x, u)
        },
{
    if u != 0 {
        let k = (2 * x + 1) * u;
        let j = (2 * (7 - x) + 1) * u;
        assert(j == 16 * u - k) by (nonlinear_arith)
            requires
                k == (2 * x + 1) * u,
                j == (2 * (7 - x) + 1) * u,
        ;
        assert(0 <= k <= 105) by (nonlinear_arith)
            requires
                k == (2 * x + 1) * u,
                0 <= x < 8,
                0 <= u < 8,
        ;
    }
}

/// `t` holds the inverse basis in row-major order.
pub open spec fn is_basis_table(t: Seq<i128>, p: Precision) -> bool {
    &&& t.len() == 64
    &&& forall|x: int, u: int| 0 <= x < 8 && 0 <= u < 8 ==> #[trigger] t[x * 8 + u] == basis(p, x, u)
}

/// `t` holds one period of the cosine.
pub open spec fn is_cosine_table(t: Seq<i128>, p: Precision) -> bool {
    &&& t.len() == 32
    &&& forall|k: int| 0 <= k < 32 ==> #[trigger] t[k] == cos16(p, k)
}

/// The integer that stands for 1.0.
pub fn unit_of(p: Precision) -> (r: i128)
    ensures
        r == unit(p),
{
    match p {
        Precision::Coarse => 0x100,
        Precision::Single => 0x10_0000,
        Precision::Double => 0x40_0000,
    }
}

/// One period of the cosine, `cos(k * pi / 16)` for `k` in `0..32`.
pub fn cosine_table(p: Precision) -> (t: [i128; 32])
    ensures
        is_cosine_table(t@, p),
{
    match p {
        Precision::Coarse => [
            256, 251, 237, 213, 181, 142, 98, 50,
            0, -50, -98, -142, -181, -213, -237, -251,
            -256, -251, -237, -213, -181, -142, -98, -50,
            0, 50, 98, 142, 181, 213, 237, 251,
        ],
        Precision::Single => [
            1048576, 1028428, 968758, 871859, 741455, 582558, 401273, 204567,
            0, -204567, -401273, -582558, -741455, -871859, -968758, -1028428,
            -1048576, -1028428, -968758, -871859, -741455, -582558, -401273, -204567,
            0, 204567, 401273, 582558, 741455, 871859, 968758, 1028428,
        ],
        Precision::Double => [
            4194304, 4113712, 3875032, 3487436, 2965821, 2330230, 1605091, 818268,
            0, -818268, -1605091, -2330230, -2965821, -3487436, -3875032, -4113712,
            -4194304, -4113712, -3875032, -3487436, -2965821, -2330230, -1605091, -818268,
            0, 818268, 1605091, 2330230, 2965821, 3487436, 3875032, 4113712,
        ],
    }
}

/// The inverse basis as a matrix in row-major order: entry `x * 8 + u` is `basis(p, x, u)`.
pub fn basis_table(p: Precision) -> (t: [i128; 64])
    ensures
        is_basis_table(t@, p),
{
    let cos = cosine_table(p);
    let mut t: [i128; 64] = [0; 64];
    let mut x: usize = 0;
    while x < 8
        invariant
            x <= 8,
            is_cosine_table(cos@, p),
            forall|a: int, u: int| 0 <= a < x && 0 <= u < 8 ==> #[trigger] t[a * 8 + u] == basis(p, a, u),
        decreases 8 - x,
    {
        let mut u: usize = 0;
        while u < 8
            invariant
                x < 8,
                u <= 8,
                is_cosine_table(cos@, p),
                forall|a: int, b: int| 0 <= a < x && 0 <= b < 8 ==> #[trigger] t[a * 8 + b] == basis(p, a, b),
                forall|b: int| 0 <= b < u ==> #[trigger] t[x * 8 + b] == basis(p, x as int, b),
            decreases 8 - u,
        {
            assert((2 * x + 1) * u <= 105) by (nonlinear_arith)
                requires
                    x < 8,
                    u < 8,
            ;
            let k = ((2 * x + 1) * u) % 32;
            let c = if u == 0 {
                cos[4]
            } else {
                cos[k]
            };
            proof {
                assert(cos16(p, k as int) == cos16(p, (2 * x + 1) * u));
            }
            t[x * 8 + u] = c;
            u += 1;
        }
        x += 1;
    }
    t
}

/// `cos((2x + 1) * u * pi / 16)` from the table of one period.
pub(crate) fn cosine_at(Ghost(p): Ghost<Precision>, cos: &[i128; 32], x: usize, u: usize) -> (c: i128)
    requires
        is_cosine_table(cos@, p),
        x < 8,
        u < 8,
    ensures
        c == cos16(p, (2 * x + 1) * u),
{
    assert((2 * x + 1) * u <= 105) by (nonlinear_arith)
        requires
            x < 8,
            u < 8,
    ;
    let k = (2 * x + 1) * u;
    cos[k % 32]
}

/// `C(u)`: `cos(pi / 4)` for the DC term, 1.0 otherwise.
pub(crate) fn norm_at(Ghost(p): Ghost<Precision>, cos: &[i128; 32], one: i128, u: usize) -> (c: i128)
    requires
        is_cosine_table(cos@, p),
        one == unit(p),
    ensures
        c == norm(p, u as int),
{
    if u == 0 {
        cos[4]
    } else {
        one
    }
}

} // verus!
