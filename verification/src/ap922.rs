//! The AP-922 inverse transform: a first pass built on a table of products of
//! the basis constants, and a second pass that folds pairs of multiplications
//! into one by three ratios of those constants.
use crate::butterfly::{even, odd, output, Network};
use crate::linear::{ints, lemma_mul_bound};
use vstd::prelude::*;

verus! {

/// 1.0 with 20 fractional bits.
pub const ONE: i128 = 1048576;

/// `g4 = cos(4 * pi / 16)`.
pub const G4: i128 = 741455;

/// `t1 = g6 / g2`, with `gk = cos(k * pi / 16)`.
pub const T1: i128 = 434334;

/// `t2 = g7 / g1`.
pub const T2: i128 = 208575;

/// `t3 = g5 / g3`.
pub const T3: i128 = 700636;

/// The group of coefficient columns that share a row of the product table.
pub const ROW_TO_GROUP: [usize; 8] = [0, 1, 2, 3, 0, 3, 2, 1];

/// The first-pass network of coefficient column `u`.
pub open spec fn first_pass(u: int) -> Network {
    if u == 0 || u == 4 {
        Network::Ap922Row0
    } else if u == 1 || u == 7 {
        Network::Ap922Row1
    } else if u == 2 || u == 6 {
        Network::Ap922Row2
    } else {
        Network::Ap922Row3
    }
}

/// The first-pass network of a group.
pub open spec fn group_network(group: int) -> Network {
    if group == 0 {
        Network::Ap922Row0
    } else if group == 1 {
        Network::Ap922Row1
    } else if group == 2 {
        Network::Ap922Row2
    } else {
        Network::Ap922Row3
    }
}

/// Row `group` of the product table: `g1..g7`, each times a quarter of the
/// group's own constant (`g4`, `g1`, `g2`, `g3`).
pub fn products(group: usize) -> (g: [i128; 7])
    requires
        group < 4,
    ensures
        group == 0 ==> g@ == seq![181802i128, 171254, 154124, 131072, 102983, 70936, 36163],
        group == 1 ==> g@ == seq![252167i128, 237536, 213777, 181802, 142841, 98391, 50159],
        group == 2 ==> g@ == seq![237536i128, 223754, 201373, 171254, 134553, 92682, 47249],
        group == 3 ==> g@ == seq![213777i128, 201373, 181231, 154124, 121095, 83412, 42523],
{
    if group == 0 {
        [181802, 171254, 154124, 131072, 102983, 70936, 36163]
    } else if group == 1 {
        [252167, 237536, 213777, 181802, 142841, 98391, 50159]
    } else if group == 2 {
        [237536, 223754, 201373, 171254, 134553, 92682, 47249]
    } else {
        [213777, 201373, 181231, 154124, 121095, 83412, 42523]
    }
}

/// The even half of the first pass: six products and four sums of them.
fn first_even_part(group: usize, c0: i128, c2: i128, c4: i128, c6: i128) -> (r: (
    i128,
    i128,
    i128,
    i128,
))
    requires
        group < 4,
        -0x2000_0000_0000_0000_0000 <= c0 <= 0x2000_0000_0000_0000_0000,
        -0x2000_0000_0000_0000_0000 <= c2 <= 0x2000_0000_0000_0000_0000,
        -0x2000_0000_0000_0000_0000 <= c4 <= 0x2000_0000_0000_0000_0000,
        -0x2000_0000_0000_0000_0000 <= c6 <= 0x2000_0000_0000_0000_0000,
    ensures
        r.0 == even(group_network(group as int), 0, c0 as int, c2 as int, c4 as int, c6 as int),
        r.1 == even(group_network(group as int), 1, c0 as int, c2 as int, c4 as int, c6 as int),
        r.2 == even(group_network(group as int), 2, c0 as int, c2 as int, c4 as int, c6 as int),
        r.3 == even(group_network(group as int), 3, c0 as int, c2 as int, c4 as int, c6 as int),
{
    proof {
        reveal(even);
    }
    let g = products(group);
    proof {
        lemma_mul_bound(g[3] as int, c0 as int, 0x4_0000, 0x2000_0000_0000_0000_0000);
        lemma_mul_bound(g[1] as int, c2 as int, 0x4_0000, 0x2000_0000_0000_0000_0000);
        lemma_mul_bound(g[5] as int, c2 as int, 0x4_0000, 0x2000_0000_0000_0000_0000);
        lemma_mul_bound(g[3] as int, c4 as int, 0x4_0000, 0x2000_0000_0000_0000_0000);
        lemma_mul_bound(g[5] as int, c6 as int, 0x4_0000, 0x2000_0000_0000_0000_0000);
        lemma_mul_bound(g[1] as int, c6 as int, 0x4_0000, 0x2000_0000_0000_0000_0000);
    }
    let tmp0 = g[3] * c0;
    let tmp1 = g[1] * c2;
    let tmp2 = g[5] * c2;
    let tmp3 = g[3] * c4;
    let tmp4 = g[5] * c6;
    let tmp5 = g[1] * c6;
    (
        tmp0 + tmp1 + tmp3 + tmp4,
        tmp0 + tmp2 - tmp3 - tmp5,
        tmp0 - tmp2 - tmp3 + tmp5,
        tmp0 - tmp1 + tmp3 - tmp4,
    )
}

/// The odd half of the first pass: sixteen products and four sums of them.
fn first_odd_part(group: usize, c1: i128, c3: i128, c5: i128, c7: i128) -> (r: (
    i128,
    i128,
    i128,
    i128,
))
    requires
        group < 4,
        -0x2000_0000_0000_0000_0000 <= c1 <= 0x2000_0000_0000_0000_0000,
        -0x2000_0000_0000_0000_0000 <= c3 <= 0x2000_0000_0000_0000_0000,
        -0x2000_0000_0000_0000_0000 <= c5 <= 0x2000_0000_0000_0000_0000,
        -0x2000_0000_0000_0000_0000 <= c7 <= 0x2000_0000_0000_0000_0000,
    ensures
        r.0 == odd(group_network(group as int), 0, c1 as int, c3 as int, c5 as int, c7 as int),
        r.1 == odd(group_network(group as int), 1, c1 as int, c3 as int, c5 as int, c7 as int),
        r.2 == odd(group_network(group as int), 2, c1 as int, c3 as int, c5 as int, c7 as int),
        r.3 == odd(group_network(group as int), 3, c1 as int, c3 as int, c5 as int, c7 as int),
{
    proof {
        reveal(odd);
    }
    let g = products(group);
    proof {
        lemma_mul_bound(g[0] as int, c1 as int, 0x4_0000, 0x2000_0000_0000_0000_0000);
        lemma_mul_bound(g[2] as int, c1 as int, 0x4_0000, 0x2000_0000_0000_0000_0000);
        lemma_mul_bound(g[4] as int, c1 as int, 0x4_0000, 0x2000_0000_0000_0000_0000);
        lemma_mul_bound(g[6] as int, c1 as int, 0x4_0000, 0x2000_0000_0000_0000_0000);
        lemma_mul_bound(g[0] as int, c3 as int, 0x4_0000, 0x2000_0000_0000_0000_0000);
        lemma_mul_bound(g[2] as int, c3 as int, 0x4_0000, 0x2000_0000_0000_0000_0000);
        lemma_mul_bound(g[4] as int, c3 as int, 0x4_0000, 0x2000_0000_0000_0000_0000);
        lemma_mul_bound(g[6] as int, c3 as int, 0x4_0000, 0x2000_0000_0000_0000_0000);
        lemma_mul_bound(g[0] as int, c5 as int, 0x4_0000, 0x2000_0000_0000_0000_0000);
        lemma_mul_bound(g[2] as int, c5 as int, 0x4_0000, 0x2000_0000_0000_0000_0000);
        lemma_mul_bound(g[4] as int, c5 as int, 0x4_0000, 0x2000_0000_0000_0000_0000);
        lemma_mul_bound(g[6] as int, c5 as int, 0x4_0000, 0x2000_0000_0000_0000_0000);
        lemma_mul_bound(g[0] as int, c7 as int, 0x4_0000, 0x2000_0000_0000_0000_0000);
        lemma_mul_bound(g[2] as int, c7 as int, 0x4_0000, 0x2000_0000_0000_0000_0000);
        lemma_mul_bound(g[4] as int, c7 as int, 0x4_0000, 0x2000_0000_0000_0000_0000);
        lemma_mul_bound(g[6] as int, c7 as int, 0x4_0000, 0x2000_0000_0000_0000_0000);
    }
    (
        g[0] * c1 + g[2] * c3 + g[4] * c5 + g[6] * c7,
        g[2] * c1 - g[6] * c3 - g[0] * c5 - g[4] * c7,
        g[4] * c1 - g[0] * c3 + g[6] * c5 + g[2] * c7,
        g[6] * c1 - g[4] * c3 + g[2] * c5 - g[0] * c7,
    )
}

/// The first pass on one coefficient column of a group: the even and the odd
/// half, then four add/subtract pairs.
#[verifier::rlimit(40)]
pub fn first_butterfly(group: usize, a: &[i128; 8]) -> (r: [i128; 8])
    requires
        group < 4,
        forall|i: int|
            0 <= i < 8 ==> -0x2000_0000_0000_0000_0000 <= #[trigger] a[i]
                <= 0x2000_0000_0000_0000_0000,
    ensures
        forall|x: int|
            0 <= x < 8 ==> #[trigger] r[x] == output(group_network(group as int), x, ints(a@)),
{
    let (m0, m1, m2, m3) = first_even_part(group, a[0], a[2], a[4], a[6]);
    let (m4, m5, m6, m7) = first_odd_part(group, a[1], a[3], a[5], a[7]);
    proof {
        reveal(even);
        reveal(odd);
    }
    [m0 + m4, m1 + m5, m2 + m6, m3 + m7, m3 - m7, m2 - m6, m1 - m5, m0 - m4]
}

/// The even half of the second pass: one folded rotation and two
/// add/subtract stages.
fn second_even_part(a0: i128, a2: i128, a4: i128, a6: i128) -> (r: (i128, i128, i128, i128))
    requires
        -0x2000_0000_0000_0000_0000 <= a0 <= 0x2000_0000_0000_0000_0000,
        -0x2000_0000_0000_0000_0000 <= a2 <= 0x2000_0000_0000_0000_0000,
        -0x2000_0000_0000_0000_0000 <= a4 <= 0x2000_0000_0000_0000_0000,
        -0x2000_0000_0000_0000_0000 <= a6 <= 0x2000_0000_0000_0000_0000,
    ensures
        r.0 == even(Network::Ap922, 0, a0 as int, a2 as int, a4 as int, a6 as int),
        r.1 == even(Network::Ap922, 1, a0 as int, a2 as int, a4 as int, a6 as int),
        r.2 == even(Network::Ap922, 2, a0 as int, a2 as int, a4 as int, a6 as int),
        r.3 == even(Network::Ap922, 3, a0 as int, a2 as int, a4 as int, a6 as int),
{
    proof {
        reveal(even);
    }
    let b0 = (a0 + a4) * ONE;
    let b1 = (a0 - a4) * ONE;
    let b2 = a2 * ONE + T1 * a6;
    let b3 = T1 * a2 - a6 * ONE;

    let e0 = b0 + b2;
    let e1 = b1 + b3;
    let e2 = b1 - b3;
    let e3 = b0 - b2;
    (e0 * ONE, e1 * ONE, e2 * ONE, e3 * ONE)
}

/// The odd half of the second pass: two folded rotations, two add/subtract
/// stages and a scaling of the middle pair by `g4`.
fn second_odd_part(a1: i128, a3: i128, a5: i128, a7: i128) -> (r: (i128, i128, i128, i128))
    requires
        -0x2000_0000_0000_0000_0000 <= a1 <= 0x2000_0000_0000_0000_0000,
        -0x2000_0000_0000_0000_0000 <= a3 <= 0x2000_0000_0000_0000_0000,
        -0x2000_0000_0000_0000_0000 <= a5 <= 0x2000_0000_0000_0000_0000,
        -0x2000_0000_0000_0000_0000 <= a7 <= 0x2000_0000_0000_0000_0000,
    ensures
        r.0 == odd(Network::Ap922, 0, a1 as int, a3 as int, a5 as int, a7 as int),
        r.1 == odd(Network::Ap922, 1, a1 as int, a3 as int, a5 as int, a7 as int),
        r.2 == odd(Network::Ap922, 2, a1 as int, a3 as int, a5 as int, a7 as int),
        r.3 == odd(Network::Ap922, 3, a1 as int, a3 as int, a5 as int, a7 as int),
{
    proof {
        reveal(odd);
    }
    let b4 = a1 * ONE + T2 * a7;
    let b5 = T2 * a1 - a7 * ONE;
    let b6 = a3 * ONE + T3 * a5;
    let b7 = T3 * a3 - a5 * ONE;

    let e4 = b4 + b6;
    let e5 = b4 - b6;
    let e6 = b5 + b7;
    let e7 = b5 - b7;
    (e4 * ONE, G4 * (e5 + e6), G4 * (e5 - e6), e7 * ONE)
}

/// The second pass on one row: the even and the odd half, then four
/// add/subtract pairs.
pub fn second_butterfly(a: &[i128; 8]) -> (r: [i128; 8])
    requires
        forall|i: int|
            0 <= i < 8 ==> -0x2000_0000_0000_0000_0000 <= #[trigger] a[i]
                <= 0x2000_0000_0000_0000_0000,
    ensures
        forall|x: int| 0 <= x < 8 ==> #[trigger] r[x] == output(Network::Ap922, x, ints(a@)),
{
    let (f0, f1, f2, f3) = second_even_part(a[0], a[2], a[4], a[6]);
    let (f4, f5, f6, f7) = second_odd_part(a[1], a[3], a[5], a[7]);
    proof {
        reveal(even);
        reveal(odd);
    }
    [f0 + f4, f1 + f5, f2 + f6, f3 + f7, f3 - f7, f2 - f6, f1 - f5, f0 - f4]
}

/// The first-pass network of coefficient column `u`, through the group table.
pub fn first_pass_of(u: usize) -> (n: Network)
    requires
        u < 8,
    ensures
        n == first_pass(u as int),
{
    let group = ROW_TO_GROUP[u];
    if group == 0 {
        Network::Ap922Row0
    } else if group == 1 {
        Network::Ap922Row1
    } else if group == 2 {
        Network::Ap922Row2
    } else {
        Network::Ap922Row3
    }
}

} // verus!
