//! The Arai-Agui-Nakajima butterfly for the 8-point inverse transform, with
//! 22-bit constants.
//!
//! Each input is first multiplied by the pre-scale constant of its frequency;
//! the network that follows then needs five multiplications only. Both
//! multiply once along any path, so the outputs carry 44 fractional bits.
use crate::butterfly::{even, odd, output, Network};
use crate::linear::ints;
use vstd::prelude::*;

verus! {

/// 1.0 with 22 fractional bits.
pub const ONE: i128 = 4194304;

/// `2 * cos(pi / 8)`.
pub const M0: i128 = 7750063;

/// `sqrt(2)`.
pub const M1: i128 = 5931642;

/// `2 * cos(pi / 8) - 2 * cos(3 * pi / 8)`.
pub const M2: i128 = M0 - M5;

/// `sqrt(2)`.
pub const M3: i128 = 5931642;

/// `2 * cos(pi / 8) + 2 * cos(3 * pi / 8)`.
pub const M4: i128 = M0 + M5;

/// `2 * cos(3 * pi / 8)`.
pub const M5: i128 = 3210181;

/// The pre-scale of the DC term, `1 / (2 * sqrt(2))`.
pub const S0: i128 = 1482910;

/// The pre-scale of frequency 1, `cos(pi / 16) / 2`.
pub const S1: i128 = 2056856;

/// The pre-scale of frequency 2, `cos(2 * pi / 16) / 2`.
pub const S2: i128 = 1937516;

/// The pre-scale of frequency 3, `cos(3 * pi / 16) / 2`.
pub const S3: i128 = 1743718;

/// The pre-scale of frequency 4, `cos(4 * pi / 16) / 2`.
pub const S4: i128 = 1482910;

/// The pre-scale of frequency 5, `cos(5 * pi / 16) / 2`.
pub const S5: i128 = 1165115;

/// The pre-scale of frequency 6, `cos(6 * pi / 16) / 2`.
pub const S6: i128 = 802545;

/// The pre-scale of frequency 7, `cos(7 * pi / 16) / 2`.
pub const S7: i128 = 409134;

/// The even half of the butterfly: pre-scaling, one multiplication by
/// `sqrt(2)` and three add/subtract stages.
fn even_part(a0: i128, a2: i128, a4: i128, a6: i128) -> (r: (i128, i128, i128, i128))
    requires
        -0x2000_0000_0000_0000_0000 <= a0 <= 0x2000_0000_0000_0000_0000,
        -0x2000_0000_0000_0000_0000 <= a2 <= 0x2000_0000_0000_0000_0000,
        -0x2000_0000_0000_0000_0000 <= a4 <= 0x2000_0000_0000_0000_0000,
        -0x2000_0000_0000_0000_0000 <= a6 <= 0x2000_0000_0000_0000_0000,
    ensures
        r.0 == even(Network::AanDouble, 0, a0 as int, a2 as int, a4 as int, a6 as int),
        r.1 == even(Network::AanDouble, 1, a0 as int, a2 as int, a4 as int, a6 as int),
        r.2 == even(Network::AanDouble, 2, a0 as int, a2 as int, a4 as int, a6 as int),
        r.3 == even(Network::AanDouble, 3, a0 as int, a2 as int, a4 as int, a6 as int),
{
    proof {
        reveal(even);
    }
    let g0 = a0 * S0;
    let g1 = a4 * S4;
    let g2 = a2 * S2;
    let g3 = a6 * S6;

    let e2 = g2 - g3;
    let e3 = g2 + g3;

    let d0 = g0 * ONE;
    let d1 = g1 * ONE;
    let d2 = e2 * M1;
    let d3 = e3 * ONE;

    let c0 = d0 + d1;
    let c1 = d0 - d1;
    let c2 = d2 - d3;
    let c3 = d3;

    (c0 + c3, c1 + c2, c1 - c2, c0 - c3)
}

/// The odd half of the butterfly: pre-scaling, two add/subtract stages, four
/// multiplications and three more add/subtract stages.
fn odd_part(a1: i128, a3: i128, a5: i128, a7: i128) -> (r: (i128, i128, i128, i128))
    requires
        -0x2000_0000_0000_0000_0000 <= a1 <= 0x2000_0000_0000_0000_0000,
        -0x2000_0000_0000_0000_0000 <= a3 <= 0x2000_0000_0000_0000_0000,
        -0x2000_0000_0000_0000_0000 <= a5 <= 0x2000_0000_0000_0000_0000,
        -0x2000_0000_0000_0000_0000 <= a7 <= 0x2000_0000_0000_0000_0000,
    ensures
        r.0 == odd(Network::AanDouble, 0, a1 as int, a3 as int, a5 as int, a7 as int),
        r.1 == odd(Network::AanDouble, 1, a1 as int, a3 as int, a5 as int, a7 as int),
        r.2 == odd(Network::AanDouble, 2, a1 as int, a3 as int, a5 as int, a7 as int),
        r.3 == odd(Network::AanDouble, 3, a1 as int, a3 as int, a5 as int, a7 as int),
{
    proof {
        reveal(odd);
    }
    let g4 = a5 * S5;
    let g5 = a1 * S1;
    let g6 = a7 * S7;
    let g7 = a3 * S3;

    let f4 = g4 - g7;
    let f5 = g5 + g6;
    let f6 = g5 - g6;
    let f7 = g4 + g7;

    let e5 = f5 - f7;
    let e7 = f5 + f7;
    let e8 = f4 + f6;

    let d4 = f4 * M2;
    let d5 = e5 * M3;
    let d6 = f6 * M4;
    let d7 = e7 * ONE;
    let d8 = e8 * M5;

    let c4 = d4 + d8;
    let c5 = d5 + d7;
    let c6 = d6 - d8;
    let c7 = d7;
    let c8 = c5 - c6;

    let b4 = c4 - c8;
    let b5 = c8;
    let b6 = c6 - c7;
    let b7 = c7;
    (b7, b6, b5, b4)
}

/// The 8-point butterfly: the even and the odd half, then four add/subtract pairs.
pub fn butterfly(a: &[i128; 8]) -> (r: [i128; 8])
    requires
        forall|i: int|
            0 <= i < 8 ==> -0x2000_0000_0000_0000_0000 <= #[trigger] a[i]
                <= 0x2000_0000_0000_0000_0000,
    ensures
        forall|x: int| 0 <= x < 8 ==> #[trigger] r[x] == output(Network::AanDouble, x, ints(a@)),
{
    let (b0, b1, b2, b3) = even_part(a[0], a[2], a[4], a[6]);
    let (b7, b6, b5, b4) = odd_part(a[1], a[3], a[5], a[7]);
    proof {
        reveal(even);
        reveal(odd);
    }
    [b0 + b7, b1 + b6, b2 + b5, b3 + b4, b3 - b4, b2 - b5, b1 - b6, b0 - b7]
}

} // verus!
