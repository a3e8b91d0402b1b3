//! The forward Loeffler-Ligtenberg-Moschytz butterfly: the mirror image of
//! the inverse one. Four add/subtract pairs come first; the sums go through
//! the even half, the differences through the odd half. With 20-bit constants
//! the outputs carry 40 fractional bits.
use crate::butterfly::{even, odd, output, Network};
use crate::linear::ints;
use vstd::prelude::*;

verus! {

/// 1.0 with 20 fractional bits.
pub const ONE: i128 = 1048576;

/// `1 / sqrt(2)`.
pub const M0: i128 = 741455;

/// `sqrt(2) * cos(pi / 16)`.
pub const M1: i128 = 1454417;

/// `sqrt(2) * cos(2 * pi / 16)`.
pub const M2: i128 = 1370031;

/// `sqrt(2) * cos(3 * pi / 16)`.
pub const M3: i128 = 1232995;

/// `sqrt(2) * cos(5 * pi / 16)`.
pub const M5: i128 = 823861;

/// `sqrt(2) * cos(6 * pi / 16)`.
pub const M6: i128 = 567485;

/// `sqrt(2) * cos(7 * pi / 16)`.
pub const M7: i128 = 289301;

/// The even half: the frequencies 0, 2, 4 and 6 from the four pair sums.
fn even_part(a0: i128, a1: i128, a2: i128, a3: i128) -> (r: (i128, i128, i128, i128))
    requires
        -0x4000_0000_0000_0000_0000 <= a0 <= 0x4000_0000_0000_0000_0000,
        -0x4000_0000_0000_0000_0000 <= a1 <= 0x4000_0000_0000_0000_0000,
        -0x4000_0000_0000_0000_0000 <= a2 <= 0x4000_0000_0000_0000_0000,
        -0x4000_0000_0000_0000_0000 <= a3 <= 0x4000_0000_0000_0000_0000,
    ensures
        r.0 == even(Network::LlmForward, 0, a0 as int, a1 as int, a2 as int, a3 as int),
        r.1 == even(Network::LlmForward, 1, a0 as int, a1 as int, a2 as int, a3 as int),
        r.2 == even(Network::LlmForward, 2, a0 as int, a1 as int, a2 as int, a3 as int),
        r.3 == even(Network::LlmForward, 3, a0 as int, a1 as int, a2 as int, a3 as int),
{
    proof {
        reveal(even);
    }
    let c0 = a0 + a3;
    let c3 = a0 - a3;
    let c1 = a1 + a2;
    let c2 = a1 - a2;

    let z0 = (c0 + c1) * ONE * ONE;
    let z4 = (c0 - c1) * ONE * ONE;
    let z2 = (c2 * M6 + c3 * M2) * ONE;
    let z6 = (c3 * M6 - c2 * M2) * ONE;
    (z0, z2, z4, z6)
}

/// The odd half: the frequencies 1, 3, 5 and 7 from the four pair differences.
fn odd_part(a7: i128, a6: i128, a5: i128, a4: i128) -> (r: (i128, i128, i128, i128))
    requires
        -0x4000_0000_0000_0000_0000 <= a7 <= 0x4000_0000_0000_0000_0000,
        -0x4000_0000_0000_0000_0000 <= a6 <= 0x4000_0000_0000_0000_0000,
        -0x4000_0000_0000_0000_0000 <= a5 <= 0x4000_0000_0000_0000_0000,
        -0x4000_0000_0000_0000_0000 <= a4 <= 0x4000_0000_0000_0000_0000,
    ensures
        r.0 == odd(Network::LlmForward, 0, a7 as int, a6 as int, a5 as int, a4 as int),
        r.1 == odd(Network::LlmForward, 1, a7 as int, a6 as int, a5 as int, a4 as int),
        r.2 == odd(Network::LlmForward, 2, a7 as int, a6 as int, a5 as int, a4 as int),
        r.3 == odd(Network::LlmForward, 3, a7 as int, a6 as int, a5 as int, a4 as int),
{
    proof {
        reveal(odd);
    }
    let c3 = a4 * M3 + a7 * M5;
    let c0 = a7 * M3 - a4 * M5;
    let c2 = a5 * M1 + a6 * M7;
    let c1 = a6 * M1 - a5 * M7;

    let z5 = (c3 - c1) * ONE;
    let z3 = (c0 - c2) * ONE;

    let d0 = (c0 + c2) * M0;
    let d3 = (c3 + c1) * M0;

    let z1 = d0 + d3;
    let z7 = d0 - d3;
    (z1, z3, z5, z7)
}

/// The 8-point forward butterfly: four add/subtract pairs, then the even and
/// the odd half.
pub fn forward_butterfly(f: &[i128; 8]) -> (r: [i128; 8])
    requires
        forall|i: int|
            0 <= i < 8 ==> -0x2000_0000_0000_0000_0000 <= #[trigger] f[i]
                <= 0x2000_0000_0000_0000_0000,
    ensures
        forall|x: int| 0 <= x < 8 ==> #[trigger] r[x] == output(Network::LlmForward, x, ints(f@)),
{
    let a0 = f[0] + f[7];
    let a7 = f[0] - f[7];
    let a1 = f[1] + f[6];
    let a6 = f[1] - f[6];
    let a2 = f[2] + f[5];
    let a5 = f[2] - f[5];
    let a3 = f[3] + f[4];
    let a4 = f[3] - f[4];
    let (z0, z2, z4, z6) = even_part(a0, a1, a2, a3);
    let (z1, z3, z5, z7) = odd_part(a7, a6, a5, a4);
    [z0, z1, z2, z3, z4, z5, z6, z7]
}

} // verus!
