//! The Loeffler-Ligtenberg-Moschytz butterfly for the 8-point inverse transform.
//!
//! It multiplies by at most two constants along any path, so with 20-bit
//! constants its outputs carry 40 fractional bits.
use crate::butterfly::{even, odd, output, Network};
use crate::linear::ints;
use vstd::prelude::*;

verus! {

/// 1.0 with 20 fractional bits.
pub const ONE: i128 = 1048576;

/// `sqrt(2) * cos(3 * pi / 8)`.
pub const ALPHA: i128 = 567485;

/// `sqrt(2) * sin(3 * pi / 8)`.
pub const BETA: i128 = 1370031;

/// `sqrt(2)`.
pub const GAMMA: i128 = 1482910;

/// `cos(3 * pi / 16)`.
pub const ETA: i128 = 871859;

/// `sin(3 * pi / 16)`.
pub const THETA: i128 = 582558;

/// `cos(pi / 16)`.
pub const DELTA: i128 = 1028428;

/// `sin(pi / 16)`.
pub const EPSILON: i128 = 204567;

/// The even half of the butterfly: two rotations and two add/subtract pairs.
fn llm_even_part(f0: i128, f2: i128, f4: i128, f6: i128) -> (r: (i128, i128, i128, i128))
    requires
        -0x2000_0000_0000_0000_0000 <= f0 <= 0x2000_0000_0000_0000_0000,
        -0x2000_0000_0000_0000_0000 <= f2 <= 0x2000_0000_0000_0000_0000,
        -0x2000_0000_0000_0000_0000 <= f4 <= 0x2000_0000_0000_0000_0000,
        -0x2000_0000_0000_0000_0000 <= f6 <= 0x2000_0000_0000_0000_0000,
    ensures
        r.0 == even(Network::Llm, 0, f0 as int, f2 as int, f4 as int, f6 as int),
        r.1 == even(Network::Llm, 1, f0 as int, f2 as int, f4 as int, f6 as int),
        r.2 == even(Network::Llm, 2, f0 as int, f2 as int, f4 as int, f6 as int),
        r.3 == even(Network::Llm, 3, f0 as int, f2 as int, f4 as int, f6 as int),
{
    proof {
        reveal(even);
    }
    let y0 = (f0 + f4) * ONE;
    let y1 = (f0 - f4) * ONE;
    let y2 = ALPHA * f2 - BETA * f6;
    let y3 = ALPHA * f6 + BETA * f2;

    let x0 = (y0 + y3) * ONE;
    let x1 = (y1 + y2) * ONE;
    let x2 = (y1 - y2) * ONE;
    let x3 = (y0 - y3) * ONE;
    (x0, x1, x2, x3)
}

/// The odd half of the butterfly: a scaling by `sqrt(2)`, two add/subtract
/// pairs and two rotations.
fn llm_odd_part(f1: i128, f3: i128, f5: i128, f7: i128) -> (r: (i128, i128, i128, i128))
    requires
        -0x2000_0000_0000_0000_0000 <= f1 <= 0x2000_0000_0000_0000_0000,
        -0x2000_0000_0000_0000_0000 <= f3 <= 0x2000_0000_0000_0000_0000,
        -0x2000_0000_0000_0000_0000 <= f5 <= 0x2000_0000_0000_0000_0000,
        -0x2000_0000_0000_0000_0000 <= f7 <= 0x2000_0000_0000_0000_0000,
    ensures
        r.0 == odd(Network::Llm, 0, f1 as int, f3 as int, f5 as int, f7 as int),
        r.1 == odd(Network::Llm, 1, f1 as int, f3 as int, f5 as int, f7 as int),
        r.2 == odd(Network::Llm, 2, f1 as int, f3 as int, f5 as int, f7 as int),
        r.3 == odd(Network::Llm, 3, f1 as int, f3 as int, f5 as int, f7 as int),
{
    proof {
        reveal(odd);
    }
    let z4 = (f1 - f7) * ONE;
    let z5 = f3 * GAMMA;
    let z6 = f5 * GAMMA;
    let z7 = (f1 + f7) * ONE;

    let y4 = z4 + z6;
    let y5 = z7 - z5;
    let y6 = z4 - z6;
    let y7 = z7 + z5;

    let x4 = y4 * ETA - y7 * THETA;
    let x5 = y5 * DELTA - y6 * EPSILON;
    let x6 = y6 * DELTA + y5 * EPSILON;
    let x7 = y7 * ETA + y4 * THETA;
    (x7, x6, x5, x4)
}

/// The 8-point butterfly: the even and the odd half, then four add/subtract pairs.
pub fn llm_butterfly(a: &[i128; 8]) -> (r: [i128; 8])
    requires
        forall|i: int|
            0 <= i < 8 ==> -0x2000_0000_0000_0000_0000 <= #[trigger] a[i]
                <= 0x2000_0000_0000_0000_0000,
    ensures
        forall|x: int| 0 <= x < 8 ==> #[trigger] r[x] == output(Network::Llm, x, ints(a@)),
{
    let (x0, x1, x2, x3) = llm_even_part(a[0], a[2], a[4], a[6]);
    let (x7, x6, x5, x4) = llm_odd_part(a[1], a[3], a[5], a[7]);
    proof {
        reveal(even);
        reveal(odd);
    }
    [x0 + x7, x1 + x6, x2 + x5, x3 + x4, x3 - x4, x2 - x5, x1 - x6, x0 - x7]
}

} // verus!
