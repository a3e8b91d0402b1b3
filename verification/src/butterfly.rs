//! The 8-point butterfly networks as linear maps.
//!
//! An inverse network splits its inputs into the even and the odd
//! frequencies, turns each half into four partial sums, and combines them by
//! four add/subtract pairs; a forward network runs the other way. What a
//! network computes is one 8x8 matrix applied to its inputs. The matrices are
//! written out here, each entry the product of the constants that the network
//! multiplies by on the way from one input to one output; the contract of each
//! executable network is that it applies its matrix exactly.
use crate::linear::{
    dot8, holds_on_grid, lemma_dot8_bound, lemma_grid, lemma_mul_negate, unit8,
};
use vstd::prelude::*;

verus! {

/// The butterfly networks of the fast transforms.
#[derive(Clone, Copy, PartialEq, Eq, Structural, Debug)]
pub enum Network {
    /// Loeffler-Ligtenberg-Moschytz, 20-bit constants: outputs carry 40 fractional bits.
    Llm,
    /// Arai-Agui-Nakajima with its pre-scaling, 20-bit constants: 40 fractional bits.
    Aan,
    /// Arai-Agui-Nakajima with its pre-scaling, 22-bit constants: 44 fractional bits.
    AanDouble,
    /// The second pass of AP-922, 20-bit constants: outputs carry 40 fractional bits.
    Ap922,
    /// The first pass of AP-922 for the frequencies 0 and 4: 20 fractional bits.
    Ap922Row0,
    /// The first pass of AP-922 for the frequencies 1 and 7: 20 fractional bits.
    Ap922Row1,
    /// The first pass of AP-922 for the frequencies 2 and 6: 20 fractional bits.
    Ap922Row2,
    /// The first pass of AP-922 for the frequencies 3 and 5: 20 fractional bits.
    Ap922Row3,
    /// The forward Loeffler-Ligtenberg-Moschytz network: 40 fractional bits.
    LlmForward,
}

/// Whether the network turns samples into frequencies. A forward network
/// starts with the four add/subtract pairs that an inverse network ends with.
pub open spec fn is_forward(n: Network) -> bool {
    n == Network::LlmForward
}

/// The even part, for `r` in `0..4`. In an inverse network: what the even
/// inputs add to outputs `r` and `7 - r`. In a forward network: output `2r`,
/// made of the sums of the four mirrored pairs of inputs.
#[verifier::opaque]
pub open spec fn even(n: Network, r: int, a0: int, a2: int, a4: int, a6: int) -> int {
    match n {
        Network::Llm => {
            if r == 0 {
                1099511627776 * a0 + 1436581625856 * a2 + 1099511627776 * a4 + 595051151360 * a6
            } else if r == 1 {
                1099511627776 * a0 + 595051151360 * a2 + -1099511627776 * a4 + -1436581625856 * a6
            } else if r == 2 {
                1099511627776 * a0 + -595051151360 * a2 + -1099511627776 * a4 + 1436581625856 * a6
            } else {
                1099511627776 * a0 + -1436581625856 * a2 + 1099511627776 * a4 + -595051151360 * a6
            }
        },
        Network::Aan => {
            if r == 0 {
                388736483328 * a0 + 507908194304 * a2 + 388736483328 * a4 + 210382094336 * a6
            } else if r == 1 {
                388736483328 * a0 + 210382268586 * a2 + -388736483328 * a4 + -507907225096 * a6
            } else if r == 2 {
                388736483328 * a0 + -210382268586 * a2 + -388736483328 * a4 + 507907225096 * a6
            } else {
                388736483328 * a0 + -507908194304 * a2 + 388736483328 * a4 + -210382094336 * a6
            }
        },
        Network::AanDouble => {
            if r == 0 {
                6219775344640 * a0 + 8126531108864 * a2 + 6219775344640 * a4 + 3366117703680 * a6
            } else if r == 1 {
                6219775344640 * a0 + 3366120172408 * a2 + -6219775344640 * a4 + -8126527332570 * a6
            } else if r == 2 {
                6219775344640 * a0 + -3366120172408 * a2 + -6219775344640 * a4 + 8126527332570 * a6
            } else {
                6219775344640 * a0 + -8126531108864 * a2 + 6219775344640 * a4 + -3366117703680 * a6
            }
        },
        Network::Ap922 => {
            if r == 0 {
                1099511627776 * a0 + 1099511627776 * a2 + 1099511627776 * a4 + 455432208384 * a6
            } else if r == 1 {
                1099511627776 * a0 + 455432208384 * a2 + -1099511627776 * a4 + -1099511627776 * a6
            } else if r == 2 {
                1099511627776 * a0 + -455432208384 * a2 + -1099511627776 * a4 + 1099511627776 * a6
            } else {
                1099511627776 * a0 + -1099511627776 * a2 + 1099511627776 * a4 + -455432208384 * a6
            }
        },
        Network::Ap922Row0 => {
            if r == 0 {
                131072 * a0 + 171254 * a2 + 131072 * a4 + 70936 * a6
            } else if r == 1 {
                131072 * a0 + 70936 * a2 + -131072 * a4 + -171254 * a6
            } else if r == 2 {
                131072 * a0 + -70936 * a2 + -131072 * a4 + 171254 * a6
            } else {
                131072 * a0 + -171254 * a2 + 131072 * a4 + -70936 * a6
            }
        },
        Network::Ap922Row1 => {
            if r == 0 {
                181802 * a0 + 237536 * a2 + 181802 * a4 + 98391 * a6
            } else if r == 1 {
                181802 * a0 + 98391 * a2 + -181802 * a4 + -237536 * a6
            } else if r == 2 {
                181802 * a0 + -98391 * a2 + -181802 * a4 + 237536 * a6
            } else {
                181802 * a0 + -237536 * a2 + 181802 * a4 + -98391 * a6
            }
        },
        Network::Ap922Row2 => {
            if r == 0 {
                171254 * a0 + 223754 * a2 + 171254 * a4 + 92682 * a6
            } else if r == 1 {
                171254 * a0 + 92682 * a2 + -171254 * a4 + -223754 * a6
            } else if r == 2 {
                171254 * a0 + -92682 * a2 + -171254 * a4 + 223754 * a6
            } else {
                171254 * a0 + -223754 * a2 + 171254 * a4 + -92682 * a6
            }
        },
        Network::Ap922Row3 => {
            if r == 0 {
                154124 * a0 + 201373 * a2 + 154124 * a4 + 83412 * a6
            } else if r == 1 {
                154124 * a0 + 83412 * a2 + -154124 * a4 + -201373 * a6
            } else if r == 2 {
                154124 * a0 + -83412 * a2 + -154124 * a4 + 201373 * a6
            } else {
                154124 * a0 + -201373 * a2 + 154124 * a4 + -83412 * a6
            }
        },
        Network::LlmForward => {
            if r == 0 {
                1099511627776 * a0 + 1099511627776 * a2 + 1099511627776 * a4 + 1099511627776 * a6
            } else if r == 1 {
                1436581625856 * a0 + 595051151360 * a2 + -595051151360 * a4 + -1436581625856 * a6
            } else if r == 2 {
                1099511627776 * a0 + -1099511627776 * a2 + -1099511627776 * a4 + 1099511627776 * a6
            } else {
                595051151360 * a0 + -1436581625856 * a2 + 1436581625856 * a4 + -595051151360 * a6
            }
        },
    }
}

/// The odd part, for `r` in `0..4`. In an inverse network: what the odd
/// inputs add to output `r` and take from output `7 - r`. In a forward
/// network: output `2r + 1`, made of the differences of the four mirrored
/// pairs of inputs.
#[verifier::opaque]
pub open spec fn odd(n: Network, r: int, a1: int, a3: int, a5: int, a7: int) -> int {
    match n {
        Network::Llm => {
            if r == 0 {
                1525066760192 * a1 + 1292888429690 * a3 + 863881083780 * a5 + 303354085376 * a7
            } else if r == 1 {
                1292888965120 * a1 + -303354449970 * a3 + -1525066165480 * a5 + -863880871936 * a7
            } else if r == 2 {
                863880871936 * a1 + -1525066165480 * a3 + 303354449970 * a5 + 1292888965120 * a7
            } else {
                303354085376 * a1 + -863881083780 * a3 + 1292888429690 * a5 + -1525066760192 * a7
            }
        },
        Network::Aan => {
            if r == 0 {
                539192459264 * a1 + 457105735680 * a3 + 305428168704 * a5 + 107252547584 * a7
            } else if r == 1 {
                457105393160 * a1 + -107252293830 * a3 + -539192673759 * a5 + -305429434128 * a7
            } else if r == 2 {
                305427689580 * a1 + -539192662470 * a3 + 107252131869 * a5 + 457107400568 * a7
            } else {
                107252185050 * a1 + -305428687410 * a3 + 457105591095 * a5 + -539194913348 * a7
            }
        },
        Network::AanDouble => {
            if r == 0 {
                8627079348224 * a1 + 7313683382272 * a3 + 4886846504960 * a5 + 1716032372736 * a7
            } else if r == 1 {
                7313684233704 * a1 + -1716032989314 * a3 + -8627076540775 * a5 + -4886846648178 * a7
            } else if r == 2 {
                4886849203848 * a1 + -8627077935642 * a3 + 1716031471945 * a5 + 7313683066206 * a7
            } else {
                1716030847088 * a1 + -4886846418592 * a3 + 7313683180300 * a5 + -8627077259460 * a7
            }
        },
        Network::Ap922 => {
            if r == 0 {
                1099511627776 * a1 + 1099511627776 * a3 + 734670094336 * a5 + 218706739200 * a7
            } else if r == 1 {
                932120894705 * a1 + -257981852700 * a3 + -1296961983460 * a5 + -622822941455 * a7
            } else if r == 2 {
                622822941455 * a1 + -1296961983460 * a3 + 257981852700 * a5 + 932120894705 * a7
            } else {
                218706739200 * a1 + -734670094336 * a3 + 1099511627776 * a5 + -1099511627776 * a7
            }
        },
        Network::Ap922Row0 => {
            if r == 0 {
                181802 * a1 + 154124 * a3 + 102983 * a5 + 36163 * a7
            } else if r == 1 {
                154124 * a1 + -36163 * a3 + -181802 * a5 + -102983 * a7
            } else if r == 2 {
                102983 * a1 + -181802 * a3 + 36163 * a5 + 154124 * a7
            } else {
                36163 * a1 + -102983 * a3 + 154124 * a5 + -181802 * a7
            }
        },
        Network::Ap922Row1 => {
            if r == 0 {
                252167 * a1 + 213777 * a3 + 142841 * a5 + 50159 * a7
            } else if r == 1 {
                213777 * a1 + -50159 * a3 + -252167 * a5 + -142841 * a7
            } else if r == 2 {
                142841 * a1 + -252167 * a3 + 50159 * a5 + 213777 * a7
            } else {
                50159 * a1 + -142841 * a3 + 213777 * a5 + -252167 * a7
            }
        },
        Network::Ap922Row2 => {
            if r == 0 {
                237536 * a1 + 201373 * a3 + 134553 * a5 + 47249 * a7
            } else if r == 1 {
                201373 * a1 + -47249 * a3 + -237536 * a5 + -134553 * a7
            } else if r == 2 {
                134553 * a1 + -237536 * a3 + 47249 * a5 + 201373 * a7
            } else {
                47249 * a1 + -134553 * a3 + 201373 * a5 + -237536 * a7
            }
        },
        Network::Ap922Row3 => {
            if r == 0 {
                213777 * a1 + 181231 * a3 + 121095 * a5 + 42523 * a7
            } else if r == 1 {
                181231 * a1 + -42523 * a3 + -213777 * a5 + -121095 * a7
            } else if r == 2 {
                121095 * a1 + -213777 * a3 + 42523 * a5 + 181231 * a7
            } else {
                42523 * a1 + -121095 * a3 + 181231 * a5 + -213777 * a7
            }
        },
        Network::LlmForward => {
            if r == 0 {
                1525066165480 * a1 + 1292888429690 * a3 + 863881083780 * a5 + 303354449970 * a7
            } else if r == 1 {
                1292888965120 * a1 + -303354085376 * a3 + -1525066760192 * a5 + -863880871936 * a7
            } else if r == 2 {
                863880871936 * a1 + -1525066760192 * a3 + 303354085376 * a5 + 1292888965120 * a7
            } else {
                303354449970 * a1 + -863881083780 * a3 + 1292888429690 * a5 + -1525066165480 * a7
            }
        },
    }
}

/// Output `x` of the network for the inputs `a`. For an inverse network the
/// even and the odd part, added for the first four outputs, subtracted for the
/// mirrored four; for a forward network the even part of the pair sums or the
/// odd part of the pair differences.
pub open spec fn output(n: Network, x: int, a: Seq<int>) -> int {
    if is_forward(n) {
        if x % 2 == 0 {
            even(n, x / 2, a[0] + a[7], a[1] + a[6], a[2] + a[5], a[3] + a[4])
        } else {
            odd(n, x / 2, a[0] - a[7], a[1] - a[6], a[2] - a[5], a[3] - a[4])
        }
    } else if x < 4 {
        even(n, x, a[0], a[2], a[4], a[6]) + odd(n, x, a[1], a[3], a[5], a[7])
    } else {
        even(n, 7 - x, a[0], a[2], a[4], a[6]) - odd(n, 7 - x, a[1], a[3], a[5], a[7])
    }
}

/// The matrix the network applies: the weight of input `u` in output `x`.
pub open spec fn matrix(n: Network, x: int, u: int) -> int {
    output(n, x, unit8(u))
}

/// Row `x` of the matrix.
pub open spec fn matrix_row(n: Network, x: int) -> Seq<int> {
    Seq::new(8, |u: int| matrix(n, x, u))
}

/// A bound on the magnitude of the weights of a network.
pub open spec fn weight_bound(n: Network) -> int {
    match n {
        Network::Llm => 0x200_0000_0000,
        Network::Aan => 0x80_0000_0000,
        Network::AanDouble => 0x800_0000_0000,
        Network::Ap922 => 0x200_0000_0000,
        Network::Ap922Row0 => 0x4_0000,
        Network::Ap922Row1 => 0x4_0000,
        Network::Ap922Row2 => 0x4_0000,
        Network::Ap922Row3 => 0x4_0000,
        Network::LlmForward => 0x200_0000_0000,
    }
}

/// Rows 4..8 of an inverse matrix mirror rows 0..4, with the odd columns negated.
pub proof fn lemma_matrix_mirror(n: Network, r: int, u: int)
    requires
        !is_forward(n),
        0 <= r < 4,
        0 <= u < 8,
    ensures
        matrix(n, 7 - r, u) == if u % 2 == 0 {
            matrix(n, r, u)
        } else {
            -matrix(n, r, u)
        },
{
    reveal(even);
    reveal(odd);
    let e = unit8(u);
    assert(e[0] == if u == 0 { 1int } else { 0int });
    assert(e[1] == if u == 1 { 1int } else { 0int });
    assert(e[2] == if u == 2 { 1int } else { 0int });
    assert(e[3] == if u == 3 { 1int } else { 0int });
    assert(e[4] == if u == 4 { 1int } else { 0int });
    assert(e[5] == if u == 5 { 1int } else { 0int });
    assert(e[6] == if u == 6 { 1int } else { 0int });
    assert(e[7] == if u == 7 { 1int } else { 0int });
}

/// Columns 4..8 of a forward matrix mirror columns 0..4, with the odd rows negated.
pub proof fn lemma_forward_mirror(n: Network, x: int, u: int)
    requires
        is_forward(n),
        0 <= x < 8,
        0 <= u < 4,
    ensures
        matrix(n, x, 7 - u) == if x % 2 == 0 {
            matrix(n, x, u)
        } else {
            -matrix(n, x, u)
        },
{
    reveal(even);
    reveal(odd);
    let e = unit8(u);
    let m = unit8(7 - u);
    assert(e[0] + e[7] == m[0] + m[7] && e[0] - e[7] == -(m[0] - m[7]));
    assert(e[1] + e[6] == m[1] + m[6] && e[1] - e[6] == -(m[1] - m[6]));
    assert(e[2] + e[5] == m[2] + m[5] && e[2] - e[5] == -(m[2] - m[5]));
    assert(e[3] + e[4] == m[3] + m[4] && e[3] - e[4] == -(m[3] - m[4]));
    if x == 1 {
    } else if x == 3 {
    } else if x == 5 {
    } else if x == 7 {
    }
}

/// The even and the odd part are additive: the part of a sum or a difference
/// of two sets of four arguments is made of the parts of each argument alone.
#[verifier::rlimit(40)]
proof fn lemma_parts_add_up(
    n: Network,
    j: int,
    s0: int,
    s1: int,
    s2: int,
    s3: int,
    t0: int,
    t1: int,
    t2: int,
    t3: int,
)
    ensures
        even(n, j, s0 + t0, s1 + t1, s2 + t2, s3 + t3) == even(n, j, s0, 0, 0, 0) + even(
            n,
            j,
            0,
            s1,
            0,
            0,
        ) + even(n, j, 0, 0, s2, 0) + even(n, j, 0, 0, 0, s3) + even(n, j, t0, 0, 0, 0) + even(
            n,
            j,
            0,
            t1,
            0,
            0,
        ) + even(n, j, 0, 0, t2, 0) + even(n, j, 0, 0, 0, t3),
        odd(n, j, s0 - t0, s1 - t1, s2 - t2, s3 - t3) == odd(n, j, s0, 0, 0, 0) + odd(
            n,
            j,
            0,
            s1,
            0,
            0,
        ) + odd(n, j, 0, 0, s2, 0) + odd(n, j, 0, 0, 0, s3) - odd(n, j, t0, 0, 0, 0) - odd(
            n,
            j,
            0,
            t1,
            0,
            0,
        ) - odd(n, j, 0, 0, t2, 0) - odd(n, j, 0, 0, 0, t3),
{
    reveal(even);
    reveal(odd);
}

/// In a forward network the even part is the pair sums weighted by the first
/// four columns of the matrix, the odd part the pair differences.
proof fn lemma_forward_weights(n: Network, x: int, a: Seq<int>)
    requires
        is_forward(n),
        0 <= x < 8,
        a.len() == 8,
    ensures
        output(n, x, a) == matrix(n, x, 0) * a[0] + matrix(n, x, 1) * a[1] + matrix(n, x, 2) * a[2]
            + matrix(n, x, 3) * a[3] + matrix(n, x, 4) * a[4] + matrix(n, x, 5) * a[5] + matrix(
            n,
            x,
            6,
        ) * a[6] + matrix(n, x, 7) * a[7],
{
    reveal(even);
    reveal(odd);
    lemma_forward_mirror(n, x, 0);
    lemma_forward_mirror(n, x, 1);
    lemma_forward_mirror(n, x, 2);
    lemma_forward_mirror(n, x, 3);
    lemma_mul_negate(matrix(n, x, 0), a[7]);
    lemma_mul_negate(matrix(n, x, 1), a[6]);
    lemma_mul_negate(matrix(n, x, 2), a[5]);
    lemma_mul_negate(matrix(n, x, 3), a[4]);
    let j = x / 2;
    lemma_parts_add_up(n, j, a[0], a[1], a[2], a[3], a[7], a[6], a[5], a[4]);
    if x == 0 {
        assert(matrix(n, x, 0) * a[0] == even(n, j, a[0], 0, 0, 0));
        assert(matrix(n, x, 0) * a[7] == even(n, j, a[7], 0, 0, 0));
        assert(matrix(n, x, 1) * a[1] == even(n, j, 0, a[1], 0, 0));
        assert(matrix(n, x, 1) * a[6] == even(n, j, 0, a[6], 0, 0));
        assert(matrix(n, x, 2) * a[2] == even(n, j, 0, 0, a[2], 0));
        assert(matrix(n, x, 2) * a[5] == even(n, j, 0, 0, a[5], 0));
        assert(matrix(n, x, 3) * a[3] == even(n, j, 0, 0, 0, a[3]));
        assert(matrix(n, x, 3) * a[4] == even(n, j, 0, 0, 0, a[4]));
    } else if x == 1 {
        assert(matrix(n, x, 0) * a[0] == odd(n, j, a[0], 0, 0, 0));
        assert(matrix(n, x, 0) * a[7] == odd(n, j, a[7], 0, 0, 0));
        assert(matrix(n, x, 1) * a[1] == odd(n, j, 0, a[1], 0, 0));
        assert(matrix(n, x, 1) * a[6] == odd(n, j, 0, a[6], 0, 0));
        assert(matrix(n, x, 2) * a[2] == odd(n, j, 0, 0, a[2], 0));
        assert(matrix(n, x, 2) * a[5] == odd(n, j, 0, 0, a[5], 0));
        assert(matrix(n, x, 3) * a[3] == odd(n, j, 0, 0, 0, a[3]));
        assert(matrix(n, x, 3) * a[4] == odd(n, j, 0, 0, 0, a[4]));
    } else if x == 2 {
        assert(matrix(n, x, 0) * a[0] == even(n, j, a[0], 0, 0, 0));
        assert(matrix(n, x, 0) * a[7] == even(n, j, a[7], 0, 0, 0));
        assert(matrix(n, x, 1) * a[1] == even(n, j, 0, a[1], 0, 0));
        assert(matrix(n, x, 1) * a[6] == even(n, j, 0, a[6], 0, 0));
        assert(matrix(n, x, 2) * a[2] == even(n, j, 0, 0, a[2], 0));
        assert(matrix(n, x, 2) * a[5] == even(n, j, 0, 0, a[5], 0));
        assert(matrix(n, x, 3) * a[3] == even(n, j, 0, 0, 0, a[3]));
        assert(matrix(n, x, 3) * a[4] == even(n, j, 0, 0, 0, a[4]));
    } else if x == 3 {
        assert(matrix(n, x, 0) * a[0] == odd(n, j, a[0], 0, 0, 0));
        assert(matrix(n, x, 0) * a[7] == odd(n, j, a[7], 0, 0, 0));
        assert(matrix(n, x, 1) * a[1] == odd(n, j, 0, a[1], 0, 0));
        assert(matrix(n, x, 1) * a[6] == odd(n, j, 0, a[6], 0, 0));
        assert(matrix(n, x, 2) * a[2] == odd(n, j, 0, 0, a[2], 0));
        assert(matrix(n, x, 2) * a[5] == odd(n, j, 0, 0, a[5], 0));
        assert(matrix(n, x, 3) * a[3] == odd(n, j, 0, 0, 0, a[3]));
        assert(matrix(n, x, 3) * a[4] == odd(n, j, 0, 0, 0, a[4]));
    } else if x == 4 {
        assert(matrix(n, x, 0) * a[0] == even(n, j, a[0], 0, 0, 0));
        assert(matrix(n, x, 0) * a[7] == even(n, j, a[7], 0, 0, 0));
        assert(matrix(n, x, 1) * a[1] == even(n, j, 0, a[1], 0, 0));
        assert(matrix(n, x, 1) * a[6] == even(n, j, 0, a[6], 0, 0));
        assert(matrix(n, x, 2) * a[2] == even(n, j, 0, 0, a[2], 0));
        assert(matrix(n, x, 2) * a[5] == even(n, j, 0, 0, a[5], 0));
        assert(matrix(n, x, 3) * a[3] == even(n, j, 0, 0, 0, a[3]));
        assert(matrix(n, x, 3) * a[4] == even(n, j, 0, 0, 0, a[4]));
    } else if x == 5 {
        assert(matrix(n, x, 0) * a[0] == odd(n, j, a[0], 0, 0, 0));
        assert(matrix(n, x, 0) * a[7] == odd(n, j, a[7], 0, 0, 0));
        assert(matrix(n, x, 1) * a[1] == odd(n, j, 0, a[1], 0, 0));
        assert(matrix(n, x, 1) * a[6] == odd(n, j, 0, a[6], 0, 0));
        assert(matrix(n, x, 2) * a[2] == odd(n, j, 0, 0, a[2], 0));
        assert(matrix(n, x, 2) * a[5] == odd(n, j, 0, 0, a[5], 0));
        assert(matrix(n, x, 3) * a[3] == odd(n, j, 0, 0, 0, a[3]));
        assert(matrix(n, x, 3) * a[4] == odd(n, j, 0, 0, 0, a[4]));
    } else if x == 6 {
        assert(matrix(n, x, 0) * a[0] == even(n, j, a[0], 0, 0, 0));
        assert(matrix(n, x, 0) * a[7] == even(n, j, a[7], 0, 0, 0));
        assert(matrix(n, x, 1) * a[1] == even(n, j, 0, a[1], 0, 0));
        assert(matrix(n, x, 1) * a[6] == even(n, j, 0, a[6], 0, 0));
        assert(matrix(n, x, 2) * a[2] == even(n, j, 0, 0, a[2], 0));
        assert(matrix(n, x, 2) * a[5] == even(n, j, 0, 0, a[5], 0));
        assert(matrix(n, x, 3) * a[3] == even(n, j, 0, 0, 0, a[3]));
        assert(matrix(n, x, 3) * a[4] == even(n, j, 0, 0, 0, a[4]));
    } else {
        assert(matrix(n, x, 0) * a[0] == odd(n, j, a[0], 0, 0, 0));
        assert(matrix(n, x, 0) * a[7] == odd(n, j, a[7], 0, 0, 0));
        assert(matrix(n, x, 1) * a[1] == odd(n, j, 0, a[1], 0, 0));
        assert(matrix(n, x, 1) * a[6] == odd(n, j, 0, a[6], 0, 0));
        assert(matrix(n, x, 2) * a[2] == odd(n, j, 0, 0, a[2], 0));
        assert(matrix(n, x, 2) * a[5] == odd(n, j, 0, 0, a[5], 0));
        assert(matrix(n, x, 3) * a[3] == odd(n, j, 0, 0, 0, a[3]));
        assert(matrix(n, x, 3) * a[4] == odd(n, j, 0, 0, 0, a[4]));
    }
}

/// The even part is the even inputs weighted by the even columns of the matrix.
proof fn lemma_even_weights(n: Network, r: int, a0: int, a2: int, a4: int, a6: int)
    requires
        !is_forward(n),
        0 <= r < 4,
    ensures
        even(n, r, a0, a2, a4, a6) == matrix(n, r, 0) * a0 + matrix(n, r, 2) * a2 + matrix(n, r, 4)
            * a4 + matrix(n, r, 6) * a6,
{
    reveal(even);
    reveal(odd);
    if r == 0 {
    } else if r == 1 {
    } else if r == 2 {
    } else {
    }
}

/// The odd part is the odd inputs weighted by the odd columns of the matrix.
proof fn lemma_odd_weights(n: Network, r: int, a1: int, a3: int, a5: int, a7: int)
    requires
        !is_forward(n),
        0 <= r < 4,
    ensures
        odd(n, r, a1, a3, a5, a7) == matrix(n, r, 1) * a1 + matrix(n, r, 3) * a3 + matrix(n, r, 5)
            * a5 + matrix(n, r, 7) * a7,
{
    reveal(even);
    reveal(odd);
    if r == 0 {
    } else if r == 1 {
    } else if r == 2 {
    } else {
    }
}

/// An output of a network is its input weighted by a row of the matrix.
pub proof fn lemma_output_is_dot(n: Network, x: int, a: Seq<int>)
    requires
        0 <= x < 8,
        a.len() == 8,
    ensures
        output(n, x, a) == dot8(matrix_row(n, x), a),
{
    assert forall|u: int| 0 <= u < 8 implies #[trigger] matrix_row(n, x)[u] == matrix(n, x, u) by {}
    if is_forward(n) {
        lemma_forward_weights(n, x, a);
        return ;
    }
    let r = if x < 4 {
        x
    } else {
        7 - x
    };
    lemma_even_weights(n, r, a[0], a[2], a[4], a[6]);
    lemma_odd_weights(n, r, a[1], a[3], a[5], a[7]);
    if x >= 4 {
        lemma_matrix_mirror(n, r, 0);
        lemma_matrix_mirror(n, r, 1);
        lemma_matrix_mirror(n, r, 2);
        lemma_matrix_mirror(n, r, 3);
        lemma_matrix_mirror(n, r, 4);
        lemma_matrix_mirror(n, r, 5);
        lemma_matrix_mirror(n, r, 6);
        lemma_matrix_mirror(n, r, 7);
        lemma_mul_negate(matrix(n, r, 1), a[1]);
        lemma_mul_negate(matrix(n, r, 3), a[3]);
        lemma_mul_negate(matrix(n, r, 5), a[5]);
        lemma_mul_negate(matrix(n, r, 7), a[7]);
    }
}

/// A weight lies within the bound of its network.
pub open spec fn weight_in_bound(n: Network, x: int, u: int) -> bool {
    -weight_bound(n) <= matrix(n, x, u) <= weight_bound(n)
}

/// No weight exceeds the bound of its network.
#[verifier::rlimit(60)]
#[verifier::spinoff_prover]
pub proof fn lemma_matrix_bound(n: Network, x: int, u: int)
    requires
        0 <= x < 8,
        0 <= u < 8,
    ensures
        -weight_bound(n) <= matrix(n, x, u) <= weight_bound(n),
{
    reveal(even);
    reveal(odd);
    match n {
        Network::Llm => {
            let p = |x: int, u: int| weight_in_bound(Network::Llm, x, u);
            assert(holds_on_grid(p));
            lemma_grid(p);
            assert(p(x, u));
        },
        Network::Aan => {
            let p = |x: int, u: int| weight_in_bound(Network::Aan, x, u);
            assert(holds_on_grid(p));
            lemma_grid(p);
            assert(p(x, u));
        },
        Network::AanDouble => {
            let p = |x: int, u: int| weight_in_bound(Network::AanDouble, x, u);
            assert(holds_on_grid(p));
            lemma_grid(p);
            assert(p(x, u));
        },
        Network::Ap922 => {
            let p = |x: int, u: int| weight_in_bound(Network::Ap922, x, u);
            assert(holds_on_grid(p));
            lemma_grid(p);
            assert(p(x, u));
        },
        Network::Ap922Row0 => {
            let p = |x: int, u: int| weight_in_bound(Network::Ap922Row0, x, u);
            assert(holds_on_grid(p));
            lemma_grid(p);
            assert(p(x, u));
        },
        Network::Ap922Row1 => {
            let p = |x: int, u: int| weight_in_bound(Network::Ap922Row1, x, u);
            assert(holds_on_grid(p));
            lemma_grid(p);
            assert(p(x, u));
        },
        Network::Ap922Row2 => {
            let p = |x: int, u: int| weight_in_bound(Network::Ap922Row2, x, u);
            assert(holds_on_grid(p));
            lemma_grid(p);
            assert(p(x, u));
        },
        Network::Ap922Row3 => {
            let p = |x: int, u: int| weight_in_bound(Network::Ap922Row3, x, u);
            assert(holds_on_grid(p));
            lemma_grid(p);
            assert(p(x, u));
        },
        Network::LlmForward => {
            let p = |x: int, u: int| weight_in_bound(Network::LlmForward, x, u);
            assert(holds_on_grid(p));
            lemma_grid(p);
            assert(p(x, u));
        },
    }
}

/// An output of a network stays below eight times the bound `m` of its
/// inputs times the bound of the weights; `b` is the product of the two.
pub proof fn lemma_output_bound(n: Network, x: int, a: Seq<int>, m: int, b: int)
    requires
        0 <= x < 8,
        a.len() == 8,
        forall|i: int| 0 <= i < 8 ==> -m <= #[trigger] a[i] <= m,
        b == weight_bound(n) * m,
    ensures
        -8 * b <= output(n, x, a) <= 8 * b,
{
    lemma_output_is_dot(n, x, a);
    assert forall|u: int| 0 <= u < 8 implies -weight_bound(n) <= #[trigger] matrix_row(n, x)[u]
        <= weight_bound(n) by {
        lemma_matrix_bound(n, x, u);
    }
    lemma_dot8_bound(matrix_row(n, x), a, weight_bound(n), m, b);
}

} // verus!
