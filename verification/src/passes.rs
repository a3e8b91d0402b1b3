//! One butterfly network applied along every row or every column of a block,
//! and the last stage that turns the sums into samples.
use crate::aan;
use crate::aan_double;
use crate::ap922;
use crate::butterfly::{lemma_output_bound, output, weight_bound, Network};
use crate::fixed::{lemma_sample_saturates, sample_of, to_sample};
use crate::linear::{col8, ints, row8};
use crate::llm::llm_butterfly;
use crate::llm_forward::forward_butterfly;
use vstd::prelude::*;

verus! {

/// The largest magnitude a butterfly accepts: 2^77.
pub open spec fn input_limit() -> int {
    0x2000_0000_0000_0000_0000
}

/// Every number of the block lies within `m` of zero.
pub open spec fn within(s: Seq<i128>, m: int) -> bool {
    forall|k: int| 0 <= k < s.len() ==> -m <= #[trigger] s[k] <= m
}

/// The coefficients, widened for the arithmetic that follows.
pub fn widen(f: &[i32]) -> (w: [i128; 64])
    requires
        f.len() == 64,
    ensures
        forall|k: int| 0 <= k < 64 ==> #[trigger] w[k] == f[k],
        within(w@, 0x8000_0000),
{
    let mut w: [i128; 64] = [0; 64];
    let mut k: usize = 0;
    while k < 64
        invariant
            k <= 64,
            f.len() == 64,
            forall|n: int| 0 <= n < k ==> #[trigger] w[n] == f[n],
            forall|n: int| k <= n < 64 ==> #[trigger] w[n] == 0,
        decreases 64 - k,
    {
        w[k] = f[k] as i128;
        k += 1;
    }
    w
}

/// The butterfly of network `n` on eight numbers.
pub fn apply(n: Network, a: &[i128; 8]) -> (r: [i128; 8])
    requires
        within(a@, input_limit()),
    ensures
        forall|x: int| 0 <= x < 8 ==> #[trigger] r[x] == output(n, x, ints(a@)),
        within(a@, 0x8000_0000) ==> within(r@, input_limit()),
{
    let r = match n {
        Network::Llm => llm_butterfly(a),
        Network::Aan => aan::butterfly(a),
        Network::AanDouble => aan_double::butterfly(a),
        Network::Ap922 => ap922::second_butterfly(a),
        Network::Ap922Row0 => ap922::first_butterfly(0, a),
        Network::Ap922Row1 => ap922::first_butterfly(1, a),
        Network::Ap922Row2 => ap922::first_butterfly(2, a),
        Network::Ap922Row3 => ap922::first_butterfly(3, a),
        Network::LlmForward => forward_butterfly(a),
    };
    proof {
        if within(a@, 0x8000_0000) {
            assert forall|x: int| 0 <= x < 8 implies -input_limit() <= #[trigger] r[x]
                <= input_limit() by {
                lemma_output_bound(
                    n,
                    x,
                    ints(a@),
                    0x8000_0000,
                    weight_bound(n) * 0x8000_0000,
                );
            }
        }
    }
    r
}

/// The butterfly along every row: entry `v * 8 + x` of the result is output
/// `x` of the network for row `v` of the block.
pub fn rows_pass(n: Network, src: &[i128; 64]) -> (dst: [i128; 64])
    requires
        within(src@, input_limit()),
    ensures
        forall|k: int|
            0 <= k < 64 ==> #[trigger] dst[k] == output(n, k % 8, row8(ints(src@), k / 8)),
        within(src@, 0x8000_0000) ==> within(dst@, input_limit()),
{
    let mut dst: [i128; 64] = [0; 64];
    let mut v: usize = 0;
    while v < 8
        invariant
            v <= 8,
            within(src@, input_limit()),
            forall|k: int|
                0 <= k < 8 * v ==> #[trigger] dst[k] == output(n, k % 8, row8(ints(src@), k / 8)),
            forall|k: int| 8 * v <= k < 64 ==> #[trigger] dst[k] == 0,
            within(src@, 0x8000_0000) ==> within(dst@, input_limit()),
        decreases 8 - v,
    {
        let i = v * 8;
        let a: [i128; 8] = [
            src[i],
            src[i + 1],
            src[i + 2],
            src[i + 3],
            src[i + 4],
            src[i + 5],
            src[i + 6],
            src[i + 7],
        ];
        let o = apply(n, &a);
        assert(ints(a@) =~= row8(ints(src@), v as int));
        let mut x: usize = 0;
        while x < 8
            invariant
                x <= 8,
                v < 8,
                i == v * 8,
                forall|t: int|
                    0 <= t < 8 ==> #[trigger] o[t] == output(n, t, row8(ints(src@), v as int)),
                within(src@, 0x8000_0000) ==> within(o@, input_limit()),
                forall|k: int|
                    0 <= k < i + x ==> #[trigger] dst[k] == output(
                        n,
                        k % 8,
                        row8(ints(src@), k / 8),
                    ),
                forall|k: int| i + x <= k < 64 ==> #[trigger] dst[k] == 0,
                within(src@, 0x8000_0000) ==> within(dst@, input_limit()),
            decreases 8 - x,
        {
            dst[i + x] = o[x];
            x += 1;
        }
        v += 1;
    }
    dst
}

/// A butterfly along every column, column `u` through network `nets[u]`:
/// entry `y * 8 + u` of the result is output `y` of that network for column
/// `u` of the block.
pub fn columns_pass(nets: &[Network; 8], src: &[i128; 64]) -> (dst: [i128; 64])
    requires
        within(src@, input_limit()),
    ensures
        forall|k: int|
            0 <= k < 64 ==> #[trigger] dst[k] == output(nets[k % 8], k / 8, col8(ints(src@), k % 8)),
        within(src@, 0x8000_0000) ==> within(dst@, input_limit()),
{
    let mut dst: [i128; 64] = [0; 64];
    let mut u: usize = 0;
    while u < 8
        invariant
            u <= 8,
            within(src@, input_limit()),
            forall|k: int|
                0 <= k < 64 && k % 8 < u ==> #[trigger] dst[k] == output(
                    nets[k % 8],
                    k / 8,
                    col8(ints(src@), k % 8),
                ),
            forall|k: int| 0 <= k < 64 && k % 8 >= u ==> #[trigger] dst[k] == 0,
            within(src@, 0x8000_0000) ==> within(dst@, input_limit()),
        decreases 8 - u,
    {
        let a: [i128; 8] = [
            src[u],
            src[8 + u],
            src[16 + u],
            src[24 + u],
            src[32 + u],
            src[40 + u],
            src[48 + u],
            src[56 + u],
        ];
        let o = apply(nets[u], &a);
        assert(ints(a@) =~= col8(ints(src@), u as int));
        let mut y: usize = 0;
        while y < 8
            invariant
                y <= 8,
                u < 8,
                forall|t: int|
                    0 <= t < 8 ==> #[trigger] o[t] == output(
                        nets[u as int],
                        t,
                        col8(ints(src@), u as int),
                    ),
                within(src@, 0x8000_0000) ==> within(o@, input_limit()),
                forall|k: int|
                    0 <= k < 64 && (k % 8 < u || (k % 8 == u && k / 8 < y)) ==> #[trigger] dst[k]
                        == output(nets[k % 8], k / 8, col8(ints(src@), k % 8)),
                forall|k: int|
                    0 <= k < 64 && !(k % 8 < u || (k % 8 == u && k / 8 < y)) ==> #[trigger] dst[k]
                        == 0,
                within(src@, 0x8000_0000) ==> within(dst@, input_limit()),
            decreases 8 - y,
        {
            dst[y * 8 + u] = o[y];
            y += 1;
        }
        u += 1;
    }
    dst
}

/// The last stage: each sum rounded at scale `d`, level shifted and clamped.
pub fn finish(sums: &[i128; 64], d: i128) -> (r: Vec<u8>)
    requires
        d > 0,
    ensures
        r.len() == 64,
        forall|k: int| 0 <= k < 64 ==> #[trigger] r[k] == sample_of(sums[k] as int, d as int),
{
    let mut vals: Vec<u8> = Vec::new();
    let mut k: usize = 0;
    while k < 64
        invariant
            k <= 64,
            d > 0,
            vals.len() == k,
            forall|n: int| 0 <= n < k ==> #[trigger] vals[n] == sample_of(sums[n] as int, d as int),
        decreases 64 - k,
    {
        proof {
            lemma_sample_saturates(sums[k as int] as int, d as int);
        }
        vals.push(to_sample(sums[k], d));
        k += 1;
    }
    vals
}

} // verus!
