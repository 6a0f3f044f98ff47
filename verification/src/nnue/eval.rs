//! The integer front of the evaluation: the activated feature transformer output, the blocks
//! of it that are not zero, and the first layer's sums over those blocks.

use vstd::prelude::*;
use crate::chess::{Color, color_index};
use crate::nnue::network::{Aligned, Network, HL, HALF_HL, HL_QUARTER, L1, OUTPUTS};

verus! {

/// An accumulator lane clamped to `[0, 255]`.
pub open spec fn clamp_qa(x: int) -> int {
    if x < 0 {
        0
    } else if x > 255 {
        255
    } else {
        x
    }
}

/// The accumulator that feeds half `half` of the output: the side to move's first.
pub open spec fn half_owner(stm: Color, half: int) -> int {
    if half == 0 { color_index(stm) } else { 1 - color_index(stm) }
}

/// Output `idx` of the activation: lane `i` of its half, clamped, times lane `i + 384`,
/// clamped, shifted down by 8 bits.
pub open spec fn ft_value(acc: [Aligned<i16, 768>; 2], thr: [Aligned<i16, 768>; 2], stm: Color, idx: int) -> int {
    let half = idx / 384;
    let i = idx % 384;
    let o = half_owner(stm, half);
    (clamp_qa(acc[o].0[i] + thr[o].0[i]) * clamp_qa(acc[o].0[i + 384] + thr[o].0[i + 384])) / 256
}

/// Whether the sums of the two accumulators of each side fit an `i16`.
pub open spec fn sums_fit(acc: [Aligned<i16, 768>; 2], thr: [Aligned<i16, 768>; 2]) -> bool {
    forall|s: int, l: int| 0 <= s < 2 && 0 <= l < 768 ==> i16::MIN <= #[trigger] acc[s].0[l] + thr[s].0[l] <= i16::MAX
}

fn clamp_lane(x: i16) -> (r: u16)
    ensures
        r == clamp_qa(x as int),
{
    if x < 0 {
        0
    } else if x > 255 {
        255
    } else {
        x as u16
    }
}

/// Fills `ft` with the activation of the piece and threat accumulators, the side to move's
/// half first.
pub fn activate(acc: &[Aligned<i16, 768>; 2], thr: &[Aligned<i16, 768>; 2], stm: Color, ft: &mut Aligned<u8, 768>)
    requires
        sums_fit(*acc, *thr),
    ensures
        forall|idx: int| 0 <= idx < 768 ==> #[trigger] final(ft).0[idx] == ft_value(*acc, *thr, stm, idx),
{
    let mut half: usize = 0;
    while half < 2
        invariant
            half <= 2,
            sums_fit(*acc, *thr),
            forall|idx: int| 0 <= idx < half * 384 ==> #[trigger] ft.0[idx] == ft_value(*acc, *thr, stm, idx),
        decreases 2 - half,
    {
        let o: usize = if half == 0 { stm.index() } else { 1 - stm.index() };
        let a = &acc[o];
        let t = &thr[o];
        let mut i: usize = 0;
        while i < HALF_HL
            invariant
                half < 2,
                i <= HALF_HL,
                o == half_owner(stm, half as int),
                *a == acc[o as int],
                *t == thr[o as int],
                sums_fit(*acc, *thr),
                forall|idx: int| 0 <= idx < half * 384 + i ==> #[trigger] ft.0[idx] == ft_value(*acc, *thr, stm, idx),
            decreases HALF_HL - i,
        {
            assert(i16::MIN <= a.0[i as int] + t.0[i as int] <= i16::MAX);
            assert(i16::MIN <= a.0[i + 384] + t.0[i + 384] <= i16::MAX);
            let x0 = clamp_lane(a.0[i] + t.0[i]);
            let x1 = clamp_lane(a.0[i + HALF_HL] + t.0[i + HALF_HL]);
            assert(x0 * x1 <= 255 * 255) by (nonlinear_arith)
                requires x0 <= 255, x1 <= 255;
            let p: u16 = x0 * x1;
            let v = p >> 8u16;
            assert(v == p / 256) by (bit_vector)
                requires v == p >> 8u16;
            let idx = half * HALF_HL + i;
            assert(idx / 384 == half && idx % 384 == i);
            ft.0[idx] = v as u8;
            i += 1;
        }
        half += 1;
    }
}

// ---------------------------------------------------------------------------------------------
// non-zero blocks

/// Whether block `c` (outputs `4c..4c+4`) holds a non-zero output.
pub open spec fn block_nonzero(ft: [u8; 768], c: int) -> bool {
    ft[4 * c] != 0 || ft[4 * c + 1] != 0 || ft[4 * c + 2] != 0 || ft[4 * c + 3] != 0
}

/// The non-zero blocks below `n`, ascending.
pub open spec fn nz_blocks(ft: [u8; 768], n: nat) -> Seq<int>
    decreases n,
{
    if n == 0 {
        Seq::empty()
    } else if block_nonzero(ft, n - 1) {
        nz_blocks(ft, (n - 1) as nat).push(n - 1)
    } else {
        nz_blocks(ft, (n - 1) as nat)
    }
}

proof fn lemma_nz_blocks_bounds(ft: [u8; 768], n: nat)
    ensures
        nz_blocks(ft, n).len() <= n,
        forall|t: int| 0 <= t < nz_blocks(ft, n).len() ==> 0 <= #[trigger] nz_blocks(ft, n)[t] < n,
    decreases n,
{
    if n > 0 {
        lemma_nz_blocks_bounds(ft, (n - 1) as nat);
    }
}

/// Lists in `idx` the blocks of `ft` that are not zero, ascending, and returns how many.
pub fn nonzero_blocks(ft: &Aligned<u8, 768>, idx: &mut Aligned<u16, 192>) -> (n: usize)
    ensures
        n == nz_blocks(ft.0, 192).len(),
        forall|t: int| 0 <= t < n ==> #[trigger] final(idx).0[t] == nz_blocks(ft.0, 192)[t],
{
    let mut n: usize = 0;
    let mut c: usize = 0;
    while c < HL_QUARTER
        invariant
            c <= HL_QUARTER,
            n == nz_blocks(ft.0, c as nat).len(),
            forall|t: int| 0 <= t < n ==> #[trigger] idx.0[t] == nz_blocks(ft.0, c as nat)[t],
        decreases HL_QUARTER - c,
    {
        proof {
            lemma_nz_blocks_bounds(ft.0, c as nat);
        }
        let b = 4 * c;
        if ft.0[b] != 0 || ft.0[b + 1] != 0 || ft.0[b + 2] != 0 || ft.0[b + 3] != 0 {
            idx.0[n] = c as u16;
            n += 1;
        }
        c += 1;
    }
    n
}

// ---------------------------------------------------------------------------------------------
// first layer

/// The contribution of block `c` to neuron `j` of the first layer in output bucket `bucket`.
pub open spec fn block_dot(w: Seq<Aligned<i8, 128>>, bucket: int, ft: [u8; 768], c: int, j: int) -> int {
    let row = w[bucket * 192 + c].0;
    ft[4 * c] * row[4 * j] + ft[4 * c + 1] * row[4 * j + 1] + ft[4 * c + 2] * row[4 * j + 2] + ft[4 * c + 3]
        * row[4 * j + 3]
}

/// Neuron `j`'s sum over the blocks below `m`.
pub open spec fn dense_l1(w: Seq<Aligned<i8, 128>>, bucket: int, ft: [u8; 768], j: int, m: nat) -> int
    decreases m,
{
    if m == 0 {
        0
    } else {
        dense_l1(w, bucket, ft, j, (m - 1) as nat) + block_dot(w, bucket, ft, m - 1, j)
    }
}

/// Neuron `j`'s sum over the first `t` blocks of `list`.
pub open spec fn sparse_l1(w: Seq<Aligned<i8, 128>>, bucket: int, ft: [u8; 768], list: Seq<int>, j: int, t: nat) -> int
    decreases t,
{
    if t == 0 {
        0
    } else {
        sparse_l1(w, bucket, ft, list, j, (t - 1) as nat) + block_dot(w, bucket, ft, list[t - 1], j)
    }
}

proof fn lemma_block_dot_bound(w: Seq<Aligned<i8, 128>>, bucket: int, ft: [u8; 768], c: int, j: int)
    requires
        0 <= c < 192,
        0 <= j < 32,
    ensures
        -4 * 255 * 128 <= block_dot(w, bucket, ft, c, j) <= 4 * 255 * 128,
{
    let row = w[bucket * 192 + c].0;
    let f0 = ft[4 * c] as int;
    let f1 = ft[4 * c + 1] as int;
    let f2 = ft[4 * c + 2] as int;
    let f3 = ft[4 * c + 3] as int;
    let r0 = row[4 * j] as int;
    let r1 = row[4 * j + 1] as int;
    let r2 = row[4 * j + 2] as int;
    let r3 = row[4 * j + 3] as int;
    assert(-255 * 128 <= f0 * r0 <= 255 * 128) by (nonlinear_arith)
        requires 0 <= f0 <= 255, -128 <= r0 <= 127;
    assert(-255 * 128 <= f1 * r1 <= 255 * 128) by (nonlinear_arith)
        requires 0 <= f1 <= 255, -128 <= r1 <= 127;
    assert(-255 * 128 <= f2 * r2 <= 255 * 128) by (nonlinear_arith)
        requires 0 <= f2 <= 255, -128 <= r2 <= 127;
    assert(-255 * 128 <= f3 * r3 <= 255 * 128) by (nonlinear_arith)
        requires 0 <= f3 <= 255, -128 <= r3 <= 127;
}

proof fn lemma_zero_block(w: Seq<Aligned<i8, 128>>, bucket: int, ft: [u8; 768], c: int, j: int)
    requires
        !block_nonzero(ft, c),
    ensures
        block_dot(w, bucket, ft, c, j) == 0,
{
}

/// Summing the first layer over the non-zero blocks alone gives the sum over every block:
/// a block of zeros adds nothing.
pub proof fn lemma_sparse_matches_dense(w: Seq<Aligned<i8, 128>>, bucket: int, ft: [u8; 768], j: int, m: nat)
    ensures
        sparse_l1(w, bucket, ft, nz_blocks(ft, m), j, nz_blocks(ft, m).len()) == dense_l1(w, bucket, ft, j, m),
    decreases m,
{
    if m > 0 {
        let k = (m - 1) as nat;
        lemma_sparse_matches_dense(w, bucket, ft, j, k);
        let prev = nz_blocks(ft, k);
        if block_nonzero(ft, k as int) {
            let cur = prev.push(k as int);
            lemma_sparse_prefix(w, bucket, ft, prev, cur, j, prev.len());
        } else {
            lemma_zero_block(w, bucket, ft, k as int, j);
        }
    }
}

/// The sum over a prefix reads only that prefix.
proof fn lemma_sparse_prefix(w: Seq<Aligned<i8, 128>>, bucket: int, ft: [u8; 768], a: Seq<int>, b: Seq<int>, j: int, t: nat)
    requires
        t <= a.len(),
        t <= b.len(),
        forall|i: int| 0 <= i < t ==> a[i] == b[i],
    ensures
        sparse_l1(w, bucket, ft, a, j, t) == sparse_l1(w, bucket, ft, b, j, t),
    decreases t,
{
    if t > 0 {
        lemma_sparse_prefix(w, bucket, ft, a, b, j, (t - 1) as nat);
    }
}

proof fn lemma_sparse_bound(w: Seq<Aligned<i8, 128>>, bucket: int, ft: [u8; 768], list: Seq<int>, j: int, t: nat)
    requires
        t <= list.len(),
        0 <= j < 32,
        forall|i: int| 0 <= i < list.len() ==> 0 <= #[trigger] list[i] < 192,
    ensures
        -(t * 4 * 255 * 128) <= sparse_l1(w, bucket, ft, list, j, t) <= t * 4 * 255 * 128,
    decreases t,
{
    if t > 0 {
        lemma_sparse_bound(w, bucket, ft, list, j, (t - 1) as nat);
        lemma_block_dot_bound(w, bucket, ft, list[t - 1], j);
    }
}

fn dot_block(row: &Aligned<i8, 128>, ft: &Aligned<u8, 768>, c: usize, j: usize) -> (r: i32)
    requires
        c < 192,
        j < 32,
    ensures
        r == ft.0[4 * c] * row.0[4 * j] + ft.0[4 * c + 1] * row.0[4 * j + 1] + ft.0[4 * c + 2] * row.0[4 * j
            + 2] + ft.0[4 * c + 3] * row.0[4 * j + 3],
{
    let b = 4 * c;
    let q = 4 * j;
    let f0 = ft.0[b] as i32;
    let f1 = ft.0[b + 1] as i32;
    let f2 = ft.0[b + 2] as i32;
    let f3 = ft.0[b + 3] as i32;
    let w0 = row.0[q] as i32;
    let w1 = row.0[q + 1] as i32;
    let w2 = row.0[q + 2] as i32;
    let w3 = row.0[q + 3] as i32;
    assert(-255 * 128 <= f0 * w0 <= 255 * 128) by (nonlinear_arith)
        requires 0 <= f0 <= 255, -128 <= w0 <= 127;
    assert(-255 * 128 <= f1 * w1 <= 255 * 128) by (nonlinear_arith)
        requires 0 <= f1 <= 255, -128 <= w1 <= 127;
    assert(-255 * 128 <= f2 * w2 <= 255 * 128) by (nonlinear_arith)
        requires 0 <= f2 <= 255, -128 <= w2 <= 127;
    assert(-255 * 128 <= f3 * w3 <= 255 * 128) by (nonlinear_arith)
        requires 0 <= f3 <= 255, -128 <= w3 <= 127;
    f0 * w0 + f1 * w1 + f2 * w2 + f3 * w3
}

/// The first layer's sums in output bucket `bucket`, read from the `n` blocks listed in
/// `idx`: each neuron's sum over every block of `ft`, when `idx` lists its non-zero blocks.
pub fn l1_sums(network: &Network, bucket: usize, ft: &Aligned<u8, 768>, idx: &Aligned<u16, 192>, n: usize) -> (r: [i32; 32])
    requires
        network.wf(),
        bucket < OUTPUTS,
        n == nz_blocks(ft.0, 192).len(),
        forall|t: int| 0 <= t < n ==> #[trigger] idx.0[t] == nz_blocks(ft.0, 192)[t],
    ensures
        forall|j: int| 0 <= j < 32 ==> #[trigger] r[j] == dense_l1(network.l1_weights@, bucket as int, ft.0, j, 192),
{
    let ghost list = nz_blocks(ft.0, 192);
    proof {
        lemma_nz_blocks_bounds(ft.0, 192);
    }
    let mut sums: [i32; 32] = [0; 32];
    let mut t: usize = 0;
    while t < n
        invariant
            t <= n,
            n == list.len(),
            n <= 192,
            list == nz_blocks(ft.0, 192),
            network.wf(),
            bucket < OUTPUTS,
            forall|i: int| 0 <= i < list.len() ==> 0 <= #[trigger] list[i] < 192,
            forall|i: int| 0 <= i < n ==> #[trigger] idx.0[i] == list[i],
            forall|j: int| 0 <= j < 32 ==> #[trigger] sums[j] == sparse_l1(network.l1_weights@, bucket as int, ft.0, list, j, t as nat),
        decreases n - t,
    {
        let c = idx.0[t] as usize;
        assert(c == list[t as int]);
        let row = &network.l1_weights[bucket * HL_QUARTER + c];
        let mut j: usize = 0;
        while j < L1
            invariant
                j <= L1,
                t < n,
                n == list.len(),
                n <= 192,
                c == list[t as int],
                c < 192,
                bucket < OUTPUTS,
                network.wf(),
                *row == network.l1_weights@[bucket * 192 + c],
                forall|i: int| 0 <= i < list.len() ==> 0 <= #[trigger] list[i] < 192,
                forall|q: int| 0 <= q < j ==> #[trigger] sums[q] == sparse_l1(network.l1_weights@, bucket as int, ft.0, list, q, (t + 1) as nat),
                forall|q: int| j <= q < 32 ==> #[trigger] sums[q] == sparse_l1(network.l1_weights@, bucket as int, ft.0, list, q, t as nat),
            decreases L1 - j,
        {
            proof {
                lemma_sparse_bound(network.l1_weights@, bucket as int, ft.0, list, j as int, (t + 1) as nat);
                lemma_sparse_bound(network.l1_weights@, bucket as int, ft.0, list, j as int, t as nat);
                assert((t + 1) * 4 * 255 * 128 <= 192 * 4 * 255 * 128) by (nonlinear_arith)
                    requires t + 1 <= 192;
                assert(t * 4 * 255 * 128 <= 192 * 4 * 255 * 128) by (nonlinear_arith)
                    requires t <= 192;
            }
            let d = dot_block(row, ft, c, j);
            sums[j] = sums[j] + d;
            j += 1;
        }
        t += 1;
    }
    proof {
        assert forall|j: int| 0 <= j < 32 implies #[trigger] sums[j] == dense_l1(network.l1_weights@, bucket as int, ft.0, j, 192) by {
            lemma_sparse_matches_dense(network.l1_weights@, bucket as int, ft.0, j, 192);
        }
    }
    sums
}

} // verus!
