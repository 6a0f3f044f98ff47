//! Reordering the hidden neurons changes nothing the network computes: the accumulators
//! come out with their lanes reordered, the activation follows, and the first layer sums the
//! same products in another order.

use vstd::prelude::*;
use crate::chess::Color;
use crate::nnue::network::{Aligned, Network, threat_sum};
use crate::nnue::halfka::{acc_model, pieces_sum, bb_sum, cp_of};
use crate::nnue::eval::{ft_value, dense_l1, block_dot, half_owner};
use crate::nnue::raw::l1_moved;

verus! {

// ---------------------------------------------------------------------------------------------
// sums under a permutation

/// Some place below `n` of `p` holds `x`.
pub open spec fn reaches(p: Seq<int>, n: nat, x: int) -> bool {
    exists|h: int| 0 <= h < n && #[trigger] p[h] == x
}

/// `p` permutes `0..n`.
pub open spec fn is_perm(p: Seq<int>, n: nat) -> bool {
    &&& p.len() >= n
    &&& forall|h: int| 0 <= h < n ==> 0 <= #[trigger] p[h] < n
    &&& forall|a: int, b: int| 0 <= a < b < n ==> #[trigger] p[a] != #[trigger] p[b]
    &&& forall|x: int| 0 <= x < n ==> #[trigger] reaches(p, n, x)
}

/// `v[p[0]] + ... + v[p[n - 1]]`.
pub open spec fn psum(v: Seq<int>, p: Seq<int>, n: nat) -> int
    decreases n,
{
    if n == 0 {
        0
    } else {
        psum(v, p, (n - 1) as nat) + v[p[n - 1]]
    }
}

/// `v[0] + ... + v[n - 1]`.
pub open spec fn isum(v: Seq<int>, n: nat) -> int
    decreases n,
{
    if n == 0 {
        0
    } else {
        isum(v, (n - 1) as nat) + v[n - 1]
    }
}

proof fn lemma_psum_update(v: Seq<int>, p: Seq<int>, n: nat, k: int, x: int)
    requires
        0 <= k < n,
        n <= p.len(),
    ensures
        psum(v, p.update(k, x), n) == psum(v, p, n) - v[p[k]] + v[x],
    decreases n,
{
    if k < n - 1 {
        lemma_psum_update(v, p, (n - 1) as nat, k, x);
    } else {
        lemma_psum_same(v, p, p.update(k, x), (n - 1) as nat);
    }
}

proof fn lemma_psum_same(v: Seq<int>, p: Seq<int>, q: Seq<int>, n: nat)
    requires
        n <= p.len(),
        n <= q.len(),
        forall|h: int| 0 <= h < n ==> p[h] == q[h],
    ensures
        psum(v, p, n) == psum(v, q, n),
    decreases n,
{
    if n > 0 {
        lemma_psum_same(v, p, q, (n - 1) as nat);
    }
}

/// Summing in the order of a permutation gives the plain sum.
pub proof fn lemma_reindex(v: Seq<int>, p: Seq<int>, n: nat)
    requires
        is_perm(p, n),
    ensures
        psum(v, p, n) == isum(v, n),
    decreases n,
{
    if n > 0 {
        let last = n - 1;
        assert(reaches(p, n, last));
        let k = choose|h: int| 0 <= h < n && #[trigger] p[h] == last;
        let q = p.update(k, p[last]);
        // `q` on `0..n-1` permutes `0..n-1`
        assert forall|h: int| 0 <= h < n - 1 implies 0 <= #[trigger] q[h] < n - 1 by {
            if h == k {
                assert(p[last] != p[k]);
            } else {
                if h < k {
                    assert(p[h] != p[k]);
                } else {
                    assert(p[k] != p[h]);
                }
            }
        }
        assert forall|a: int, b: int| 0 <= a < b < n - 1 implies #[trigger] q[a] != #[trigger] q[b] by {
            if a == k {
                assert(p[b] != p[last]);
            } else if b == k {
                assert(p[a] != p[last]);
            } else {
                assert(p[a] != p[b]);
            }
        }
        assert forall|x: int| 0 <= x < n - 1 implies #[trigger] reaches(q, (n - 1) as nat, x) by {
            assert(reaches(p, n, x));
            let h = choose|h: int| 0 <= h < n && #[trigger] p[h] == x;
            if h == last {
                if k == last {
                    assert(false);
                } else {
                    assert(q[k] == x);
                }
            } else {
                assert(h != k);
                assert(q[h] == x);
            }
        }
        lemma_reindex(v, q, (n - 1) as nat);
        if k < last {
            lemma_psum_update(v, p, (n - 1) as nat, k, p[last]);
        } else {
            lemma_psum_same(v, p, q, (n - 1) as nat);
        }
    }
}

// ---------------------------------------------------------------------------------------------
// the first layer as a sum over hidden neurons

/// The products of neuron `j` of the first layer: activation times trained weight, hidden
/// neuron by hidden neuron.
pub open spec fn products(ft: [u8; 768], row: [i8; 768]) -> Seq<int> {
    Seq::new(768, |h: int| ft[h] * row[h])
}

proof fn lemma_dense_is_hidden_sum(raw: Seq<Aligned<i8, 768>>, net: Seq<Aligned<i8, 128>>, bucket: int, ft: [u8; 768], j: int, c: nat)
    requires
        l1_moved(raw, net),
        0 <= bucket < 8,
        0 <= j < 32,
        c <= 192,
    ensures
        dense_l1(net, bucket, ft, j, c) == isum(products(ft, raw[bucket * 32 + j].0), 4 * c),
    decreases c,
{
    if c > 0 {
        let b = c - 1;
        lemma_dense_is_hidden_sum(raw, net, bucket, ft, j, (c - 1) as nat);
        let row = raw[bucket * 32 + j].0;
        assert(net[bucket * 192 + b].0[j * 4 + 0] == row[b * 4 + 0]);
        assert(net[bucket * 192 + b].0[j * 4 + 1] == row[b * 4 + 1]);
        assert(net[bucket * 192 + b].0[j * 4 + 2] == row[b * 4 + 2]);
        assert(net[bucket * 192 + b].0[j * 4 + 3] == row[b * 4 + 3]);
        let v = products(ft, row);
        assert(isum(v, (4 * c) as nat) == isum(v, (4 * b) as nat) + v[4 * b] + v[4 * b + 1] + v[4 * b + 2] + v[4 * b + 3]) by {
            assert(isum(v, (4 * b + 1) as nat) == isum(v, (4 * b) as nat) + v[4 * b]);
            assert(isum(v, (4 * b + 2) as nat) == isum(v, (4 * b + 1) as nat) + v[4 * b + 1]);
            assert(isum(v, (4 * b + 3) as nat) == isum(v, (4 * b + 2) as nat) + v[4 * b + 2]);
            assert(isum(v, (4 * b + 4) as nat) == isum(v, (4 * b + 3) as nat) + v[4 * b + 3]);
        }
        assert(block_dot(net, bucket, ft, b, j) == v[4 * b] + v[4 * b + 1] + v[4 * b + 2] + v[4 * b + 3]);
    }
}

// ---------------------------------------------------------------------------------------------
// the reordering

/// An ordering of the hidden neurons fit for the network: a permutation that keeps each
/// half in place and moves the second half as the first (`mapping[i + 384] == mapping[i] +
/// 384`), so the two multiplied lanes stay paired.
pub open spec fn mirrored_perm(m: [usize; 768]) -> bool {
    &&& is_perm(Seq::new(768, |h: int| m[h] as int), 768)
    &&& forall|i: int| 0 <= i < 384 ==> #[trigger] m[i] < 384 && m[i + 384] == m[i] + 384
}

/// `b` holds the lanes of `a` reordered: lane `l` of `b` is lane `m[l]` of `a`.
pub open spec fn lanes_moved(a: [Aligned<i16, 768>; 2], b: [Aligned<i16, 768>; 2], m: [usize; 768]) -> bool {
    forall|s: int, l: int| 0 <= s < 2 && 0 <= l < 768 ==> #[trigger] b[s].0[l] == a[s].0[m[l] as int]
}

proof fn lemma_activation_moves(acc: [Aligned<i16, 768>; 2], thr: [Aligned<i16, 768>; 2], acc2: [Aligned<i16, 768>; 2],
    thr2: [Aligned<i16, 768>; 2], m: [usize; 768], stm: Color, h: int)
    requires
        mirrored_perm(m),
        lanes_moved(acc, acc2, m),
        lanes_moved(thr, thr2, m),
        0 <= h < 768,
    ensures
        ft_value(acc2, thr2, stm, h) == ft_value(acc, thr, stm, m[h] as int),
{
    let i = h % 384;
    let mi = m[i] as int;
    assert(m[i] < 384 && m[i + 384] == m[i] + 384);
    if h < 384 {
        assert(h / 384 == 0 && i == h);
        assert(mi / 384 == 0 && mi % 384 == mi);
    } else {
        assert(h / 384 == 1 && h == i + 384);
        assert((mi + 384) / 384 == 1 && (mi + 384) % 384 == mi);
    }
    let o = half_owner(stm, h / 384);
    assert(acc2[o].0[i] == acc[o].0[mi]);
    assert(thr2[o].0[i] == thr[o].0[mi]);
    assert(acc2[o].0[i + 384] == acc[o].0[mi + 384]);
    assert(thr2[o].0[i + 384] == thr[o].0[mi + 384]);
}

/// Reordering the hidden neurons leaves the first layer's sums unchanged: with the trained
/// first-layer weights reordered by a mirrored permutation `m` (`raw2` from `raw`) and the
/// accumulators' lanes reordered by `m`, each neuron of the first layer sums to the same value.
pub proof fn lemma_reordering_keeps_first_layer(
    m: [usize; 768],
    raw: Seq<Aligned<i8, 768>>,
    raw2: Seq<Aligned<i8, 768>>,
    net: Seq<Aligned<i8, 128>>,
    net2: Seq<Aligned<i8, 128>>,
    acc: [Aligned<i16, 768>; 2],
    thr: [Aligned<i16, 768>; 2],
    acc2: [Aligned<i16, 768>; 2],
    thr2: [Aligned<i16, 768>; 2],
    stm: Color,
    ft: [u8; 768],
    ft2: [u8; 768],
    bucket: int,
    j: int,
)
    requires
        mirrored_perm(m),
        raw.len() == 256,
        raw2.len() == 256,
        forall|r: int, h: int| 0 <= r < 256 && 0 <= h < 768 ==> #[trigger] raw2[r].0[h] == raw[r].0[m[h] as int],
        l1_moved(raw, net),
        l1_moved(raw2, net2),
        lanes_moved(acc, acc2, m),
        lanes_moved(thr, thr2, m),
        forall|h: int| 0 <= h < 768 ==> #[trigger] ft[h] == ft_value(acc, thr, stm, h),
        forall|h: int| 0 <= h < 768 ==> #[trigger] ft2[h] == ft_value(acc2, thr2, stm, h),
        0 <= bucket < 8,
        0 <= j < 32,
    ensures
        dense_l1(net2, bucket, ft2, j, 192) == dense_l1(net, bucket, ft, j, 192),
{
    let r = bucket * 32 + j;
    lemma_dense_is_hidden_sum(raw, net, bucket, ft, j, 192);
    lemma_dense_is_hidden_sum(raw2, net2, bucket, ft2, j, 192);
    let v = products(ft, raw[r].0);
    let v2 = products(ft2, raw2[r].0);
    let p = Seq::new(768, |h: int| m[h] as int);
    // the products of the reordered network are those of the network before reordering, in the order `m`
    assert forall|n: nat| n <= 768 implies #[trigger] isum(v2, n) == psum(v, p, n) by {
        lemma_products_moved(v, v2, p, ft, ft2, raw[r].0, raw2[r].0, m, acc, thr, acc2, thr2, stm, n);
    }
    lemma_reindex(v, p, 768);
}

proof fn lemma_products_moved(
    v: Seq<int>,
    v2: Seq<int>,
    p: Seq<int>,
    ft: [u8; 768],
    ft2: [u8; 768],
    row: [i8; 768],
    row2: [i8; 768],
    m: [usize; 768],
    acc: [Aligned<i16, 768>; 2],
    thr: [Aligned<i16, 768>; 2],
    acc2: [Aligned<i16, 768>; 2],
    thr2: [Aligned<i16, 768>; 2],
    stm: Color,
    n: nat,
)
    requires
        mirrored_perm(m),
        v == products(ft, row),
        v2 == products(ft2, row2),
        p == Seq::new(768, |h: int| m[h] as int),
        forall|h: int| 0 <= h < 768 ==> #[trigger] row2[h] == row[m[h] as int],
        lanes_moved(acc, acc2, m),
        lanes_moved(thr, thr2, m),
        forall|h: int| 0 <= h < 768 ==> #[trigger] ft[h] == ft_value(acc, thr, stm, h),
        forall|h: int| 0 <= h < 768 ==> #[trigger] ft2[h] == ft_value(acc2, thr2, stm, h),
        n <= 768,
    ensures
        isum(v2, n) == psum(v, p, n),
    decreases n,
{
    if n > 0 {
        let h = n - 1;
        lemma_products_moved(v, v2, p, ft, ft2, row, row2, m, acc, thr, acc2, thr2, stm, (n - 1) as nat);
        lemma_activation_moves(acc, thr, acc2, thr2, m, stm, h);
        assert(p[h] == m[h] as int);
        assert(0 <= p[h] < 768);
        assert(ft2[h] == ft[m[h] as int]);
        assert(v2[h] == v[p[h]]);
    }
}

// ---------------------------------------------------------------------------------------------
// the accumulators of a reordered network

proof fn lemma_feature_row_range(king: int, side: Color, cp: crate::chess::ColoredPiece, sq: int)
    requires
        0 <= king < 64,
        0 <= sq < 64,
    ensures
        0 <= crate::nnue::network::feature_row(king, side, cp, sq) < 16 * 768,
{
    let rk = crate::nnue::network::relative_sq(king, side);
    assert(0 <= rk < 64);
    crate::nnue::halfka::lemma_bucket_range(rk);
    let f = if crate::nnue::network::is_mirrored_spec(king) {
        crate::chess::rank_of(sq) * 8 + 7 - crate::chess::file_of(sq)
    } else {
        sq
    };
    assert(0 <= f < 64);
    assert(0 <= crate::nnue::network::relative_sq(f, side) < 64);
    assert(0 <= crate::chess::piece_index(cp.piece) < 6);
}

proof fn lemma_bb_sum_moved(net: &Network, net2: &Network, m: [usize; 768], king: int, side: Color,
    cp: crate::chess::ColoredPiece, bb: u64, n: nat, l: int)
    requires
        net.feature_weights@.len() == 16 * 768,
        net2.feature_weights@.len() == 16 * 768,
        forall|r: int, h: int| 0 <= r < 16 * 768 && 0 <= h < 768 ==> #[trigger] net2.feature_weights@[r].0[h]
            == net.feature_weights@[r].0[m[h] as int],
        0 <= l < 768,
        0 <= king < 64,
        n <= 64,
    ensures
        bb_sum(net2, king, side, cp, bb, n, l) == bb_sum(net, king, side, cp, bb, n, m[l] as int),
    decreases n,
{
    if n > 0 {
        lemma_bb_sum_moved(net, net2, m, king, side, cp, bb, (n - 1) as nat, l);
        lemma_feature_row_range(king, side, cp, n - 1);
        let r = crate::nnue::network::feature_row(king, side, cp, n - 1);
        assert(net2.feature_weights@[r].0[l] == net.feature_weights@[r].0[m[l] as int]);
    }
}

proof fn lemma_pieces_sum_moved(net: &Network, net2: &Network, m: [usize; 768], king: int, side: Color,
    colors: [u64; 2], pieces: [u64; 6], k: nat, l: int)
    requires
        net.feature_weights@.len() == 16 * 768,
        net2.feature_weights@.len() == 16 * 768,
        forall|r: int, h: int| 0 <= r < 16 * 768 && 0 <= h < 768 ==> #[trigger] net2.feature_weights@[r].0[h]
            == net.feature_weights@[r].0[m[h] as int],
        0 <= l < 768,
        0 <= king < 64,
        k <= 12,
    ensures
        pieces_sum(net2, king, side, colors, pieces, k, l) == pieces_sum(net, king, side, colors, pieces, k, m[l] as int),
    decreases k,
{
    if k > 0 {
        lemma_pieces_sum_moved(net, net2, m, king, side, colors, pieces, (k - 1) as nat, l);
        let j = k - 1;
        lemma_bb_sum_moved(net, net2, m, king, side, cp_of(j), colors[j / 6] & pieces[j % 6], 64, l);
    }
}

/// The piece accumulators of a network whose feature weights and bias have their lanes
/// reordered by `m` are the accumulators of the unreordered network with their lanes reordered by `m`.
pub proof fn lemma_reordered_piece_accumulator(net: &Network, net2: &Network, m: [usize; 768], king: int, side: Color,
    colors: [u64; 2], pieces: [u64; 6], l: int)
    requires
        net.feature_weights@.len() == 16 * 768,
        net2.feature_weights@.len() == 16 * 768,
        forall|r: int, h: int| 0 <= r < 16 * 768 && 0 <= h < 768 ==> #[trigger] net2.feature_weights@[r].0[h]
            == net.feature_weights@[r].0[m[h] as int],
        forall|h: int| 0 <= h < 768 ==> #[trigger] net2.feature_bias.0[h] == net.feature_bias.0[m[h] as int],
        forall|h: int| 0 <= h < 768 ==> #[trigger] m[h] < 768,
        0 <= l < 768,
        0 <= king < 64,
    ensures
        acc_model(net2, king, side, colors, pieces, l) == acc_model(net, king, side, colors, pieces, m[l] as int),
{
    lemma_pieces_sum_moved(net, net2, m, king, side, colors, pieces, 12, l);
}

/// The threat accumulators of a network whose threat weights have their lanes reordered by
/// `m` are the unreordered ones with their lanes reordered by `m`.
pub proof fn lemma_reordered_threat_accumulator(w: Seq<Aligned<i8, 768>>, w2: Seq<Aligned<i8, 768>>, m: [usize; 768],
    idx: Seq<usize>, l: int)
    requires
        w.len() == w2.len(),
        forall|r: int, h: int| 0 <= r < w.len() && 0 <= h < 768 ==> #[trigger] w2[r].0[h] == w[r].0[m[h] as int],
        forall|k: int| 0 <= k < idx.len() ==> #[trigger] idx[k] < w.len(),
        0 <= l < 768,
    ensures
        threat_sum(w2, idx, l) == threat_sum(w, idx, m[l] as int),
    decreases idx.len(),
{
    if idx.len() > 0 {
        lemma_reordered_threat_accumulator(w, w2, m, idx.drop_last(), l);
        assert(idx.last() < w.len());
    }
}

} // verus!
