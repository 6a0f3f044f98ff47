//! The king-bucketed piece-square accumulators of the evaluation, one pair per ply, with a
//! cache per king bucket that makes full refreshes incremental.

use vstd::prelude::*;
use crate::chess::{
    Color, Piece, ColoredPiece, Move, MoveType, color_index, piece_index, bb_has, sq_bb, rank_of,
    null_move_spec, move_on_board, lsb, square_bitboard, piece_of_index,
};
use crate::position::Position;
use crate::chess::relative_to as relative_to_sq;
use crate::nnue::network::{
    Aligned, Network, HL, KINGS, feature_row, wrap16, copy_lanes, add_lanes, lemma_wrap_small,
    lemma_wrap_shift, king_bucket_spec, is_mirrored_spec, relative_sq,
};
use crate::nnue::update::{Update, UpdateType};
use crate::param::MAX_DEPTH_USIZE;

verus! {

/// The accumulators of one ply: one vector per side, whether each is up to date, and the
/// change the ply's move made.
#[derive(Clone, Copy)]
pub struct Accumulator {
    pub vals: [Aligned<i16, 768>; 2],
    pub is_clean: [bool; 2],
    pub up: Update,
}

impl Accumulator {
    /// All zero.
    pub fn new() -> (r: Self)
        ensures
            forall|s: int, i: int| 0 <= s < 2 && 0 <= i < 768 ==> #[trigger] r.vals[s].0[i] == 0,
            r.is_clean == [false, false],
            crate::nnue::network::update_on_board(r.up),
    {
        let none = (0u8, ColoredPiece { color: Color::White, piece: Piece::Pawn });
        Accumulator {
            vals: [Aligned::<i16, 768>::zeroed(), Aligned::<i16, 768>::zeroed()],
            is_clean: [false, false],
            up: Update { king_sq: [0, 0], add1: none, add2: none, sub1: none, sub2: none, update_type: UpdateType::Move },
        }
    }
}

/// A cached accumulator for one king bucket and board half, with the pieces it was last
/// computed for, per side.
#[derive(Clone, Copy)]
pub struct FinnyEntry {
    pub acc: Accumulator,
    /// `[side][color]`
    pub bycolor: [[u64; 2]; 2],
    /// `[side][piece]`
    pub bypiece: [[u64; 6]; 2],
}

/// The accumulators of the search stack, with the refresh cache
/// (`finny[mirrored * KINGS + bucket]`).
pub struct HalfKA {
    pub side: Vec<Accumulator>,
    pub head: usize,
    pub finny: Vec<FinnyEntry>,
}

// ---------------------------------------------------------------------------------------------
// what an accumulator holds

/// Lane `l` of the weights of `cp` on `sq`, seen from `side` with its king on `king`.
pub open spec fn row_lane(net: &Network, king: int, side: Color, cp: ColoredPiece, sq: int, l: int) -> int {
    net.feature_weights@[feature_row(king, side, cp, sq)].0[l] as int
}

/// Lane `l` summed over the squares of `bb` below `n`.
pub open spec fn bb_sum(net: &Network, king: int, side: Color, cp: ColoredPiece, bb: u64, n: nat, l: int) -> int
    decreases n,
{
    if n == 0 {
        0
    } else {
        bb_sum(net, king, side, cp, bb, (n - 1) as nat, l) + (if bb_has(bb, n - 1) {
            row_lane(net, king, side, cp, n - 1, l)
        } else {
            0
        })
    }
}

/// The colored piece of index `k` (color first, then kind).
pub open spec fn cp_of(k: int) -> ColoredPiece {
    ColoredPiece { color: if k < 6 { Color::White } else { Color::Black }, piece: piece_of_index(k % 6) }
}

/// Lane `l` summed over every piece of the first `k` colored kinds.
pub open spec fn pieces_sum(net: &Network, king: int, side: Color, colors: [u64; 2], pieces: [u64; 6], k: nat, l: int) -> int
    decreases k,
{
    if k == 0 {
        0
    } else {
        let j = k - 1;
        pieces_sum(net, king, side, colors, pieces, (k - 1) as nat, l)
            + bb_sum(net, king, side, cp_of(j), colors[j / 6] & pieces[j % 6], 64, l)
    }
}

/// Lane `l` of the accumulator of a placement seen from `side` with its king on `king`: the
/// bias plus the weights of every piece, wrapping.
pub open spec fn acc_model(net: &Network, king: int, side: Color, colors: [u64; 2], pieces: [u64; 6], l: int) -> int {
    wrap16(net.feature_bias.0[l] + pieces_sum(net, king, side, colors, pieces, 12, l))
}

/// Two king squares that share bucket and board half see the same weights.
pub open spec fn same_view(a: int, b: int, side: Color) -> bool {
    king_bucket_spec(relative_sq(a, side)) == king_bucket_spec(relative_sq(b, side))
        && is_mirrored_spec(a) == is_mirrored_spec(b)
}

pub(crate) proof fn lemma_same_view_rows(net: &Network, a: int, b: int, side: Color, colors: [u64; 2], pieces: [u64; 6], l: int)
    requires
        same_view(a, b, side),
    ensures
        pieces_sum(net, a, side, colors, pieces, 12, l) == pieces_sum(net, b, side, colors, pieces, 12, l),
{
    assert forall|cp: ColoredPiece, bb: u64, n: nat| #[trigger] bb_sum(net, a, side, cp, bb, n, l) == bb_sum(net, b, side, cp, bb, n, l) by {
        lemma_same_view_bb(net, a, b, side, cp, bb, n, l);
    }
    lemma_same_view_pieces(net, a, b, side, colors, pieces, 12, l);
}

proof fn lemma_same_view_bb(net: &Network, a: int, b: int, side: Color, cp: ColoredPiece, bb: u64, n: nat, l: int)
    requires
        same_view(a, b, side),
    ensures
        bb_sum(net, a, side, cp, bb, n, l) == bb_sum(net, b, side, cp, bb, n, l),
    decreases n,
{
    if n > 0 {
        lemma_same_view_bb(net, a, b, side, cp, bb, (n - 1) as nat, l);
        assert(feature_row(a, side, cp, n - 1) == feature_row(b, side, cp, n - 1));
    }
}

proof fn lemma_same_view_pieces(net: &Network, a: int, b: int, side: Color, colors: [u64; 2], pieces: [u64; 6], k: nat, l: int)
    requires
        forall|cp: ColoredPiece, bb: u64, n: nat| #[trigger] bb_sum(net, a, side, cp, bb, n, l) == bb_sum(net, b, side, cp, bb, n, l),
    ensures
        pieces_sum(net, a, side, colors, pieces, k, l) == pieces_sum(net, b, side, colors, pieces, k, l),
    decreases k,
{
    if k > 0 {
        lemma_same_view_pieces(net, a, b, side, colors, pieces, (k - 1) as nat, l);
        let j = k - 1;
        assert(bb_sum(net, a, side, cp_of(j), colors[j / 6] & pieces[j % 6], 64, l)
            == bb_sum(net, b, side, cp_of(j), colors[j / 6] & pieces[j % 6], 64, l));
    }
}


/// Removing a square of `bb` takes its row out of the sum.
proof fn lemma_bb_sum_clear(net: &Network, king: int, side: Color, cp: ColoredPiece, bb: u64, s: int, n: nat, l: int)
    requires
        0 <= s < 64,
        bb_has(bb, s),
        n <= 64,
    ensures
        bb_sum(net, king, side, cp, bb, n, l) == bb_sum(net, king, side, cp, bb ^ sq_bb(s), n, l)
            + (if s < n { row_lane(net, king, side, cp, s, l) } else { 0 }),
    decreases n,
{
    if n > 0 {
        lemma_bb_sum_clear(net, king, side, cp, bb, s, (n - 1) as nat, l);
        let k = (n - 1) as u64;
        let su = s as u64;
        assert(k < 64 && su < 64 && bb & (1u64 << su) != 0 ==> ((bb ^ (1u64 << su)) & (1u64 << k) != 0) == (if k == su { false } else { bb & (1u64 << k) != 0 }))
            by (bit_vector);
    }
}

/// Lanes of the accumulator `v` plus (or minus) the rows of every square of `bb`.
fn apply_squares(
    v: &mut Aligned<i16, 768>,
    net: &Network,
    king: u8,
    side: Color,
    cp: ColoredPiece,
    bb: u64,
    subtract: bool,
    Ghost(x): Ghost<Seq<int>>,
)
    requires
        net.wf(),
        king < 64,
        x.len() == 768,
        forall|l: int| 0 <= l < 768 ==> #[trigger] old(v).0[l] == wrap16(x[l]),
    ensures
        forall|l: int| 0 <= l < 768 ==> #[trigger] final(v).0[l] == wrap16(
            if subtract {
                x[l] - bb_sum(net, king as int, side, cp, bb, 64, l)
            } else {
                x[l] + bb_sum(net, king as int, side, cp, bb, 64, l)
            },
        ),
{
    let mut rest = bb;
    while rest != 0
        invariant
            net.wf(),
            king < 64,
            x.len() == 768,
            forall|l: int| 0 <= l < 768 ==> #[trigger] v.0[l] == wrap16(
                if subtract {
                    x[l] - (bb_sum(net, king as int, side, cp, bb, 64, l) - bb_sum(net, king as int, side, cp, rest, 64, l))
                } else {
                    x[l] + (bb_sum(net, king as int, side, cp, bb, 64, l) - bb_sum(net, king as int, side, cp, rest, 64, l))
                },
            ),
        decreases rest,
    {
        let sq = lsb(rest);
        let row = net.feature_lookup(king, side, cp, sq);
        let ghost y = Seq::new(768, |l: int| if subtract {
            x[l] - (bb_sum(net, king as int, side, cp, bb, 64, l) - bb_sum(net, king as int, side, cp, rest, 64, l))
        } else {
            x[l] + (bb_sum(net, king as int, side, cp, bb, 64, l) - bb_sum(net, king as int, side, cp, rest, 64, l))
        });
        add_lanes(v, row, subtract, Ghost(y));
        let ghost old_rest = rest;
        rest = rest ^ square_bitboard(sq);
        proof {
            assert forall|l: int| 0 <= l < 768 implies bb_sum(net, king as int, side, cp, old_rest, 64, l)
                == bb_sum(net, king as int, side, cp, rest, 64, l) + row_lane(net, king as int, side, cp, sq as int, l) by {
                lemma_bb_sum_clear(net, king as int, side, cp, old_rest, sq as int, 64, l);
            }
            let su = sq as u64;
            assert(old_rest & (1u64 << su) != 0 && su < 64 ==> old_rest ^ (1u64 << su) < old_rest) by (bit_vector);
        }
    }
    proof {
        assert forall|l: int| 0 <= l < 768 implies bb_sum(net, king as int, side, cp, 0u64, 64, l) == 0 by {
            lemma_bb_sum_zero(net, king as int, side, cp, 64, l);
        }
    }
}

proof fn lemma_bb_sum_zero(net: &Network, king: int, side: Color, cp: ColoredPiece, n: nat, l: int)
    requires
        n <= 64,
    ensures
        bb_sum(net, king, side, cp, 0u64, n, l) == 0,
    decreases n,
{
    if n > 0 {
        lemma_bb_sum_zero(net, king, side, cp, (n - 1) as nat, l);
        let k = (n - 1) as u64;
        assert(k < 64 ==> 0u64 & (1u64 << k) == 0) by (bit_vector);
    }
}


/// Replacing the squares of `old` by those of `new` changes the sum by the squares added and
/// the squares removed.
proof fn lemma_bb_sum_diff(net: &Network, king: int, side: Color, cp: ColoredPiece, old: u64, new: u64, n: nat, l: int)
    requires
        n <= 64,
    ensures
        bb_sum(net, king, side, cp, new, n, l) == bb_sum(net, king, side, cp, old, n, l)
            + bb_sum(net, king, side, cp, new & !old, n, l) - bb_sum(net, king, side, cp, old & !new, n, l),
    decreases n,
{
    if n > 0 {
        lemma_bb_sum_diff(net, king, side, cp, old, new, (n - 1) as nat, l);
        let k = (n - 1) as u64;
        assert(k < 64 ==> (((new & !old) & (1u64 << k) != 0) == (new & (1u64 << k) != 0 && !(old & (1u64 << k) != 0)))
            && (((old & !new) & (1u64 << k) != 0) == (old & (1u64 << k) != 0 && !(new & (1u64 << k) != 0)))) by (bit_vector);
    }
}

proof fn lemma_pieces_sum_zero(net: &Network, king: int, side: Color, k: nat, l: int)
    requires
        k <= 12,
    ensures
        pieces_sum(net, king, side, [0u64, 0u64], [0u64, 0u64, 0u64, 0u64, 0u64, 0u64], k, l) == 0,
    decreases k,
{
    if k > 0 {
        lemma_pieces_sum_zero(net, king, side, (k - 1) as nat, l);
        let j = k - 1;
        assert(([0u64, 0u64][j / 6] & [0u64, 0u64, 0u64, 0u64, 0u64, 0u64][j % 6]) == 0u64) by {
            assert(0u64 & 0u64 == 0u64) by (bit_vector);
        }
        lemma_bb_sum_zero(net, king, side, cp_of(j), 64, l);
    }
}

/// Side of index `s`.
pub open spec fn color_of(s: int) -> Color {
    if s == 0 { Color::White } else { Color::Black }
}

/// Where the cache keeps the accumulator of `side` with its king on `king`.
pub open spec fn entry_index(king: int, side: Color) -> int {
    (if is_mirrored_spec(king) { 1int } else { 0 }) * 16 + king_bucket_spec(relative_sq(king, side))
}

/// The square of `side`'s king.
pub open spec fn king_spec(board: Position, side: Color) -> int {
    crate::position::lsb_spec(board.colored_spec(side, Piece::King))
}

impl HalfKA {
    /// Stack and cache sizes, and a ply on the stack.
    pub open spec fn wf(&self) -> bool {
        &&& self.side@.len() == MAX_DEPTH_USIZE
        &&& self.head < MAX_DEPTH_USIZE
        &&& self.finny@.len() == 2 * KINGS
    }

    /// Every cached accumulator is the bias plus the rows of the pieces cached with it.
    pub open spec fn finny_ok(&self, net: &Network) -> bool {
        &&& self.finny@.len() == 2 * KINGS
        &&& forall|k: int, s: int, l: int| 0 <= k < 64 && 0 <= s < 2 && 0 <= l < 768 ==>
            #[trigger] self.finny@[entry_index(k, color_of(s))].acc.vals[s].0[l] == acc_model(
                net,
                k,
                color_of(s),
                self.finny@[entry_index(k, color_of(s))].bycolor[s],
                self.finny@[entry_index(k, color_of(s))].bypiece[s],
                l,
            )
    }

    /// A stack of zeroed accumulators and a zeroed cache.
    pub fn new() -> (r: Self)
        ensures
            r.wf(),
            r.plies_ok(),
            r.head == 0,
    {
        let mut side: Vec<Accumulator> = Vec::new();
        let mut i: usize = 0;
        while i < MAX_DEPTH_USIZE
            invariant
                i <= MAX_DEPTH_USIZE,
                side@.len() == i,
                forall|j: int| 0 <= j < i ==> crate::nnue::network::update_on_board(#[trigger] side@[j].up),
            decreases MAX_DEPTH_USIZE - i,
        {
            side.push(Accumulator::new());
            i += 1;
        }
        let mut finny: Vec<FinnyEntry> = Vec::new();
        let mut j: usize = 0;
        while j < 2 * KINGS
            invariant
                j <= 2 * KINGS,
                finny@.len() == j,
            decreases 2 * KINGS - j,
        {
            finny.push(FinnyEntry { acc: Accumulator::new(), bycolor: [[0, 0], [0, 0]], bypiece: [[0, 0, 0, 0, 0, 0], [0, 0, 0, 0, 0, 0]] });
            j += 1;
        }
        HalfKA { side, head: 0, finny }
    }

    /// Resets the cache: every entry holds the bias and no pieces.
    pub fn clear(&mut self, network: &Network)
        requires
            old(self).wf(),
            network.wf(),
        ensures
            final(self).wf(),
            final(self).finny_ok(network),
            final(self).side == old(self).side,
            final(self).head == old(self).head,
    {
        let mut finny: Vec<FinnyEntry> = Vec::new();
        let mut j: usize = 0;
        while j < 2 * KINGS
            invariant
                j <= 2 * KINGS,
                finny@.len() == j,
                forall|e: int| 0 <= e < j ==> #[trigger] finny@[e].bycolor == [[0u64, 0u64], [0u64, 0u64]]
                    && finny@[e].bypiece == [[0u64, 0u64, 0u64, 0u64, 0u64, 0u64], [0u64, 0u64, 0u64, 0u64, 0u64, 0u64]]
                    && finny@[e].acc.vals[0] == network.feature_bias && finny@[e].acc.vals[1] == network.feature_bias,
            decreases 2 * KINGS - j,
        {
            let mut acc = Accumulator::new();
            acc.vals = [network.feature_bias, network.feature_bias];
            finny.push(FinnyEntry { acc, bycolor: [[0, 0], [0, 0]], bypiece: [[0, 0, 0, 0, 0, 0], [0, 0, 0, 0, 0, 0]] });
            j += 1;
        }
        self.finny = finny;
        proof {
            assert forall|k: int, s: int, l: int| 0 <= k < 64 && 0 <= s < 2 && 0 <= l < 768 implies
                #[trigger] self.finny@[entry_index(k, color_of(s))].acc.vals[s].0[l] == acc_model(
                    network,
                    k,
                    color_of(s),
                    self.finny@[entry_index(k, color_of(s))].bycolor[s],
                    self.finny@[entry_index(k, color_of(s))].bypiece[s],
                    l,
                ) by {
                let e = entry_index(k, color_of(s));
                assert(0 <= king_bucket_spec(relative_sq(k, color_of(s))) < 16) by {
                    lemma_bucket_range(relative_sq(k, color_of(s)));
                }
                assert(self.finny@[e].bycolor[s] == [0u64, 0u64]);
                assert(self.finny@[e].bypiece[s] == [0u64, 0u64, 0u64, 0u64, 0u64, 0u64]);
                lemma_pieces_sum_zero(network, k, color_of(s), 12, l);
                lemma_wrap_small(network.feature_bias.0[l] as int);
            }
        }
    }
}

/// King buckets lie in `0..KINGS`.
pub proof fn lemma_bucket_range(sq: int)
    requires
        0 <= sq < 64,
    ensures
        0 <= king_bucket_spec(sq) < 16,
{
    let file = crate::chess::file_of(sq);
    let mirrored = if file < 4 { file } else { 7 - file };
    let i = crate::chess::rank_of(sq) * 4 + mirrored;
    assert(0 <= i < 32);
    assert(forall|j: int| 0 <= j < 32 ==> #[trigger] crate::nnue::network::HALF_KING_BUCKET[j] < 16);
}


impl HalfKA {
    /// Recomputes `side`'s accumulator at the head from the cached entry of its king's bucket:
    /// the rows of the pieces that appeared since are added, those of the pieces that left are
    /// taken away, and the entry then remembers the board. The result is the bias plus the rows
    /// of every piece on the board.
    pub fn refresh(&mut self, board: &Position, side: Color, network: &Network)
        requires
            old(self).wf(),
            old(self).finny_ok(network),
            network.wf(),
            board.wf(),
        ensures
            final(self).wf(),
            final(self).finny_ok(network),
            final(self).head == old(self).head,
            forall|l: int| 0 <= l < 768 ==> #[trigger] final(self).side@[final(self).head as int].vals[color_index(side)].0[l]
                == acc_model(network, king_spec(*board, side), side, board.colors, board.pieces, l),
            final(self).side@[final(self).head as int].is_clean[color_index(side)],
            final(self).side@[final(self).head as int].is_clean[1 - color_index(side)]
                == old(self).side@[old(self).head as int].is_clean[1 - color_index(side)],
            final(self).side@[final(self).head as int].vals[1 - color_index(side)]
                == old(self).side@[old(self).head as int].vals[1 - color_index(side)],
            final(self).side@[final(self).head as int].up == old(self).side@[old(self).head as int].up,
            forall|i: int| 0 <= i < MAX_DEPTH_USIZE && i != final(self).head ==> #[trigger] final(self).side@[i] == old(self).side@[i],
    {
        let king = board.king(side);
        let bucket = Network::get_king_bucket(relative_to_sq(king, side));
        let mirrored = Network::is_mirrored(king);
        let e_idx: usize = (if mirrored { 1 } else { 0 }) * KINGS + bucket;
        let s = side.index();
        let ghost si = color_index(side);
        proof {
            assert(e_idx == entry_index(king as int, side));
            assert(side == color_of(si));
        }
        let mut e = self.finny[e_idx];
        let mut v = e.acc.vals[s];
        let ghost oc = e.bycolor[s as int];
        let ghost op = e.bypiece[s as int];
        let ghost total_old = Seq::new(768, |l: int| network.feature_bias.0[l] + pieces_sum(network, king as int, side, oc, op, 12, l));
        proof {
            assert forall|l: int| 0 <= l < 768 implies #[trigger] v.0[l] == wrap16(total_old[l]) by {
                assert(self.finny@[entry_index(king as int, color_of(si))].acc.vals[si].0[l] == acc_model(network, king as int, color_of(si), oc, op, l));
            }
        }
        let mut k: usize = 0;
        while k < 12
            invariant
                network.wf(),
                board.wf(),
                king < 64,
                k <= 12,
                s == color_index(side),
                e.bycolor[s as int] == oc,
                e.bypiece[s as int] == op,
                forall|l: int| 0 <= l < 768 ==> #[trigger] v.0[l] == wrap16(
                    network.feature_bias.0[l] + pieces_sum(network, king as int, side, board.colors, board.pieces, k as nat, l)
                        + (pieces_sum(network, king as int, side, oc, op, 12, l) - pieces_sum(network, king as int, side, oc, op, k as nat, l)),
                ),
            decreases 12 - k,
        {
            let c = k / 6;
            let p = k % 6;
            let color = Color::from_index(c);
            let piece = Piece::from_index(p);
            let cp = ColoredPiece::new(color, piece);
            proof {
                assert(cp == cp_of(k as int));
            }
            let old_bb = e.bycolor[s][c] & e.bypiece[s][p];
            let new_bb = board.colored_pieces(color, piece);
            assert(new_bb == board.colors[c as int] & board.pieces[p as int]);
            let added = new_bb & !old_bb;
            let removed = old_bb & !new_bb;
            let ghost x = Seq::new(768, |l: int| network.feature_bias.0[l]
                + pieces_sum(network, king as int, side, board.colors, board.pieces, k as nat, l)
                + (pieces_sum(network, king as int, side, oc, op, 12, l) - pieces_sum(network, king as int, side, oc, op, k as nat, l)));
            apply_squares(&mut v, network, king, side, cp, added, false, Ghost(x));
            let ghost y = Seq::new(768, |l: int| x[l] + bb_sum(network, king as int, side, cp, added, 64, l));
            apply_squares(&mut v, network, king, side, cp, removed, true, Ghost(y));
            proof {
                assert forall|l: int| 0 <= l < 768 implies y[l] - bb_sum(network, king as int, side, cp, removed, 64, l)
                    == network.feature_bias.0[l] + pieces_sum(network, king as int, side, board.colors, board.pieces, (k + 1) as nat, l)
                        + (pieces_sum(network, king as int, side, oc, op, 12, l) - pieces_sum(network, king as int, side, oc, op, (k + 1) as nat, l)) by {
                    lemma_bb_sum_diff(network, king as int, side, cp, old_bb, new_bb, 64, l);
                }
            }
            k += 1;
        }
        let head = self.head;
        let mut a = self.side[head];
        a.vals[s] = v;
        a.is_clean[s] = true;
        self.side.set(head, a);
        e.acc.vals[s] = v;
        e.bycolor[s] = board.by_color();
        e.bypiece[s] = board.by_piece();
        self.finny.set(e_idx, e);
        proof {
            assert forall|l: int| 0 <= l < 768 implies #[trigger] self.side@[head as int].vals[si].0[l]
                == acc_model(network, king_spec(*board, side), side, board.colors, board.pieces, l) by {
            }
            assert forall|kk: int, ss: int, l: int| 0 <= kk < 64 && 0 <= ss < 2 && 0 <= l < 768 implies
                #[trigger] self.finny@[entry_index(kk, color_of(ss))].acc.vals[ss].0[l] == acc_model(
                    network,
                    kk,
                    color_of(ss),
                    self.finny@[entry_index(kk, color_of(ss))].bycolor[ss],
                    self.finny@[entry_index(kk, color_of(ss))].bypiece[ss],
                    l,
                ) by {
                let ei = entry_index(kk, color_of(ss));
                lemma_bucket_range(relative_sq(kk, color_of(ss)));
                lemma_bucket_range(relative_sq(king as int, side));
                if ei == e_idx && ss == si {
                    assert(same_view(kk, king as int, side));
                    lemma_same_view_rows(network, kk, king as int, side, board.colors, board.pieces, l);
                } else {
                    assert(old(self).finny@[ei].acc.vals[ss].0[l] == acc_model(
                        network, kk, color_of(ss), old(self).finny@[ei].bycolor[ss], old(self).finny@[ei].bypiece[ss], l));
                }
            }
        }
    }
}


/// The colored piece on a square, when there is one.
pub open spec fn cp_at(board: Position, sq: int) -> Option<ColoredPiece> {
    match (board.color_on_spec(sq), board.piece_on_spec(sq)) {
        (Some(c), Some(p)) => Some(ColoredPiece { color: c, piece: p }),
        _ => None,
    }
}

/// Where the king lands when castling with `m` (king takes rook).
pub open spec fn castle_king_to(m: Move) -> int {
    rank_of(m.from as int) * 8 + (if m.to > m.from { 6int } else { 2 })
}

/// Where the rook lands when castling with `m`.
pub open spec fn castle_rook_to(m: Move) -> int {
    rank_of(m.from as int) * 8 + (if m.to > m.from { 5int } else { 3 })
}

/// `side`'s king square after `m`.
pub open spec fn king_after(board: Position, m: Move, side: Color) -> int {
    if side == board.side_to_move && board.piece_on_spec(m.from as int) == Some(Piece::King) {
        if board.move_type_spec(m) == MoveType::CASTLE { castle_king_to(m) } else { m.to as int }
    } else {
        king_spec(board, side)
    }
}

/// The feature changes of move `m`; the entries a move does not use keep their old values.
pub open spec fn update_after(board: Position, m: Move, prev: Update) -> Update {
    let from_cp = cp_at(board, m.from as int).unwrap();
    let to_cp = cp_at(board, m.to as int);
    let kings = prev.king_sq;
    let base = Update { add1: (m.to, from_cp), sub1: (m.from, from_cp), ..prev };
    let captured = match to_cp {
        Some(t) => Update { update_type: UpdateType::Capture, sub2: (m.to, t), ..base },
        None => Update { update_type: UpdateType::Move, ..base },
    };
    match board.move_type_spec(m) {
        MoveType::ENPASSENT => {
            let pawn = board.ep_capture_square_spec().unwrap();
            Update { update_type: UpdateType::Capture, sub2: (pawn as u8, cp_at(board, pawn).unwrap()), ..base }
        },
        MoveType::PROMOTION => Update {
            add1: (m.to, ColoredPiece { color: from_cp.color, piece: m.promotion.unwrap() }),
            ..captured
        },
        MoveType::CASTLE => Update {
            update_type: UpdateType::Castle,
            add1: (castle_king_to(m) as u8, from_cp),
            sub1: (m.from, from_cp),
            add2: (castle_rook_to(m) as u8, to_cp.unwrap()),
            sub2: (m.to, to_cp.unwrap()),
            ..prev
        },
        _ => captured,
    }
}

/// What `make_move` needs of a move: on the board, not "no move", a piece to move, a rook to
/// castle with and a pawn to take en passant.
pub open spec fn move_ok(board: Position, m: Move) -> bool {
    &&& move_on_board(m)
    &&& m != null_move_spec()
    &&& cp_at(board, m.from as int) is Some
    &&& board.move_type_spec(m) == MoveType::CASTLE ==> cp_at(board, m.to as int) is Some
    &&& board.move_type_spec(m) == MoveType::ENPASSENT ==> cp_at(board, board.ep_capture_square_spec().unwrap()) is Some
}

impl HalfKA {
    /// Pushes a ply for move `m` made on `board`: both sides unclean, the kings' squares after
    /// the move and the pieces the move adds and removes.
    pub fn make_move(&mut self, board: &Position, m: Move)
        requires
            old(self).wf(),
            old(self).head + 1 < MAX_DEPTH_USIZE,
            board.wf(),
            move_ok(*board, m),
        ensures
            final(self).wf(),
            final(self).head == old(self).head + 1,
            final(self).finny == old(self).finny,
            final(self).side@[final(self).head as int].is_clean == [false, false],
            final(self).side@[final(self).head as int].vals == old(self).side@[final(self).head as int].vals,
            final(self).side@[final(self).head as int].up.king_sq[0] == king_after(*board, m, Color::White),
            final(self).side@[final(self).head as int].up.king_sq[1] == king_after(*board, m, Color::Black),
            ({
                let u = final(self).side@[final(self).head as int].up;
                let e = update_after(*board, m, old(self).side@[final(self).head as int].up);
                &&& u.add1 == e.add1 && u.add2 == e.add2 && u.sub1 == e.sub1 && u.sub2 == e.sub2
                &&& u.update_type == e.update_type
            }),
            forall|i: int| 0 <= i < MAX_DEPTH_USIZE && i != final(self).head ==> #[trigger] final(self).side@[i] == old(self).side@[i],
            old(self).plies_ok() ==> final(self).plies_ok(),
    {
        self.head = self.head + 1;
        let head = self.head;
        let mut acc = self.side[head];
        acc.is_clean = [false, false];
        let mut up = acc.up;
        let stm = board.side_to_move;
        up.king_sq[0] = board.king(Color::White);
        up.king_sq[1] = board.king(Color::Black);
        let mt = board.move_type(m);
        if board.piece_on(m.from) == Some(Piece::King) {
            if mt == MoveType::CASTLE {
                up.king_sq[stm.index()] = board.castle_to(m).0;
            } else {
                up.king_sq[stm.index()] = m.to;
            }
        }
        let piece_from = board.color_piece_on(m.from).unwrap();
        let piece_to = board.color_piece_on(m.to);
        up.update_type = UpdateType::Move;
        match mt {
            MoveType::NORMAL | MoveType::NONE => {
                up.add1 = (m.to, piece_from);
                up.sub1 = (m.from, piece_from);
                if let Some(t) = piece_to {
                    up.update_type = UpdateType::Capture;
                    up.sub2 = (m.to, t);
                }
            },
            MoveType::ENPASSENT => {
                up.update_type = UpdateType::Capture;
                up.add1 = (m.to, piece_from);
                up.sub1 = (m.from, piece_from);
                let pawn = board.ep_capture_square().unwrap();
                up.sub2 = (pawn, board.color_piece_on(pawn).unwrap());
            },
            MoveType::PROMOTION => {
                up.add1 = (m.to, ColoredPiece::new(piece_from.color, m.promotion.unwrap()));
                up.sub1 = (m.from, piece_from);
                if let Some(t) = piece_to {
                    up.update_type = UpdateType::Capture;
                    up.sub2 = (m.to, t);
                }
            },
            MoveType::CASTLE => {
                let (king_to, rook_to) = board.castle_to(m);
                up.update_type = UpdateType::Castle;
                up.add1 = (king_to, piece_from);
                up.sub1 = (m.from, piece_from);
                let rook = piece_to.unwrap();
                up.add2 = (rook_to, rook);
                up.sub2 = (m.to, rook);
            },
        }
        acc.up = up;
        self.side.set(head, acc);
    }

    /// Pops the ply of the last move.
    pub fn unmake_move(&mut self)
        requires
            old(self).wf(),
            old(self).head > 0,
        ensures
            final(self).wf(),
            final(self).head == old(self).head - 1,
            final(self).side == old(self).side,
            final(self).finny == old(self).finny,
    {
        self.head = self.head - 1;
    }

    /// Starts a new root: both accumulators of the first ply computed from `board`.
    pub fn init(&mut self, board: &Position, network: &Network)
        requires
            old(self).wf(),
            old(self).finny_ok(network),
            network.wf(),
            board.wf(),
        ensures
            final(self).wf(),
            final(self).finny_ok(network),
            final(self).head == 0,
            final(self).side@[0].is_clean == [true, true],
            old(self).plies_ok() ==> final(self).plies_ok(),
            final(self).side@[0].up.king_sq[0] == king_spec(*board, Color::White),
            final(self).side@[0].up.king_sq[1] == king_spec(*board, Color::Black),
            forall|s: int, l: int| 0 <= s < 2 && 0 <= l < 768 ==> #[trigger] final(self).side@[0].vals[s].0[l]
                == acc_model(network, king_spec(*board, color_of(s)), color_of(s), board.colors, board.pieces, l),
    {
        self.head = 0;
        let mut acc = self.side[0];
        acc.up.king_sq[0] = board.king(Color::White);
        acc.up.king_sq[1] = board.king(Color::Black);
        self.side.set(0, acc);
        self.refresh(board, Color::White, network);
        self.refresh(board, Color::Black, network);
        assert(self.side@[0].is_clean =~= [true, true]);
    }
}


/// What an update adds to lane `l`, seen from `side`.
pub open spec fn update_delta(net: &Network, u: Update, side: Color, l: int) -> int {
    let row = |e: (u8, ColoredPiece)| net.update_row(u, side, e)[l] as int;
    match u.update_type {
        UpdateType::Move => row(u.add1) - row(u.sub1),
        UpdateType::Capture => row(u.add1) - row(u.sub1) - row(u.sub2),
        UpdateType::Castle => row(u.add1) + row(u.add2) - row(u.sub1) - row(u.sub2),
    }
}

/// Lane `l` of side `s` at ply `i` after the updates of the plies `b + 1 ..= i` were applied
/// one after another to ply `b`.
pub open spec fn chain(st: Seq<Accumulator>, net: &Network, s: int, b: int, i: int, l: int) -> int
    decreases i - b,
{
    if i <= b {
        st[b].vals[s].0[l] as int
    } else {
        wrap16(chain(st, net, s, b, i - 1, l) + update_delta(net, st[i].up, color_of(s), l))
    }
}

/// Whether moving from `old_king` to `new_king` forces a refresh for side `s`.
pub open spec fn refresh_needed(s: int, old_king: int, new_king: int) -> bool {
    old_king != new_king && (is_mirrored_spec(old_king) != is_mirrored_spec(new_king)
        || king_bucket_spec(relative_sq(old_king, color_of(s))) != king_bucket_spec(relative_sq(new_king, color_of(s))))
}

/// Searching down from ply `b` for the ply to update side `s` from: -1 when a king move on
/// the way forces a refresh, the first clean ply otherwise, -2 when there is none.
pub open spec fn catchup_base(st: Seq<Accumulator>, s: int, head: int, b: int) -> int
    decreases b + 1,
{
    if b < 0 {
        -2
    } else if refresh_needed(s, st[b].up.king_sq[s] as int, st[head].up.king_sq[s] as int) {
        -1
    } else if st[b].is_clean[s] {
        b
    } else {
        catchup_base(st, s, head, b - 1)
    }
}

impl HalfKA {
    /// Kings on the board and updates naming squares on the board, on every ply.
    pub open spec fn plies_ok(&self) -> bool {
        forall|i: int| 0 <= i < MAX_DEPTH_USIZE ==> crate::nnue::network::update_on_board(#[trigger] self.side@[i].up)
    }

    /// Brings side `s` of the head ply up to date.
    fn catchup_side(&mut self, board: &Position, s: usize, network: &Network)
        requires
            old(self).wf(),
            old(self).finny_ok(network),
            old(self).plies_ok(),
            network.wf(),
            board.wf(),
            s < 2,
            !old(self).side@[old(self).head as int].is_clean[s as int] ==> catchup_base(
                old(self).side@, s as int, old(self).head as int, old(self).head as int) != -2,
        ensures
            final(self).wf(),
            final(self).finny_ok(network),
            final(self).plies_ok(),
            final(self).head == old(self).head,
            final(self).side@[final(self).head as int].is_clean[s as int],
            forall|i: int| 0 <= i < MAX_DEPTH_USIZE ==> (#[trigger] final(self).side@[i]).up == old(self).side@[i].up
                && final(self).side@[i].vals[1 - s] == old(self).side@[i].vals[1 - s]
                && final(self).side@[i].is_clean[1 - s] == old(self).side@[i].is_clean[1 - s],
            old(self).side@[old(self).head as int].is_clean[s as int] ==> final(self).side == old(self).side,
            ({
                let st = old(self).side@;
                let h = old(self).head as int;
                let b = catchup_base(st, s as int, h, h);
                !st[h].is_clean[s as int] ==> if b == -1 {
                    forall|l: int| 0 <= l < 768 ==> #[trigger] final(self).side@[h].vals[s as int].0[l]
                        == acc_model(network, king_spec(*board, color_of(s as int)), color_of(s as int), board.colors, board.pieces, l)
                } else {
                    forall|i: int, l: int| b < i <= h && 0 <= l < 768 ==> #[trigger] final(self).side@[i].vals[s as int].0[l]
                        == chain(st, network, s as int, b, i, l)
                }
            }),
    {
        let head = self.head;
        if self.side[head].is_clean[s] {
            return;
        }
        let ghost st = self.side@;
        let mut base = head;
        loop
            invariant
                self.side@ == st,
                st == old(self).side@,
                self.head == old(self).head,
                self.finny == old(self).finny,
                self.wf(),
                self.finny_ok(network),
                self.plies_ok(),
                network.wf(),
                board.wf(),
                s < 2,
                head == self.head,
                base <= head,
                !st[head as int].is_clean[s as int],
                catchup_base(st, s as int, head as int, head as int) == catchup_base(st, s as int, head as int, base as int),
                catchup_base(st, s as int, head as int, head as int) != -2,
            decreases base,
        {
            let old_king = self.side[base].up.king_sq[s];
            let new_king = self.side[head].up.king_sq[s];
            let side = Color::from_index(s);
            proof {
                assert(side == color_of(s as int));
                assert(crate::nnue::network::update_on_board(self.side@[base as int].up));
                assert(crate::nnue::network::update_on_board(self.side@[head as int].up));
            }
            if Network::needs_refresh(side, old_king, new_king) {
                self.refresh(board, side, network);
                return;
            }
            if self.side[base].is_clean[s] {
                let mut i = base + 1;
                while i <= head
                    invariant
                        self.wf(),
                        self.finny_ok(network),
                        self.plies_ok(),
                        network.wf(),
                        s < 2,
                        side == color_of(s as int),
                        st == old(self).side@,
                        self.head == old(self).head,
                        self.finny == old(self).finny,
                        head == self.head,
                        base < i <= head + 1,
                        catchup_base(st, s as int, head as int, head as int) == base,
                        forall|j: int| 0 <= j < MAX_DEPTH_USIZE ==> (#[trigger] self.side@[j]).up == st[j].up
                            && self.side@[j].vals[1 - s] == st[j].vals[1 - s]
                            && self.side@[j].is_clean[1 - s] == st[j].is_clean[1 - s],
                        forall|j: int| 0 <= j < MAX_DEPTH_USIZE && !(base < j < i) ==> #[trigger] self.side@[j].vals[s as int] == st[j].vals[s as int],
                        forall|j: int, l: int| base < j < i && 0 <= l < 768 ==> #[trigger] self.side@[j].vals[s as int].0[l]
                            == chain(st, network, s as int, base as int, j, l),
                        forall|j: int| base < j < i ==> #[trigger] self.side@[j].is_clean[s as int],
                        forall|j: int| 0 <= j < MAX_DEPTH_USIZE && !(base < j < i) ==> #[trigger] self.side@[j].is_clean[s as int] == st[j].is_clean[s as int],
                    decreases head + 1 - i,
                {
                    let prev = self.side[i - 1].vals[s];
                    let mut acc = self.side[i];
                    let up = acc.up;
                    let mut next = acc.vals[s];
                    proof { assert(crate::nnue::network::update_on_board(self.side@[i as int].up)); }
                    network.apply_update(&mut next, &prev, &up, side);
                    acc.vals[s] = next;
                    acc.is_clean[s] = true;
                    self.side.set(i, acc);
                    proof {
                        assert forall|l: int| 0 <= l < 768 implies #[trigger] self.side@[i as int].vals[s as int].0[l]
                            == chain(st, network, s as int, base as int, i as int, l) by {
                            if i - 1 > base {
                                assert(prev.0[l] == chain(st, network, s as int, base as int, i - 1, l));
                            } else {
                                assert(prev == st[base as int].vals[s as int]);
                                assert(prev.0[l] == chain(st, network, s as int, base as int, i - 1, l));
                            }
                            assert(up == st[i as int].up);
                            assert(crate::nnue::network::update_result(
                                prev.0,
                                network.update_row(up, side, up.add1),
                                network.update_row(up, side, up.add2),
                                network.update_row(up, side, up.sub1),
                                network.update_row(up, side, up.sub2),
                                up.update_type,
                                l,
                            ) == prev.0[l] + update_delta(network, up, side, l));
                            assert(next.0[l] == wrap16(prev.0[l] + update_delta(network, up, side, l)));
                            assert(chain(st, network, s as int, base as int, i as int, l)
                                == wrap16(chain(st, network, s as int, base as int, i - 1, l) + update_delta(network, st[i as int].up, color_of(s as int), l)));
                        }
                    }
                    i += 1;
                }
                return;
            }
            if base == 0 {
                proof {
                    assert(catchup_base(st, s as int, head as int, -1) == -2);
                }
                return;
            }
            base -= 1;
        }
    }

    /// Brings both sides of the head ply up to date: from the nearest clean ply below by the
    /// moves' updates, or by a refresh when a king move on the way changed bucket or half.
    pub fn catchup(&mut self, board: &Position, network: &Network)
        requires
            old(self).wf(),
            old(self).finny_ok(network),
            old(self).plies_ok(),
            network.wf(),
            board.wf(),
            forall|s: int| 0 <= s < 2 && !old(self).side@[old(self).head as int].is_clean[s] ==> catchup_base(
                old(self).side@, s, old(self).head as int, old(self).head as int) != -2,
        ensures
            final(self).wf(),
            final(self).finny_ok(network),
            final(self).plies_ok(),
            final(self).head == old(self).head,
            final(self).side@[final(self).head as int].is_clean == [true, true],
    {
        self.catchup_side(board, 0, network);
        proof {
            assert(self.side@[self.head as int].is_clean[1] == old(self).side@[old(self).head as int].is_clean[1]);
            assert forall|i: int| 0 <= i < MAX_DEPTH_USIZE implies (#[trigger] self.side@[i]).up == old(self).side@[i].up
                && self.side@[i].is_clean[1] == old(self).side@[i].is_clean[1] by {}
            assert(catchup_base(self.side@, 1, self.head as int, self.head as int) == catchup_base(old(self).side@, 1, self.head as int, self.head as int)) by {
                lemma_base_same(self.side@, old(self).side@, 1, self.head as int, self.head as int);
            }
        }
        self.catchup_side(board, 1, network);
        assert(self.side@[self.head as int].is_clean =~= [true, true]);
    }
}

/// The search for a base reads only the kings and the clean flags of the side.
proof fn lemma_base_same(a: Seq<Accumulator>, b: Seq<Accumulator>, s: int, head: int, k: int)
    requires
        0 <= head < a.len(),
        a.len() == b.len(),
        k <= head,
        forall|i: int| 0 <= i < a.len() ==> (#[trigger] a[i]).up == b[i].up && a[i].is_clean[s] == b[i].is_clean[s],
    ensures
        catchup_base(a, s, head, k) == catchup_base(b, s, head, k),
    decreases k + 1,
{
    if k >= 0 {
        assert(a[k].up == b[k].up && a[head].up == b[head].up);
        lemma_base_same(a, b, s, head, k - 1);
    }
}

} // verus!
