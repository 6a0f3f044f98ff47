//! An accumulator updated by a move equals the accumulator a refresh computes for the board
//! the move leads to: summing the feature rows piece kind by piece kind is summing them
//! square by square, and a move changes the pieces of a few squares only.

use vstd::prelude::*;
use crate::chess::{Color, ColoredPiece, Piece, bb_has, color_index, piece_index, colored_index, piece_of_index};
use crate::position::{color_at, piece_at};
use crate::nnue::network::{Network, wrap16, lemma_wrap_shift, update_on_board};
use crate::nnue::halfka::{acc_model, pieces_sum, bb_sum, row_lane, cp_of, update_delta, same_view, lemma_same_view_rows};
use crate::nnue::update::{Update, UpdateType};

verus! {

/// No square holds two colors or two piece kinds.
pub open spec fn placement_ok(colors: [u64; 2], pieces: [u64; 6]) -> bool {
    &&& colors[0] & colors[1] == 0
    &&& forall|i: int, j: int| 0 <= i < j < 6 ==> #[trigger] (pieces[i] & pieces[j]) == 0
}

/// The colored piece on square `s` of a placement.
pub open spec fn square_piece(colors: [u64; 2], pieces: [u64; 6], s: int) -> Option<ColoredPiece> {
    match (color_at(colors, s), piece_at(pieces, s)) {
        (Some(c), Some(p)) => Some(ColoredPiece { color: c, piece: p }),
        _ => None,
    }
}

/// Lane `l` of the row of what stands on square `s`, or nothing.
pub open spec fn square_term(net: &Network, king: int, side: Color, cp: Option<ColoredPiece>, s: int, l: int) -> int {
    match cp {
        Some(c) => row_lane(net, king, side, c, s, l),
        None => 0,
    }
}

/// Lane `l` summed square by square over the squares below `n`.
pub open spec fn square_sum(net: &Network, king: int, side: Color, colors: [u64; 2], pieces: [u64; 6], n: nat, l: int) -> int
    decreases n,
{
    if n == 0 {
        0
    } else {
        square_sum(net, king, side, colors, pieces, (n - 1) as nat, l) + square_term(
            net,
            king,
            side,
            square_piece(colors, pieces, n - 1),
            n - 1,
            l,
        )
    }
}

/// As `square_sum`, counting only the pieces of the first `k` colored kinds.
pub open spec fn kind_prefix_sum(net: &Network, king: int, side: Color, colors: [u64; 2], pieces: [u64; 6], k: int, n: nat, l: int) -> int
    decreases n,
{
    if n == 0 {
        0
    } else {
        kind_prefix_sum(net, king, side, colors, pieces, k, (n - 1) as nat, l) + match square_piece(colors, pieces, n - 1) {
            Some(cp) => if colored_index(cp) < k { row_lane(net, king, side, cp, n - 1, l) } else { 0 },
            None => 0,
        }
    }
}

proof fn lemma_cp_of_index(cp: ColoredPiece)
    ensures
        0 <= colored_index(cp) < 12,
        cp_of(colored_index(cp)) == cp,
{
}

/// In a consistent placement, square `s` belongs to colored kind `j` exactly when that kind
/// stands there.
proof fn lemma_kind_square(colors: [u64; 2], pieces: [u64; 6], j: int, s: int)
    requires
        placement_ok(colors, pieces),
        0 <= j < 12,
        0 <= s < 64,
    ensures
        bb_has(colors[j / 6] & pieces[j % 6], s) <==> square_piece(colors, pieces, s) == Some(cp_of(j)),
{
    let su = s as u64;
    crate::threats::lemma_and_bit(colors[j / 6], pieces[j % 6], su);
    crate::threats::lemma_and_bit(colors[0], colors[1], su);
    assert forall|a: int, b: int| 0 <= a < b < 6 implies !(bb_has(pieces[a], s) && bb_has(pieces[b], s)) by {
        assert((pieces[a] & pieces[b]) == 0);
        crate::threats::lemma_and_bit(pieces[a], pieces[b], su);
    }
    assert(piece_index(piece_of_index(j % 6)) == j % 6);
}

proof fn lemma_prefix_zero(net: &Network, king: int, side: Color, colors: [u64; 2], pieces: [u64; 6], n: nat, l: int)
    ensures
        kind_prefix_sum(net, king, side, colors, pieces, 0, n, l) == 0,
    decreases n,
{
    if n > 0 {
        lemma_prefix_zero(net, king, side, colors, pieces, (n - 1) as nat, l);
        if let Some(cp) = square_piece(colors, pieces, n - 1) {
            lemma_cp_of_index(cp);
        }
    }
}

proof fn lemma_prefix_step(net: &Network, king: int, side: Color, colors: [u64; 2], pieces: [u64; 6], k: int, n: nat, l: int)
    requires
        placement_ok(colors, pieces),
        0 <= k < 12,
        n <= 64,
    ensures
        kind_prefix_sum(net, king, side, colors, pieces, k + 1, n, l) == kind_prefix_sum(net, king, side, colors, pieces, k, n, l)
            + bb_sum(net, king, side, cp_of(k), colors[k / 6] & pieces[k % 6], n, l),
    decreases n,
{
    if n > 0 {
        let s = n - 1;
        lemma_prefix_step(net, king, side, colors, pieces, k, (n - 1) as nat, l);
        lemma_kind_square(colors, pieces, k, s);
        if let Some(cp) = square_piece(colors, pieces, s) {
            lemma_cp_of_index(cp);
            if colored_index(cp) == k {
                assert(cp == cp_of(k));
            }
        }
    }
}

proof fn lemma_pieces_prefix(net: &Network, king: int, side: Color, colors: [u64; 2], pieces: [u64; 6], k: nat, l: int)
    requires
        placement_ok(colors, pieces),
        k <= 12,
    ensures
        pieces_sum(net, king, side, colors, pieces, k, l) == kind_prefix_sum(net, king, side, colors, pieces, k as int, 64, l),
    decreases k,
{
    if k == 0 {
        lemma_prefix_zero(net, king, side, colors, pieces, 64, l);
    } else {
        lemma_pieces_prefix(net, king, side, colors, pieces, (k - 1) as nat, l);
        lemma_prefix_step(net, king, side, colors, pieces, k - 1, 64, l);
    }
}

proof fn lemma_prefix_all(net: &Network, king: int, side: Color, colors: [u64; 2], pieces: [u64; 6], n: nat, l: int)
    ensures
        kind_prefix_sum(net, king, side, colors, pieces, 12, n, l) == square_sum(net, king, side, colors, pieces, n, l),
    decreases n,
{
    if n > 0 {
        lemma_prefix_all(net, king, side, colors, pieces, (n - 1) as nat, l);
        if let Some(cp) = square_piece(colors, pieces, n - 1) {
            lemma_cp_of_index(cp);
        }
    }
}

/// Summing the rows kind by kind is summing them square by square.
proof fn lemma_pieces_by_square(net: &Network, king: int, side: Color, colors: [u64; 2], pieces: [u64; 6], l: int)
    requires
        placement_ok(colors, pieces),
    ensures
        pieces_sum(net, king, side, colors, pieces, 12, l) == square_sum(net, king, side, colors, pieces, 64, l),
{
    lemma_pieces_prefix(net, king, side, colors, pieces, 12, l);
    lemma_prefix_all(net, king, side, colors, pieces, 64, l);
}

// ---------------------------------------------------------------------------------------------
// the squares a move changes

/// Whether the update places a piece (`add1`, and `add2` when castling) on square `s`.
pub open spec fn placed_at(u: Update, s: int) -> bool {
    u.add1.0 == s || (u.update_type == UpdateType::Castle && u.add2.0 == s)
}

/// Whether the update takes a piece (`sub1`, and `sub2` on a capture or when castling) off
/// square `s`.
pub open spec fn removed_at(u: Update, s: int) -> bool {
    u.sub1.0 == s || (u.update_type != UpdateType::Move && u.sub2.0 == s)
}

/// `to` is the placement `from` turns into under update `u`: the removed pieces stood where
/// the update says, the placed pieces stand where it says on squares that were empty or
/// emptied, the emptied squares that get nothing are empty, and every other square is
/// unchanged.
pub open spec fn edit_ok(from: ([u64; 2], [u64; 6]), to: ([u64; 2], [u64; 6]), u: Update) -> bool {
    &&& square_piece(from.0, from.1, u.sub1.0 as int) == Some(u.sub1.1)
    &&& u.update_type != UpdateType::Move ==> square_piece(from.0, from.1, u.sub2.0 as int) == Some(u.sub2.1)
        && u.sub2.0 != u.sub1.0
    &&& square_piece(to.0, to.1, u.add1.0 as int) == Some(u.add1.1)
    &&& u.update_type == UpdateType::Castle ==> square_piece(to.0, to.1, u.add2.0 as int) == Some(u.add2.1) && u.add2.0
        != u.add1.0
    &&& forall|s: int| 0 <= s < 64 && #[trigger] placed_at(u, s) && !removed_at(u, s) ==> square_piece(from.0, from.1, s) is None
    &&& forall|s: int| 0 <= s < 64 && #[trigger] removed_at(u, s) && !placed_at(u, s) ==> square_piece(to.0, to.1, s) is None
    &&& forall|s: int| 0 <= s < 64 && !placed_at(u, s) && !removed_at(u, s) ==> #[trigger] square_piece(to.0, to.1, s)
        == square_piece(from.0, from.1, s)
}

/// What the update adds on square `s` less what it takes off there.
pub open spec fn edit_term(net: &Network, king: int, side: Color, u: Update, s: int, l: int) -> int {
    (if u.add1.0 == s { row_lane(net, king, side, u.add1.1, s, l) } else { 0 }) + (if u.update_type == UpdateType::Castle
        && u.add2.0 == s { row_lane(net, king, side, u.add2.1, s, l) } else { 0 }) - (if u.sub1.0 == s {
        row_lane(net, king, side, u.sub1.1, s, l)
    } else {
        0
    }) - (if u.update_type != UpdateType::Move && u.sub2.0 == s { row_lane(net, king, side, u.sub2.1, s, l) } else { 0 })
}

pub open spec fn edit_sum(net: &Network, king: int, side: Color, u: Update, n: nat, l: int) -> int
    decreases n,
{
    if n == 0 {
        0
    } else {
        edit_sum(net, king, side, u, (n - 1) as nat, l) + edit_term(net, king, side, u, n - 1, l)
    }
}

proof fn lemma_square_diff(net: &Network, king: int, side: Color, from: ([u64; 2], [u64; 6]), to: ([u64; 2], [u64; 6]), u: Update, n: nat, l: int)
    requires
        edit_ok(from, to, u),
        n <= 64,
    ensures
        square_sum(net, king, side, to.0, to.1, n, l) == square_sum(net, king, side, from.0, from.1, n, l) + edit_sum(net, king, side, u, n, l),
    decreases n,
{
    if n > 0 {
        let s = n - 1;
        lemma_square_diff(net, king, side, from, to, u, (n - 1) as nat, l);
        if placed_at(u, s) && !removed_at(u, s) {
            assert(square_piece(from.0, from.1, s) is None);
        } else if removed_at(u, s) && !placed_at(u, s) {
            assert(square_piece(to.0, to.1, s) is None);
        } else if !placed_at(u, s) && !removed_at(u, s) {
            assert(square_piece(to.0, to.1, s) == square_piece(from.0, from.1, s));
        }
    }
}

proof fn lemma_one_square(net: &Network, king: int, side: Color, cp: ColoredPiece, x: int, n: nat, l: int)
    ensures
        sum_at(net, king, side, cp, x, n, l) == (if 0 <= x < n { row_lane(net, king, side, cp, x, l) } else { 0 }),
    decreases n,
{
    if n > 0 {
        lemma_one_square(net, king, side, cp, x, (n - 1) as nat, l);
    }
}

/// The row of `cp` on `x`, picked out of the squares below `n`.
pub open spec fn sum_at(net: &Network, king: int, side: Color, cp: ColoredPiece, x: int, n: nat, l: int) -> int
    decreases n,
{
    if n == 0 {
        0
    } else {
        sum_at(net, king, side, cp, x, (n - 1) as nat, l) + (if x == n - 1 { row_lane(net, king, side, cp, x, l) } else { 0 })
    }
}

proof fn lemma_edit_sum_split(net: &Network, king: int, side: Color, u: Update, n: nat, l: int)
    ensures
        edit_sum(net, king, side, u, n, l) == sum_at(net, king, side, u.add1.1, u.add1.0 as int, n, l) + (if u.update_type
            == UpdateType::Castle { sum_at(net, king, side, u.add2.1, u.add2.0 as int, n, l) } else { 0 }) - sum_at(net, king, side,
            u.sub1.1, u.sub1.0 as int, n, l) - (if u.update_type != UpdateType::Move {
            sum_at(net, king, side, u.sub2.1, u.sub2.0 as int, n, l)
        } else {
            0
        }),
    decreases n,
{
    if n > 0 {
        lemma_edit_sum_split(net, king, side, u, (n - 1) as nat, l);
    }
}

/// Updating an accumulator by a move gives the accumulator of the board the move leads to,
/// when the side's king keeps its bucket and its half of the board: if `to` is `from` with
/// the pieces of update `u` removed and placed, lane `l` of the accumulator of `from` with
/// `u`'s rows added and subtracted is lane `l` of the accumulator of `to`.
pub proof fn lemma_update_matches_refresh(
    net: &Network,
    u: Update,
    side: Color,
    old_king: int,
    from: ([u64; 2], [u64; 6]),
    to: ([u64; 2], [u64; 6]),
    l: int,
)
    requires
        placement_ok(from.0, from.1),
        placement_ok(to.0, to.1),
        edit_ok(from, to, u),
        update_on_board(u),
        same_view(old_king, u.king_sq[color_index(side)] as int, side),
        0 <= l < 768,
    ensures
        wrap16(acc_model(net, old_king, side, from.0, from.1, l) + update_delta(net, u, side, l)) == acc_model(
            net,
            u.king_sq[color_index(side)] as int,
            side,
            to.0,
            to.1,
            l,
        ),
{
    let k = u.king_sq[color_index(side)] as int;
    lemma_same_view_rows(net, old_king, k, side, from.0, from.1, l);
    lemma_pieces_by_square(net, k, side, from.0, from.1, l);
    lemma_pieces_by_square(net, k, side, to.0, to.1, l);
    lemma_square_diff(net, k, side, from, to, u, 64, l);
    lemma_edit_sum_split(net, k, side, u, 64, l);
    lemma_one_square(net, k, side, u.add1.1, u.add1.0 as int, 64, l);
    lemma_one_square(net, k, side, u.add2.1, u.add2.0 as int, 64, l);
    lemma_one_square(net, k, side, u.sub1.1, u.sub1.0 as int, 64, l);
    lemma_one_square(net, k, side, u.sub2.1, u.sub2.0 as int, 64, l);
    lemma_wrap_shift(net.feature_bias.0[l] + pieces_sum(net, old_king, side, from.0, from.1, 12, l), update_delta(net, u, side, l));
}

} // verus!
