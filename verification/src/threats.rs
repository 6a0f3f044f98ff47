//! Attack maps of a whole side, piece kind by piece kind.

use vstd::prelude::*;
use crate::chess::{Color, Piece, color_index, piece_index, opposite, bb_has, sq_bb};
use crate::position::{Position, lsb_spec};
use crate::attacks::{
    knight_attacks, king_attacks, pawn_attacks, bishop_attacks, rook_attacks, get_knight_moves,
    get_king_moves, get_pawn_attacks, get_bishop_moves, get_rook_moves, lemma_pawn_attacks_shift,
};

verus! {

/// Every square but those of the A file.
pub const NOT_A: u64 = 0xfefe_fefe_fefe_fefe;
/// Every square but those of the H file.
pub const NOT_H: u64 = 0x7f7f_7f7f_7f7f_7f7f;

/// The squares the pawns of `pawns` attack, all at once: white pawns capture up the board,
/// black pawns down, each shifted one file aside with the edge file masked off first.
pub open spec fn pawn_span(pawns: u64, color: Color) -> u64 {
    if color == Color::White {
        ((pawns & NOT_A) << 7u64) | ((pawns & NOT_H) << 9u64)
    } else {
        ((pawns & NOT_H) >> 7u64) | ((pawns & NOT_A) >> 9u64)
    }
}

/// The squares the pawns of `pawns` attack, computed set-wise.
pub fn setwise_pawn(pawns: u64, color: Color) -> (r: u64)
    ensures
        r == pawn_span(pawns, color),
{
    match color {
        Color::White => ((pawns & NOT_A) << 7u64) | ((pawns & NOT_H) << 9u64),
        Color::Black => ((pawns & NOT_H) >> 7u64) | ((pawns & NOT_A) >> 9u64),
    }
}

/// The attacks of a piece kind on `sq` (a slider's blocked by `occ`).
pub open spec fn kind_attacks(piece: Piece, sq: u8, occ: u64) -> u64 {
    match piece {
        Piece::Knight => knight_attacks(sq),
        Piece::Bishop => bishop_attacks(sq, occ),
        Piece::Rook => rook_attacks(sq, occ),
        Piece::Queen => bishop_attacks(sq, occ) | rook_attacks(sq, occ),
        Piece::King => king_attacks(sq),
        Piece::Pawn => 0,
    }
}

/// The union of the attacks of `piece` from each square of `bb` below `n`.
pub open spec fn union_attacks(piece: Piece, bb: u64, occ: u64, n: nat) -> u64
    decreases n,
{
    if n == 0 {
        0
    } else {
        union_attacks(piece, bb, occ, (n - 1) as nat) | (if bb_has(bb, n - 1) {
            kind_attacks(piece, (n - 1) as u8, occ)
        } else {
            0
        })
    }
}

fn attacks_setwise(piece: Piece, bb: u64, occ: u64) -> (r: u64)
    ensures
        r == union_attacks(piece, bb, occ, 64),
{
    let mut out: u64 = 0;
    let mut sq: u8 = 0;
    while sq < 64
        invariant
            sq <= 64,
            out == union_attacks(piece, bb, occ, sq as nat),
        decreases 64 - sq,
    {
        if bb & (1u64 << sq) != 0 {
            let a = match piece {
                Piece::Knight => get_knight_moves(sq),
                Piece::Bishop => get_bishop_moves(sq, occ),
                Piece::Rook => get_rook_moves(sq, occ),
                Piece::Queen => get_bishop_moves(sq, occ) | get_rook_moves(sq, occ),
                Piece::King => get_king_moves(sq),
                Piece::Pawn => 0,
            };
            out = out | a;
        } else {
            proof {
                lemma_or_zero(out);
            }
        }
        sq += 1;
    }
    out
}

pub(crate) proof fn lemma_or_zero(x: u64)
    ensures
        x | 0u64 == x,
{
    lemma_or_regroup(x, 0, 0, 0);
}

/// The squares the knights of `knights` attack.
pub fn setwise_knight(knights: u64) -> (r: u64)
    ensures
        r == union_attacks(Piece::Knight, knights, 0, 64),
{
    attacks_setwise(Piece::Knight, knights, 0)
}

/// The squares the rooks of `rooks` attack when `occ` is occupied.
pub fn setwise_rook(rooks: u64, occ: u64) -> (r: u64)
    ensures
        r == union_attacks(Piece::Rook, rooks, occ, 64),
{
    attacks_setwise(Piece::Rook, rooks, occ)
}

/// The squares the bishops of `bishops` attack when `occ` is occupied.
pub fn setwise_bishop(bishops: u64, occ: u64) -> (r: u64)
    ensures
        r == union_attacks(Piece::Bishop, bishops, occ, 64),
{
    attacks_setwise(Piece::Bishop, bishops, occ)
}

/// The opponent's attacks per piece kind (pawns all at once), and the squares from which each
/// kind would give check to the opponent's king.
pub struct Threats {
    pub by_opp: [u64; 6],
    pub checks: [u64; 6],
}

/// The attacks of a piece of the given kind and color on `square`.
pub open spec fn piece_attacks_spec(occ: u64, square: u8, piece: Piece, color: Color) -> u64 {
    if piece == Piece::Pawn { pawn_attacks(square, color == Color::Black) } else { kind_attacks(piece, square, occ) }
}

/// The attacks of the pieces of kind `p` among the squares of `bb` below `n`, their kind read
/// off the board.
pub open spec fn by_kind(pos: Position, bb: u64, occ: u64, p: Piece, color: Color, n: nat) -> u64
    decreases n,
{
    if n == 0 {
        0
    } else {
        by_kind(pos, bb, occ, p, color, (n - 1) as nat) | (if bb_has(bb, n - 1) && pos.piece_on_spec(n - 1) == Some(p) {
            piece_attacks_spec(occ, (n - 1) as u8, p, color)
        } else {
            0
        })
    }
}

impl Threats {
    pub(crate) fn get_attacks(occ: u64, square: u8, piece: Piece, color: Color) -> (r: u64)
        requires
            square < 64,
        ensures
            r == piece_attacks_spec(occ, square, piece, color),
    {
        match piece {
            Piece::Pawn => get_pawn_attacks(square, color == Color::Black),
            Piece::Knight => get_knight_moves(square),
            Piece::Bishop => get_bishop_moves(square, occ),
            Piece::Rook => get_rook_moves(square, occ),
            Piece::Queen => get_bishop_moves(square, occ) | get_rook_moves(square, occ),
            Piece::King => get_king_moves(square),
        }
    }

    /// The attack maps of the side not to move, and the checking squares against its king.
    pub fn build(pos: &Position) -> (r: Self)
        requires
            pos.wf(),
        ensures
            ({
                let ntm = opposite(pos.side_to_move);
                let occ = pos.occupied_spec();
                let others = pos.colors[color_index(ntm)] & !pos.pieces[0];
                &&& r.by_opp[0] == pawn_span(pos.colored_spec(ntm, Piece::Pawn), ntm)
                &&& forall|p: int| 1 <= p < 6 ==> #[trigger] r.by_opp[p] == by_kind(*pos, others, occ, crate::chess::piece_of_index(p), ntm, 64)
            }),
            ({
                let k = lsb_spec(pos.colored_spec(opposite(pos.side_to_move), Piece::King)) as u8;
                let occ = pos.occupied_spec();
                r.checks == [0u64, knight_attacks(k), bishop_attacks(k, occ), rook_attacks(k, occ),
                    bishop_attacks(k, occ) | rook_attacks(k, occ), 0u64]
            }),
    {
        let occ = pos.occupied();
        let ntm = pos.side_to_move.other();
        let mut by_opp: [u64; 6] = [0; 6];
        by_opp[0] = setwise_pawn(pos.colored_pieces(ntm, Piece::Pawn), ntm);
        let others = pos.colors(ntm) & !pos.pieces(Piece::Pawn);
        let mut sq: u8 = 0;
        while sq < 64
            invariant
                sq <= 64,
                occ == pos.occupied_spec(),
                others == pos.colors[color_index(ntm)] & !pos.pieces[0],
                by_opp[0] == pawn_span(pos.colored_spec(ntm, Piece::Pawn), ntm),
                forall|p: int| 1 <= p < 6 ==> #[trigger] by_opp[p] == by_kind(*pos, others, occ, crate::chess::piece_of_index(p), ntm, sq as nat),
            decreases 64 - sq,
        {
            let ghost before = by_opp;
            if others & (1u64 << sq) != 0 {
                match pos.piece_on(sq) {
                    Some(piece) => {
                        let i = piece.index();
                        if i > 0 {
                            by_opp[i] = by_opp[i] | Self::get_attacks(occ, sq, piece, ntm);
                        }
                        proof {
                            assert forall|p: int| 1 <= p < 6 implies #[trigger] by_opp[p] == by_kind(*pos, others, occ, crate::chess::piece_of_index(p), ntm, (sq + 1) as nat) by {
                                assert(piece_index(crate::chess::piece_of_index(p)) == p);
                                if p == i {
                                    assert(crate::chess::piece_of_index(p) == piece);
                                } else {
                                    assert(crate::chess::piece_of_index(p) != piece);
                                    assert(by_kind(*pos, others, occ, crate::chess::piece_of_index(p), ntm, (sq + 1) as nat)
                                        == (by_kind(*pos, others, occ, crate::chess::piece_of_index(p), ntm, sq as nat) | 0u64));
                                    lemma_or_zero(before[p]);
                                }
                            }
                        }
                    },
                    None => {
                        proof {
                            assert forall|p: int| 1 <= p < 6 implies #[trigger] by_opp[p] == by_kind(*pos, others, occ, crate::chess::piece_of_index(p), ntm, (sq + 1) as nat) by {
                                lemma_or_zero(before[p]);
                            }
                        }
                    },
                }
            } else {
                proof {
                    assert forall|p: int| 1 <= p < 6 implies #[trigger] by_opp[p] == by_kind(*pos, others, occ, crate::chess::piece_of_index(p), ntm, (sq + 1) as nat) by {
                        lemma_or_zero(before[p]);
                    }
                }
            }
            sq += 1;
        }
        let king = pos.king(ntm);
        let checks = [
            0,
            get_knight_moves(king),
            get_bishop_moves(king, occ),
            get_rook_moves(king, occ),
            get_bishop_moves(king, occ) | get_rook_moves(king, occ),
            0,
        ];
        Threats { by_opp, checks }
    }
}


/// No square holds two piece kinds, as on any board reached by play.
pub open spec fn pieces_disjoint(pos: Position) -> bool {
    forall|i: int, j: int| 0 <= i < j < 6 ==> #[trigger] (pos.pieces[i] & pos.pieces[j]) == 0
}

pub(crate) proof fn lemma_and_bit(a: u64, b: u64, s: u64)
    requires
        s < 64,
    ensures
        (a & b) & (1u64 << s) != 0 <==> (a & (1u64 << s) != 0 && b & (1u64 << s) != 0),
        (a & !b) & (1u64 << s) != 0 <==> (a & (1u64 << s) != 0 && b & (1u64 << s) == 0),
        (a & b) == 0 ==> !(a & (1u64 << s) != 0 && b & (1u64 << s) != 0),
{
    assert(((a & b) & (1u64 << s) != 0 <==> (a & (1u64 << s) != 0 && b & (1u64 << s) != 0))
        && ((a & !b) & (1u64 << s) != 0 <==> (a & (1u64 << s) != 0 && b & (1u64 << s) == 0))
        && ((a & b) == 0 ==> !(a & (1u64 << s) != 0 && b & (1u64 << s) != 0))) by (bit_vector)
        requires s < 64;
}

pub(crate) proof fn lemma_or_regroup(x: u64, y: u64, a: u64, b: u64)
    ensures
        (x | a) | (y | b) == (x | y) | (a | b),
        (x | 0u64) | (y | 0u64) == (x | y) | 0u64,
        x | 0u64 == x,
        0u64 | x == x,
        0u64 | 0u64 == 0u64,
{
    assert((x | a) | (y | b) == (x | y) | (a | b) && (x | 0u64) | (y | 0u64) == (x | y) | 0u64 && x | 0u64 == x
        && 0u64 | x == x && 0u64 | 0u64 == 0u64) by (bit_vector);
}

/// A square belongs to the pieces of kind `p` of color `c` (not a pawn) exactly when it is one
/// of that color's non-pawn squares and the board reads kind `p` there.
proof fn lemma_kind_square(pos: Position, c: Color, p: Piece, sq: int)
    requires
        pieces_disjoint(pos),
        0 <= sq < 64,
        p != Piece::Pawn,
    ensures
        bb_has(pos.colored_spec(c, p), sq) <==> (bb_has(pos.colors[color_index(c)] & !pos.pieces[0], sq)
            && pos.piece_on_spec(sq) == Some(p)),
{
    let s = sq as u64;
    let col = pos.colors[color_index(c)];
    lemma_and_bit(col, pos.pieces[piece_index(p)], s);
    lemma_and_bit(col, pos.pieces[0], s);
    assert forall|i: int, j: int| 0 <= i < j < 6 implies !(bb_has(pos.pieces[i], sq) && bb_has(pos.pieces[j], sq)) by {
        assert((pos.pieces[i] & pos.pieces[j]) == 0);
        lemma_and_bit(pos.pieces[i], pos.pieces[j], s);
    }
}

proof fn lemma_kind_union(pos: Position, c: Color, p: Piece, occ: u64, n: nat)
    requires
        pieces_disjoint(pos),
        n <= 64,
        p == Piece::Knight || p == Piece::Bishop || p == Piece::Rook,
    ensures
        union_attacks(p, pos.colored_spec(c, p), occ, n)
            == by_kind(pos, pos.colors[color_index(c)] & !pos.pieces[0], occ, p, c, n),
    decreases n,
{
    if n > 0 {
        lemma_kind_union(pos, c, p, occ, (n - 1) as nat);
        lemma_kind_square(pos, c, p, n - 1);
    }
}

proof fn lemma_queen_union(pos: Position, c: Color, occ: u64, n: nat)
    requires
        pieces_disjoint(pos),
        n <= 64,
    ensures
        union_attacks(Piece::Bishop, pos.colored_spec(c, Piece::Queen), occ, n)
            | union_attacks(Piece::Rook, pos.colored_spec(c, Piece::Queen), occ, n)
            == by_kind(pos, pos.colors[color_index(c)] & !pos.pieces[0], occ, Piece::Queen, c, n),
    decreases n,
{
    let q = pos.colored_spec(c, Piece::Queen);
    if n == 0 {
        lemma_or_regroup(0, 0, 0, 0);
    } else {
        let m = (n - 1) as nat;
        lemma_queen_union(pos, c, occ, m);
        lemma_kind_square(pos, c, Piece::Queen, m as int);
        lemma_or_regroup(union_attacks(Piece::Bishop, q, occ, m), union_attacks(Piece::Rook, q, occ, m),
            bishop_attacks(m as u8, occ), rook_attacks(m as u8, occ));
    }
}

proof fn lemma_knight_ignores_occupancy(bb: u64, occ: u64, n: nat)
    ensures
        union_attacks(Piece::Knight, bb, 0, n) == union_attacks(Piece::Knight, bb, occ, n),
    decreases n,
{
    if n > 0 {
        lemma_knight_ignores_occupancy(bb, occ, (n - 1) as nat);
    }
}

/// The attacks of knights, bishops, rooks and queens gathered set by set (`setwise_knight`,
/// `setwise_bishop`, `setwise_rook`, a queen as bishop and rook) are those gathered piece by
/// piece over a side's non-pawn squares, as `Threats::build` gathers them.
pub proof fn lemma_setwise_matches_per_piece(pos: Position, c: Color)
    requires
        pieces_disjoint(pos),
    ensures
        ({
            let occ = pos.occupied_spec();
            let others = pos.colors[color_index(c)] & !pos.pieces[0];
            &&& union_attacks(Piece::Knight, pos.colored_spec(c, Piece::Knight), 0, 64)
                == by_kind(pos, others, occ, Piece::Knight, c, 64)
            &&& union_attacks(Piece::Bishop, pos.colored_spec(c, Piece::Bishop), occ, 64)
                == by_kind(pos, others, occ, Piece::Bishop, c, 64)
            &&& union_attacks(Piece::Rook, pos.colored_spec(c, Piece::Rook), occ, 64)
                == by_kind(pos, others, occ, Piece::Rook, c, 64)
            &&& union_attacks(Piece::Bishop, pos.colored_spec(c, Piece::Queen), occ, 64)
                | union_attacks(Piece::Rook, pos.colored_spec(c, Piece::Queen), occ, 64)
                == by_kind(pos, others, occ, Piece::Queen, c, 64)
        }),
{
    let occ = pos.occupied_spec();
    lemma_kind_union(pos, c, Piece::Knight, occ, 64);
    lemma_knight_ignores_occupancy(pos.colored_spec(c, Piece::Knight), occ, 64);
    lemma_kind_union(pos, c, Piece::Bishop, occ, 64);
    lemma_kind_union(pos, c, Piece::Rook, occ, 64);
    lemma_queen_union(pos, c, occ, 64);
}

proof fn lemma_single_bit(k: u64, s: u64)
    requires
        k < 64,
        s < 64,
    ensures
        (1u64 << k) & (1u64 << s) != 0 <==> k == s,
{
    assert((1u64 << k) & (1u64 << s) != 0 <==> k == s) by (bit_vector)
        requires k < 64, s < 64;
}

proof fn lemma_king_union(pos: Position, c: Color, k: u8, occ: u64, n: nat)
    requires
        pieces_disjoint(pos),
        k < 64,
        pos.colored_spec(c, Piece::King) == sq_bb(k as int),
        n <= 64,
    ensures
        by_kind(pos, pos.colors[color_index(c)] & !pos.pieces[0], occ, Piece::King, c, n)
            == (if k < n { king_attacks(k) } else { 0u64 }),
    decreases n,
{
    if n > 0 {
        let m = (n - 1) as nat;
        lemma_king_union(pos, c, k, occ, m);
        lemma_kind_square(pos, c, Piece::King, m as int);
        lemma_single_bit(k as u64, m as u64);
        lemma_or_regroup(king_attacks(k), 0, 0, 0);
    }
}

/// With a single king, the attacks gathered over a side's king squares are that king's attacks.
pub proof fn lemma_king_attacks_per_piece(pos: Position, c: Color, k: u8)
    requires
        pieces_disjoint(pos),
        k < 64,
        pos.colored_spec(c, Piece::King) == sq_bb(k as int),
    ensures
        by_kind(pos, pos.colors[color_index(c)] & !pos.pieces[0], pos.occupied_spec(), Piece::King, c, 64)
            == king_attacks(k),
{
    lemma_king_union(pos, c, k, pos.occupied_spec(), 64);
}

/// The union of the attacks of the pawns of `bb` on the squares below `n`, pawn by pawn.
pub open spec fn union_pawn_attacks(bb: u64, color: Color, n: nat) -> u64
    decreases n,
{
    if n == 0 {
        0
    } else {
        union_pawn_attacks(bb, color, (n - 1) as nat) | (if bb_has(bb, n - 1) {
            pawn_attacks((n - 1) as u8, color == Color::Black)
        } else {
            0
        })
    }
}

spec fn low_mask(n: u64) -> u64 {
    if n >= 64 { 0xffff_ffff_ffff_ffffu64 } else { ((1u64 << n) - 1) as u64 }
}

proof fn lemma_low_mask_step(bb: u64, n: u64)
    requires
        1 <= n <= 64,
    ensures
        bb & low_mask(n) == (bb & low_mask((n - 1) as u64)) | (if bb & (1u64 << ((n - 1) as u64)) != 0 {
            1u64 << ((n - 1) as u64)
        } else {
            0u64
        }),
        bb & low_mask(0) == 0,
        bb & low_mask(64) == bb,
{
    assert(bb & low_mask(n) == (bb & low_mask((n - 1) as u64)) | (if bb & (1u64 << ((n - 1) as u64)) != 0 {
        1u64 << ((n - 1) as u64)
    } else {
        0u64
    }) && bb & low_mask(0) == 0 && bb & low_mask(64) == bb) by (bit_vector)
        requires 1 <= n <= 64;
}

proof fn lemma_pawn_span_linear(x: u64, y: u64, color: Color)
    ensures
        pawn_span(x | y, color) == pawn_span(x, color) | pawn_span(y, color),
        pawn_span(0, color) == 0,
{
    assert(((((x | y) & NOT_A) << 7u64) | (((x | y) & NOT_H) << 9u64))
        == ((((x & NOT_A) << 7u64) | ((x & NOT_H) << 9u64)) | (((y & NOT_A) << 7u64) | ((y & NOT_H) << 9u64)))
        && ((((x | y) & NOT_H) >> 7u64) | (((x | y) & NOT_A) >> 9u64))
        == ((((x & NOT_H) >> 7u64) | ((x & NOT_A) >> 9u64)) | (((y & NOT_H) >> 7u64) | ((y & NOT_A) >> 9u64)))
        && (((0u64 & NOT_A) << 7u64) | ((0u64 & NOT_H) << 9u64)) == 0u64
        && (((0u64 & NOT_H) >> 7u64) | ((0u64 & NOT_A) >> 9u64)) == 0u64) by (bit_vector);
}

proof fn lemma_pawn_union_prefix(bb: u64, color: Color, n: nat)
    requires
        n <= 64,
    ensures
        union_pawn_attacks(bb, color, n) == pawn_span(bb & low_mask(n as u64), color),
    decreases n,
{
    lemma_low_mask_step(bb, 64);
    if n > 0 {
        let m = (n - 1) as nat;
        lemma_pawn_union_prefix(bb, color, m);
        lemma_low_mask_step(bb, n as u64);
        let single: u64 = if bb_has(bb, m as int) { sq_bb(m as int) } else { 0u64 };
        lemma_pawn_span_linear(bb & low_mask(m as u64), single, color);
        lemma_pawn_span_linear(0, 0, color);
        if bb_has(bb, m as int) {
            lemma_pawn_attacks_shift(m as u8, color == Color::Black);
        }
    } else {
        lemma_pawn_span_linear(0, 0, color);
    }
}

/// Pawn attacks gathered all at once (`setwise_pawn`) are those gathered pawn by pawn.
pub proof fn lemma_setwise_pawn_matches_per_square(bb: u64, color: Color)
    ensures
        pawn_span(bb, color) == union_pawn_attacks(bb, color, 64),
{
    lemma_pawn_union_prefix(bb, color, 64);
    lemma_low_mask_step(bb, 64);
}

} // verus!
