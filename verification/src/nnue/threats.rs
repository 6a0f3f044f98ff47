//! Threat features: which piece attacks which. Each ply keeps one accumulator per side, the
//! weights of every attack relation on the board summed up.

use vstd::prelude::*;
use crate::chess::{Color, Piece, ColoredPiece, Move, MoveType, bb_has, sq_bb, file_of, rank_of, square_bitboard, lsb};
use crate::position::Position;
use crate::attacks::{
    knight_attacks, pawn_attacks, bishop_attacks, rook_attacks, between_rays, get_knight_moves,
    get_pawn_attacks, get_bishop_moves, get_rook_moves, get_between_rays,
};
use crate::movegen::capped;
use crate::movelist::{delta_items, delta_len, delta_push, index_items, index_new, index_len, index_push};
use crate::nnue::halfka::{cp_at, color_of, king_spec};
use crate::nnue::network::{
    Aligned, Network, HL, threat_index_spec, threat_sum, wrap16, deltas_on_board, delta_features,
    lemma_wrap_small, lemma_wrap_add,
};
use crate::nnue::ti::FULL_THREATS;
use crate::nnue::update::{ThreatDelta, ThreatUpdate};
use crate::param::MAX_DEPTH_USIZE;
use arrayvec::ArrayVec;

verus! {

/// The threat accumulators of one ply: one vector per side, whether each is up to date, the
/// kings' squares and the relations the ply's move changed.
pub struct Accumulator {
    pub vals: [Aligned<i16, 768>; 2],
    pub is_clean: [bool; 2],
    pub king_sq: [u8; 2],
    pub update: ThreatUpdate,
}

/// The threat accumulators of the search stack.
pub struct Threats {
    pub side: Vec<Accumulator>,
    pub head: usize,
}

// ---------------------------------------------------------------------------------------------
// lines

/// Whether `t` lies on the line through `sq` in direction `dir`: 0 the rank, 1 the
/// anti-diagonal, 2 the file, 3 the diagonal.
pub open spec fn on_line(sq: int, t: int, dir: int) -> bool {
    if dir == 0 {
        rank_of(t) == rank_of(sq)
    } else if dir == 1 {
        file_of(t) + rank_of(t) == file_of(sq) + rank_of(sq)
    } else if dir == 2 {
        file_of(t) == file_of(sq)
    } else {
        file_of(t) - rank_of(t) == file_of(sq) - rank_of(sq)
    }
}

/// The bitboard of the squares other than `sq` on the line through `sq` in direction `dir`.
pub open spec fn line_spec(sq: int, dir: int) -> u64 {
    choose|b: u64| #[trigger] is_line(b, sq, dir)
}

/// `b` holds exactly the squares other than `sq` on the line through `sq` in direction `dir`.
pub open spec fn is_line(b: u64, sq: int, dir: int) -> bool {
    forall|t: int| 0 <= t < 64 ==> #[trigger] bb_has(b, t) == (t != sq && on_line(sq, t, dir))
}

/// The squares other than `sq` on the line through `sq` in direction `dir` (0 the rank, 1 the
/// anti-diagonal, 2 the file, 3 the diagonal).
pub fn get_line(sq: u8, dir: usize) -> (r: u64)
    requires
        sq < 64,
        dir < 4,
    ensures
        forall|t: int| 0 <= t < 64 ==> #[trigger] bb_has(r, t) == (t != sq && on_line(sq as int, t, dir as int)),
        r == line_spec(sq as int, dir as int),
{
    let file = sq % 8;
    let rank = sq / 8;
    let mut r: u64 = 0;
    let mut t: u8 = 0;
    proof {
        assert forall|u: int| 0 <= u < 64 implies !#[trigger] bb_has(0u64, u) by {
            let uu = u as u64;
            assert(0u64 & (1u64 << uu) == 0) by (bit_vector);
        }
    }
    while t < 64
        invariant
            sq < 64,
            dir < 4,
            file == file_of(sq as int),
            rank == rank_of(sq as int),
            t <= 64,
            forall|u: int| 0 <= u < t ==> #[trigger] bb_has(r, u) == (u != sq && on_line(sq as int, u, dir as int)),
            forall|u: int| t <= u < 64 ==> !#[trigger] bb_has(r, u),
        decreases 64 - t,
    {
        let tf = t % 8;
        let tr = t / 8;
        let hit = if dir == 0 {
            tr == rank
        } else if dir == 1 {
            tf + tr == file + rank
        } else if dir == 2 {
            tf == file
        } else {
            tf + rank == file + tr
        };
        let ghost old_r = r;
        if t != sq && hit {
            r = r | (1u64 << t);
        }
        proof {
            let tt = t as u64;
            assert forall|u: int| 0 <= u < 64 implies #[trigger] bb_has(r, u) == (if u == t { t != sq && hit } else { bb_has(old_r, u) }) by {
                let uu = u as u64;
                assert(tt < 64 && uu < 64 ==> ((old_r | (1u64 << tt)) & (1u64 << uu) != 0) == (uu == tt || old_r & (1u64 << uu) != 0)) by (bit_vector);
            }
        }
        t += 1;
    }
    proof {
        assert(is_line(r, sq as int, dir as int));
        let c = line_spec(sq as int, dir as int);
        assert(is_line(c, sq as int, dir as int));
        assert forall|u: int| 0 <= u < 64 implies #[trigger] bb_has(c, u) == bb_has(r, u) by {}
        lemma_bb_eq(c, r);
    }
    r
}

// ---------------------------------------------------------------------------------------------
// attacks between pieces

/// The squares a piece on `sq` attacks when `occ` is occupied (none for a king).
pub open spec fn piece_attacks(cp: ColoredPiece, sq: u8, occ: u64) -> u64 {
    match cp.piece {
        Piece::Pawn => pawn_attacks(sq, cp.color == Color::Black),
        Piece::Knight => knight_attacks(sq),
        Piece::Bishop => bishop_attacks(sq, occ),
        Piece::Rook => rook_attacks(sq, occ),
        Piece::Queen => bishop_attacks(sq, occ) | rook_attacks(sq, occ),
        Piece::King => 0,
    }
}

fn attacks_of(cp: ColoredPiece, sq: u8, occ: u64) -> (r: u64)
    requires
        sq < 64,
    ensures
        r == piece_attacks(cp, sq, occ),
{
    match cp.piece {
        Piece::Pawn => get_pawn_attacks(sq, cp.color == Color::Black),
        Piece::Knight => get_knight_moves(sq),
        Piece::Bishop => get_bishop_moves(sq, occ),
        Piece::Rook => get_rook_moves(sq, occ),
        Piece::Queen => get_bishop_moves(sq, occ) | get_rook_moves(sq, occ),
        Piece::King => 0,
    }
}

/// The pieces that attack `sq` (kings aside), when `occ` is occupied.
pub open spec fn incoming_spec(board: Position, sq: u8, occ: u64) -> u64 {
    let bishop = bishop_attacks(sq, occ);
    let rook = rook_attacks(sq, occ);
    ((pawn_attacks(sq, true) & board.colored_spec(Color::White, Piece::Pawn))
        | (pawn_attacks(sq, false) & board.colored_spec(Color::Black, Piece::Pawn)))
        | (knight_attacks(sq) & board.pieces[1])
        | (bishop & board.pieces[2])
        | (rook & board.pieces[3])
        | ((bishop | rook) & board.pieces[4])
}

/// One relation per piece on a square of `bb` below `n`, ascending: attacks by `cp` on `sq`
/// on those pieces when `outgoing`, attacks of those pieces on `cp` otherwise. Squares
/// without a piece give none.
pub open spec fn deltas_for(board: Position, cp: ColoredPiece, sq: u8, bb: u64, n: nat, outgoing: bool) -> Seq<ThreatDelta>
    decreases n,
{
    if n == 0 {
        Seq::empty()
    } else {
        let t = n - 1;
        deltas_for(board, cp, sq, bb, (n - 1) as nat, outgoing) + (if bb_has(bb, t) && cp_at(board, t) is Some {
            if outgoing {
                seq![ThreatDelta { attacker: cp, attacker_sq: sq, target: cp_at(board, t).unwrap(), target_sq: t as u8 }]
            } else {
                seq![ThreatDelta { attacker: cp_at(board, t).unwrap(), attacker_sq: t as u8, target: cp, target_sq: sq }]
            }
        } else {
            Seq::empty()
        })
    }
}

/// Appends the relations of `deltas_for`, while the list has room.
fn push_deltas(
    out: &mut ArrayVec<ThreatDelta, 96>,
    board: &Position,
    cp: ColoredPiece,
    sq: u8,
    bb: u64,
    outgoing: bool,
    Ghost(s): Ghost<Seq<ThreatDelta>>,
    Ghost(t): Ghost<Seq<ThreatDelta>>,
)
    requires
        sq < 64,
        delta_items(*old(out)) == capped(s + t, 96),
    ensures
        delta_items(*final(out)) == capped(s + t + deltas_for(*board, cp, sq, bb, 64, outgoing), 96),
{
    let mut k: u8 = 0;
    assert(t + deltas_for(*board, cp, sq, bb, 0, outgoing) =~= t);
    while k < 64
        invariant
            sq < 64,
            k <= 64,
            delta_items(*out) == capped(s + (t + deltas_for(*board, cp, sq, bb, k as nat, outgoing)), 96),
        decreases 64 - k,
    {
        let ghost before = t + deltas_for(*board, cp, sq, bb, k as nat, outgoing);
        if bb & (1u64 << k) != 0 {
            match board.color_piece_on(k) {
                Some(p2) => {
                    let d = if outgoing {
                        ThreatDelta::new(cp, sq, p2, k)
                    } else {
                        ThreatDelta::new(p2, k, cp, sq)
                    };
                    proof {
                        crate::movegen::lemma_capped_append(s, before, d, 96);
                        assert(before.push(d) =~= t + deltas_for(*board, cp, sq, bb, (k + 1) as nat, outgoing));
                        assert(s + before.push(d) =~= (s + before).push(d));
                    }
                    if delta_len(out) < 96 {
                        delta_push(out, d);
                    }
                },
                None => {
                    assert(before =~= t + deltas_for(*board, cp, sq, bb, (k + 1) as nat, outgoing));
                },
            }
        } else {
            assert(before =~= t + deltas_for(*board, cp, sq, bb, (k + 1) as nat, outgoing));
        }
        k += 1;
    }
    assert(s + (t + deltas_for(*board, cp, sq, bb, 64, outgoing)) =~= s + t + deltas_for(*board, cp, sq, bb, 64, outgoing));
}

/// The relations that involve the piece on `sq` and a piece on `mask`: its attacks on the
/// pieces it hits (kings aside), then the attacks of other pieces on it. A king takes part in
/// none.
pub open spec fn sq_inout_spec(board: Position, sq: u8, mask: u64) -> Seq<ThreatDelta> {
    let cp = cp_at(board, sq as int).unwrap();
    let occ = board.occupied_spec();
    if cp.piece == Piece::King {
        Seq::empty()
    } else {
        deltas_for(board, cp, sq, piece_attacks(cp, sq, occ) & occ & mask & !board.pieces[5], 64, true)
            + deltas_for(board, cp, sq, incoming_spec(board, sq, occ) & occ & mask, 64, false)
    }
}

/// Appends the relations between the piece on `sq` and the pieces on `mask`: those it
/// attacks, then those attacking it.
pub fn record_sq_inout(board: &Position, sq: u8, mask: u64, out: &mut ArrayVec<ThreatDelta, 96>)
    requires
        sq < 64,
        cp_at(*board, sq as int) is Some,
    ensures
        delta_items(*final(out)) == capped(delta_items(*old(out)) + sq_inout_spec(*board, sq, mask), 96),
{
    let _n = delta_len(out);
    let ghost s = delta_items(*out);
    proof {
        assert(s + Seq::<ThreatDelta>::empty() =~= s);
    }
    let piece = board.color_piece_on(sq).unwrap();
    if piece.piece == Piece::King {
        return;
    }
    let occ = board.occupied();
    let pawn = get_pawn_attacks(sq, piece.color == Color::Black);
    let knight = get_knight_moves(sq);
    let bishop = get_bishop_moves(sq, occ);
    let rook = get_rook_moves(sq, occ);
    let queen = bishop | rook;
    let attacks = match piece.piece {
        Piece::Pawn => pawn,
        Piece::Knight => knight,
        Piece::Bishop => bishop,
        Piece::Rook => rook,
        Piece::Queen => queen,
        Piece::King => 0,
    };
    let outs = attacks & occ & mask & !board.pieces(Piece::King);
    push_deltas(out, board, piece, sq, outs, true, Ghost(s), Ghost(Seq::empty()));
    let incoming_pawns = (get_pawn_attacks(sq, true) & board.colored_pieces(Color::White, Piece::Pawn))
        | (get_pawn_attacks(sq, false) & board.colored_pieces(Color::Black, Piece::Pawn));
    let incoming = incoming_pawns | (knight & board.pieces(Piece::Knight)) | (bishop & board.pieces(Piece::Bishop))
        | (rook & board.pieces(Piece::Rook)) | (queen & board.pieces(Piece::Queen));
    let ghost first = deltas_for(*board, piece, sq, outs, 64, true);
    proof {
        assert(s + Seq::<ThreatDelta>::empty() + first =~= s + first);
    }
    push_deltas(out, board, piece, sq, incoming & occ & mask, false, Ghost(s), Ghost(first));
    assert(s + first + deltas_for(*board, piece, sq, incoming & occ & mask, 64, false) =~= s + sq_inout_spec(*board, sq, mask));
}


/// Appending to a capped list, then appending more and capping again, is appending both.
pub proof fn lemma_capped_twice<T>(x: Seq<T>, a: Seq<T>, b: Seq<T>, cap: nat)
    ensures
        capped(capped(x + a, cap) + b, cap) == capped(x + a + b, cap),
{
    if (x + a).len() <= cap {
    } else {
        assert((x + a).take(cap as int) + b =~= ((x + a).take(cap as int) + b));
        assert(((x + a).take(cap as int) + b).take(cap as int) =~= (x + a + b).take(cap as int));
    }
}

// ---------------------------------------------------------------------------------------------
// attacks a move uncovers

/// The highest square of `line` at or below `k`, or -1.
pub open spec fn nearest_below(line: u64, k: int) -> int
    decreases k + 1,
{
    if k < 0 {
        -1
    } else if bb_has(line, k) {
        k
    } else {
        nearest_below(line, k - 1)
    }
}

/// The lowest square of `line` at or above `k` (below 64), or 64.
pub open spec fn nearest_above(line: u64, k: int) -> int
    decreases 64 - k,
{
    if k >= 64 {
        64
    } else if bb_has(line, k) {
        k
    } else {
        nearest_above(line, k + 1)
    }
}

proof fn lemma_nearest_range(line: u64, sq: int)
    requires
        0 <= sq < 64,
    ensures
        -1 <= nearest_below(line, sq - 1) < sq,
        sq < nearest_above(line, sq + 1) <= 64,
{
    lemma_below_range(line, sq - 1);
    lemma_above_range(line, sq + 1);
}

proof fn lemma_below_range(line: u64, k: int)
    ensures
        -1 <= nearest_below(line, k) <= (if k < 0 { -1 } else { k }),
    decreases k + 1,
{
    if k >= 0 {
        lemma_below_range(line, k - 1);
    }
}

proof fn lemma_above_range(line: u64, k: int)
    ensures
        (if k >= 64 { 64 } else { k }) <= nearest_above(line, k) <= 64,
    decreases 64 - k,
{
    if k < 64 {
        lemma_above_range(line, k + 1);
    }
}

/// The nearest squares of `line` on either side of `sq`, lower one first, when there is one
/// on each side.
fn pop2(line: u64, sq: u8) -> (r: Option<(u8, u8)>)
    requires
        sq < 64,
    ensures
        r == (if nearest_below(line, sq - 1) >= 0 && nearest_above(line, sq + 1) < 64 {
            Some((nearest_below(line, sq - 1) as u8, nearest_above(line, sq + 1) as u8))
        } else {
            None
        }),
{
    let mut lo: i16 = sq as i16 - 1;
    while lo >= 0 && line & (1u64 << (lo as u64)) == 0
        invariant
            -1 <= lo < 64,
            nearest_below(line, lo as int) == nearest_below(line, sq - 1),
        decreases lo + 1,
    {
        lo -= 1;
    }
    let mut hi: u8 = sq + 1;
    while hi < 64 && line & (1u64 << hi) == 0
        invariant
            sq < hi <= 64,
            nearest_above(line, hi as int) == nearest_above(line, sq + 1),
        decreases 64 - hi,
    {
        hi += 1;
    }
    if lo >= 0 && hi < 64 {
        Some((lo as u8, hi))
    } else {
        None
    }
}

/// The attacks a vacated square opens along one line: between the nearest pieces on either
/// side, when neither is a king nor on `ignore`, by each that slides that way (`sliders`).
pub open spec fn line_deltas(board: Position, sq: int, line: u64, sliders: u64, ignore: u64) -> Seq<ThreatDelta> {
    let a = nearest_below(line, sq - 1);
    let b = nearest_above(line, sq + 1);
    if a < 0 || b >= 64 {
        Seq::empty()
    } else if cp_at(board, a) is None || cp_at(board, b) is None {
        Seq::empty()
    } else {
        let pa = cp_at(board, a).unwrap();
        let pb = cp_at(board, b).unwrap();
        if pa.piece == Piece::King || pb.piece == Piece::King || bb_has(ignore, a) || bb_has(ignore, b) {
            Seq::empty()
        } else {
            (if bb_has(sliders, a) {
                seq![ThreatDelta { attacker: pa, attacker_sq: a as u8, target: pb, target_sq: b as u8 }]
            } else {
                Seq::empty()
            }) + (if bb_has(sliders, b) {
                seq![ThreatDelta { attacker: pb, attacker_sq: b as u8, target: pa, target_sq: a as u8 }]
            } else {
                Seq::empty()
            })
        }
    }
}

/// The pieces that slide along direction `dir`: rooks and queens on ranks and files, bishops
/// and queens on diagonals.
pub open spec fn dir_sliders(board: Position, dir: int) -> u64 {
    if dir == 0 || dir == 2 {
        board.pieces[3] | board.pieces[4]
    } else {
        board.pieces[2] | board.pieces[4]
    }
}

/// The attacks emptying `sq` opens, direction after direction.
pub open spec fn discovered_spec(board: Position, sq: u8, ignore: u64, d: int) -> Seq<ThreatDelta>
    decreases d,
{
    if d <= 0 {
        Seq::empty()
    } else {
        discovered_spec(board, sq, ignore, d - 1)
            + line_deltas(board, sq as int, line_spec(sq as int, d - 1) & board.occupied_spec(), dir_sliders(board, d - 1), ignore)
    }
}

/// Appends the attacks that emptying `vacated_sq` opens on `board`, leaving out those
/// involving a square of `ignore`.
pub fn record_discovered(board: &Position, vacated_sq: u8, ignore: u64, out: &mut ArrayVec<ThreatDelta, 96>)
    requires
        vacated_sq < 64,
    ensures
        delta_items(*final(out)) == capped(delta_items(*old(out)) + discovered_spec(*board, vacated_sq, ignore, 4), 96),
{
    let _n = delta_len(out);
    let ghost s = delta_items(*out);
    let occ = board.occupied();
    let rq = board.pieces(Piece::Rook) | board.pieces(Piece::Queen);
    let bq = board.pieces(Piece::Bishop) | board.pieces(Piece::Queen);
    let mut dir: usize = 0;
    assert(s + discovered_spec(*board, vacated_sq, ignore, 0) =~= s);
    while dir < 4
        invariant
            vacated_sq < 64,
            dir <= 4,
            occ == board.occupied_spec(),
            rq == dir_sliders(*board, 0),
            bq == dir_sliders(*board, 1),
            delta_items(*out) == capped(s + discovered_spec(*board, vacated_sq, ignore, dir as int), 96),
        decreases 4 - dir,
    {
        let full_line = get_line(vacated_sq, dir);
        let line = full_line & occ;
        let ty = if dir == 0 || dir == 2 { rq } else { bq };
        let ghost before = discovered_spec(*board, vacated_sq, ignore, dir as int);
        let ghost add = line_deltas(*board, vacated_sq as int, line, ty, ignore);
        proof {
            assert(discovered_spec(*board, vacated_sq, ignore, dir as int + 1) == before + add);
        }
        match pop2(line, vacated_sq) {
            Some((a, b)) => {
                proof {
                    lemma_nearest_range(line, vacated_sq as int);
                }
                match (board.color_piece_on(a), board.color_piece_on(b)) {
                    (Some(pa), Some(pb)) => {
                        if pa.piece == Piece::King || pb.piece == Piece::King || ignore & (1u64 << a) != 0 || ignore & (1u64 << b) != 0 {
                            assert(add =~= Seq::<ThreatDelta>::empty());
                            assert(before + add =~= before);
                        } else {
                            let d1 = ThreatDelta::new(pa, a, pb, b);
                            let d2 = ThreatDelta::new(pb, b, pa, a);
                            let ghost part1: Seq<ThreatDelta> = if bb_has(ty, a as int) { seq![d1] } else { Seq::empty() };
                            if ty & (1u64 << a) != 0 {
                                proof {
                                    crate::movegen::lemma_capped_append(s, before, d1, 96);
                                    assert(s + before.push(d1) =~= s + (before + part1));
                                }
                                if delta_len(out) < 96 {
                                    delta_push(out, d1);
                                }
                            } else {
                                assert(before + part1 =~= before);
                            }
                            if ty & (1u64 << b) != 0 {
                                proof {
                                    crate::movegen::lemma_capped_append(s, before + part1, d2, 96);
                                    assert((before + part1).push(d2) =~= before + add);
                                }
                                if delta_len(out) < 96 {
                                    delta_push(out, d2);
                                }
                            } else {
                                assert(before + part1 =~= before + add);
                            }
                        }
                    },
                    _ => {
                        assert(add =~= Seq::<ThreatDelta>::empty());
                        assert(before + add =~= before);
                    },
                }
            },
            None => {
                assert(add =~= Seq::<ThreatDelta>::empty());
                assert(before + add =~= before);
            },
        }
        dir += 1;
    }
}

/// Attacks by the piece on `s` on each piece of `targets` below `n` whose line to `s` passes
/// a square of `vmask`, ascending.
pub open spec fn target_deltas(board: Position, s: int, ps: ColoredPiece, targets: u64, vmask: u64, n: nat) -> Seq<ThreatDelta>
    decreases n,
{
    if n == 0 {
        Seq::empty()
    } else {
        let t = n - 1;
        target_deltas(board, s, ps, targets, vmask, (n - 1) as nat) + (if bb_has(targets, t)
            && between_rays(s as u8, t as u8) & vmask != 0 && cp_at(board, t) is Some {
            seq![ThreatDelta { attacker: ps, attacker_sq: s as u8, target: cp_at(board, t).unwrap(), target_sq: t as u8 }]
        } else {
            Seq::empty()
        })
    }
}

/// `target_deltas` for every piece of `sliders` below `n`, ascending.
pub open spec fn slider_deltas(board: Position, sliders: u64, targets: u64, vmask: u64, n: nat) -> Seq<ThreatDelta>
    decreases n,
{
    if n == 0 {
        Seq::empty()
    } else {
        let s = n - 1;
        slider_deltas(board, sliders, targets, vmask, (n - 1) as nat) + (if bb_has(sliders, s) && cp_at(board, s) is Some {
            target_deltas(board, s, cp_at(board, s).unwrap(), targets, vmask, 64)
        } else {
            Seq::empty()
        })
    }
}

fn push_slider_deltas(
    out: &mut ArrayVec<ThreatDelta, 96>,
    board: &Position,
    sliders: u64,
    targets: u64,
    vmask: u64,
    Ghost(s0): Ghost<Seq<ThreatDelta>>,
    Ghost(t0): Ghost<Seq<ThreatDelta>>,
)
    requires
        delta_items(*old(out)) == capped(s0 + t0, 96),
    ensures
        delta_items(*final(out)) == capped(s0 + t0 + slider_deltas(*board, sliders, targets, vmask, 64), 96),
{
    let mut sq: u8 = 0;
    assert(t0 + slider_deltas(*board, sliders, targets, vmask, 0) =~= t0);
    while sq < 64
        invariant
            sq <= 64,
            delta_items(*out) == capped(s0 + (t0 + slider_deltas(*board, sliders, targets, vmask, sq as nat)), 96),
        decreases 64 - sq,
    {
        let ghost before = t0 + slider_deltas(*board, sliders, targets, vmask, sq as nat);
        if sliders & (1u64 << sq) != 0 {
            match board.color_piece_on(sq) {
                Some(ps) => {
                    let mut t: u8 = 0;
                    assert(before + target_deltas(*board, sq as int, ps, targets, vmask, 0) =~= before);
                    while t < 64
                        invariant
                            sq < 64,
                            t <= 64,
                            delta_items(*out) == capped(s0 + (before + target_deltas(*board, sq as int, ps, targets, vmask, t as nat)), 96),
                        decreases 64 - t,
                    {
                        let ghost b2 = before + target_deltas(*board, sq as int, ps, targets, vmask, t as nat);
                        let mut pushed = false;
                        if targets & (1u64 << t) != 0 && get_between_rays(sq, t) & vmask != 0 {
                            match board.color_piece_on(t) {
                                Some(pt) => {
                                    let d = ThreatDelta::new(ps, sq, pt, t);
                                    proof {
                                        crate::movegen::lemma_capped_append(s0, b2, d, 96);
                                        assert(b2.push(d) =~= before + target_deltas(*board, sq as int, ps, targets, vmask, (t + 1) as nat));
                                    }
                                    if delta_len(out) < 96 {
                                        delta_push(out, d);
                                    }
                                    pushed = true;
                                },
                                None => {},
                            }
                        }
                        if !pushed {
                            assert(b2 =~= before + target_deltas(*board, sq as int, ps, targets, vmask, (t + 1) as nat));
                        }
                        t += 1;
                    }
                    assert(before + target_deltas(*board, sq as int, ps, targets, vmask, 64)
                        =~= t0 + slider_deltas(*board, sliders, targets, vmask, (sq + 1) as nat));
                },
                None => {
                    assert(before =~= t0 + slider_deltas(*board, sliders, targets, vmask, (sq + 1) as nat));
                },
            }
        } else {
            assert(before =~= t0 + slider_deltas(*board, sliders, targets, vmask, (sq + 1) as nat));
        }
        sq += 1;
    }
    assert(s0 + (t0 + slider_deltas(*board, sliders, targets, vmask, 64)) =~= s0 + t0 + slider_deltas(*board, sliders, targets, vmask, 64));
}

/// The attacks an en passant capture opens by emptying both `v1` (the capturing pawn's
/// square) and `v2` (the taken pawn's): along diagonals through each square in turn, then
/// along ranks and files through either; never on kings, on an emptied square, or on `ignore`.
pub open spec fn unblocked_ep_spec(board: Position, v1: u8, v2: u8, ignore: u64) -> Seq<ThreatDelta> {
    let occ = board.occupied_spec();
    let bq = board.pieces[2] | board.pieces[4];
    let rq = board.pieces[3] | board.pieces[4];
    let kings = board.pieces[5];
    let diag = |v: u8| {
        let moves = bishop_attacks(v, occ);
        slider_deltas(board, moves & bq, moves & !kings & !sq_bb(v as int) & !ignore & occ, sq_bb(v as int), 64)
    };
    let ortho = rook_attacks(v1, occ) | rook_attacks(v2, occ);
    diag(v1) + diag(v2) + slider_deltas(board, ortho & rq, ortho & !kings & !ignore & occ, sq_bb(v1 as int) | sq_bb(v2 as int), 64)
}

/// Appends the attacks an en passant capture opens; see `unblocked_ep_spec`.
pub fn record_unblocked_discovered_ep(board: &Position, v1: u8, v2: u8, ignore: u64, out: &mut ArrayVec<ThreatDelta, 96>)
    requires
        v1 < 64,
        v2 < 64,
    ensures
        delta_items(*final(out)) == capped(delta_items(*old(out)) + unblocked_ep_spec(*board, v1, v2, ignore), 96),
{
    let _n = delta_len(out);
    let ghost s0 = delta_items(*out);
    let occ = board.occupied();
    let bq = board.pieces(Piece::Bishop) | board.pieces(Piece::Queen);
    let rq = board.pieces(Piece::Rook) | board.pieces(Piece::Queen);
    let kings = board.pieces(Piece::King);
    let ghost e = Seq::<ThreatDelta>::empty();
    assert(s0 + e =~= s0);
    let m1 = get_bishop_moves(v1, occ);
    push_slider_deltas(out, board, m1 & bq, m1 & !kings & !square_bitboard(v1) & !ignore & occ, square_bitboard(v1), Ghost(s0), Ghost(e));
    let ghost p1 = e + slider_deltas(*board, m1 & bq, m1 & !kings & !sq_bb(v1 as int) & !ignore & occ, sq_bb(v1 as int), 64);
    let m2 = get_bishop_moves(v2, occ);
    push_slider_deltas(out, board, m2 & bq, m2 & !kings & !square_bitboard(v2) & !ignore & occ, square_bitboard(v2), Ghost(s0), Ghost(p1));
    let ghost p2 = p1 + slider_deltas(*board, m2 & bq, m2 & !kings & !sq_bb(v2 as int) & !ignore & occ, sq_bb(v2 as int), 64);
    assert(s0 + p1 + slider_deltas(*board, m2 & bq, m2 & !kings & !sq_bb(v2 as int) & !ignore & occ, sq_bb(v2 as int), 64) =~= s0 + p2);
    let ortho = get_rook_moves(v1, occ) | get_rook_moves(v2, occ);
    push_slider_deltas(out, board, ortho & rq, ortho & !kings & !ignore & occ, square_bitboard(v1) | square_bitboard(v2), Ghost(s0), Ghost(p2));
    assert(p2 + slider_deltas(*board, ortho & rq, ortho & !kings & !ignore & occ, sq_bb(v1 as int) | sq_bb(v2 as int), 64)
        =~= unblocked_ep_spec(*board, v1, v2, ignore));
}

/// The attack relations move `m` on `board` ends.
pub open spec fn threat_subs_spec(board: Position, m: Move) -> Seq<ThreatDelta> {
    let full = u64::MAX;
    match board.move_type_spec(m) {
        MoveType::NORMAL | MoveType::PROMOTION => {
            let cap = board.piece_on_spec(m.to as int) is Some;
            sq_inout_spec(board, m.from, full)
                + (if cap { sq_inout_spec(board, m.to, !sq_bb(m.from as int)) } else { Seq::empty() })
                + (if cap { Seq::empty() } else { discovered_spec(board, m.to, sq_bb(m.from as int), 4) })
        },
        MoveType::CASTLE => sq_inout_spec(board, m.to, full),
        MoveType::ENPASSENT => {
            let ep = board.ep_capture_square_spec().unwrap() as u8;
            sq_inout_spec(board, m.from, full) + sq_inout_spec(board, ep, full & !sq_bb(m.from as int))
                + discovered_spec(board, m.to, sq_bb(ep as int) | sq_bb(m.from as int), 4)
        },
        MoveType::NONE => Seq::empty(),
    }
}

/// The attack relations move `m` on `board` starts, `new_board` being the position after it.
pub open spec fn threat_adds_spec(board: Position, new_board: Position, m: Move) -> Seq<ThreatDelta> {
    let full = u64::MAX;
    match board.move_type_spec(m) {
        MoveType::NORMAL | MoveType::PROMOTION => sq_inout_spec(new_board, m.to, full)
            + discovered_spec(new_board, m.from, sq_bb(m.to as int), 4),
        MoveType::CASTLE => sq_inout_spec(new_board, crate::nnue::halfka::castle_rook_to(m) as u8, full),
        MoveType::ENPASSENT => {
            let ep = board.ep_capture_square_spec().unwrap() as u8;
            sq_inout_spec(new_board, m.to, full) + unblocked_ep_spec(new_board, m.from, ep, sq_bb(m.to as int))
        },
        MoveType::NONE => Seq::empty(),
    }
}

/// What `get_threat_update` needs: a move (not "no move") on the board, and a piece on every
/// square whose relations it records, before and after the move.
pub open spec fn threat_move_ok(board: Position, new_board: Position, m: Move) -> bool {
    &&& crate::chess::move_on_board(m)
    &&& board.move_type_spec(m) != MoveType::NONE
    &&& match board.move_type_spec(m) {
        MoveType::CASTLE => cp_at(board, m.to as int) is Some
            && cp_at(new_board, crate::nnue::halfka::castle_rook_to(m)) is Some,
        MoveType::ENPASSENT => cp_at(board, m.from as int) is Some
            && cp_at(board, board.ep_capture_square_spec().unwrap()) is Some
            && cp_at(new_board, m.to as int) is Some,
        _ => cp_at(board, m.from as int) is Some
            && (board.piece_on_spec(m.to as int) is Some ==> cp_at(board, m.to as int) is Some)
            && cp_at(new_board, m.to as int) is Some,
    }
}

impl Threats {
    /// Records in `threats` the attack relations move `m` ends and starts.
    pub fn get_threat_update(board: &Position, new_board: &Position, m: Move, threats: &mut ThreatUpdate)
        requires
            board.wf(),
            threat_move_ok(*board, *new_board, m),
        ensures
            delta_items(final(threats).subs) == capped(delta_items(old(threats).subs) + threat_subs_spec(*board, m), 96),
            delta_items(final(threats).adds) == capped(delta_items(old(threats).adds) + threat_adds_spec(*board, *new_board, m), 96),
    {
        let full = u64::MAX;
        let _a = delta_len(&threats.adds);
        let _s = delta_len(&threats.subs);
        let ghost s0 = delta_items(threats.subs);
        let ghost a0 = delta_items(threats.adds);
        let mt = board.move_type(m);
        match mt {
            MoveType::NORMAL | MoveType::PROMOTION => {
                let from = m.from;
                let to = m.to;
                let is_cap = board.piece_on(to).is_some();
                record_sq_inout(board, from, full, &mut threats.subs);
                let ghost x1 = sq_inout_spec(*board, from, full);
                if is_cap {
                    record_sq_inout(board, to, !square_bitboard(from), &mut threats.subs);
                    proof { lemma_capped_twice(s0, x1, sq_inout_spec(*board, to, !sq_bb(from as int)), 96); }
                }
                record_sq_inout(new_board, to, full, &mut threats.adds);
                record_discovered(new_board, from, square_bitboard(to), &mut threats.adds);
                proof { lemma_capped_twice(a0, sq_inout_spec(*new_board, to, full), discovered_spec(*new_board, from, sq_bb(to as int), 4), 96); }
                if !is_cap {
                    record_discovered(board, to, square_bitboard(from), &mut threats.subs);
                    proof { lemma_capped_twice(s0, x1, discovered_spec(*board, to, sq_bb(from as int), 4), 96); }
                }
                proof {
                    if is_cap {
                        assert(x1 + sq_inout_spec(*board, to, !sq_bb(from as int)) + Seq::<ThreatDelta>::empty()
                            =~= x1 + sq_inout_spec(*board, to, !sq_bb(from as int)));
                    } else {
                        assert(x1 + Seq::<ThreatDelta>::empty() + discovered_spec(*board, to, sq_bb(from as int), 4)
                            =~= x1 + discovered_spec(*board, to, sq_bb(from as int), 4));
                    }
                    assert(s0 + x1 + (if is_cap { sq_inout_spec(*board, to, !sq_bb(from as int)) } else { Seq::<ThreatDelta>::empty() })
                        + (if is_cap { Seq::<ThreatDelta>::empty() } else { discovered_spec(*board, to, sq_bb(from as int), 4) })
                        =~= s0 + threat_subs_spec(*board, m));
                    assert(a0 + sq_inout_spec(*new_board, to, full) + discovered_spec(*new_board, from, sq_bb(to as int), 4)
                        =~= a0 + threat_adds_spec(*board, *new_board, m));
                }
            },
            MoveType::CASTLE => {
                let (_king_to, rook_to) = board.castle_to(m);
                record_sq_inout(board, m.to, full, &mut threats.subs);
                record_sq_inout(new_board, rook_to, full, &mut threats.adds);
            },
            MoveType::ENPASSENT => {
                let ep = board.ep_capture_square().unwrap();
                record_sq_inout(board, m.from, full, &mut threats.subs);
                record_sq_inout(board, ep, full & !square_bitboard(m.from), &mut threats.subs);
                let ghost y1 = sq_inout_spec(*board, m.from, full);
                let ghost y2 = sq_inout_spec(*board, ep, full & !sq_bb(m.from as int));
                proof { lemma_capped_twice(s0, y1, y2, 96); }
                record_sq_inout(new_board, m.to, full, &mut threats.adds);
                record_discovered(board, m.to, square_bitboard(ep) | square_bitboard(m.from), &mut threats.subs);
                let ghost y3 = discovered_spec(*board, m.to, sq_bb(ep as int) | sq_bb(m.from as int), 4);
                proof { lemma_capped_twice(s0, y1 + y2, y3, 96); }
                record_unblocked_discovered_ep(new_board, m.from, ep, square_bitboard(m.to), &mut threats.adds);
                proof {
                    lemma_capped_twice(a0, sq_inout_spec(*new_board, m.to, full), unblocked_ep_spec(*new_board, m.from, ep, sq_bb(m.to as int)), 96);
                    assert(s0 + (y1 + y2) + y3 =~= s0 + threat_subs_spec(*board, m));
                    assert(s0 + y1 + y2 =~= s0 + (y1 + y2));
                    assert(a0 + sq_inout_spec(*new_board, m.to, full) + unblocked_ep_spec(*new_board, m.from, ep, sq_bb(m.to as int))
                        =~= a0 + threat_adds_spec(*board, *new_board, m));
                }
            },
            MoveType::NONE => {},
        }
    }
}

/// Every attack relation on the board between pieces other than kings: piece after piece by
/// square, each one's targets ascending.
pub open spec fn board_threats(board: Position, n: nat) -> Seq<ThreatDelta>
    decreases n,
{
    if n == 0 {
        Seq::empty()
    } else {
        let s = n - 1;
        let occ = board.occupied_spec();
        let others = occ & !board.pieces[5];
        board_threats(board, (n - 1) as nat) + (if bb_has(others, s) && cp_at(board, s) is Some {
            let cp = cp_at(board, s).unwrap();
            deltas_for(board, cp, s as u8, others & piece_attacks(cp, s as u8, occ), 64, true)
        } else {
            Seq::empty()
        })
    }
}

/// The features a refresh sums for `side`: those of every relation on the board, at most as
/// many as the feature list holds.
pub open spec fn refresh_features(net: &Network, board: Position, side: Color) -> Seq<usize> {
    capped(delta_features(net.lut, board_threats(board, 64), king_spec(board, side), side), 96)
}

/// One more relation adds its feature, when it has one.
proof fn lemma_features_push(net: &Network, ds: Seq<ThreatDelta>, d: ThreatDelta, king: int, side: Color)
    ensures
        delta_features(net.lut, ds.push(d), king, side) == ({
            let i = threat_index_spec(net.lut, king, side, d.attacker.color, d.target.color, d.attacker.piece,
                d.attacker_sq as int, d.target.piece, d.target_sq as int);
            if 0 <= i < FULL_THREATS {
                delta_features(net.lut, ds, king, side).push(i as usize)
            } else {
                delta_features(net.lut, ds, king, side)
            }
        }),
{
    assert(ds.push(d).drop_last() =~= ds);
}

impl Threats {
    /// Sets `side`'s accumulator at the head to the weights of every attack relation on the
    /// board (kings aside), summed with wrapping lanes. The feature list holds 96 entries: on a
    /// board with more feature-carrying relations only the first 96, in board order, are summed.
    pub fn refresh(&mut self, side: Color, board: &Position, network: &Network)
        requires
            old(self).side@.len() == MAX_DEPTH_USIZE,
            old(self).head < MAX_DEPTH_USIZE,
            network.wf(),
            board.wf(),
        ensures
            final(self).side@.len() == MAX_DEPTH_USIZE,
            final(self).head == old(self).head,
            forall|l: int| 0 <= l < 768 ==> #[trigger] final(self).side@[final(self).head as int].vals[crate::chess::color_index(side)].0[l]
                == wrap16(threat_sum(network.threat_weights@, refresh_features(network, *board, side), l)),
            delta_features(network.lut, board_threats(*board, 64), king_spec(*board, side), side).len() <= 96
                ==> refresh_features(network, *board, side) == delta_features(network.lut, board_threats(*board, 64), king_spec(*board, side), side),
            delta_features(network.lut, board_threats(*board, 64), king_spec(*board, side), side).len() > 96
                ==> refresh_features(network, *board, side) == delta_features(network.lut, board_threats(*board, 64), king_spec(*board, side), side).take(96),
            final(self).side@[final(self).head as int].is_clean[crate::chess::color_index(side)],
            final(self).side@[final(self).head as int].is_clean[1 - crate::chess::color_index(side)]
                == old(self).side@[old(self).head as int].is_clean[1 - crate::chess::color_index(side)],
            final(self).side@[final(self).head as int].vals[1 - crate::chess::color_index(side)]
                == old(self).side@[old(self).head as int].vals[1 - crate::chess::color_index(side)],
            final(self).side@[final(self).head as int].king_sq == old(self).side@[old(self).head as int].king_sq,
            delta_items(final(self).side@[final(self).head as int].update.adds) == delta_items(old(self).side@[old(self).head as int].update.adds),
            delta_items(final(self).side@[final(self).head as int].update.subs) == delta_items(old(self).side@[old(self).head as int].update.subs),
            forall|i: int| 0 <= i < MAX_DEPTH_USIZE && i != final(self).head ==> #[trigger] final(self).side@[i] == old(self).side@[i],
    {
        let king = board.king(side);
        let occ = board.occupied();
        let others = occ & !board.pieces(Piece::King);
        let mut adds = index_new();
        let ghost kk = king_spec(*board, side);
        let mut s1: u8 = 0;
        assert(capped(delta_features(network.lut, board_threats(*board, 0), kk, side), 96) =~= Seq::<usize>::empty());
        while s1 < 64
            invariant
                network.wf(),
                board.wf(),
                king < 64,
                king == kk,
                occ == board.occupied_spec(),
                others == occ & !board.pieces[5],
                s1 <= 64,
                index_items(adds) == capped(delta_features(network.lut, board_threats(*board, s1 as nat), kk, side), 96),
            decreases 64 - s1,
        {
            let ghost done = board_threats(*board, s1 as nat);
            if others & (1u64 << s1) != 0 {
                match board.color_piece_on(s1) {
                    Some(p1) => {
                        let targets = others & attacks_of(p1, s1, occ);
                        let mut s2: u8 = 0;
                        assert(done + deltas_for(*board, p1, s1, targets, 0, true) =~= done);
                        while s2 < 64
                            invariant
                                network.wf(),
                                king < 64,
                                king == kk,
                                s1 < 64,
                                s2 <= 64,
                                index_items(adds) == capped(delta_features(network.lut, done + deltas_for(*board, p1, s1, targets, s2 as nat, true), kk, side), 96),
                            decreases 64 - s2,
                        {
                            let ghost cur = done + deltas_for(*board, p1, s1, targets, s2 as nat, true);
                            let mut used = false;
                            if targets & (1u64 << s2) != 0 {
                                match board.color_piece_on(s2) {
                                    Some(p2) => {
                                        let d = ThreatDelta::new(p1, s1, p2, s2);
                                        proof {
                                            assert(cur.push(d) =~= done + deltas_for(*board, p1, s1, targets, (s2 + 1) as nat, true));
                                            lemma_features_push(network, cur, d, kk, side);
                                        }
                                        let i = network.threat_feature_lookup_index(king, side, p1.color, p2.color, p1.piece, s1, p2.piece, s2);
                                        if i >= 0 && (i as usize) < FULL_THREATS {
                                            proof {
                                                crate::movegen::lemma_capped_push(delta_features(network.lut, cur, kk, side), i as usize, 96);
                                            }
                                            if index_len(&adds) < 96 {
                                                index_push(&mut adds, i as usize);
                                            }
                                        }
                                        used = true;
                                    },
                                    None => {},
                                }
                            }
                            if !used {
                                assert(cur =~= done + deltas_for(*board, p1, s1, targets, (s2 + 1) as nat, true));
                            }
                            s2 += 1;
                        }
                        assert(done + deltas_for(*board, p1, s1, targets, 64, true) =~= board_threats(*board, (s1 + 1) as nat));
                    },
                    None => {
                        assert(done =~= board_threats(*board, (s1 + 1) as nat));
                    },
                }
            } else {
                assert(done =~= board_threats(*board, (s1 + 1) as nat));
            }
            s1 += 1;
        }
        proof {
            crate::nnue::network::lemma_features_in_table(network.lut, board_threats(*board, 64), kk, side);
            let f = delta_features(network.lut, board_threats(*board, 64), kk, side);
            assert forall|k: int| 0 <= k < index_items(adds).len() implies #[trigger] index_items(adds)[k] < FULL_THREATS by {
                if f.len() > 96 {
                    assert(index_items(adds)[k] == f[k]);
                }
            }
        }
        let head = self.head;
        let s = side.index();
        let mut v = Aligned::<i16, 768>::zeroed();
        let ghost x0 = Seq::new(768, |j: int| 0int);
        proof {
            assert forall|j: int| 0 <= j < 768 implies #[trigger] v.0[j] == wrap16(x0[j]) by {
                lemma_wrap_small(0);
            }
        }
        network.apply_threats(&mut v, &adds, false, Ghost(x0));
        let acc = &mut self.side[head];
        acc.vals[s] = v;
        acc.is_clean[s] = true;
    }
}

// ---------------------------------------------------------------------------------------------
// recorded relations name squares on the board

proof fn lemma_concat_ok(a: Seq<ThreatDelta>, b: Seq<ThreatDelta>)
    requires
        deltas_on_board(a),
        deltas_on_board(b),
    ensures
        deltas_on_board(a + b),
{
    assert forall|k: int| 0 <= k < (a + b).len() implies (#[trigger] (a + b)[k]).attacker_sq < 64 && (a + b)[k].target_sq < 64 by {
        if k < a.len() {
            assert((a + b)[k] == a[k]);
        } else {
            assert((a + b)[k] == b[k - a.len()]);
        }
    }
}

proof fn lemma_capped_ok(s: Seq<ThreatDelta>, cap: nat)
    requires
        deltas_on_board(s),
    ensures
        deltas_on_board(capped(s, cap)),
{
    if s.len() > cap {
        assert forall|k: int| 0 <= k < capped(s, cap).len() implies (#[trigger] capped(s, cap)[k]).attacker_sq < 64
            && capped(s, cap)[k].target_sq < 64 by {
            assert(capped(s, cap)[k] == s[k]);
        }
    }
}

proof fn lemma_deltas_for_ok(board: Position, cp: ColoredPiece, sq: u8, bb: u64, n: nat, outgoing: bool)
    requires
        sq < 64,
        n <= 64,
    ensures
        deltas_on_board(deltas_for(board, cp, sq, bb, n, outgoing)),
    decreases n,
{
    if n > 0 {
        lemma_deltas_for_ok(board, cp, sq, bb, (n - 1) as nat, outgoing);
        let t = n - 1;
        let tail: Seq<ThreatDelta> = if bb_has(bb, t) && cp_at(board, t) is Some {
            if outgoing {
                seq![ThreatDelta { attacker: cp, attacker_sq: sq, target: cp_at(board, t).unwrap(), target_sq: t as u8 }]
            } else {
                seq![ThreatDelta { attacker: cp_at(board, t).unwrap(), attacker_sq: t as u8, target: cp, target_sq: sq }]
            }
        } else {
            Seq::empty()
        };
        assert(deltas_on_board(tail));
        lemma_concat_ok(deltas_for(board, cp, sq, bb, (n - 1) as nat, outgoing), tail);
    }
}

proof fn lemma_target_ok(board: Position, s: int, ps: ColoredPiece, targets: u64, vmask: u64, n: nat)
    requires
        0 <= s < 64,
        n <= 64,
    ensures
        deltas_on_board(target_deltas(board, s, ps, targets, vmask, n)),
    decreases n,
{
    if n > 0 {
        lemma_target_ok(board, s, ps, targets, vmask, (n - 1) as nat);
        let t = n - 1;
        let tail: Seq<ThreatDelta> = if bb_has(targets, t) && between_rays(s as u8, t as u8) & vmask != 0 && cp_at(board, t) is Some {
            seq![ThreatDelta { attacker: ps, attacker_sq: s as u8, target: cp_at(board, t).unwrap(), target_sq: t as u8 }]
        } else {
            Seq::empty()
        };
        assert(deltas_on_board(tail));
        lemma_concat_ok(target_deltas(board, s, ps, targets, vmask, (n - 1) as nat), tail);
    }
}

proof fn lemma_slider_ok(board: Position, sliders: u64, targets: u64, vmask: u64, n: nat)
    requires
        n <= 64,
    ensures
        deltas_on_board(slider_deltas(board, sliders, targets, vmask, n)),
    decreases n,
{
    if n > 0 {
        lemma_slider_ok(board, sliders, targets, vmask, (n - 1) as nat);
        let s = n - 1;
        if bb_has(sliders, s) && cp_at(board, s) is Some {
            lemma_target_ok(board, s, cp_at(board, s).unwrap(), targets, vmask, 64);
            lemma_concat_ok(slider_deltas(board, sliders, targets, vmask, (n - 1) as nat), target_deltas(board, s, cp_at(board, s).unwrap(), targets, vmask, 64));
        } else {
            lemma_concat_ok(slider_deltas(board, sliders, targets, vmask, (n - 1) as nat), Seq::empty());
            assert(slider_deltas(board, sliders, targets, vmask, (n - 1) as nat) + Seq::<ThreatDelta>::empty()
                =~= slider_deltas(board, sliders, targets, vmask, n));
        }
    }
}

proof fn lemma_discovered_ok(board: Position, sq: u8, ignore: u64, d: int)
    requires
        sq < 64,
    ensures
        deltas_on_board(discovered_spec(board, sq, ignore, d)),
    decreases d,
{
    if d > 0 {
        lemma_discovered_ok(board, sq, ignore, d - 1);
        let line = line_spec(sq as int, d - 1) & board.occupied_spec();
        lemma_nearest_range(line, sq as int);
        let x = line_deltas(board, sq as int, line, dir_sliders(board, d - 1), ignore);
        assert(deltas_on_board(x));
        lemma_concat_ok(discovered_spec(board, sq, ignore, d - 1), x);
    }
}

proof fn lemma_inout_ok(board: Position, sq: u8, mask: u64)
    requires
        sq < 64,
    ensures
        deltas_on_board(sq_inout_spec(board, sq, mask)),
{
    let cp = cp_at(board, sq as int).unwrap();
    let occ = board.occupied_spec();
    lemma_deltas_for_ok(board, cp, sq, piece_attacks(cp, sq, occ) & occ & mask & !board.pieces[5], 64, true);
    lemma_deltas_for_ok(board, cp, sq, incoming_spec(board, sq, occ) & occ & mask, 64, false);
    lemma_concat_ok(
        deltas_for(board, cp, sq, piece_attacks(cp, sq, occ) & occ & mask & !board.pieces[5], 64, true),
        deltas_for(board, cp, sq, incoming_spec(board, sq, occ) & occ & mask, 64, false),
    );
}

proof fn lemma_update_ok(board: Position, new_board: Position, m: Move)
    requires
        board.wf(),
        threat_move_ok(board, new_board, m),
    ensures
        deltas_on_board(threat_subs_spec(board, m)),
        deltas_on_board(threat_adds_spec(board, new_board, m)),
{
    let full = u64::MAX;
    let e = Seq::<ThreatDelta>::empty();
    assert(deltas_on_board(e));
    match board.move_type_spec(m) {
        MoveType::NORMAL | MoveType::PROMOTION => {
            let cap = board.piece_on_spec(m.to as int) is Some;
            lemma_inout_ok(board, m.from, full);
            lemma_inout_ok(board, m.to, !sq_bb(m.from as int));
            lemma_discovered_ok(board, m.to, sq_bb(m.from as int), 4);
            let a = sq_inout_spec(board, m.from, full);
            let b = if cap { sq_inout_spec(board, m.to, !sq_bb(m.from as int)) } else { e };
            let c = if cap { e } else { discovered_spec(board, m.to, sq_bb(m.from as int), 4) };
            lemma_concat_ok(a, b);
            lemma_concat_ok(a + b, c);
            lemma_inout_ok(new_board, m.to, full);
            lemma_discovered_ok(new_board, m.from, sq_bb(m.to as int), 4);
            lemma_concat_ok(sq_inout_spec(new_board, m.to, full), discovered_spec(new_board, m.from, sq_bb(m.to as int), 4));
        },
        MoveType::CASTLE => {
            lemma_inout_ok(board, m.to, full);
            lemma_inout_ok(new_board, crate::nnue::halfka::castle_rook_to(m) as u8, full);
        },
        MoveType::ENPASSENT => {
            let ep = board.ep_capture_square_spec().unwrap() as u8;
            lemma_inout_ok(board, m.from, full);
            lemma_inout_ok(board, ep, full & !sq_bb(m.from as int));
            lemma_discovered_ok(board, m.to, sq_bb(ep as int) | sq_bb(m.from as int), 4);
            lemma_concat_ok(sq_inout_spec(board, m.from, full), sq_inout_spec(board, ep, full & !sq_bb(m.from as int)));
            lemma_concat_ok(sq_inout_spec(board, m.from, full) + sq_inout_spec(board, ep, full & !sq_bb(m.from as int)),
                discovered_spec(board, m.to, sq_bb(ep as int) | sq_bb(m.from as int), 4));
            lemma_inout_ok(new_board, m.to, full);
            let occ = new_board.occupied_spec();
            let bq = new_board.pieces[2] | new_board.pieces[4];
            let rq = new_board.pieces[3] | new_board.pieces[4];
            let kings = new_board.pieces[5];
            let ig = sq_bb(m.to as int);
            let m1 = bishop_attacks(m.from, occ);
            let m2 = bishop_attacks(ep, occ);
            let ortho = rook_attacks(m.from, occ) | rook_attacks(ep, occ);
            lemma_slider_ok(new_board, m1 & bq, m1 & !kings & !sq_bb(m.from as int) & !ig & occ, sq_bb(m.from as int), 64);
            lemma_slider_ok(new_board, m2 & bq, m2 & !kings & !sq_bb(ep as int) & !ig & occ, sq_bb(ep as int), 64);
            lemma_slider_ok(new_board, ortho & rq, ortho & !kings & !ig & occ, sq_bb(m.from as int) | sq_bb(ep as int), 64);
            let u1 = slider_deltas(new_board, m1 & bq, m1 & !kings & !sq_bb(m.from as int) & !ig & occ, sq_bb(m.from as int), 64);
            let u2 = slider_deltas(new_board, m2 & bq, m2 & !kings & !sq_bb(ep as int) & !ig & occ, sq_bb(ep as int), 64);
            let u3 = slider_deltas(new_board, ortho & rq, ortho & !kings & !ig & occ, sq_bb(m.from as int) | sq_bb(ep as int), 64);
            lemma_concat_ok(u1, u2);
            lemma_concat_ok(u1 + u2, u3);
            assert(unblocked_ep_spec(new_board, m.from, ep, ig) == u1 + u2 + u3);
            lemma_concat_ok(sq_inout_spec(new_board, m.to, full), u1 + u2 + u3);
        },
        MoveType::NONE => {},
    }
}

// ---------------------------------------------------------------------------------------------
// the stack

/// Lane `l` of side `s` at ply `i`, after the updates of plies `b + 1 ..= i` were applied
/// one after another to ply `b`, features seen with the king on `king`.
pub open spec fn threat_chain(st: Seq<Accumulator>, net: &Network, s: int, b: int, i: int, king: int, l: int) -> int
    decreases i - b,
{
    if i <= b {
        st[b].vals[s].0[l] as int
    } else {
        let side = color_of(s);
        wrap16(threat_chain(st, net, s, b, i - 1, king, l)
            + threat_sum(net.threat_weights@, delta_features(net.lut, delta_items(st[i].update.adds), king, side), l)
            - threat_sum(net.threat_weights@, delta_features(net.lut, delta_items(st[i].update.subs), king, side), l))
    }
}

/// Searching down from ply `b` for the ply to update side `s` from: -1 when the king crossed
/// between the board halves on the way, the first clean ply otherwise, -2 when there is none.
pub open spec fn threat_base(st: Seq<Accumulator>, s: int, head: int, b: int) -> int
    decreases b + 1,
{
    if b < 0 {
        -2
    } else if st[b].king_sq[s] != st[head].king_sq[s]
        && crate::nnue::network::is_mirrored_spec(st[b].king_sq[s] as int) != crate::nnue::network::is_mirrored_spec(st[head].king_sq[s] as int) {
        -1
    } else if st[b].is_clean[s] {
        b
    } else {
        threat_base(st, s, head, b - 1)
    }
}

impl Threats {
    /// Stack size, a ply on the stack, kings on the board and recorded relations naming
    /// squares on the board.
    pub open spec fn wf(&self) -> bool {
        &&& self.side@.len() == MAX_DEPTH_USIZE
        &&& self.head < MAX_DEPTH_USIZE
        &&& forall|i: int| 0 <= i < MAX_DEPTH_USIZE ==> {
            &&& (#[trigger] self.side@[i]).king_sq[0] < 64
            &&& self.side@[i].king_sq[1] < 64
            &&& deltas_on_board(delta_items(self.side@[i].update.adds))
            &&& deltas_on_board(delta_items(self.side@[i].update.subs))
        }
    }

    /// A stack of zeroed accumulators.
    pub fn new() -> (r: Self)
        ensures
            r.wf(),
            r.head == 0,
    {
        let mut side: Vec<Accumulator> = Vec::new();
        let mut i: usize = 0;
        while i < MAX_DEPTH_USIZE
            invariant
                i <= MAX_DEPTH_USIZE,
                side@.len() == i,
                forall|j: int| 0 <= j < i ==> {
                    &&& (#[trigger] side@[j]).king_sq[0] < 64
                    &&& side@[j].king_sq[1] < 64
                    &&& deltas_on_board(delta_items(side@[j].update.adds))
                    &&& deltas_on_board(delta_items(side@[j].update.subs))
                },
            decreases MAX_DEPTH_USIZE - i,
        {
            let update = ThreatUpdate::new();
            side.push(Accumulator {
                vals: [Aligned::<i16, 768>::zeroed(), Aligned::<i16, 768>::zeroed()],
                is_clean: [false, false],
                king_sq: [0, 0],
                update,
            });
            i += 1;
        }
        Threats { side, head: 0 }
    }

    /// Starts a new root: both accumulators of the first ply computed from `board`.
    pub fn init(&mut self, board: &Position, network: &Network)
        requires
            old(self).wf(),
            network.wf(),
            board.wf(),
        ensures
            final(self).wf(),
            final(self).head == 0,
            final(self).side@[0].is_clean == [true, true],
            final(self).side@[0].king_sq[0] == king_spec(*board, Color::White),
            final(self).side@[0].king_sq[1] == king_spec(*board, Color::Black),
            forall|s: int, l: int| 0 <= s < 2 && 0 <= l < 768 ==> #[trigger] final(self).side@[0].vals[s].0[l]
                == wrap16(threat_sum(network.threat_weights@, refresh_features(network, *board, color_of(s)), l)),
    {
        self.head = 0;
        let kw = board.king(Color::White);
        let kb = board.king(Color::Black);
        {
            let acc = &mut self.side[0];
            acc.king_sq[0] = kw;
            acc.king_sq[1] = kb;
        }
        self.refresh(Color::White, board, network);
        self.refresh(Color::Black, board, network);
        assert(self.side@[0].is_clean =~= [true, true]);
    }

    /// Pushes a ply for move `m` from `board` to `new_board`: both sides unclean, the kings'
    /// squares after the move and the relations the move ends and starts. Each delta list
    /// holds 96 entries: a move that ends or starts more relations keeps the first 96.
    pub fn make_move(&mut self, board: &Position, new_board: &Position, m: Move)
        requires
            old(self).wf(),
            old(self).head + 1 < MAX_DEPTH_USIZE,
            board.wf(),
            new_board.wf(),
            threat_move_ok(*board, *new_board, m),
        ensures
            final(self).wf(),
            final(self).head == old(self).head + 1,
            final(self).side@[final(self).head as int].is_clean == [false, false],
            final(self).side@[final(self).head as int].king_sq[0] == king_spec(*new_board, Color::White),
            final(self).side@[final(self).head as int].king_sq[1] == king_spec(*new_board, Color::Black),
            delta_items(final(self).side@[final(self).head as int].update.subs) == capped(threat_subs_spec(*board, m), 96),
            delta_items(final(self).side@[final(self).head as int].update.adds) == capped(threat_adds_spec(*board, *new_board, m), 96),
            forall|i: int| 0 <= i < MAX_DEPTH_USIZE && i != final(self).head ==> #[trigger] final(self).side@[i] == old(self).side@[i],
    {
        self.head = self.head + 1;
        let head = self.head;
        let kw = new_board.king(Color::White);
        let kb = new_board.king(Color::Black);
        let acc = &mut self.side[head];
        acc.is_clean = [false, false];
        acc.king_sq[0] = kw;
        acc.king_sq[1] = kb;
        acc.update.clear();
        Self::get_threat_update(board, new_board, m, &mut acc.update);
        proof {
            lemma_update_ok(*board, *new_board, m);
            assert(Seq::<ThreatDelta>::empty() + threat_subs_spec(*board, m) =~= threat_subs_spec(*board, m));
            assert(Seq::<ThreatDelta>::empty() + threat_adds_spec(*board, *new_board, m) =~= threat_adds_spec(*board, *new_board, m));
            lemma_capped_ok(threat_subs_spec(*board, m), 96);
            lemma_capped_ok(threat_adds_spec(*board, *new_board, m), 96);
        }
    }

    /// Pops the ply of the last move.
    pub fn unmake_move(&mut self)
        requires
            old(self).wf(),
            old(self).head > 0,
        ensures
            final(self).wf(),
            final(self).head == old(self).head - 1,
            final(self).side == old(self).side,
    {
        self.head = self.head - 1;
    }
}

impl Threats {
    /// Brings side `s` of the head ply up to date.
    fn catchup_side(&mut self, board: &Position, s: usize, network: &Network)
        requires
            old(self).wf(),
            network.wf(),
            board.wf(),
            s < 2,
            !old(self).side@[old(self).head as int].is_clean[s as int] ==> threat_base(
                old(self).side@, s as int, old(self).head as int, old(self).head as int) != -2,
        ensures
            final(self).wf(),
            final(self).head == old(self).head,
            final(self).side@[final(self).head as int].is_clean[s as int],
            forall|i: int| 0 <= i < MAX_DEPTH_USIZE ==> (#[trigger] final(self).side@[i]).king_sq == old(self).side@[i].king_sq
                && delta_items(final(self).side@[i].update.adds) == delta_items(old(self).side@[i].update.adds)
                && delta_items(final(self).side@[i].update.subs) == delta_items(old(self).side@[i].update.subs)
                && final(self).side@[i].vals[1 - s] == old(self).side@[i].vals[1 - s]
                && final(self).side@[i].is_clean[1 - s] == old(self).side@[i].is_clean[1 - s],
            old(self).side@[old(self).head as int].is_clean[s as int] ==> final(self).side == old(self).side,
            ({
                let st = old(self).side@;
                let h = old(self).head as int;
                let b = threat_base(st, s as int, h, h);
                !st[h].is_clean[s as int] ==> if b == -1 {
                    forall|l: int| 0 <= l < 768 ==> #[trigger] final(self).side@[h].vals[s as int].0[l]
                        == wrap16(threat_sum(network.threat_weights@, refresh_features(network, *board, color_of(s as int)), l))
                } else {
                    forall|i: int, l: int| b < i <= h && 0 <= l < 768 ==> #[trigger] final(self).side@[i].vals[s as int].0[l]
                        == threat_chain(st, network, s as int, b, i, king_spec(*board, color_of(s as int)), l)
                }
            }),
    {
        let head = self.head;
        if self.side[head].is_clean[s] {
            return;
        }
        let ghost st = self.side@;
        let side = Color::from_index(s);
        let king = board.king(side);
        let mut base = head;
        loop
            invariant
                self.side@ == st,
                st == old(self).side@,
                self.head == old(self).head,
                self.wf(),
                network.wf(),
                board.wf(),
                s < 2,
                side == color_of(s as int),
                king == king_spec(*board, side),
                king < 64,
                head == self.head,
                base <= head,
                !st[head as int].is_clean[s as int],
                threat_base(st, s as int, head as int, head as int) == threat_base(st, s as int, head as int, base as int),
                threat_base(st, s as int, head as int, head as int) != -2,
            decreases base,
        {
            let old_king = self.side[base].king_sq[s];
            let new_king = self.side[head].king_sq[s];
            if Network::needs_refresh_threat(old_king, new_king) {
                self.refresh(side, board, network);
                proof {
                    assert forall|i: int| 0 <= i < MAX_DEPTH_USIZE implies {
                        &&& (#[trigger] self.side@[i]).king_sq[0] < 64
                        &&& self.side@[i].king_sq[1] < 64
                        &&& deltas_on_board(delta_items(self.side@[i].update.adds))
                        &&& deltas_on_board(delta_items(self.side@[i].update.subs))
                    } by {
                        assert(st[i].king_sq[0] < 64);
                    }
                }
                return;
            }
            if self.side[base].is_clean[s] {
                let mut i = base + 1;
                while i <= head
                    invariant
                        self.wf(),
                        network.wf(),
                        s < 2,
                        side == color_of(s as int),
                        king == king_spec(*board, side),
                        king < 64,
                        st == old(self).side@,
                        self.head == old(self).head,
                        head == self.head,
                        base < i <= head + 1,
                        threat_base(st, s as int, head as int, head as int) == base,
                        forall|j: int| 0 <= j < MAX_DEPTH_USIZE ==> (#[trigger] self.side@[j]).king_sq == st[j].king_sq
                            && delta_items(self.side@[j].update.adds) == delta_items(st[j].update.adds)
                            && delta_items(self.side@[j].update.subs) == delta_items(st[j].update.subs)
                            && self.side@[j].vals[1 - s] == st[j].vals[1 - s]
                            && self.side@[j].is_clean[1 - s] == st[j].is_clean[1 - s],
                        forall|j: int| 0 <= j < MAX_DEPTH_USIZE && !(base < j < i) ==> #[trigger] self.side@[j].vals[s as int] == st[j].vals[s as int],
                        forall|j: int, l: int| base < j < i && 0 <= l < 768 ==> #[trigger] self.side@[j].vals[s as int].0[l]
                            == threat_chain(st, network, s as int, base as int, j, king as int, l),
                        forall|j: int| base < j < i ==> #[trigger] self.side@[j].is_clean[s as int],
                        forall|j: int| 0 <= j < MAX_DEPTH_USIZE && !(base < j < i) ==> #[trigger] self.side@[j].is_clean[s as int] == st[j].is_clean[s as int],
                    decreases head + 1 - i,
                {
                    let prev = self.side[i - 1].vals[s];
                    let ghost before = self.side@;
                    let acc = &mut self.side[i];
                    let mut next = acc.vals[s];
                    proof {
                        assert(deltas_on_board(delta_items(before[i as int].update.adds)));
                        assert(deltas_on_board(delta_items(before[i as int].update.subs)));
                    }
                    network.threat_apply_update(&mut next, &prev, &acc.update, side, king);
                    acc.vals[s] = next;
                    acc.is_clean[s] = true;
                    proof {
                        assert forall|l: int| 0 <= l < 768 implies #[trigger] self.side@[i as int].vals[s as int].0[l]
                            == threat_chain(st, network, s as int, base as int, i as int, king as int, l) by {
                            if i - 1 > base {
                                assert(prev.0[l] == threat_chain(st, network, s as int, base as int, i - 1, king as int, l));
                            } else {
                                assert(prev == st[base as int].vals[s as int]);
                                assert(prev.0[l] == threat_chain(st, network, s as int, base as int, i - 1, king as int, l));
                            }
                        }
                    }
                    i += 1;
                }
                return;
            }
            if base == 0 {
                proof {
                    assert(threat_base(st, s as int, head as int, -1) == -2);
                }
                return;
            }
            base -= 1;
        }
    }

    /// Brings both sides of the head ply up to date: from the nearest clean ply below by the
    /// moves' updates, or by a refresh when the king crossed between the halves on the way.
    pub fn catchup(&mut self, board: &Position, network: &Network)
        requires
            old(self).wf(),
            network.wf(),
            board.wf(),
            forall|s: int| 0 <= s < 2 && !old(self).side@[old(self).head as int].is_clean[s] ==> threat_base(
                old(self).side@, s, old(self).head as int, old(self).head as int) != -2,
        ensures
            final(self).wf(),
            final(self).head == old(self).head,
            final(self).side@[final(self).head as int].is_clean == [true, true],
    {
        self.catchup_side(board, 0, network);
        proof {
            assert(catchup_base_same(self.side@, old(self).side@, self.head as int)) by {
                lemma_threat_base_same(self.side@, old(self).side@, 1, self.head as int, self.head as int);
            }
        }
        self.catchup_side(board, 1, network);
        assert(self.side@[self.head as int].is_clean =~= [true, true]);
    }
}

pub open spec fn catchup_base_same(a: Seq<Accumulator>, b: Seq<Accumulator>, head: int) -> bool {
    threat_base(a, 1, head, head) == threat_base(b, 1, head, head)
}

/// The search for a base reads only the kings and the clean flags of the side.
proof fn lemma_threat_base_same(a: Seq<Accumulator>, b: Seq<Accumulator>, s: int, head: int, k: int)
    requires
        0 <= head < a.len(),
        a.len() == b.len(),
        k <= head,
        forall|i: int| 0 <= i < a.len() ==> (#[trigger] a[i]).king_sq == b[i].king_sq && a[i].is_clean[s] == b[i].is_clean[s],
    ensures
        threat_base(a, s, head, k) == threat_base(b, s, head, k),
    decreases k + 1,
{
    if k >= 0 {
        assert(a[k].king_sq == b[k].king_sq && a[head].king_sq == b[head].king_sq);
        lemma_threat_base_same(a, b, s, head, k - 1);
    }
}

/// Two bitboards with the same squares are equal.
proof fn lemma_bb_eq(a: u64, b: u64)
    requires
        forall|t: int| 0 <= t < 64 ==> #[trigger] bb_has(a, t) == bb_has(b, t),
    ensures
        a == b,
{
    let x = a ^ b;
    if x != 0 {
        vstd::std_specs::bits::axiom_u64_trailing_zeros(x);
        let t = vstd::std_specs::bits::u64_trailing_zeros(x) as u64;
        assert(t < 64);
        assert(bb_has(a, t as int) == bb_has(b, t as int));
        assert(t < 64 && x == a ^ b && (x >> t) & 1 == 1 ==> ((a & (1u64 << t) != 0) != (b & (1u64 << t) != 0))) by (bit_vector);
    } else {
        assert(a ^ b == 0 ==> a == b) by (bit_vector);
    }
}

} // verus!
