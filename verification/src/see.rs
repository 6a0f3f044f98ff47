//! Static exchange evaluation: does a capture sequence on one square win at least a threshold.

use vstd::prelude::*;
use crate::chess::{Color, Piece, Move, MoveType, color_index, opposite, bb_has, sq_bb, lsb, popcount,
    count_upto, move_on_board, square_bitboard};
use crate::position::{Position, lsb_spec};
use crate::attacks::{bishop_attacks, rook_attacks, knight_attacks, king_attacks, pawn_attacks,
    get_bishop_moves, get_rook_moves, get_knight_moves, get_king_moves, get_pawn_attacks};
use crate::param::PIECE_VALUE;

verus! {

/// `result` as a boolean; it is always 0 or 1.
fn to_bool(result: i32) -> (r: bool)
    requires
        result == 0 || result == 1,
    ensures
        r == (result == 1),
{
    result == 1
}

/// Pieces among `occ` that attack `to` when `occ` is the occupancy.
pub open spec fn attackers_spec(pos: Position, occ: u64, to: u8) -> u64 {
    let queens = pos.pieces[4];
    (bishop_attacks(to, occ) & (occ & pos.pieces[2] | queens))
        | (rook_attacks(to, occ) & (occ & pos.pieces[3] | queens))
        | (knight_attacks(to) & occ & pos.pieces[1])
        | (king_attacks(to) & occ & pos.pieces[5])
        | (pawn_attacks(to, true) & occ & (pos.colors[0] & pos.pieces[0]))
        | (pawn_attacks(to, false) & occ & (pos.colors[1] & pos.pieces[0]))
}

fn get_attackers(pos: &Position, occ: u64, to: u8) -> (r: u64)
    requires
        to < 64,
    ensures
        r == attackers_spec(*pos, occ, to),
{
    let queens = pos.pieces(Piece::Queen);
    let mut attackers: u64 = 0;
    attackers = attackers | (get_bishop_moves(to, occ) & (occ & pos.pieces(Piece::Bishop) | queens));
    attackers = attackers | (get_rook_moves(to, occ) & (occ & pos.pieces(Piece::Rook) | queens));
    attackers = attackers | (get_knight_moves(to) & occ & pos.pieces(Piece::Knight));
    attackers = attackers | (get_king_moves(to) & occ & pos.pieces(Piece::King));
    attackers = attackers | (get_pawn_attacks(to, true) & occ & pos.colored_pieces(Color::White, Piece::Pawn));
    attackers = attackers | (get_pawn_attacks(to, false) & occ & pos.colored_pieces(Color::Black, Piece::Pawn));
    proof {
        let a = bishop_attacks(to, occ) & (occ & pos.pieces[2] | queens);
        let b = rook_attacks(to, occ) & (occ & pos.pieces[3] | queens);
        let c = knight_attacks(to) & occ & pos.pieces[1];
        let d = king_attacks(to) & occ & pos.pieces[5];
        let e = pawn_attacks(to, true) & occ & (pos.colors[0] & pos.pieces[0]);
        let f = pawn_attacks(to, false) & occ & (pos.colors[1] & pos.pieces[0]);
        crate::threats::lemma_or_regroup(a, 0, 0, 0);
    }
    attackers
}

/// The exchange loop after the first capture and recapture test: sides alternate taking on
/// `to` with their least valuable attacker (pinned pieces sit out while a check is on) until
/// one side cannot or need not go on. `result` is 1 when the exchange so far meets the
/// threshold.
pub open spec fn see_loop(pos: Position, to: u8, swap: int, stm: Color, occ: u64, attackers: u64, result: int) -> bool
    decreases popcount(occ),
{
    let stm2 = opposite(stm);
    let att = attackers & occ;
    let stm_att0 = att & pos.colors[color_index(stm2)];
    let in_check = pos.checkers & pos.colors[color_index(opposite(stm2))] & occ != 0;
    let stm_att = if in_check { stm_att0 & !(pos.pinned & pos.colors[color_index(stm2)]) } else { stm_att0 };
    let res = 1 - result;
    let queens = pos.pieces[4];
    let rooks = pos.pieces[3];
    let bishops = pos.pieces[2];
    if stm_att0 == 0 || stm_att == 0 {
        result == 1
    } else {
        proof {
            lemma_stm_att_in_occ(attackers, occ, pos.colors[color_index(stm2)], pos.pinned & pos.colors[color_index(stm2)], in_check, stm_att);
        }
        let pick = |bb: u64, value: int| {
            let new_swap = value - swap;
            let s = lsb_spec(bb);
            (new_swap, occ ^ sq_bb(s))
        };
        if stm_att & pos.pieces[0] != 0 {
            proof { lemma_pick_decreases(stm_att, pos.pieces[0], occ); }
            let (ns, nocc) = pick(stm_att & pos.pieces[0], PIECE_VALUE[0] as int);
            if ns < res { res == 1 } else {
                see_loop(pos, to, ns, stm2, nocc, att | (bishop_attacks(to, nocc) & (bishops | queens)), res)
            }
        } else if stm_att & pos.pieces[1] != 0 {
            proof { lemma_pick_decreases(stm_att, pos.pieces[1], occ); }
            let (ns, nocc) = pick(stm_att & pos.pieces[1], PIECE_VALUE[1] as int);
            if ns < res { res == 1 } else { see_loop(pos, to, ns, stm2, nocc, att, res) }
        } else if stm_att & bishops != 0 {
            proof { lemma_pick_decreases(stm_att, bishops, occ); }
            let (ns, nocc) = pick(stm_att & bishops, PIECE_VALUE[2] as int);
            if ns < res { res == 1 } else {
                see_loop(pos, to, ns, stm2, nocc, att | (bishop_attacks(to, nocc) & (bishops | queens)), res)
            }
        } else if stm_att & rooks != 0 {
            proof { lemma_pick_decreases(stm_att, rooks, occ); }
            let (ns, nocc) = pick(stm_att & rooks, PIECE_VALUE[3] as int);
            if ns < res { res == 1 } else {
                see_loop(pos, to, ns, stm2, nocc, att | (rook_attacks(to, nocc) & (rooks | queens)), res)
            }
        } else if stm_att & queens != 0 {
            proof { lemma_pick_decreases(stm_att, queens, occ); }
            let (ns, nocc) = pick(stm_att & queens, PIECE_VALUE[4] as int);
            if ns < res { res == 1 } else {
                see_loop(pos, to, ns, stm2, nocc,
                    att | (bishop_attacks(to, nocc) & (bishops | queens)) | (rook_attacks(to, nocc) & (rooks | queens)), res)
            }
        } else {
            // only the king is left: it may take only if nothing defends the square
            if att & !pos.colors[color_index(stm2)] == 0 { res == 1 } else { res != 1 }
        }
    }
}

/// Whether the exchange started by move `m` gains at least `beta`. Moves other than plain
/// moves (castling, en passant, promotions) always pass.
pub open spec fn see_ge_spec(pos: Position, m: Move, beta: int) -> bool {
    if pos.move_type_spec(m) != MoveType::NORMAL {
        true
    } else {
        let victim = match pos.piece_on_spec(m.to as int) { None => 6int, Some(p) => crate::chess::piece_index(p) };
        let swap0 = PIECE_VALUE[victim] - beta;
        if swap0 < 0 {
            false
        } else {
            let attacker = match pos.piece_on_spec(m.from as int) { None => 6int, Some(p) => crate::chess::piece_index(p) };
            let swap1 = PIECE_VALUE[attacker] - swap0;
            if swap1 < 0 {
                true
            } else {
                let occ = pos.occupied_spec() ^ sq_bb(m.from as int) ^ sq_bb(m.to as int);
                see_loop(pos, m.to, swap1, pos.side_to_move, occ, attackers_spec(pos, occ, m.to), 1)
            }
        }
    }
}

/// Clearing a set square removes exactly one square from a bitboard.
pub proof fn lemma_clear_square_count(x: u64, s: int, n: nat)
    requires
        0 <= s < 64,
        bb_has(x, s),
        n <= 64,
    ensures
        count_upto(x ^ sq_bb(s), n) + (if n > s { 1nat } else { 0nat }) == count_upto(x, n),
    decreases n,
{
    if n > 0 {
        lemma_clear_square_count(x, s, (n - 1) as nat);
        let i = (n - 1) as u64;
        let su = s as u64;
        assert(i < 64 && su < 64 && x & (1u64 << su) != 0 ==> ((x ^ (1u64 << su)) & (1u64 << i) != 0) == ((x & (1u64 << i) != 0) && i != su))
            by (bit_vector);
    }
}

/// The attackers a side may use lie inside the occupancy.
pub proof fn lemma_stm_att_in_occ(attackers: u64, occ: u64, c: u64, pinned: u64, in_check: bool, stm_att: u64)
    requires
        stm_att == (if in_check { ((attackers & occ) & c) & !pinned } else { (attackers & occ) & c }),
    ensures
        stm_att & occ == stm_att,
{
    assert(((attackers & occ) & c) & occ == (attackers & occ) & c
        && (((attackers & occ) & c) & !pinned) & occ == ((attackers & occ) & c) & !pinned) by (bit_vector);
}

/// Taking the lowest square of `stm_att & p` off `occ` shrinks `occ`.
pub proof fn lemma_pick_decreases(stm_att: u64, p: u64, occ: u64)
    requires
        stm_att & occ == stm_att,
        stm_att & p != 0,
    ensures
        popcount(occ ^ sq_bb(lsb_spec(stm_att & p))) < popcount(occ),
{
    let bb = stm_att & p;
    vstd::std_specs::bits::axiom_u64_trailing_zeros(bb);
    let s = lsb_spec(bb);
    let su = s as u64;
    assert(((bb >> su) & 1 == 1 ==> bb & (1u64 << su) != 0)
        && (stm_att & occ == stm_att ==> (stm_att & p) & occ == stm_att & p)) by (bit_vector);
    lemma_pick_in_occ(bb, occ, s as u8);
}

/// The square taken off `occ` in the exchange loop is in `occ`.
proof fn lemma_pick_in_occ(bb: u64, occ: u64, s: u8)
    requires
        bb != 0,
        bb & occ == bb,
        s == lsb_spec(bb),
        s < 64,
        bb_has(bb, s as int),
    ensures
        bb_has(occ, s as int),
        popcount(occ ^ sq_bb(s as int)) < popcount(occ),
{
    let su = s as u64;
    assert(bb & occ == bb && bb & (1u64 << su) != 0 ==> occ & (1u64 << su) != 0) by (bit_vector);
    lemma_clear_square_count(occ, s as int, 64);
}

/// Whether capturing with `m` wins at least `beta` once all recaptures on the target square are
/// played out, least valuable attacker first.
pub fn see_ge(pos: &Position, m: &Move, beta: i32) -> (r: bool)
    requires
        pos.wf(),
        move_on_board(*m),
        pos.move_type_spec(*m) == MoveType::NORMAL ==> beta >= 900 - i32::MAX,
    ensures
        r == see_ge_spec(*pos, *m, beta as int),
{
    if pos.move_type(*m) != MoveType::NORMAL {
        return true;
    }
    let mut swap: i32 = PIECE_VALUE[pos.piece_on_index(m.to)] as i32 - beta;
    if swap < 0 {
        return false;
    }
    swap = PIECE_VALUE[pos.piece_on_index(m.from)] as i32 - swap;
    if swap < 0 {
        return true;
    }
    let queens = pos.pieces(Piece::Queen);
    let rooks = pos.pieces(Piece::Rook);
    let knights = pos.pieces(Piece::Knight);
    let bishops = pos.pieces(Piece::Bishop);
    let pawns = pos.pieces(Piece::Pawn);
    let mut stm = pos.side_to_move;
    let mut occ = pos.occupied() ^ square_bitboard(m.from) ^ square_bitboard(m.to);
    let mut attackers = get_attackers(pos, occ, m.to);
    let mut result: i32 = 1;
    let to = m.to;
    let ghost init = see_ge_spec(*pos, *m, beta as int);
    assert(PIECE_VALUE[0] == 100 && PIECE_VALUE[1] == 300 && PIECE_VALUE[2] == 300 && PIECE_VALUE[3] == 500
        && PIECE_VALUE[4] == 900 && PIECE_VALUE[5] == 0 && PIECE_VALUE[6] == 0);
    loop
        invariant
            pos.wf(),
            to < 64,
            queens == pos.pieces[4],
            rooks == pos.pieces[3],
            knights == pos.pieces[1],
            bishops == pos.pieces[2],
            pawns == pos.pieces[0],
            result == 0 || result == 1,
            0 <= swap <= 900,
            PIECE_VALUE[0] == 100 && PIECE_VALUE[1] == 300 && PIECE_VALUE[2] == 300 && PIECE_VALUE[3] == 500
                && PIECE_VALUE[4] == 900,
            init == see_loop(*pos, to, swap as int, stm, occ, attackers, result as int),
            init == see_ge_spec(*pos, *m, beta as int),
        decreases popcount(occ),
    {
        let stm2 = stm.other();
        let att = attackers & occ;
        let stm_att0 = att & pos.colors(stm2);
        if stm_att0 == 0 {
            return to_bool(result);
        }
        let in_check = pos.checkers & pos.colors(stm2.other()) & occ != 0;
        let stm_att = if in_check { stm_att0 & !(pos.pinned & pos.colors(stm2)) } else { stm_att0 };
        if stm_att == 0 {
            return to_bool(result);
        }
        proof {
            let c = pos.colors[color_index(stm2)];
            let k = !(pos.pinned & pos.colors[color_index(stm2)]);
            assert(((attackers & occ) & c) & occ == (attackers & occ) & c
                && (((attackers & occ) & c) & k) & occ == ((attackers & occ) & c) & k) by (bit_vector);
            assert(forall|x: u64, y: u64| #[trigger] ((x & y) & occ) == x & y || x & occ != x) by (bit_vector);
        }
        let res: i32 = 1 - result;
        let bb_p = stm_att & pawns;
        let bb_n = stm_att & knights;
        let bb_b = stm_att & bishops;
        let bb_r = stm_att & rooks;
        let bb_q = stm_att & queens;
        if bb_p != 0 {
            let new_swap = PIECE_VALUE[0] as i32 - swap;
            if new_swap < res {
                return to_bool(res);
            }
            let sq = lsb(bb_p);
            proof { lemma_pick_in_occ(bb_p, occ, sq); }
            occ = occ ^ square_bitboard(sq);
            attackers = att | (get_bishop_moves(to, occ) & (bishops | queens));
            swap = new_swap;
        } else if bb_n != 0 {
            let new_swap = PIECE_VALUE[1] as i32 - swap;
            if new_swap < res {
                return to_bool(res);
            }
            let sq = lsb(bb_n);
            proof { lemma_pick_in_occ(bb_n, occ, sq); }
            occ = occ ^ square_bitboard(sq);
            attackers = att;
            swap = new_swap;
        } else if bb_b != 0 {
            let new_swap = PIECE_VALUE[2] as i32 - swap;
            if new_swap < res {
                return to_bool(res);
            }
            let sq = lsb(bb_b);
            proof { lemma_pick_in_occ(bb_b, occ, sq); }
            occ = occ ^ square_bitboard(sq);
            attackers = att | (get_bishop_moves(to, occ) & (bishops | queens));
            swap = new_swap;
        } else if bb_r != 0 {
            let new_swap = PIECE_VALUE[3] as i32 - swap;
            if new_swap < res {
                return to_bool(res);
            }
            let sq = lsb(bb_r);
            proof { lemma_pick_in_occ(bb_r, occ, sq); }
            occ = occ ^ square_bitboard(sq);
            attackers = att | (get_rook_moves(to, occ) & (rooks | queens));
            swap = new_swap;
        } else if bb_q != 0 {
            let new_swap = PIECE_VALUE[4] as i32 - swap;
            if new_swap < res {
                return to_bool(res);
            }
            let sq = lsb(bb_q);
            proof { lemma_pick_in_occ(bb_q, occ, sq); }
            occ = occ ^ square_bitboard(sq);
            attackers = att | (get_bishop_moves(to, occ) & (bishops | queens)) | (get_rook_moves(to, occ) & (rooks | queens));
            swap = new_swap;
        } else {
            if att & !pos.colors(stm2) == 0 {
                return to_bool(res);
            } else {
                return !to_bool(res);
            }
        }
        stm = stm2;
        result = res;
    }
}

/// The exchange loop judged at two swap values: after the side that needs a result of 1
/// (`result == 1`) a smaller swap keeps the loop at 1, and after the other side a larger
/// one does.
proof fn lemma_see_loop_mono(pos: Position, to: u8, s1: int, s2: int, stm: Color, occ: u64, attackers: u64, result: int)
    requires
        result == 0 || result == 1,
        result == 1 ==> s2 <= s1,
        result == 0 ==> s1 <= s2,
        see_loop(pos, to, s1, stm, occ, attackers, result),
    ensures
        see_loop(pos, to, s2, stm, occ, attackers, result),
    decreases popcount(occ),
{
    let stm2 = opposite(stm);
    let att = attackers & occ;
    let stm_att0 = att & pos.colors[color_index(stm2)];
    let in_check = pos.checkers & pos.colors[color_index(opposite(stm2))] & occ != 0;
    let stm_att = if in_check { stm_att0 & !(pos.pinned & pos.colors[color_index(stm2)]) } else { stm_att0 };
    let res = 1 - result;
    let queens = pos.pieces[4];
    let rooks = pos.pieces[3];
    let bishops = pos.pieces[2];
    if stm_att0 == 0 || stm_att == 0 {
    } else {
        lemma_stm_att_in_occ(attackers, occ, pos.colors[color_index(stm2)], pos.pinned & pos.colors[color_index(stm2)], in_check, stm_att);
        let p = if stm_att & pos.pieces[0] != 0 { 0int } else if stm_att & pos.pieces[1] != 0 { 1int }
            else if stm_att & bishops != 0 { 2int } else if stm_att & rooks != 0 { 3int }
            else if stm_att & queens != 0 { 4int } else { 5int };
        if p < 5 {
            let bb = stm_att & pos.pieces[p];
            lemma_pick_decreases(stm_att, pos.pieces[p], occ);
            let nocc = occ ^ sq_bb(lsb_spec(bb));
            let n1 = PIECE_VALUE[p] - s1;
            let n2 = PIECE_VALUE[p] - s2;
            let natt = if p == 0 || p == 2 {
                att | (bishop_attacks(to, nocc) & (bishops | queens))
            } else if p == 1 {
                att
            } else if p == 3 {
                att | (rook_attacks(to, nocc) & (rooks | queens))
            } else {
                att | (bishop_attacks(to, nocc) & (bishops | queens)) | (rook_attacks(to, nocc) & (rooks | queens))
            };
            if n1 >= res && n2 >= res {
                assert(see_loop(pos, to, n1, stm2, nocc, natt, res));
                lemma_see_loop_mono(pos, to, n1, n2, stm2, nocc, natt, res);
            }
        }
    }
}

/// Static exchange evaluation is monotone in the threshold: a move that wins at least `b1`
/// wins at least any lower threshold `b2`.
pub proof fn lemma_see_ge_monotone(pos: Position, m: Move, b1: int, b2: int)
    requires
        b2 <= b1,
        see_ge_spec(pos, m, b1),
    ensures
        see_ge_spec(pos, m, b2),
{
    if pos.move_type_spec(m) == MoveType::NORMAL {
        let victim = match pos.piece_on_spec(m.to as int) { None => 6int, Some(p) => crate::chess::piece_index(p) };
        let attacker = match pos.piece_on_spec(m.from as int) { None => 6int, Some(p) => crate::chess::piece_index(p) };
        let s1 = PIECE_VALUE[attacker] - (PIECE_VALUE[victim] - b1);
        let s2 = PIECE_VALUE[attacker] - (PIECE_VALUE[victim] - b2);
        if s2 >= 0 && s1 >= 0 {
            let occ = pos.occupied_spec() ^ sq_bb(m.from as int) ^ sq_bb(m.to as int);
            lemma_see_loop_mono(pos, m.to, s1, s2, pos.side_to_move, occ, attackers_spec(pos, occ, m.to), 1);
        }
    }
}

/// The value of the piece a move captures (zero on an empty square).
pub open spec fn victim_value(pos: Position, m: Move) -> int {
    match pos.piece_on_spec(m.to as int) {
        None => PIECE_VALUE[6] as int,
        Some(p) => PIECE_VALUE[crate::chess::piece_index(p)] as int,
    }
}

proof fn lemma_king_only_bits(att: u64, them: u64, pinned: u64, p0: u64, p1: u64, p2: u64, p3: u64, p4: u64)
    requires
        att & them & (p0 | p1 | p2 | p3 | p4) == 0,
        att & them & pinned == 0,
    ensures
        (att & them) & !(pinned & them) == att & them,
        (att & them) & p0 == 0,
        (att & them) & p1 == 0,
        (att & them) & p2 == 0,
        (att & them) & p3 == 0,
        (att & them) & p4 == 0,
{
    assert(att & them & (p0 | p1 | p2 | p3 | p4) == 0 && att & them & pinned == 0 ==> (att & them) & !(pinned & them)
        == att & them && (att & them) & p0 == 0 && (att & them) & p1 == 0 && (att & them) & p2 == 0
        && (att & them) & p3 == 0 && (att & them) & p4 == 0) by (bit_vector);
}

/// A king cannot recapture on a defended square. When a plain move lands on a square that
/// the opponent attacks with nothing but its king (not pinned), and a piece of the moving
/// side still covers the square once the mover has left its square, the exchange ends with
/// the capture: the move wins the captured piece's value, and passes exactly the thresholds
/// up to that value.
pub proof fn lemma_see_king_cannot_recapture(pos: Position, m: Move, beta: int)
    requires
        pos.move_type_spec(m) == MoveType::NORMAL,
        ({
            let occ = pos.occupied_spec() ^ sq_bb(m.from as int) ^ sq_bb(m.to as int);
            let att = attackers_spec(pos, occ, m.to) & occ;
            let them = pos.colors[color_index(opposite(pos.side_to_move))];
            &&& att & them != 0
            &&& att & them & (pos.pieces[0] | pos.pieces[1] | pos.pieces[2] | pos.pieces[3] | pos.pieces[4]) == 0
            &&& att & them & pos.pinned == 0
            &&& att & !them != 0
        }),
    ensures
        see_ge_spec(pos, m, beta) == (victim_value(pos, m) >= beta),
{
    let occ = pos.occupied_spec() ^ sq_bb(m.from as int) ^ sq_bb(m.to as int);
    let attackers = attackers_spec(pos, occ, m.to);
    let att = attackers & occ;
    let stm2 = opposite(pos.side_to_move);
    let them = pos.colors[color_index(stm2)];
    lemma_king_only_bits(att, them, pos.pinned, pos.pieces[0], pos.pieces[1], pos.pieces[2], pos.pieces[3], pos.pieces[4]);
    assert(att & pos.colors[color_index(stm2)] == att & them);
    let victim = match pos.piece_on_spec(m.to as int) { None => 6int, Some(p) => crate::chess::piece_index(p) };
    let attacker = match pos.piece_on_spec(m.from as int) { None => 6int, Some(p) => crate::chess::piece_index(p) };
    let swap0 = PIECE_VALUE[victim] - beta;
    let swap1 = PIECE_VALUE[attacker] - swap0;
    if swap0 >= 0 && swap1 >= 0 {
        assert(see_loop(pos, m.to, swap1, pos.side_to_move, occ, attackers, 1));
    }
}

/// The value of the piece a move moves (zero from an empty square).
pub open spec fn mover_value(pos: Position, m: Move) -> int {
    match pos.piece_on_spec(m.from as int) {
        None => PIECE_VALUE[6] as int,
        Some(p) => PIECE_VALUE[crate::chess::piece_index(p)] as int,
    }
}

/// When the opponent's king is the only defender and nothing else of the moving side covers
/// the square once the mover has left it, the king takes back: the move gains the captured
/// piece less the mover, and passes exactly the thresholds below that gain.
pub proof fn lemma_see_king_recaptures(pos: Position, m: Move, beta: int)
    requires
        pos.move_type_spec(m) == MoveType::NORMAL,
        ({
            let occ = pos.occupied_spec() ^ sq_bb(m.from as int) ^ sq_bb(m.to as int);
            let att = attackers_spec(pos, occ, m.to) & occ;
            let them = pos.colors[color_index(opposite(pos.side_to_move))];
            &&& att & them != 0
            &&& att & them & (pos.pieces[0] | pos.pieces[1] | pos.pieces[2] | pos.pieces[3] | pos.pieces[4]) == 0
            &&& att & them & pos.pinned == 0
            &&& att & !them == 0
        }),
    ensures
        see_ge_spec(pos, m, beta) == (victim_value(pos, m) - mover_value(pos, m) > beta),
{
    let occ = pos.occupied_spec() ^ sq_bb(m.from as int) ^ sq_bb(m.to as int);
    let attackers = attackers_spec(pos, occ, m.to);
    let att = attackers & occ;
    let stm2 = opposite(pos.side_to_move);
    let them = pos.colors[color_index(stm2)];
    lemma_king_only_bits(att, them, pos.pinned, pos.pieces[0], pos.pieces[1], pos.pieces[2], pos.pieces[3], pos.pieces[4]);
    assert(PIECE_VALUE[0] == 100 && PIECE_VALUE[1] == 300 && PIECE_VALUE[2] == 300 && PIECE_VALUE[3] == 500
        && PIECE_VALUE[4] == 900 && PIECE_VALUE[5] == 0 && PIECE_VALUE[6] == 0);
    let victim = match pos.piece_on_spec(m.to as int) { None => 6int, Some(p) => crate::chess::piece_index(p) };
    let attacker = match pos.piece_on_spec(m.from as int) { None => 6int, Some(p) => crate::chess::piece_index(p) };
    let swap0 = PIECE_VALUE[victim] - beta;
    let swap1 = PIECE_VALUE[attacker] - swap0;
    if swap0 >= 0 && swap1 >= 0 {
        assert(!see_loop(pos, m.to, swap1, pos.side_to_move, occ, attackers, 1));
    }
}

/// Bounds of the exchange on plain moves: a move never passes a threshold above what it
/// captures, always passes one below the captured piece less the mover (the worst a
/// recapture can cost), and, when the opponent cannot answer on the square at all, passes
/// exactly the thresholds up to the captured piece's value.
pub proof fn lemma_see_bounds(pos: Position, m: Move, beta: int)
    requires
        pos.move_type_spec(m) == MoveType::NORMAL,
    ensures
        victim_value(pos, m) < beta ==> !see_ge_spec(pos, m, beta),
        victim_value(pos, m) - mover_value(pos, m) > beta ==> see_ge_spec(pos, m, beta),
        ({
            let occ = pos.occupied_spec() ^ sq_bb(m.from as int) ^ sq_bb(m.to as int);
            let them = pos.colors[color_index(opposite(pos.side_to_move))];
            attackers_spec(pos, occ, m.to) & occ & them == 0
        }) ==> see_ge_spec(pos, m, beta) == (victim_value(pos, m) >= beta),
{
    let occ = pos.occupied_spec() ^ sq_bb(m.from as int) ^ sq_bb(m.to as int);
    let attackers = attackers_spec(pos, occ, m.to);
    let them = pos.colors[color_index(opposite(pos.side_to_move))];
    let victim = match pos.piece_on_spec(m.to as int) { None => 6int, Some(p) => crate::chess::piece_index(p) };
    let attacker = match pos.piece_on_spec(m.from as int) { None => 6int, Some(p) => crate::chess::piece_index(p) };
    let swap0 = PIECE_VALUE[victim] - beta;
    let swap1 = PIECE_VALUE[attacker] - swap0;
    if swap0 >= 0 && swap1 >= 0 && attackers & occ & them == 0 {
        assert((attackers & occ) & pos.colors[color_index(opposite(pos.side_to_move))] == 0);
        assert(see_loop(pos, m.to, swap1, pos.side_to_move, occ, attackers, 1));
    }
}

} // verus!
