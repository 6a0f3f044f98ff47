//! The parts of the search driver that stand on their own: the root moves and how the best
//! comes first, and the correction of a static evaluation by the correction histories.

use vstd::prelude::*;
use crate::chess::{Color, Move, color_index};
use crate::heuristic::{Heuristic, PawnCorr};
use crate::helpers::trunc_div;
use crate::param::{VALUE_EVAL, VALUE_NONE};
use crate::stack::{PawnKey, PvList, PAWN_KEY_SIZE};

verus! {

/// A move at the root with the line it leads to and what the search found for it.
#[derive(Debug)]
pub struct RootMove {
    pub pv_list: PvList,
    pub average_score: i16,
    pub score: i16,
    pub nodes: i64,
}

impl RootMove {
    /// The root move `m`: its line is `m` alone, no score averaged yet, no nodes.
    pub fn new(m: &Move) -> (r: Self)
        ensures
            r.pv_list@ == seq![*m],
            r.average_score == VALUE_NONE,
            r.score == 0,
            r.nodes == 0,
    {
        let mut pv_list = PvList::new();
        let empty = PvList::new();
        pv_list.set(m, &empty);
        assert(seq![*m] + empty@ =~= seq![*m]);
        Self { pv_list, average_score: VALUE_NONE, score: 0, nodes: 0 }
    }
}

/// The first root move among the first `n` with the highest score.
pub open spec fn best_root(scores: Seq<i16>, n: nat) -> int
    decreases n,
{
    if n <= 1 {
        0
    } else {
        let b = best_root(scores, (n - 1) as nat);
        if scores[n - 1] > scores[b] { n - 1 } else { b }
    }
}

proof fn lemma_best_root_range(scores: Seq<i16>, n: nat)
    ensures
        0 <= best_root(scores, n) < (if n == 0 { 1 } else { n }),
    decreases n,
{
    if n > 1 {
        lemma_best_root_range(scores, (n - 1) as nat);
    }
}

/// The scores of the root moves, in order.
pub open spec fn root_scores(moves: Seq<RootMove>) -> Seq<i16> {
    moves.map_values(|r: RootMove| r.score)
}

/// Puts the first root move with the highest score first, swapping it with the move there.
pub fn sort_root_moves(root_moves: &mut Vec<RootMove>)
    ensures
        old(root_moves)@.len() == 0 ==> final(root_moves)@ == old(root_moves)@,
        old(root_moves)@.len() > 0 ==> {
            let b = best_root(root_scores(old(root_moves)@), old(root_moves)@.len());
            final(root_moves)@ == old(root_moves)@.update(0, old(root_moves)@[b]).update(b, old(root_moves)@[0])
        },
{
    let n = root_moves.len();
    if n == 0 {
        return;
    }
    let ghost scores = root_scores(root_moves@);
    let mut best: usize = 0;
    let mut i: usize = 1;
    while i < n
        invariant
            1 <= i <= n,
            n == root_moves@.len(),
            scores == root_scores(root_moves@),
            best == best_root(scores, i as nat),
            best < i,
        decreases n - i,
    {
        proof {
            lemma_best_root_range(scores, i as nat);
        }
        if root_moves[i].score > root_moves[best].score {
            best = i;
        }
        i += 1;
    }
    let ghost before = root_moves@;
    let first = root_moves.remove(0);
    root_moves.insert(0, first);
    assert(root_moves@ =~= before);
    if best != 0 {
        let a = root_moves.remove(best);
        let z = root_moves.remove(0);
        root_moves.insert(0, a);
        root_moves.insert(best, z);
        assert(root_moves@ =~= before.update(0, before[best as int]).update(best as int, before[0]));
    } else {
        assert(before.update(0, before[0]).update(0, before[0]) =~= before);
    }
}

/// A correction history's share of the correction: `weight * value / 512`, rounded toward
/// zero.
pub open spec fn corr_term(weight: int, h: PawnCorr) -> int {
    trunc_div(weight * h@, 512)
}

/// The entry of a correction table for `key` and the side to move.
pub open spec fn corr_entry(table: Seq<[PawnCorr; 2]>, key: u64, stm: Color) -> PawnCorr {
    table[key as int % 16384][color_index(stm)]
}

/// The corrected static evaluation: the evaluation plus the shares of the pawn, per-color,
/// major-piece and minor-piece correction histories at the keys of the position and, after a
/// move, of the continuation history of that move (`cont`: the continuation table's index,
/// the moved piece's index, the move's target square), clamped to the evaluation range.
pub open spec fn static_correction_spec(h: &Heuristic, keys: &PawnKey, stm: Color, score: int,
    cont: Option<((usize, usize), usize, u8)>) -> int
{
    let top = keys.size - 1;
    let s = score + corr_term(32, corr_entry(h.pawn_corrhist@, keys.pawns[top], stm))
        + corr_term(24, corr_entry(h.white_corrhist@, keys.colored[top][0], stm))
        + corr_term(24, corr_entry(h.black_corrhist@, keys.colored[top][1], stm))
        + corr_term(24, corr_entry(h.major_corrhist@, keys.major[top], stm))
        + corr_term(24, corr_entry(h.minor_corrhist@, keys.minor[top], stm))
        + match cont {
            Some((idx, piece, to)) => corr_term(24, h.cont_corrhist@[idx.0 * 64 + idx.1][piece as int][to as int]),
            None => 0,
        };
    if s < -VALUE_EVAL { -VALUE_EVAL } else if s > VALUE_EVAL { VALUE_EVAL as int } else { s }
}

fn corr_share(weight: i32, h: &PawnCorr) -> (r: i32)
    requires
        weight == 24 || weight == 32,
    ensures
        r == corr_term(weight as int, *h),
        -2048 <= r <= 2048,
{
    let v = h.get() as i32;
    assert(-1048576 <= weight * v <= 1048576) by (nonlinear_arith)
        requires weight == 24 || weight == 32, -32768 <= v <= 32767;
    let r = crate::helpers::div_trunc(weight * v, 512);
    assert(-2048 <= r <= 2048) by {
        let x = (weight * v) as int;
        let ax = if x < 0 { -x } else { x };
        assert(ax / 512 <= 2048) by (nonlinear_arith)
            requires 0 <= ax <= 1048576;
    }
    r
}

/// The static evaluation `static_score` corrected by the correction histories (see
/// `static_correction_spec`).
pub fn static_correction(heuristic: &Heuristic, pawn_key: &PawnKey, stm: Color, static_score: i16,
    cont: Option<((usize, usize), usize, u8)>) -> (r: i16)
    requires
        heuristic.wf(),
        0 < pawn_key.size <= PAWN_KEY_SIZE,
        cont matches Some((idx, piece, to)) ==> idx.0 <= 12 && idx.1 < 64 && piece < 12 && to < 64,
    ensures
        r == static_correction_spec(heuristic, pawn_key, stm, static_score as int, cont),
{
    let top = pawn_key.size - 1;
    let side = stm.index();
    let mut s: i32 = static_score as i32;
    s = s + corr_share(32, &heuristic.pawn_corrhist[(pawn_key.pawns[top] % 16384) as usize][side]);
    s = s + corr_share(24, &heuristic.white_corrhist[(pawn_key.colored[top][0] % 16384) as usize][side]);
    s = s + corr_share(24, &heuristic.black_corrhist[(pawn_key.colored[top][1] % 16384) as usize][side]);
    s = s + corr_share(24, &heuristic.major_corrhist[(pawn_key.major[top] % 16384) as usize][side]);
    s = s + corr_share(24, &heuristic.minor_corrhist[(pawn_key.minor[top] % 16384) as usize][side]);
    match cont {
        Some((idx, piece, to)) => {
            let row = &heuristic.cont_corrhist[idx.0 * 64 + idx.1];
            s = s + corr_share(24, &row[piece][to as usize]);
        },
        None => {},
    }
    if s < -(VALUE_EVAL as i32) {
        -VALUE_EVAL
    } else if s > VALUE_EVAL as i32 {
        VALUE_EVAL
    } else {
        s as i16
    }
}

} // verus!
