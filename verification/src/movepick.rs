//! The move picker: hands out the moves of a position one at a time, best first by stage:
//! the hash move, captures by history and victim value, then quiets by killers and history,
//! then the quiets that scored badly.

use vstd::prelude::*;
use vstd::multiset::Multiset;
use crate::chess::{Color, Piece, Move, color_index, opposite, bb_has, sq_bb, null_move_spec, move_on_board, piece_index};
use crate::heuristic::{Heuristic, movable, capture_idx_of, main_idx_of, captured_spec};
use crate::param::{MVV_MULTIPLIER, PIECE_VALUE, BAD_QUIET_SCORE};
use crate::position::opt_sq;
use crate::position::Position;
use crate::movegen::{PieceMoves, report_of, report_wf, fan, capped, report_split, legal_moves_spec};
use crate::pick_cover::{legal_moves_fit, lemma_listed_are_legal, lemma_listed_captures_are_noisy, noisy_part};
use crate::movelist::{
    ScoredMove, MAX_MOVES, scored_items, scored_len, scored_push, scored_get, scored_set_score,
    scored_swap, scored_swap_remove, scored_new,
};
use arrayvec::ArrayVec;

verus! {

// ---------------------------------------------------------------------------------------------
// sequences of moves as multisets

/// The moves of a list of scored moves.
pub open spec fn moves_of(s: Seq<ScoredMove>) -> Seq<Move> {
    s.map_values(|x: ScoredMove| x.inner)
}

/// Moves with score zero, as they are first listed.
pub open spec fn unscored(s: Seq<Move>) -> Seq<ScoredMove> {
    s.map_values(|m: Move| ScoredMove { inner: m, score: 0 })
}

/// The moves between two positions of a sequence, as a multiset.
pub open spec fn ms_range(s: Seq<Move>, lo: int, hi: int) -> Multiset<Move> {
    s.subrange(lo, hi).to_multiset()
}

/// A sequence with two of its elements exchanged.
pub open spec fn swapped<T>(s: Seq<T>, i: int, j: int) -> Seq<T> {
    s.update(i, s[j]).update(j, s[i])
}

proof fn lemma_ms_split(s: Seq<Move>, lo: int, mid: int, hi: int)
    requires
        0 <= lo <= mid <= hi <= s.len(),
    ensures
        ms_range(s, lo, hi) == ms_range(s, lo, mid).add(ms_range(s, mid, hi)),
{
    assert(s.subrange(lo, hi) =~= s.subrange(lo, mid) + s.subrange(mid, hi));
    vstd::seq_lib::lemma_multiset_commutative(s.subrange(lo, mid), s.subrange(mid, hi));
}

proof fn lemma_ms_empty(s: Seq<Move>)
    requires
        s.len() == 0,
    ensures
        s.to_multiset() =~= Multiset::<Move>::empty(),
{
    vstd::seq_lib::to_multiset_len(s);
    vstd::multiset::lemma_multiset_empty_len(s.to_multiset());
}

proof fn lemma_ms_first(s: Seq<Move>, lo: int, hi: int)
    requires
        0 <= lo < hi <= s.len(),
    ensures
        ms_range(s, lo, hi) == ms_range(s, lo + 1, hi).insert(s[lo]),
{
    broadcast use vstd::multiset::group_multiset_axioms;
    lemma_ms_split(s, lo, lo + 1, hi);
    assert(s.subrange(lo, lo + 1) =~= Seq::<Move>::empty().push(s[lo]));
    vstd::seq_lib::to_multiset_build(Seq::<Move>::empty(), s[lo]);
    lemma_ms_empty(Seq::<Move>::empty());
    assert(ms_range(s, lo, hi) =~= ms_range(s, lo + 1, hi).insert(s[lo]));
}

proof fn lemma_ms_same(s: Seq<Move>, t: Seq<Move>, lo: int, hi: int)
    requires
        0 <= lo <= hi <= s.len(),
        hi <= t.len(),
        forall|k: int| lo <= k < hi ==> s[k] == t[k],
    ensures
        ms_range(s, lo, hi) == ms_range(t, lo, hi),
{
    assert(s.subrange(lo, hi) =~= t.subrange(lo, hi));
}

proof fn lemma_ms_swap(s: Seq<Move>, i: int, j: int, lo: int, hi: int)
    requires
        lo <= i < hi,
        lo <= j < hi,
        0 <= lo,
        hi <= s.len(),
    ensures
        ms_range(swapped(s, i, j), lo, hi) == ms_range(s, lo, hi),
{
    broadcast use vstd::multiset::group_multiset_axioms;
    broadcast use vstd::seq_lib::group_to_multiset_ensures;
    let t = s.subrange(lo, hi);
    if i != j {
        assert(swapped(s, i, j).subrange(lo, hi) =~= t.update(i - lo, t[j - lo]).update(j - lo, t[i - lo]));
        vstd::seq_lib::to_multiset_update(t, i - lo, t[j - lo]);
        vstd::seq_lib::to_multiset_update(t.update(i - lo, t[j - lo]), j - lo, t[i - lo]);
        assert(ms_range(swapped(s, i, j), lo, hi) =~= ms_range(s, lo, hi));
    } else {
        assert(swapped(s, i, j) =~= s);
    }
}

proof fn lemma_update_remove(m: Multiset<Move>, pv: Move)
    ensures
        m.remove(pv).update(pv, 0) =~= m.update(pv, 0),
{
    assert forall|y: Move| #[trigger] m.remove(pv).update(pv, 0).count(y) == m.update(pv, 0).count(y) by {
        vstd::multiset::lemma_update_same(m.remove(pv), pv, 0);
        vstd::multiset::lemma_update_same(m, pv, 0);
        if y != pv {
            vstd::multiset::lemma_update_different(m.remove(pv), pv, 0, y);
            vstd::multiset::lemma_update_different(m, pv, 0, y);
            vstd::multiset::axiom_multiset_sub(m, Multiset::singleton(pv), y);
            vstd::multiset::axiom_multiset_singleton_different(pv, y);
        }
    }
}

proof fn lemma_shift(a: Multiset<Move>, b: Multiset<Move>, x: Move, pv: Move)
    requires
        x != pv,
    ensures
        a.insert(x).add(b.update(pv, 0)) =~= a.add(b.insert(x).update(pv, 0)),
{
    assert forall|y: Move| #[trigger] a.insert(x).add(b.update(pv, 0)).count(y) == a.add(b.insert(x).update(pv, 0)).count(y) by {
        vstd::multiset::axiom_multiset_add(a.insert(x), b.update(pv, 0), y);
        vstd::multiset::axiom_multiset_add(a, b.insert(x).update(pv, 0), y);
        vstd::multiset::axiom_multiset_add(a, Multiset::singleton(x), y);
        vstd::multiset::axiom_multiset_add(b, Multiset::singleton(x), y);
        vstd::multiset::axiom_multiset_singleton(x);
        if y == pv {
            vstd::multiset::lemma_update_same(b, pv, 0);
            vstd::multiset::lemma_update_same(b.insert(x), pv, 0);
            vstd::multiset::axiom_multiset_singleton_different(x, y);
        } else {
            vstd::multiset::lemma_update_different(b, pv, 0, y);
            vstd::multiset::lemma_update_different(b.insert(x), pv, 0, y);
            if y != x {
                vstd::multiset::axiom_multiset_singleton_different(x, y);
            }
        }
    }
}

/// Removing position `i` by moving the last element into it.
proof fn lemma_ms_swap_remove(s: Seq<Move>, i: int)
    requires
        0 <= i < s.len(),
    ensures
        ms_range(s.update(i, s.last()).drop_last(), i, s.len() - 1) == ms_range(s, i, s.len() as int).remove(s[i]),
{
    broadcast use vstd::multiset::group_multiset_axioms;
    broadcast use vstd::seq_lib::group_to_multiset_ensures;
    let n = s.len() as int;
    let t = s.update(i, s.last()).drop_last();
    if i == n - 1 {
        assert(t.subrange(i, n - 1) =~= Seq::<Move>::empty());
        assert(s.subrange(i, n) =~= Seq::<Move>::empty().push(s[i]));
        lemma_ms_empty(Seq::<Move>::empty());
        lemma_ms_empty(t.subrange(i, n - 1));
        assert(ms_range(t, i, n - 1) =~= ms_range(s, i, n).remove(s[i]));
    } else {
        let u = s.subrange(i, n);
        assert(t.subrange(i, n - 1) =~= u.update(0, u.last()).drop_last());
        vstd::seq_lib::to_multiset_update(u, 0, u.last());
        let v = u.update(0, u.last());
        assert(v =~= v.drop_last().push(v.last()));
        vstd::seq_lib::to_multiset_build(v.drop_last(), v.last());
        assert(v.to_multiset() =~= u.to_multiset().insert(u.last()).remove(u[0]));
        assert(v.to_multiset() =~= v.drop_last().to_multiset().insert(v.last()));
        assert(v.last() == u.last());
        assert(u.contains(u[0]));
        assert(u.to_multiset().count(u[0]) > 0);
        assert forall|y: Move| #[trigger] v.drop_last().to_multiset().count(y) == u.to_multiset().remove(u[0]).count(y) by {
            assert(v.to_multiset().count(y) == v.drop_last().to_multiset().count(y) + (if y == v.last() { 1int } else { 0int }));
        }
        assert(v.drop_last().to_multiset() =~= u.to_multiset().remove(u[0]));
        assert(ms_range(t, i, n - 1) =~= ms_range(s, i, n).remove(s[i]));
    }
}

// ---------------------------------------------------------------------------------------------
// what the picker generates

/// The rank a pawn of side `c` promotes from.
pub open spec fn promotion_rank(c: Color) -> u64 {
    if c == Color::White {
        0x00FF_0000_0000_0000u64
    } else {
        0xFF00u64
    }
}

/// The side to move's pawns that promote with their next step.
pub open spec fn promotion_pawns(pos: Position) -> u64 {
    pos.colored_spec(pos.side_to_move, Piece::Pawn) & promotion_rank(pos.side_to_move)
}

/// The opponent's pieces.
pub open spec fn opp_of(pos: Position) -> u64 {
    pos.colors[color_index(opposite(pos.side_to_move))]
}

/// The squares that count as captures for a piece: the opponent's pieces, and for a pawn the
/// en passant square too.
pub open spec fn capture_targets(e: PieceMoves, opp: u64, ep: Option<int>) -> u64 {
    match ep {
        Some(s) => if e.0 == 0 { opp | sq_bb(s) } else { opp },
        None => opp,
    }
}

/// The four promotions of a capturing pawn, in the picker's order.
pub open spec fn capture_promos() -> Seq<Option<Piece>> {
    seq![Some(Piece::Queen), Some(Piece::Rook), Some(Piece::Knight), Some(Piece::Bishop)]
}

/// The under-promotions of a pawn stepping forward, in the picker's order.
pub open spec fn quiet_promos() -> Seq<Option<Piece>> {
    seq![Some(Piece::Rook), Some(Piece::Knight), Some(Piece::Bishop)]
}

/// The moves the picker makes of one report entry. Kind 0: a promoting pawn's captures (all
/// four promotions) then its queen promotions by a step; kind 1: captures of any other piece;
/// kind 2: a promoting pawn's under-promotions by a step; kind 3: quiet moves of any other piece.
pub open spec fn gen_entry(e: PieceMoves, kind: int, opp: u64, ep: Option<int>) -> Seq<Move> {
    if kind == 0 {
        fan(e.1, e.2 & opp, 64, capture_promos()) + fan(e.1, e.2 & !opp, 64, seq![Some(Piece::Queen)])
    } else if kind == 1 {
        fan(e.1, e.2 & capture_targets(e, opp, ep), 64, seq![None])
    } else if kind == 2 {
        fan(e.1, e.2 & !opp, 64, quiet_promos())
    } else {
        fan(e.1, e.2 & !capture_targets(e, opp, ep), 64, seq![None])
    }
}

/// The moves of all entries of a report, entry after entry.
pub open spec fn gen_list(es: Seq<PieceMoves>, kind: int, opp: u64, ep: Option<int>) -> Seq<Move>
    decreases es.len(),
{
    if es.len() == 0 {
        Seq::empty()
    } else {
        gen_list(es.drop_last(), kind, opp, ep) + gen_entry(es.last(), kind, opp, ep)
    }
}

pub open spec fn gen_report(r: Option<Seq<PieceMoves>>, kind: int, opp: u64, ep: Option<int>) -> Seq<Move> {
    match r {
        None => Seq::empty(),
        Some(es) => gen_list(es, kind, opp, ep),
    }
}

/// The captures (with every promotion) the picker generates, in its order.
pub open spec fn capture_moves(pos: Position) -> Seq<Move> {
    let pp = promotion_pawns(pos);
    gen_report(report_of(pos, pp), 0, opp_of(pos), pos.ep_square_spec())
        + gen_report(report_of(pos, !pp), 1, opp_of(pos), pos.ep_square_spec())
}

/// The quiet moves (with the under-promotions) the picker generates, in its order.
pub open spec fn quiet_moves(pos: Position) -> Seq<Move> {
    let pp = promotion_pawns(pos);
    gen_report(report_of(pos, pp), 2, opp_of(pos), pos.ep_square_spec())
        + gen_report(report_of(pos, !pp), 3, opp_of(pos), pos.ep_square_spec())
}

/// Pushes `m` with score zero when the list has room.
fn push_move(list: &mut ArrayVec<ScoredMove, 218>, m: Move, Ghost(s): Ghost<Seq<ScoredMove>>, Ghost(t): Ghost<Seq<Move>>)
    requires
        scored_items(*old(list)) == capped(s + unscored(t), 218),
    ensures
        scored_items(*final(list)) == capped(s + unscored(t.push(m)), 218),
{
    let sm = ScoredMove::from_move(m);
    assert(unscored(t.push(m)) =~= unscored(t).push(sm));
    proof { crate::movegen::lemma_capped_append(s, unscored(t), sm, 218); }
    if scored_len(list) < MAX_MOVES {
        scored_push(list, sm);
    }
}

/// Pushes the moves from `from` to each square of `bb`, ascending, once per promotion of
/// `promos`.
fn push_fan(
    list: &mut ArrayVec<ScoredMove, 218>,
    from: u8,
    bb: u64,
    promos: &[Option<Piece>],
    Ghost(s): Ghost<Seq<ScoredMove>>,
    Ghost(t): Ghost<Seq<Move>>,
)
    requires
        scored_items(*old(list)) == capped(s + unscored(t), 218),
    ensures
        scored_items(*final(list)) == capped(s + unscored(t + fan(from, bb, 64, promos@)), 218),
{
    let mut sq: u8 = 0;
    while sq < 64
        invariant
            sq <= 64,
            scored_items(*list) == capped(s + unscored(t + fan(from, bb, sq as nat, promos@)), 218),
        decreases 64 - sq,
    {
        let ghost before = t + fan(from, bb, sq as nat, promos@);
        if bb & (1u64 << sq) != 0 {
            let mut k: usize = 0;
            while k < promos.len()
                invariant
                    k <= promos@.len(),
                    sq < 64,
                    scored_items(*list) == capped(
                        s + unscored(before + promos@.take(k as int).map_values(|p: Option<Piece>| Move { from, to: sq, promotion: p })),
                        218,
                    ),
                decreases promos@.len() - k,
            {
                let m = Move { from, to: sq, promotion: promos[k] };
                let ghost done = before + promos@.take(k as int).map_values(|p: Option<Piece>| Move { from, to: sq, promotion: p });
                push_move(list, m, Ghost(s), Ghost(done));
                assert(done.push(m) =~= before + promos@.take(k as int + 1).map_values(|p: Option<Piece>| Move { from, to: sq, promotion: p }));
                k += 1;
            }
            assert(promos@.take(promos@.len() as int) =~= promos@);
            assert(t + fan(from, bb, (sq + 1) as nat, promos@) =~= before + promos@.map_values(|p: Option<Piece>| Move { from, to: sq, promotion: p }));
        } else {
            assert(t + fan(from, bb, (sq + 1) as nat, promos@) =~= before);
        }
        sq += 1;
    }
}

/// Pushes the moves of kind `kind` (see `gen_entry`) of every report entry, entry after entry.
fn push_report(
    list: &mut ArrayVec<ScoredMove, 218>,
    es: &Vec<PieceMoves>,
    kind: u8,
    opp: u64,
    ep: Option<u8>,
    Ghost(s): Ghost<Seq<ScoredMove>>,
    Ghost(t): Ghost<Seq<Move>>,
)
    requires
        kind < 4,
        report_wf(es@),
        ep matches Some(x) ==> x < 64,
        scored_items(*old(list)) == capped(s + unscored(t), 218),
    ensures
        scored_items(*final(list)) == capped(s + unscored(t + gen_list(es@, kind as int, opp, opt_sq(ep))), 218),
{
    let queen = [Some(Piece::Queen)];
    let plain = [None];
    let caps = [Some(Piece::Queen), Some(Piece::Rook), Some(Piece::Knight), Some(Piece::Bishop)];
    let unders = [Some(Piece::Rook), Some(Piece::Knight), Some(Piece::Bishop)];
    assert(queen@ =~= seq![Some(Piece::Queen)]);
    assert(plain@ =~= seq![None::<Piece>]);
    assert(caps@ =~= capture_promos());
    assert(unders@ =~= quiet_promos());
    let mut k: usize = 0;
    while k < es.len()
        invariant
            k <= es@.len(),
            kind < 4,
            report_wf(es@),
            ep matches Some(x) ==> x < 64,
            queen@ == seq![Some(Piece::Queen)],
            plain@ == seq![None::<Piece>],
            caps@ == capture_promos(),
            unders@ == quiet_promos(),
            scored_items(*list) == capped(s + unscored(t + gen_list(es@.take(k as int), kind as int, opp, opt_sq(ep))), 218),
        decreases es@.len() - k,
    {
        let e = es[k];
        let ghost before = t + gen_list(es@.take(k as int), kind as int, opp, opt_sq(ep));
        let targets = match ep {
            Some(x) => if e.0 == 0 { opp | (1u64 << x) } else { opp },
            None => opp,
        };
        assert(targets == capture_targets(e, opp, opt_sq(ep)));
        if kind == 0 {
            push_fan(list, e.1, e.2 & opp, caps.as_slice(), Ghost(s), Ghost(before));
            push_fan(list, e.1, e.2 & !opp, queen.as_slice(), Ghost(s), Ghost(before + fan(e.1, e.2 & opp, 64, caps@)));
            assert(before + fan(e.1, e.2 & opp, 64, caps@) + fan(e.1, e.2 & !opp, 64, queen@) =~= before + gen_entry(e, kind as int, opp, opt_sq(ep)));
        } else if kind == 1 {
            push_fan(list, e.1, e.2 & targets, plain.as_slice(), Ghost(s), Ghost(before));
            assert(before + fan(e.1, e.2 & targets, 64, plain@) =~= before + gen_entry(e, kind as int, opp, opt_sq(ep)));
        } else if kind == 2 {
            push_fan(list, e.1, e.2 & !opp, unders.as_slice(), Ghost(s), Ghost(before));
            assert(before + fan(e.1, e.2 & !opp, 64, unders@) =~= before + gen_entry(e, kind as int, opp, opt_sq(ep)));
        } else {
            push_fan(list, e.1, e.2 & !targets, plain.as_slice(), Ghost(s), Ghost(before));
            assert(before + fan(e.1, e.2 & !targets, 64, plain@) =~= before + gen_entry(e, kind as int, opp, opt_sq(ep)));
        }
        assert(es@.take(k as int + 1).drop_last() =~= es@.take(k as int));
        assert(es@.take(k as int + 1).last() == e);
        assert(t + gen_list(es@.take(k as int + 1), kind as int, opp, opt_sq(ep)) =~= before + gen_entry(e, kind as int, opp, opt_sq(ep)));
        k += 1;
    }
    assert(es@.take(es@.len() as int) =~= es@);
}

/// The generator's reports for the promoting pawns and for the other pieces are the full
/// report's entries on those squares (see `split_ok`).
pub open spec fn reports_ok(pos: Position) -> bool {
    report_split(pos, promotion_pawns(pos)) && report_split(pos, !promotion_pawns(pos))
}

/// Pushes the picker's captures (`quiet` false) or quiet moves (`quiet` true) of a position.
fn push_generated(list: &mut ArrayVec<ScoredMove, 218>, pos: &Position, quiet: bool)
    requires
        pos.wf(),
    ensures
        scored_items(*final(list)) == capped(
            scored_items(*old(list)) + unscored(if quiet { quiet_moves(*pos) } else { capture_moves(*pos) }),
            218,
        ),
        all_real(if quiet { quiet_moves(*pos) } else { capture_moves(*pos) }),
        reports_ok(*pos),
{
    let _len = scored_len(list);
    let ghost s = scored_items(*list);
    assert(s + unscored(Seq::<Move>::empty()) =~= s);
    let stm = pos.side_to_move;
    let opp = pos.colors(stm.other());
    let ep = pos.ep_square();
    let rank: u64 = match stm {
        Color::White => 0x00FF_0000_0000_0000u64,
        Color::Black => 0xFF00u64,
    };
    let pp = pos.colored_pieces(stm, Piece::Pawn) & rank;
    let k1: u8 = if quiet { 2 } else { 0 };
    let k2: u8 = if quiet { 3 } else { 1 };
    let ghost first = gen_report(report_of(*pos, pp), k1 as int, opp, opt_sq(ep));
    let ghost second = gen_report(report_of(*pos, !pp), k2 as int, opp, opt_sq(ep));
    match pos.generate_moves_for(pp) {
        Some(v) => {
            proof { lemma_report_on_board(report_of(*pos, pp), k1 as int, opp, opt_sq(ep)); }
            push_report(list, &v, k1, opp, ep, Ghost(s), Ghost(Seq::empty()));
            assert(Seq::<Move>::empty() + gen_list(v@, k1 as int, opp, opt_sq(ep)) =~= first);
        },
        None => {
            assert(Seq::<Move>::empty() =~= first);
        },
    }
    proof { lemma_report_on_board(report_of(*pos, pp), k1 as int, opp, opt_sq(ep)); }
    match pos.generate_moves_for(!pp) {
        Some(v) => {
            proof { lemma_report_on_board(report_of(*pos, !pp), k2 as int, opp, opt_sq(ep)); }
            proof { lemma_concat_on_board(first, second); }
            push_report(list, &v, k2, opp, ep, Ghost(s), Ghost(first));
            assert(first + gen_list(v@, k2 as int, opp, opt_sq(ep)) =~= (if quiet { quiet_moves(*pos) } else { capture_moves(*pos) }));
        },
        None => {
            assert(first + Seq::<Move>::empty() =~= (if quiet { quiet_moves(*pos) } else { capture_moves(*pos) }));
            proof { lemma_concat_on_board(first, second); }
        },
    }
}

// ---------------------------------------------------------------------------------------------
// generated moves are real moves

/// A move on the board that leaves its square.
pub open spec fn real_move(m: Move) -> bool {
    move_on_board(m) && m.from != m.to
}

pub open spec fn all_real(s: Seq<Move>) -> bool {
    forall|k: int| 0 <= k < s.len() ==> real_move(#[trigger] s[k])
}

proof fn lemma_concat_on_board(a: Seq<Move>, b: Seq<Move>)
    requires
        all_real(a),
        all_real(b),
    ensures
        all_real(a + b),
{
    assert forall|k: int| 0 <= k < (a + b).len() implies real_move(#[trigger] (a + b)[k]) by {
        if k < a.len() {
            assert((a + b)[k] == a[k]);
        } else {
            assert((a + b)[k] == b[k - a.len()]);
        }
    }
}

proof fn lemma_fan_on_board(from: u8, bb: u64, n: nat, promos: Seq<Option<Piece>>)
    requires
        from < 64,
        n <= 64,
        !bb_has(bb, from as int),
    ensures
        all_real(fan(from, bb, n, promos)),
    decreases n,
{
    if n > 0 {
        lemma_fan_on_board(from, bb, (n - 1) as nat, promos);
        let tail = if bb_has(bb, n - 1) {
            promos.map_values(|p: Option<Piece>| Move { from, to: (n - 1) as u8, promotion: p })
        } else {
            Seq::empty()
        };
        assert(all_real(tail));
        lemma_concat_on_board(fan(from, bb, (n - 1) as nat, promos), tail);
    }
}

proof fn lemma_and_lacks(a: u64, x: u64, s: u8)
    requires
        s < 64,
        !bb_has(a, s as int),
    ensures
        !bb_has(a & x, s as int),
{
    let su = s as u64;
    assert(a & (1u64 << su) == 0 ==> (a & x) & (1u64 << su) == 0) by (bit_vector);
}

proof fn lemma_gen_on_board(es: Seq<PieceMoves>, kind: int, opp: u64, ep: Option<int>)
    requires
        report_wf(es),
    ensures
        all_real(gen_list(es, kind, opp, ep)),
    decreases es.len(),
{
    if es.len() > 0 {
        let e = es.last();
        assert(e == es[es.len() - 1]);
        assert(report_wf(es.drop_last()));
        lemma_gen_on_board(es.drop_last(), kind, opp, ep);
        let tgt = capture_targets(e, opp, ep);
        lemma_and_lacks(e.2, opp, e.1);
        lemma_and_lacks(e.2, !opp, e.1);
        lemma_and_lacks(e.2, tgt, e.1);
        lemma_and_lacks(e.2, !tgt, e.1);
        lemma_fan_on_board(e.1, e.2 & opp, 64, capture_promos());
        lemma_fan_on_board(e.1, e.2 & !opp, 64, seq![Some(Piece::Queen)]);
        lemma_fan_on_board(e.1, e.2 & tgt, 64, seq![None]);
        lemma_fan_on_board(e.1, e.2 & !opp, 64, quiet_promos());
        lemma_fan_on_board(e.1, e.2 & !tgt, 64, seq![None]);
        lemma_concat_on_board(fan(e.1, e.2 & opp, 64, capture_promos()), fan(e.1, e.2 & !opp, 64, seq![Some(Piece::Queen)]));
        lemma_concat_on_board(gen_list(es.drop_last(), kind, opp, ep), gen_entry(e, kind, opp, ep));
    }
}

proof fn lemma_report_on_board(r: Option<Seq<PieceMoves>>, kind: int, opp: u64, ep: Option<int>)
    requires
        r matches Some(es) ==> report_wf(es),
    ensures
        all_real(gen_report(r, kind, opp, ep)),
{
    if let Some(es) = r {
        lemma_gen_on_board(es, kind, opp, ep);
    }
}

// ---------------------------------------------------------------------------------------------
// scores

/// The capture history of a move; a move from an empty square counts zero.
pub open spec fn capture_hist(pos: Position, h: Heuristic, m: Move) -> int {
    if movable(pos, m) {
        h.capture_history@[capture_idx_of(pos, m)]@
    } else {
        0
    }
}

/// A capture's score: its capture history, twice the captured piece's value, and ten
/// thousand more for a promotion.
pub open spec fn capture_score(pos: Position, h: Heuristic, m: Move) -> int {
    capture_hist(pos, h, m) + MVV_MULTIPLIER * PIECE_VALUE[piece_index(captured_spec(pos, m))]
        + (if m.promotion is Some { 10000int } else { 0int })
}

/// A quiet move's score: the top two scores for the ply's killer moves, else its history.
pub open spec fn quiet_score(pos: Position, h: Heuristic, ply: int, m: Move) -> int {
    if m == h.killer_moves@[ply][0] {
        i32::MAX as int
    } else if m == h.killer_moves@[ply][1] {
        i32::MAX - 1
    } else {
        h.main_history@[main_idx_of(color_index(pos.side_to_move), m)]@
    }
}

pub open spec fn move_score(pos: Position, h: Heuristic, ply: int, quiet: bool, m: Move) -> int {
    if quiet { quiet_score(pos, h, ply, m) } else { capture_score(pos, h, m) }
}

fn score_of(pos: &Position, h: &Heuristic, ply: i8, quiet: bool, m: Move) -> (r: i32)
    requires
        pos.wf(),
        h.wf(),
        0 <= ply < 64,
        move_on_board(m),
    ensures
        r == move_score(*pos, *h, ply as int, quiet, m),
{
    if quiet {
        let killers = h.get_killers(ply);
        if m == killers[0] {
            i32::MAX
        } else if m == killers[1] {
            i32::MAX - 1
        } else {
            h.get_main_history(pos, m).get() as i32
        }
    } else {
        let hist: i32 = match pos.color_piece_on(m.from) {
            Some(_) => h.get_capture_history(pos, m).get() as i32,
            None => 0,
        };
        proof {
            assert(h.capture_history@[capture_idx_of(*pos, m)].wf());
        }
        let mut score = hist + MVV_MULTIPLIER as i32 * PIECE_VALUE[pos.get_captured(m).index()] as i32;
        if m.promotion.is_some() {
            score += 10000;
        }
        score
    }
}

/// Drops every copy of `pv` from the list from `start` on (moving the last entry into each
/// gap) and scores the rest.
fn score_from(
    list: &mut ArrayVec<ScoredMove, 218>,
    start: usize,
    pv: Move,
    pos: &Position,
    h: &Heuristic,
    ply: i8,
    quiet: bool,
)
    requires
        pos.wf(),
        h.wf(),
        0 <= ply < 64,
        start <= scored_items(*old(list)).len(),
        all_real(moves_of(scored_items(*old(list)))),
    ensures
        scored_items(*final(list)).len() <= scored_items(*old(list)).len(),
        start <= scored_items(*final(list)).len(),
        scored_items(*final(list)).subrange(0, start as int) == scored_items(*old(list)).subrange(0, start as int),
        all_real(moves_of(scored_items(*final(list)))),
        ms_range(moves_of(scored_items(*final(list))), start as int, scored_items(*final(list)).len() as int)
            == ms_range(moves_of(scored_items(*old(list))), start as int, scored_items(*old(list)).len() as int).update(pv, 0),
        forall|k: int| start <= k < scored_items(*final(list)).len() ==> (#[trigger] scored_items(*final(list))[k]).inner != pv
            && scored_items(*final(list))[k].score == move_score(*pos, *h, ply as int, quiet, scored_items(*final(list))[k].inner),
{
    broadcast use vstd::multiset::group_multiset_axioms;
    broadcast use vstd::multiset::group_multiset_properties;
    let ghost old_items = scored_items(*list);
    let ghost target = ms_range(moves_of(old_items), start as int, old_items.len() as int).update(pv, 0);
    let mut i = start;
    proof {
        let it = moves_of(old_items);
        lemma_ms_empty(it.subrange(start as int, start as int));
        assert(ms_range(it, start as int, start as int).add(ms_range(it, start as int, it.len() as int).update(pv, 0)) =~= target);
    }
    while i < scored_len(list)
        invariant
            pos.wf(),
            h.wf(),
            0 <= ply < 64,
            start <= i <= scored_items(*list).len(),
            scored_items(*list).len() <= old_items.len(),
            scored_items(*list).subrange(0, start as int) == old_items.subrange(0, start as int),
            all_real(moves_of(scored_items(*list))),
            ms_range(moves_of(scored_items(*list)), start as int, i as int).add(
                ms_range(moves_of(scored_items(*list)), i as int, scored_items(*list).len() as int).update(pv, 0),
            ) == target,
            forall|k: int| start <= k < i ==> (#[trigger] scored_items(*list)[k]).inner != pv
                && scored_items(*list)[k].score == move_score(*pos, *h, ply as int, quiet, scored_items(*list)[k].inner),
        decreases scored_items(*list).len() - i,
    {
        let ghost before = scored_items(*list);
        let ghost it = moves_of(before);
        let n = scored_len(list);
        let sm = scored_get(list, i);
        assert(it[i as int] == sm.inner);
        if sm.inner == pv {
            scored_swap_remove(list, i);
            let ghost after = scored_items(*list);
            proof {
                let it2 = moves_of(after);
                assert(it2 =~= it.update(i as int, it.last()).drop_last());
                lemma_ms_swap_remove(it, i as int);
                lemma_ms_same(it, it2, start as int, i as int);
                assert(after.len() == before.len() - 1);
                assert(ms_range(it2, i as int, after.len() as int) == ms_range(it, i as int, before.len() as int).remove(pv));
                lemma_update_remove(ms_range(it, i as int, before.len() as int), pv);
                assert(ms_range(it2, i as int, after.len() as int).update(pv, 0) =~= ms_range(it, i as int, before.len() as int).update(pv, 0));
                assert(after.subrange(0, start as int) =~= before.subrange(0, start as int));
                assert forall|k: int| 0 <= k < it2.len() implies real_move(#[trigger] it2[k]) by {
                    if k == i { assert(it2[k] == it[it.len() - 1]); } else { assert(it2[k] == it[k]); }
                }
                assert forall|k: int| start <= k < i implies (#[trigger] after[k]).inner != pv
                    && after[k].score == move_score(*pos, *h, ply as int, quiet, after[k].inner) by {
                    assert(after[k] == before[k]);
                }
            }
        } else {
            let score = score_of(pos, h, ply, quiet, sm.inner);
            scored_set_score(list, i, score);
            let ghost after = scored_items(*list);
            proof {
                let it2 = moves_of(after);
                assert(it2 =~= it);
                lemma_ms_split(it, start as int, i as int, i as int + 1);
                lemma_ms_first(it, i as int, before.len() as int);
                assert(it.subrange(i as int, i as int + 1) =~= Seq::<Move>::empty().push(it[i as int]));
                lemma_ms_first(it, i as int, i as int + 1);
                lemma_ms_empty(it.subrange(i as int + 1, i as int + 1));
                let a = ms_range(it, start as int, i as int);
                let b = ms_range(it, i as int + 1, before.len() as int);
                let x = it[i as int];
                assert(x != pv);
                assert(ms_range(it, start as int, i as int + 1) == a.insert(x));
                assert(ms_range(it, i as int, before.len() as int) == b.insert(x));
                lemma_shift(a, b, x, pv);
                assert(ms_range(it, start as int, i as int + 1).add(ms_range(it, i as int + 1, before.len() as int).update(pv, 0))
                    =~= ms_range(it, start as int, i as int).add(ms_range(it, i as int, before.len() as int).update(pv, 0)));
                assert(after.subrange(0, start as int) =~= before.subrange(0, start as int));
                assert forall|k: int| start <= k < i + 1 implies (#[trigger] after[k]).inner != pv
                    && after[k].score == move_score(*pos, *h, ply as int, quiet, after[k].inner) by {
                    if k < i { assert(after[k] == before[k]); }
                }
            }
            i += 1;
        }
    }
    proof {
        let it = moves_of(scored_items(*list));
        lemma_ms_empty(it.subrange(i as int, i as int));
        assert(ms_range(it, i as int, i as int).update(pv, 0) =~= Multiset::<Move>::empty());
        assert(ms_range(it, start as int, i as int).add(Multiset::<Move>::empty()) =~= ms_range(it, start as int, i as int));
    }
}

// ---------------------------------------------------------------------------------------------
// the picker

/// What the picker lists: the captures, capped at the list's capacity, without the hash move.
pub open spec fn caps_listed(pos: Position, pv: Move) -> Multiset<Move> {
    capped(capture_moves(pos), 218).to_multiset().update(pv, 0)
}

/// The quiet moves the picker lists after the captures: as many as the list has room for,
/// without the hash move.
pub open spec fn quiets_listed(pos: Position, pv: Move) -> Multiset<Move> {
    capped(quiet_moves(pos), (218 - caps_listed(pos, pv).len()) as nat).to_multiset().update(pv, 0)
}

/// The hash move, counted once when it is not "no move".
pub open spec fn pv_once(pv: Move) -> Multiset<Move> {
    if pv == null_move_spec() {
        Multiset::empty()
    } else {
        Multiset::singleton(pv)
    }
}

/// The stages of the picker. The first group serves the main search, the `Q` group the
/// quiescence search and the `E` group the quiescence search when in check.
#[derive(Clone, Copy, Debug, PartialEq, Eq, Structural)]
pub enum Stage {
    Pv,
    CaptureInit,
    GoodCapture,
    QuietInit,
    GoodQuiet,
    BadCapture,
    BadQuiet,
    QPv,
    QCaptureInit,
    QCapture,
    EPv,
    ECaptureInit,
    ECapture,
    EQuietInit,
    EQuiet,
}

/// Stages left before the last one of the group.
pub open spec fn stage_rank(s: Stage) -> int {
    match s {
        Stage::Pv => 6,
        Stage::CaptureInit => 5,
        Stage::GoodCapture => 4,
        Stage::QuietInit => 3,
        Stage::GoodQuiet => 2,
        Stage::BadCapture => 1,
        Stage::BadQuiet => 0,
        Stage::QPv => 2,
        Stage::QCaptureInit => 1,
        Stage::QCapture => 0,
        Stage::EPv => 4,
        Stage::ECaptureInit => 3,
        Stage::ECapture => 2,
        Stage::EQuietInit => 1,
        Stage::EQuiet => 0,
    }
}

/// The group of a stage: 0 for the main search, 1 for the quiescence search, 2 for the
/// quiescence search in check.
pub open spec fn stage_group(s: Stage) -> int {
    match s {
        Stage::QPv | Stage::QCaptureInit | Stage::QCapture => 1,
        Stage::EPv | Stage::ECaptureInit | Stage::ECapture | Stage::EQuietInit | Stage::EQuiet => 2,
        _ => 0,
    }
}

/// Whether a stage hands out listed entries, best score first.
pub open spec fn scored_stage(s: Stage) -> bool {
    match s {
        Stage::GoodCapture | Stage::GoodQuiet | Stage::BadCapture | Stage::BadQuiet | Stage::QCapture
        | Stage::ECapture | Stage::EQuiet => true,
        _ => false,
    }
}

/// Whether a stage hands out quiet moves, scored as quiet moves; the other scored stages
/// hand out captures, scored as captures.
pub open spec fn quiet_stage(s: Stage) -> bool {
    s == Stage::GoodQuiet || s == Stage::BadQuiet || s == Stage::EQuiet
}

/// Whether the list entry at `k` is a quiet move, given the stage and where the captures end.
pub open spec fn slot_quiet(s: Stage, captures_end: int, k: int) -> bool {
    (s == Stage::GoodQuiet || s == Stage::BadCapture || s == Stage::BadQuiet || s == Stage::EQuiet)
        && k >= captures_end
}

/// Hands out the moves of a position one at a time.
pub struct Movepick<'a> {
    pos: Position,
    pv: Move,
    ply: i8,
    heuristic: &'a Heuristic,
    moves: ArrayVec<ScoredMove, 218>,
    ptr: usize,
    stage: Stage,
    captures_end: usize,
    bad_capture_len: usize,
    bad_quiet_len: usize,
    returned: Ghost<Seq<Move>>,
}

impl<'a> Movepick<'a> {
    pub closed spec fn position(&self) -> Position {
        self.pos
    }

    pub closed spec fn pv_move(&self) -> Move {
        self.pv
    }

    pub closed spec fn ply_spec(&self) -> int {
        self.ply as int
    }

    pub closed spec fn heuristic_spec(&self) -> Heuristic {
        *self.heuristic
    }

    /// The moves handed out so far, in order.
    pub closed spec fn returned(&self) -> Seq<Move> {
        self.returned@
    }

    /// The stage the picker is in.
    pub closed spec fn stage_spec(&self) -> Stage {
        self.stage
    }

    /// The listed entries of the current stage still to be handed out, with their scores.
    pub closed spec fn stage_rest(&self) -> Seq<ScoredMove> {
        let items = scored_items(self.moves);
        let p = self.ptr as int;
        match self.stage {
            Stage::GoodCapture | Stage::QCapture | Stage::ECapture | Stage::GoodQuiet | Stage::EQuiet =>
                items.subrange(p, items.len() as int),
            Stage::BadCapture => items.subrange(p, self.bad_capture_len as int),
            Stage::BadQuiet => items.subrange(p, (self.captures_end + self.bad_quiet_len) as int),
            _ => Seq::empty(),
        }
    }

    /// Every listed entry carries the score of its kind: capture scores before the end of the
    /// captures, quiet scores after it once the quiet moves are listed.
    closed spec fn scores_ok(&self) -> bool {
        forall|k: int| 0 <= k < scored_items(self.moves).len() ==> (#[trigger] scored_items(self.moves)[k]).score
            == move_score(self.pos, *self.heuristic, self.ply as int, slot_quiet(self.stage, self.captures_end as int, k),
            scored_items(self.moves)[k].inner)
    }

    /// Whether this picker serves the quiescence search out of check.
    pub closed spec fn in_qsearch(&self) -> bool {
        self.stage == Stage::QPv || self.stage == Stage::QCaptureInit || self.stage == Stage::QCapture
    }

    /// Everything has been handed out: further calls give "no move".
    pub closed spec fn exhausted(&self) -> bool {
        let n = scored_items(self.moves).len();
        ||| self.stage == Stage::BadQuiet && self.ptr >= self.captures_end + self.bad_quiet_len
        ||| self.stage == Stage::QCapture && self.ptr >= n
        ||| self.stage == Stage::EQuiet && self.ptr >= n
    }

    closed spec fn it(&self) -> Seq<Move> {
        moves_of(scored_items(self.moves))
    }

    /// Whether the picker has listed its captures.
    closed spec fn listed(&self) -> bool {
        !(self.pv_stage() || self.stage == Stage::CaptureInit || self.stage == Stage::QCaptureInit
            || self.stage == Stage::ECaptureInit)
    }

    closed spec fn pv_stage(&self) -> bool {
        self.stage == Stage::Pv || self.stage == Stage::QPv || self.stage == Stage::EPv
    }

    closed spec fn pv_part(&self) -> Multiset<Move> {
        if self.pv_stage() { Multiset::empty() } else { pv_once(self.pv) }
    }

    /// The moves still to be handed out.
    closed spec fn pending(&self) -> Multiset<Move> {
        let it = self.it();
        let n = it.len() as int;
        let ce = self.captures_end as int;
        let bq = self.bad_quiet_len as int;
        let p = self.ptr as int;
        match self.stage {
            Stage::GoodCapture | Stage::QCapture | Stage::ECapture | Stage::EQuiet => ms_range(it, p, n),
            Stage::GoodQuiet => ms_range(it, ce, ce + bq).add(ms_range(it, p, n)),
            Stage::BadCapture => ms_range(it, ce, ce + bq).add(ms_range(it, p, self.bad_capture_len as int)),
            Stage::BadQuiet => ms_range(it, p, ce + bq),
            _ => Multiset::empty(),
        }
    }

    closed spec fn stage_ok(&self) -> bool {
        let n = scored_items(self.moves).len();
        let ce = self.captures_end;
        let bq = self.bad_quiet_len;
        let p = self.ptr;
        let listed = self.it().to_multiset();
        let caps = caps_listed(self.pos, self.pv);
        let all = caps.add(quiets_listed(self.pos, self.pv));
        match self.stage {
            Stage::Pv | Stage::QPv | Stage::EPv => n == 0 && self.returned@.len() == 0 && ce == 0 && bq == 0
                && self.bad_capture_len == 0,
            Stage::CaptureInit | Stage::QCaptureInit | Stage::ECaptureInit => n == 0 && ce == 0 && bq == 0
                && self.bad_capture_len == 0,
            Stage::GoodCapture | Stage::ECapture => ce == n && p <= n && bq == 0 && self.bad_capture_len == 0
                && listed == caps,
            Stage::QCapture => p <= n && listed == caps,
            Stage::QuietInit | Stage::EQuietInit => ce == n && p == n && bq == 0 && self.bad_capture_len == 0
                && listed == caps,
            Stage::GoodQuiet => ce + bq <= p <= n && self.bad_capture_len == 0 && listed == all,
            Stage::BadCapture => p <= self.bad_capture_len <= ce && ce + bq <= n && listed == all,
            Stage::BadQuiet => ce <= p <= ce + bq <= n && listed == all,
            Stage::EQuiet => ce <= p <= n && listed == all,
        }
    }

    /// The picker's invariant: the position and tables are well formed; the list holds moves
    /// on the board and never the hash move; and what was handed out together with what is
    /// still pending is exactly what was listed, plus the hash move once it was handed out.
    pub closed spec fn wf(&self) -> bool {
        &&& self.pos.wf()
        &&& self.heuristic.wf()
        &&& 0 <= self.ply < 64
        &&& scored_items(self.moves).len() <= 218
        &&& all_real(self.it())
        &&& forall|k: int| 0 <= k < self.it().len() ==> #[trigger] self.it()[k] != self.pv
        &&& self.stage_ok()
        &&& self.scores_ok()
        &&& (self.listed() ==> reports_ok(self.pos))
        &&& self.returned@.to_multiset().add(self.pending()) == self.it().to_multiset().add(self.pv_part())
        &&& (!self.pv_stage() && self.pv != null_move_spec() ==> self.returned@.len() > 0)
    }

    /// A picker for the main search: the hash move `pv` first (unless it is "no move"), then
    /// the captures best first, then the quiet moves best first, then the badly scored quiets.
    pub fn new_negamax(pos: Position, pv: Move, ply: i8, heuristic: &'a Heuristic) -> (r: Self)
        requires
            pos.wf(),
            heuristic.wf(),
            0 <= ply < 64,
        ensures
            r.wf(),
            r.position() == pos,
            r.pv_move() == pv,
            r.ply_spec() == ply,
            r.heuristic_spec() == *heuristic,
            r.returned() == Seq::<Move>::empty(),
            !r.in_qsearch(),
            !r.exhausted(),
    {
        let r = Movepick {
            pos,
            pv,
            ply,
            heuristic,
            moves: scored_new(),
            ptr: 0,
            stage: Stage::Pv,
            captures_end: 0,
            bad_capture_len: 0,
            bad_quiet_len: 0,
            returned: Ghost(Seq::empty()),
        };
        proof { r.lemma_fresh(); }
        r
    }

    /// A picker for the quiescence search: the hash move, then the captures; when `in_check`,
    /// the quiet moves after them too.
    pub fn new_qsearch(pos: Position, pv: Move, ply: i8, heuristic: &'a Heuristic, in_check: bool) -> (r: Self)
        requires
            pos.wf(),
            heuristic.wf(),
            0 <= ply < 64,
        ensures
            r.wf(),
            r.position() == pos,
            r.pv_move() == pv,
            r.ply_spec() == ply,
            r.heuristic_spec() == *heuristic,
            r.returned() == Seq::<Move>::empty(),
            r.in_qsearch() == !in_check,
            !r.exhausted(),
    {
        let r = Movepick {
            pos,
            pv,
            ply,
            heuristic,
            moves: scored_new(),
            ptr: 0,
            stage: if in_check { Stage::EPv } else { Stage::QPv },
            captures_end: 0,
            bad_capture_len: 0,
            bad_quiet_len: 0,
            returned: Ghost(Seq::empty()),
        };
        proof { r.lemma_fresh(); }
        r
    }

    proof fn lemma_fresh(&self)
        requires
            self.pv_stage(),
            self.pos.wf(),
            self.heuristic.wf(),
            0 <= self.ply < 64,
            scored_items(self.moves) == Seq::<ScoredMove>::empty(),
            self.returned@ == Seq::<Move>::empty(),
            self.ptr == 0,
            self.captures_end == 0,
            self.bad_capture_len == 0,
            self.bad_quiet_len == 0,
        ensures
            self.wf(),
    {
        broadcast use vstd::multiset::group_multiset_axioms;
        lemma_ms_empty(self.it());
        lemma_ms_empty(self.returned@);
        assert(self.returned@.to_multiset().add(self.pending()) =~= self.it().to_multiset().add(self.pv_part()));
    }
}


/// What a pick is still to hand out: the entries from `ptr` to `end`, and with `split_bad`
/// the entries set aside so far.
spec fn pick_region(it: Seq<Move>, ptr: int, end: int, ce: int, bq: int, split_bad: bool) -> Multiset<Move> {
    (if split_bad { ms_range(it, ce, ce + bq) } else { Multiset::empty() }).add(ms_range(it, ptr, end))
}

/// Swapping keeps the multiset of a whole sequence.
proof fn lemma_swap_whole(s: Seq<Move>, i: int, j: int)
    requires
        0 <= i < s.len(),
        0 <= j < s.len(),
    ensures
        swapped(s, i, j).to_multiset() == s.to_multiset(),
{
    lemma_ms_swap(s, i, j, 0, s.len() as int);
    assert(s.subrange(0, s.len() as int) =~= s);
    assert(swapped(s, i, j).subrange(0, s.len() as int) =~= swapped(s, i, j));
}

/// Handing out `m` moves it from the pending moves to the returned ones.
proof fn lemma_hand_out(ret: Seq<Move>, pend_new: Multiset<Move>, pend_old: Multiset<Move>, total: Multiset<Move>, m: Move)
    requires
        pend_new.insert(m) == pend_old,
        ret.to_multiset().add(pend_old) == total,
    ensures
        ret.push(m).to_multiset().add(pend_new) == total,
{
    broadcast use vstd::multiset::group_multiset_axioms;
    vstd::seq_lib::to_multiset_build(ret, m);
    assert(ret.push(m).to_multiset().add(pend_new) =~= ret.to_multiset().add(pend_new.insert(m)));
}

/// Swapping two entries keeps every entry on the board and different from `pv`.
proof fn lemma_swap_keeps(it: Seq<Move>, i: int, j: int, pv: Move)
    requires
        0 <= i < it.len(),
        0 <= j < it.len(),
        all_real(it),
        forall|k: int| 0 <= k < it.len() ==> #[trigger] it[k] != pv,
    ensures
        all_real(swapped(it, i, j)),
        forall|k: int| 0 <= k < it.len() ==> #[trigger] swapped(it, i, j)[k] != pv,
{
    assert forall|k: int| 0 <= k < it.len() implies real_move(#[trigger] swapped(it, i, j)[k]) && swapped(it, i, j)[k] != pv by {
        if k == j {
            assert(swapped(it, i, j)[k] == it[i]);
        } else if k == i {
            assert(swapped(it, i, j)[k] == it[j]);
        } else {
            assert(swapped(it, i, j)[k] == it[k]);
        }
    }
}

impl<'a> Movepick<'a> {
    /// Moves the best scored entry of `[ptr, end)` to `ptr` and hands it out. With
    /// `split_bad`, an entry scoring below `BAD_QUIET_SCORE` is set aside instead, after the
    /// ones set aside before it, and the search goes on. When nothing is left to hand out, the
    /// result is "no move" (no listed entry is one).
    fn pick(&mut self, end: usize, split_bad: bool, Ghost(q): Ghost<bool>) -> (r: ScoredMove)
        requires
            old(self).ptr <= end <= scored_items(old(self).moves).len() <= 218,
            split_bad ==> old(self).captures_end + old(self).bad_quiet_len <= old(self).ptr,
            all_real(old(self).it()),
            forall|k: int| 0 <= k < old(self).it().len() ==> #[trigger] old(self).it()[k] != old(self).pv,
            forall|k: int| (if split_bad { old(self).captures_end + old(self).bad_quiet_len } else { old(self).ptr as int }) <= k < end
                ==> (#[trigger] scored_items(old(self).moves)[k]).score == move_score(old(self).pos, *old(self).heuristic,
                old(self).ply as int, q, scored_items(old(self).moves)[k].inner),
        ensures
            forall|k: int| (if split_bad { old(self).captures_end + old(self).bad_quiet_len } else { old(self).ptr as int }) <= k < end
                ==> (#[trigger] scored_items(final(self).moves)[k]).score == move_score(old(self).pos, *old(self).heuristic,
                old(self).ply as int, q, scored_items(final(self).moves)[k].inner),
            !split_bad && old(self).ptr < end ==> r.inner != null_move_spec(),
            r.inner != null_move_spec() ==> {
                &&& final(self).ptr == old(self).ptr + 1
                &&& final(self).bad_quiet_len == old(self).bad_quiet_len
                &&& r.score == move_score(old(self).pos, *old(self).heuristic, old(self).ply as int, q, r.inner)
                &&& forall|k: int| old(self).ptr <= k < end ==> (#[trigger] scored_items(old(self).moves)[k]).score <= r.score
                &&& split_bad ==> r.score >= BAD_QUIET_SCORE as i32
                &&& exists|j: int| old(self).ptr <= j < end && r == #[trigger] scored_items(old(self).moves)[j]
            },
            final(self).pos == old(self).pos,
            final(self).pv == old(self).pv,
            final(self).ply == old(self).ply,
            final(self).heuristic == old(self).heuristic,
            final(self).stage == old(self).stage,
            final(self).captures_end == old(self).captures_end,
            final(self).bad_capture_len == old(self).bad_capture_len,
            final(self).returned == old(self).returned,
            scored_items(final(self).moves).len() == scored_items(old(self).moves).len(),
            final(self).it().to_multiset() == old(self).it().to_multiset(),
            all_real(final(self).it()),
            forall|k: int| 0 <= k < final(self).it().len() ==> #[trigger] final(self).it()[k] != final(self).pv,
            old(self).ptr <= final(self).ptr <= end,
            split_bad ==> old(self).bad_quiet_len <= final(self).bad_quiet_len && final(self).captures_end
                + final(self).bad_quiet_len <= final(self).ptr,
            !split_bad ==> final(self).bad_quiet_len == old(self).bad_quiet_len,
            forall|k: int| 0 <= k < (if split_bad { old(self).captures_end + old(self).bad_quiet_len } else { old(self).ptr as int })
                ==> #[trigger] scored_items(final(self).moves)[k] == scored_items(old(self).moves)[k],
            forall|k: int| end <= k < scored_items(old(self).moves).len()
                ==> #[trigger] scored_items(final(self).moves)[k] == scored_items(old(self).moves)[k],
            r.inner != null_move_spec() ==> {
                &&& final(self).ptr >= old(self).ptr + 1
                &&& r == scored_items(final(self).moves)[final(self).ptr - 1]
                &&& pick_region(final(self).it(), final(self).ptr as int, end as int, final(self).captures_end as int,
                    final(self).bad_quiet_len as int, split_bad).insert(r.inner)
                    == pick_region(old(self).it(), old(self).ptr as int, end as int, old(self).captures_end as int,
                    old(self).bad_quiet_len as int, split_bad)
                &&& forall|k: int| final(self).ptr <= k < end ==> (#[trigger] scored_items(final(self).moves)[k]).score <= r.score
            },
            r.inner == null_move_spec() ==> {
                &&& r == (ScoredMove { inner: null_move_spec(), score: 0 })
                &&& final(self).ptr == end
                &&& pick_region(final(self).it(), final(self).ptr as int, end as int, final(self).captures_end as int,
                    final(self).bad_quiet_len as int, split_bad)
                    == pick_region(old(self).it(), old(self).ptr as int, end as int, old(self).captures_end as int,
                    old(self).bad_quiet_len as int, split_bad)
            },
    {
        broadcast use vstd::multiset::group_multiset_axioms;
        let ghost lo: int = if split_bad { old(self).captures_end + old(self).bad_quiet_len } else { old(self).ptr as int };
        let ghost old_items = scored_items(self.moves);
        let ghost target = pick_region(self.it(), self.ptr as int, end as int, self.captures_end as int, self.bad_quiet_len as int, split_bad);
        while self.ptr < end
            invariant
                self.pos == old(self).pos,
                self.pv == old(self).pv,
                self.ply == old(self).ply,
                self.heuristic == old(self).heuristic,
                self.stage == old(self).stage,
                self.captures_end == old(self).captures_end,
                self.bad_capture_len == old(self).bad_capture_len,
                self.returned == old(self).returned,
                scored_items(self.moves).len() == old_items.len(),
                old_items == scored_items(old(self).moves),
                self.it().to_multiset() == old(self).it().to_multiset(),
                target == pick_region(old(self).it(), old(self).ptr as int, end as int, old(self).captures_end as int,
                    old(self).bad_quiet_len as int, split_bad),
                old_items.len() <= 218,
                end <= old_items.len(),
                all_real(self.it()),
                forall|k: int| 0 <= k < self.it().len() ==> #[trigger] self.it()[k] != self.pv,
                old(self).ptr <= self.ptr <= end,
                split_bad ==> old(self).bad_quiet_len <= self.bad_quiet_len && self.captures_end + self.bad_quiet_len <= self.ptr,
                !split_bad ==> self.bad_quiet_len == old(self).bad_quiet_len,
                lo == (if split_bad { old(self).captures_end + old(self).bad_quiet_len } else { old(self).ptr as int }),
                forall|k: int| 0 <= k < lo ==> #[trigger] scored_items(self.moves)[k] == old_items[k],
                forall|k: int| end <= k < old_items.len() ==> #[trigger] scored_items(self.moves)[k] == old_items[k],
                pick_region(self.it(), self.ptr as int, end as int, self.captures_end as int, self.bad_quiet_len as int, split_bad) == target,
                forall|k: int| lo <= k < end ==> (#[trigger] scored_items(self.moves)[k]).score == move_score(self.pos,
                    *self.heuristic, self.ply as int, q, scored_items(self.moves)[k].inner),
                self.ptr == old(self).ptr ==> scored_items(self.moves) == old_items,
                self.ptr == old(self).ptr ==> self.bad_quiet_len == old(self).bad_quiet_len,
                !split_bad ==> self.ptr == old(self).ptr,
                split_bad && self.ptr > old(self).ptr ==> forall|k: int| self.ptr <= k < end
                    ==> (#[trigger] scored_items(self.moves)[k]).score < BAD_QUIET_SCORE as i32,
            decreases end - self.ptr,
        {
            let p = self.ptr;
            let mut best_i = p;
            let mut best = scored_get(&self.moves, p);
            let mut i = p + 1;
            while i < end
                invariant
                    p <= best_i < i <= end,
                    end <= scored_items(self.moves).len(),
                    best == scored_items(self.moves)[best_i as int],
                    forall|k: int| p <= k < i ==> (#[trigger] scored_items(self.moves)[k]).score <= best.score,
                decreases end - i,
            {
                let m = scored_get(&self.moves, i);
                if m.score > best.score {
                    best_i = i;
                    best = m;
                }
                i += 1;
            }
            let ghost it0 = self.it();
            let ghost items0 = scored_items(self.moves);
            scored_swap(&mut self.moves, p, best_i);
            proof {
                assert(self.it() =~= swapped(it0, p as int, best_i as int));
                lemma_swap_keeps(it0, p as int, best_i as int, self.pv);
                lemma_swap_whole(it0, p as int, best_i as int);
                lemma_ms_swap(it0, p as int, best_i as int, p as int, end as int);
                let ce = self.captures_end as int;
                let bq = self.bad_quiet_len as int;
                if split_bad {
                    lemma_ms_same(it0, self.it(), ce, ce + bq);
                }
                assert(pick_region(self.it(), p as int, end as int, ce, bq, split_bad) == target);
                assert(scored_items(self.moves).len() == old_items.len());
                assert forall|k: int| 0 <= k < lo implies #[trigger] scored_items(self.moves)[k] == old_items[k] by {
                    assert(scored_items(self.moves)[k] == items0[k]);
                }
                assert forall|k: int| end <= k < old_items.len() implies #[trigger] scored_items(self.moves)[k] == old_items[k] by {
                    assert(scored_items(self.moves)[k] == items0[k]);
                }
                assert forall|k: int| p < k < end implies (#[trigger] scored_items(self.moves)[k]).score <= best.score by {
                    if k == best_i { assert(scored_items(self.moves)[k] == items0[p as int]); }
                    else { assert(scored_items(self.moves)[k] == items0[k]); }
                }
                assert forall|k: int| lo <= k < end implies (#[trigger] scored_items(self.moves)[k]).score == move_score(self.pos,
                    *self.heuristic, self.ply as int, q, scored_items(self.moves)[k].inner) by {
                    if k == best_i { assert(scored_items(self.moves)[k] == items0[p as int]); }
                    else if k == p { assert(scored_items(self.moves)[k] == items0[best_i as int]); }
                    else { assert(scored_items(self.moves)[k] == items0[k]); }
                }
                if self.ptr == old(self).ptr {
                    assert forall|k: int| old(self).ptr <= k < end implies (#[trigger] old_items[k]).score <= best.score by {
                        assert(old_items[k] == items0[k]);
                    }
                }
                if split_bad && p > old(self).ptr {
                    assert(items0[best_i as int].score < BAD_QUIET_SCORE as i32);
                }
            }
            let cur = scored_get(&self.moves, p);
            assert(cur == best);
            if split_bad && cur.score < BAD_QUIET_SCORE as i32 {
                let ghost items_pre = scored_items(self.moves);
                let dst = self.captures_end + self.bad_quiet_len;
                let ghost it1 = self.it();
                let ghost ce = self.captures_end as int;
                let ghost bq = self.bad_quiet_len as int;
                scored_swap(&mut self.moves, dst, p);
                self.bad_quiet_len = self.bad_quiet_len + 1;
                self.ptr = p + 1;
                proof {
                    let it2 = self.it();
                    assert(it2 =~= swapped(it1, dst as int, p as int));
                    lemma_swap_keeps(it1, dst as int, p as int, self.pv);
                    lemma_swap_whole(it1, dst as int, p as int);
                    let items1 = scored_items(self.moves);
                    assert forall|k: int| 0 <= k < lo implies #[trigger] scored_items(self.moves)[k] == old_items[k] by {
                        assert(k < dst);
                    }
                    assert forall|k: int| end <= k < old_items.len() implies #[trigger] scored_items(self.moves)[k] == old_items[k] by {
                        assert(k > p);
                    }
                    assert forall|k: int| lo <= k < end implies (#[trigger] items1[k]).score == move_score(self.pos,
                        *self.heuristic, self.ply as int, q, items1[k].inner) by {
                        if k == dst { assert(items1[k] == items_pre[p as int]); }
                        else if k == p { assert(items1[k] == items_pre[dst as int]); }
                        else { assert(items1[k] == items_pre[k]); }
                    }
                    assert forall|k: int| self.ptr <= k < end implies (#[trigger] items1[k]).score < BAD_QUIET_SCORE as i32 by {
                        assert(items1[k] == items_pre[k]);
                    }
                    lemma_ms_same(it1, it2, ce, ce + bq);
                    lemma_ms_same(it1, it2, p as int + 1, end as int);
                    lemma_ms_split(it2, ce, ce + bq, ce + bq + 1);
                    assert(it2.subrange(ce + bq, ce + bq + 1) =~= Seq::<Move>::empty().push(it1[p as int]));
                    lemma_ms_first(it2, ce + bq, ce + bq + 1);
                    lemma_ms_empty(it2.subrange(ce + bq + 1, ce + bq + 1));
                    lemma_ms_first(it1, p as int, end as int);
                    let b = ms_range(it1, ce, ce + bq);
                    let x = ms_range(it1, p as int + 1, end as int);
                    assert(ms_range(it2, ce, ce + bq + 1) =~= b.insert(it1[p as int]));
                    assert(b.insert(it1[p as int]).add(x) =~= b.add(x.insert(it1[p as int])));
                }
            } else {
                self.ptr = p + 1;
                proof {
                    let it1 = self.it();
                    lemma_ms_first(it1, p as int, end as int);
                    let ce = self.captures_end as int;
                    let bq = self.bad_quiet_len as int;
                    let b = if split_bad { ms_range(it1, ce, ce + bq) } else { Multiset::<Move>::empty() };
                    let x = ms_range(it1, p as int + 1, end as int);
                    assert(it1[p as int] == cur.inner);
                    assert(b.add(x).insert(cur.inner) =~= b.add(x.insert(it1[p as int])));
                    assert(ms_range(it1, p as int, end as int) == x.insert(it1[p as int]));
                    assert(pick_region(it1, p as int, end as int, ce, bq, split_bad) == b.add(ms_range(it1, p as int, end as int)));
                    assert(pick_region(it1, p as int + 1, end as int, ce, bq, split_bad) == b.add(x));
                    assert(pick_region(it1, p as int + 1, end as int, ce, bq, split_bad).insert(cur.inner) == target);
                    assert(p == old(self).ptr);
                    assert(old_items[best_i as int] == cur);
                    assert(real_move(it1[p as int]));
                }
                return cur;
            }
        }
        ScoredMove::null()
    }
}


/// Appending to a list of at most the capacity, capped at it: the list stays a prefix and
/// the appended part is the appended sequence capped at the room that was left.
proof fn lemma_capped_split(s: Seq<ScoredMove>, q: Seq<Move>)
    requires
        s.len() <= 218,
    ensures
        capped(s + unscored(q), 218).len() == s.len() + capped(q, (218 - s.len()) as nat).len(),
        capped(s + unscored(q), 218).subrange(0, s.len() as int) == s,
        moves_of(capped(s + unscored(q), 218)).subrange(s.len() as int, capped(s + unscored(q), 218).len() as int)
            == capped(q, (218 - s.len()) as nat),
{
    let r = capped(s + unscored(q), 218);
    let room = (218 - s.len()) as nat;
    if s.len() + q.len() <= 218 {
        assert(r =~= s + unscored(q));
        assert(capped(q, room) =~= q);
    } else {
        assert(r =~= s + unscored(q.take(room as int)));
        assert(capped(q, room) =~= q.take(room as int));
    }
    assert(r.subrange(0, s.len() as int) =~= s);
    assert(moves_of(r).subrange(s.len() as int, r.len() as int) =~= capped(q, room));
}

impl<'a> Movepick<'a> {
    /// Lists the captures (or, with `quiet`, the quiet moves) after the entries already held,
    /// drops the hash move from them and scores them.
    fn list_moves(&mut self, quiet: bool)
        requires
            old(self).pos.wf(),
            old(self).heuristic.wf(),
            0 <= old(self).ply < 64,
            scored_items(old(self).moves).len() <= 218,
            all_real(old(self).it()),
            forall|k: int| 0 <= k < old(self).it().len() ==> #[trigger] old(self).it()[k] != old(self).pv,
        ensures
            final(self).pos == old(self).pos,
            final(self).pv == old(self).pv,
            final(self).ply == old(self).ply,
            final(self).heuristic == old(self).heuristic,
            final(self).stage == old(self).stage,
            final(self).ptr == old(self).ptr,
            final(self).captures_end == old(self).captures_end,
            final(self).bad_capture_len == old(self).bad_capture_len,
            final(self).bad_quiet_len == old(self).bad_quiet_len,
            final(self).returned == old(self).returned,
            scored_items(old(self).moves).len() <= scored_items(final(self).moves).len() <= 218,
            scored_items(final(self).moves).subrange(0, scored_items(old(self).moves).len() as int)
                == scored_items(old(self).moves),
            all_real(final(self).it()),
            forall|k: int| 0 <= k < final(self).it().len() ==> #[trigger] final(self).it()[k] != final(self).pv,
            ms_range(final(self).it(), scored_items(old(self).moves).len() as int, scored_items(final(self).moves).len() as int)
                == capped(
                    if quiet { quiet_moves(old(self).pos) } else { capture_moves(old(self).pos) },
                    (218 - scored_items(old(self).moves).len()) as nat,
                ).to_multiset().update(old(self).pv, 0),
            forall|k: int| scored_items(old(self).moves).len() <= k < scored_items(final(self).moves).len()
                ==> (#[trigger] scored_items(final(self).moves)[k]).score == move_score(old(self).pos, *old(self).heuristic,
                old(self).ply as int, quiet, scored_items(final(self).moves)[k].inner),
            reports_ok(old(self).pos),
    {
        let n0 = scored_len(&self.moves);
        let ghost s0 = scored_items(self.moves);
        let ghost gen = if quiet { quiet_moves(self.pos) } else { capture_moves(self.pos) };
        push_generated(&mut self.moves, &self.pos, quiet);
        let ghost s1 = scored_items(self.moves);
        proof {
            lemma_capped_split(s0, gen);
            let it1 = moves_of(s1);
            assert forall|k: int| 0 <= k < it1.len() implies real_move(#[trigger] it1[k]) by {
                if k < n0 {
                    assert(s1[k] == s0[k]);
                    assert(moves_of(s0)[k] == s0[k].inner);
                } else {
                    assert(it1[k] == it1.subrange(n0 as int, it1.len() as int)[k - n0]);
                    let c = capped(gen, (218 - n0) as nat);
                    assert(it1.subrange(n0 as int, it1.len() as int) == c);
                    assert(c[k - n0] == gen[k - n0]);
                }
            }
        }
        score_from(&mut self.moves, n0, self.pv, &self.pos, self.heuristic, self.ply, quiet);
        proof {
            let s2 = scored_items(self.moves);
            let it2 = moves_of(s2);
            assert(s2.subrange(0, n0 as int) =~= s0);
            assert forall|k: int| 0 <= k < it2.len() implies #[trigger] it2[k] != self.pv by {
                if k < n0 {
                    assert(s2[k] == s2.subrange(0, n0 as int)[k]);
                    assert(moves_of(s0)[k] == s0[k].inner);
                } else {
                    assert(s2[k].inner != self.pv);
                }
            }
            assert(moves_of(s1).subrange(n0 as int, s1.len() as int) == capped(gen, (218 - n0) as nat));
        }
    }
}


impl<'a> Movepick<'a> {
    /// What one step of the stage machine guarantees, from `self` to `fin`, returning `r`.
    spec fn step_post(&self, fin: &Self, r: Option<ScoredMove>) -> bool {
        &&& fin.wf()
        &&& fin.pos == self.pos
        &&& fin.pv == self.pv
        &&& fin.ply == self.ply
        &&& fin.heuristic == self.heuristic
        &&& fin.in_qsearch() == self.in_qsearch()
        &&& r is None ==> fin.returned() == self.returned() && stage_rank(fin.stage) < stage_rank(
                self.stage,
            ) && (self.pv_stage() ==> self.pv == null_move_spec()) && !fin.pv_stage()
        &&& r matches Some(m) ==> (m.inner != null_move_spec() && fin.returned() == self.returned().push(m.inner))
                || (m == (ScoredMove { inner: null_move_spec(), score: 0 }) && fin.returned() == self.returned()
                && fin.exhausted())
        &&& stage_group(fin.stage) == stage_group(self.stage)
        &&& stage_rank(fin.stage) <= stage_rank(self.stage)
        &&& self.pv_stage() && self.pv == null_move_spec() ==> r is None
        &&& r matches Some(m) ==> (m.inner != null_move_spec() && !self.pv_stage() ==> {
                &&& scored_stage(fin.stage)
                &&& m.score == move_score(fin.pos, *fin.heuristic, fin.ply as int,
                    quiet_stage(fin.stage), m.inner)
                &&& forall|k: int| 0 <= k < fin.stage_rest().len() ==> (#[trigger] fin.stage_rest()[k]).score <= m.score
                &&& fin.stage == self.stage ==> forall|k: int| 0 <= k < self.stage_rest().len()
                    ==> (#[trigger] self.stage_rest()[k]).score <= m.score
                &&& fin.stage == Stage::GoodQuiet ==> m.score >= BAD_QUIET_SCORE as i32
            })
        &&& self.pv_stage() && self.pv != null_move_spec() ==> r == Some(ScoredMove { inner: self.pv, score: 0 })
                && fin.returned() == self.returned().push(self.pv)
        &&& self.exhausted() ==> r == Some(ScoredMove { inner: null_move_spec(), score: 0 })
                && fin.returned() == self.returned()
    }

    /// The hash move stage: hands out the hash move, if any, and moves on to the captures.
    fn step_pv(&mut self) -> (r: Option<ScoredMove>)
        requires
            old(self).wf(),
            old(self).stage == Stage::Pv || old(self).stage == Stage::QPv || old(self).stage == Stage::EPv,
        ensures
            old(self).step_post(final(self), r),
    {
        broadcast use vstd::multiset::group_multiset_axioms;
        broadcast use vstd::seq_lib::group_to_multiset_ensures;
        self.stage = match self.stage {
            Stage::Pv => Stage::CaptureInit,
            Stage::QPv => Stage::QCaptureInit,
            _ => Stage::ECaptureInit,
        };
        if !self.pv.is_null() {
            self.returned = Ghost(self.returned@.push(self.pv));
            proof {
                lemma_ms_empty(self.it());
                lemma_ms_empty(old(self).returned@);
                assert(self.returned@.to_multiset().add(self.pending()) =~= self.it().to_multiset().add(self.pv_part()));
            }
            return Some(ScoredMove::from_move(self.pv));
        }
        proof {
            lemma_ms_empty(self.it());
            lemma_ms_empty(self.returned@);
            assert(self.returned@.to_multiset().add(self.pending()) =~= self.it().to_multiset().add(self.pv_part()));
        }
        None
    }

    /// Lists and scores the captures.
    fn step_capture_init(&mut self) -> (r: Option<ScoredMove>)
        requires
            old(self).wf(),
            old(self).stage == Stage::CaptureInit || old(self).stage == Stage::QCaptureInit || old(self).stage == Stage::ECaptureInit,
        ensures
            old(self).step_post(final(self), r),
    {
        broadcast use vstd::multiset::group_multiset_axioms;
        broadcast use vstd::seq_lib::group_to_multiset_ensures;
        let ghost ret_ms = self.returned@.to_multiset();
        proof {
            lemma_ms_empty(self.it());
            assert(self.pending() == Multiset::<Move>::empty());
            assert(ret_ms.add(Multiset::<Move>::empty()) =~= ret_ms);
            assert(Multiset::<Move>::empty().add(self.pv_part()) =~= self.pv_part());
            assert(ret_ms =~= self.pv_part());
        }
        self.list_moves(false);
        let n = scored_len(&self.moves);
        self.ptr = 0;
        if self.stage != Stage::QCaptureInit {
            self.captures_end = n;
        }
        self.stage = match self.stage {
            Stage::CaptureInit => Stage::GoodCapture,
            Stage::QCaptureInit => Stage::QCapture,
            _ => Stage::ECapture,
        };
        proof {
            let it = self.it();
            assert(it.subrange(0, n as int) =~= it);
            assert(it.to_multiset() == caps_listed(self.pos, self.pv));
            assert(self.pending() == it.to_multiset());
            assert(self.returned@.to_multiset().add(self.pending()) =~= self.it().to_multiset().add(self.pv_part()));
        }
        None
    }

    /// Hands out the best capture left; moves on to the quiet moves when none is left.
    fn step_captures(&mut self) -> (r: Option<ScoredMove>)
        requires
            old(self).wf(),
            old(self).stage == Stage::GoodCapture || old(self).stage == Stage::ECapture || old(self).stage == Stage::QCapture,
        ensures
            old(self).step_post(final(self), r),
    {
        broadcast use vstd::multiset::group_multiset_axioms;
        broadcast use vstd::seq_lib::group_to_multiset_ensures;
        let n = scored_len(&self.moves);
        let ghost pend0 = self.pending();
        let ghost ret0 = self.returned@;
        proof {
            assert(pick_region(self.it(), self.ptr as int, n as int, self.captures_end as int, self.bad_quiet_len as int, false)
                =~= pend0);
        }
        let m = self.pick(n, false, Ghost(false));
        if self.stage == Stage::GoodCapture {
            self.bad_capture_len = 0;
        }
        proof {
            assert(pick_region(self.it(), self.ptr as int, n as int, self.captures_end as int, self.bad_quiet_len as int, false)
                =~= self.pending());
        }
        if !m.is_null() {
            self.returned = Ghost(self.returned@.push(m.inner));
            proof {
                lemma_hand_out(ret0, self.pending(), pend0, self.it().to_multiset().add(self.pv_part()), m.inner);
            }
            return Some(m);
        }
        if self.stage == Stage::QCapture {
            proof {
                assert(self.pending() == pend0);
            }
            return Some(m);
        }
        self.stage = if self.stage == Stage::GoodCapture { Stage::QuietInit } else { Stage::EQuietInit };
        proof {
            lemma_ms_empty(self.it().subrange(n as int, n as int));
            assert(pend0 =~= Multiset::<Move>::empty());
            assert(self.returned@.to_multiset().add(self.pending()) =~= self.it().to_multiset().add(self.pv_part()));
        }
        None
    }

    /// Lists and scores the quiet moves after the captures.
    fn step_quiet_init(&mut self) -> (r: Option<ScoredMove>)
        requires
            old(self).wf(),
            old(self).stage == Stage::QuietInit || old(self).stage == Stage::EQuietInit,
        ensures
            old(self).step_post(final(self), r),
    {
        broadcast use vstd::multiset::group_multiset_axioms;
        broadcast use vstd::seq_lib::group_to_multiset_ensures;
        let ghost it0 = self.it();
        let ghost items0 = scored_items(self.moves);
        let ce = self.captures_end;
        proof {
            assert(it0.to_multiset().len() == it0.len());
        }
        self.list_moves(true);
        let n = scored_len(&self.moves);
        if self.stage == Stage::QuietInit {
            self.ptr = ce;
        }
        self.stage = if self.stage == Stage::QuietInit { Stage::GoodQuiet } else { Stage::EQuiet };
        proof {
            let it = self.it();
            lemma_ms_split(it, 0, ce as int, n as int);
            assert(it.subrange(0, n as int) =~= it);
            assert(it.subrange(0, ce as int) =~= it0);
            lemma_ms_empty(it.subrange(ce as int, ce as int));
            assert(it.to_multiset() == caps_listed(self.pos, self.pv).add(quiets_listed(self.pos, self.pv)));
            assert(self.pending() =~= ms_range(it, ce as int, n as int));
            assert(old(self).pending() == Multiset::<Move>::empty());
            assert(old(self).pv_part() == self.pv_part());
            assert(self.returned@.to_multiset().add(Multiset::<Move>::empty()) =~= self.returned@.to_multiset());
            assert(self.returned@.to_multiset() == it0.to_multiset().add(self.pv_part()));
            assert(it.to_multiset() == it0.to_multiset().add(ms_range(it, ce as int, n as int)));
            assert(self.returned@.to_multiset().add(self.pending()) =~= self.it().to_multiset().add(self.pv_part()));
            let items = scored_items(self.moves);
            assert forall|k: int| 0 <= k < items.len() implies (#[trigger] items[k]).score == move_score(self.pos,
                *self.heuristic, self.ply as int, slot_quiet(self.stage, self.captures_end as int, k), items[k].inner) by {
                if k < ce {
                    assert(items[k] == items.subrange(0, ce as int)[k]);
                    assert(items0[k] == items[k]);
                }
            }
        }
        None
    }

    /// Hands out the best quiet move left, setting aside those scored too low.
    fn step_good_quiet(&mut self) -> (r: Option<ScoredMove>)
        requires
            old(self).wf(),
            old(self).stage == Stage::GoodQuiet,
        ensures
            old(self).step_post(final(self), r),
    {
        broadcast use vstd::multiset::group_multiset_axioms;
        broadcast use vstd::seq_lib::group_to_multiset_ensures;
        let n = scored_len(&self.moves);
        let ghost pend0 = self.pending();
        let ghost ret0 = self.returned@;
        let m = self.pick(n, true, Ghost(true));
        if !m.is_null() {
            self.returned = Ghost(self.returned@.push(m.inner));
            proof {
                assert(self.pending().insert(m.inner) =~= pend0);
                lemma_hand_out(ret0, self.pending(), pend0, self.it().to_multiset().add(self.pv_part()), m.inner);
            }
            return Some(m);
        }
        self.ptr = 0;
        self.stage = Stage::BadCapture;
        proof {
            let it = self.it();
            let ce = self.captures_end as int;
            let bq = self.bad_quiet_len as int;
            lemma_ms_empty(it.subrange(n as int, n as int));
            lemma_ms_empty(it.subrange(0, 0));
            assert(pend0 =~= ms_range(it, ce, ce + bq));
            assert(self.pending() =~= ms_range(it, ce, ce + bq));
            assert(self.returned@.to_multiset().add(self.pending()) =~= self.it().to_multiset().add(self.pv_part()));
        }
        None
    }

    /// Hands out the captures that were set aside.
    fn step_bad_capture(&mut self) -> (r: Option<ScoredMove>)
        requires
            old(self).wf(),
            old(self).stage == Stage::BadCapture,
        ensures
            old(self).step_post(final(self), r),
    {
        broadcast use vstd::multiset::group_multiset_axioms;
        broadcast use vstd::seq_lib::group_to_multiset_ensures;
        let ghost it0 = self.it();
        let ghost ce = self.captures_end as int;
        let ghost bq = self.bad_quiet_len as int;
        let ghost pend0 = self.pending();
        let end = self.bad_capture_len;
        let ghost p0 = self.ptr as int;
        proof {
            assert(pick_region(it0, p0, end as int, ce, bq, false) =~= ms_range(it0, p0, end as int));
            assert(pend0 == ms_range(it0, ce, ce + bq).add(ms_range(it0, p0, end as int)));
        }
        let m = self.pick(end, false, Ghost(false));
        proof {
            assert forall|k: int| ce <= k < ce + bq implies it0[k] == #[trigger] self.it()[k] by {
                assert(scored_items(self.moves)[k] == scored_items(old(self).moves)[k]);
            }
            lemma_ms_same(it0, self.it(), ce, ce + bq);
            assert(pick_region(self.it(), self.ptr as int, end as int, ce, bq, false) =~= ms_range(self.it(), self.ptr as int, end as int));
            assert(self.pending() == ms_range(it0, ce, ce + bq).add(ms_range(self.it(), self.ptr as int, end as int)));
        }
        if !m.is_null() {
            let ghost ret0 = self.returned@;
            self.returned = Ghost(self.returned@.push(m.inner));
            proof {
                assert(self.pending().insert(m.inner) =~= pend0);
                lemma_hand_out(ret0, self.pending(), pend0, self.it().to_multiset().add(self.pv_part()), m.inner);
            }
            return Some(m);
        }
        self.ptr = self.captures_end;
        self.stage = Stage::BadQuiet;
        proof {
            lemma_ms_empty(self.it().subrange(end as int, end as int));
            assert(self.pending() =~= pend0);
            assert(self.returned@.to_multiset().add(self.pending()) =~= self.it().to_multiset().add(self.pv_part()));
        }
        None
    }

    /// Hands out the quiet moves that were set aside, or the rest of the quiet moves in check.
    fn step_bad_quiet(&mut self) -> (r: Option<ScoredMove>)
        requires
            old(self).wf(),
            old(self).stage == Stage::BadQuiet || old(self).stage == Stage::EQuiet,
        ensures
            old(self).step_post(final(self), r),
    {
        broadcast use vstd::multiset::group_multiset_axioms;
        broadcast use vstd::seq_lib::group_to_multiset_ensures;
        let end = if self.stage == Stage::BadQuiet {
            self.captures_end + self.bad_quiet_len
        } else {
            scored_len(&self.moves)
        };
        let ghost pend0 = self.pending();
        let ghost it0 = self.it();
        let ghost p0 = self.ptr as int;
        proof {
            assert(pend0 == ms_range(it0, p0, end as int));
            assert(pick_region(it0, p0, end as int, self.captures_end as int, self.bad_quiet_len as int, false)
                =~= ms_range(it0, p0, end as int));
        }
        let m = self.pick(end, false, Ghost(true));
        proof {
            assert(pick_region(self.it(), self.ptr as int, end as int, self.captures_end as int, self.bad_quiet_len as int, false)
                =~= ms_range(self.it(), self.ptr as int, end as int));
            assert(self.pending() == ms_range(self.it(), self.ptr as int, end as int));
        }
        if !m.is_null() {
            let ghost ret0 = self.returned@;
            self.returned = Ghost(self.returned@.push(m.inner));
            proof {
                assert(self.pending().insert(m.inner) =~= pend0);
                lemma_hand_out(ret0, self.pending(), pend0, self.it().to_multiset().add(self.pv_part()), m.inner);
            }
            return Some(m);
        }
        proof {
            assert(self.pending() =~= pend0);
        }
        Some(m)
    }

    /// One step of the stage machine: a move handed out, "no move" once everything is out, or
    /// `None` when the picker only moved on to the next stage.
    fn step(&mut self) -> (r: Option<ScoredMove>)
        requires
            old(self).wf(),
        ensures
            old(self).step_post(final(self), r),
    {
        match self.stage {
            Stage::Pv | Stage::QPv | Stage::EPv => self.step_pv(),
            Stage::CaptureInit | Stage::QCaptureInit | Stage::ECaptureInit => self.step_capture_init(),
            Stage::GoodCapture | Stage::ECapture | Stage::QCapture => self.step_captures(),
            Stage::QuietInit | Stage::EQuietInit => self.step_quiet_init(),
            Stage::GoodQuiet => self.step_good_quiet(),
            Stage::BadCapture => self.step_bad_capture(),
            Stage::BadQuiet | Stage::EQuiet => self.step_bad_quiet(),
        }
    }

    /// The next move, or "no move" once every move has been handed out. The hash move comes
    /// first when there is one; after it come the captures best first, and (but in the
    /// quiescence search out of check) the quiet moves best first. In the main search the
    /// quiet moves scoring below `BAD_QUIET_SCORE` are set aside and come last, best first,
    /// after the stage of bad captures (which the capture stage leaves empty). Each move of a
    /// scored stage carries its capture or quiet score and scores at least as high as every
    /// entry the stage still holds.
    pub fn next_move(&mut self) -> (r: ScoredMove)
        requires
            old(self).wf(),
        ensures
            final(self).wf(),
            final(self).position() == old(self).position(),
            final(self).pv_move() == old(self).pv_move(),
            final(self).ply_spec() == old(self).ply_spec(),
            final(self).heuristic_spec() == old(self).heuristic_spec(),
            final(self).in_qsearch() == old(self).in_qsearch(),
            r.inner != null_move_spec() ==> final(self).returned() == old(self).returned().push(r.inner),
            r.inner == null_move_spec() ==> r == (ScoredMove { inner: null_move_spec(), score: 0 })
                && final(self).returned() == old(self).returned() && final(self).exhausted(),
            stage_group(final(self).stage_spec()) == stage_group(old(self).stage_spec()),
            stage_rank(final(self).stage_spec()) <= stage_rank(old(self).stage_spec()),
            (old(self).returned().len() > 0 || old(self).pv_move() == null_move_spec()) && r.inner != null_move_spec() ==> {
                &&& scored_stage(final(self).stage_spec())
                &&& r.score == move_score(final(self).position(), final(self).heuristic_spec(), final(self).ply_spec(),
                    quiet_stage(final(self).stage_spec()), r.inner)
                &&& forall|k: int| 0 <= k < final(self).stage_rest().len() ==> (#[trigger] final(self).stage_rest()[k]).score <= r.score
                &&& final(self).stage_spec() == old(self).stage_spec() ==> forall|k: int| 0 <= k < old(self).stage_rest().len()
                    ==> (#[trigger] old(self).stage_rest()[k]).score <= r.score
                &&& final(self).stage_spec() == Stage::GoodQuiet ==> r.score >= BAD_QUIET_SCORE as i32
            },
            old(self).returned().len() == 0 && old(self).pv_move() != null_move_spec() ==> r == (ScoredMove {
                inner: old(self).pv_move(),
                score: 0,
            }),
            old(self).exhausted() ==> r == (ScoredMove { inner: null_move_spec(), score: 0 }) && final(self).returned()
                == old(self).returned(),
            r.inner == null_move_spec() && !final(self).in_qsearch() && legal_moves_fit(final(self).position())
                ==> final(self).returned().to_multiset() == legal_moves_spec(final(self).position()).to_multiset().update(
                final(self).pv_move(), 0).add(pv_once(final(self).pv_move())),
            r.inner == null_move_spec() && final(self).in_qsearch() && legal_moves_fit(final(self).position())
                ==> final(self).returned().to_multiset() == noisy_part(final(self).position(),
                legal_moves_spec(final(self).position()).to_multiset()).update(final(self).pv_move(), 0).add(
                pv_once(final(self).pv_move())),
    {
        proof {
            if old(self).returned().len() == 0 && old(self).pv != null_move_spec() {
                assert(old(self).pv_stage());
            }
        }
        loop
            invariant
                self.wf(),
                self.pos == old(self).pos,
                self.pv == old(self).pv,
                self.ply == old(self).ply,
                self.heuristic == old(self).heuristic,
                self.in_qsearch() == old(self).in_qsearch(),
                self.returned() == old(self).returned(),
                old(self).returned().len() == 0 && old(self).pv != null_move_spec() ==> self.pv_stage(),
                old(self).exhausted() ==> self.exhausted() && self.stage == old(self).stage,
                stage_group(self.stage) == stage_group(old(self).stage),
                stage_rank(self.stage) < stage_rank(old(self).stage) || (self.stage == old(self).stage
                    && self.stage_rest() == old(self).stage_rest()),
                old(self).returned().len() > 0 || old(self).pv == null_move_spec() ==> (self.pv_stage() ==> self.pv
                    == null_move_spec()),
            decreases stage_rank(self.stage),
        {
            match self.step() {
                Some(m) => {
                    proof {
                        if m.inner == null_move_spec() && !self.in_qsearch() && legal_moves_fit(self.pos) {
                            lemma_exhausted_returns_legal(&*self);
                        }
                        if m.inner == null_move_spec() && self.in_qsearch() && legal_moves_fit(self.pos) {
                            lemma_qsearch_exhausted_returns_captures(&*self);
                        }
                    }
                    return m;
                },
                None => {},
            }
        }
    }
}

/// Once a picker is exhausted it has handed out the hash move (when it is not "no move")
/// and each move it generated other than the hash move exactly once: the captures, and but
/// in the quiescence search out of check the quiet moves. Captures and quiet moves are the
/// ones the move generator reports for the position, at most `MAX_MOVES` listed in all.
pub proof fn lemma_exhausted_returns_all(mp: &Movepick)
    requires
        mp.wf(),
        mp.exhausted(),
    ensures
        mp.returned().to_multiset() == (if mp.in_qsearch() {
            caps_listed(mp.position(), mp.pv_move())
        } else {
            caps_listed(mp.position(), mp.pv_move()).add(quiets_listed(mp.position(), mp.pv_move()))
        }).add(pv_once(mp.pv_move())),
{
    broadcast use vstd::multiset::group_multiset_axioms;
    let it = mp.it();
    if mp.stage == Stage::BadQuiet {
        lemma_ms_empty(it.subrange(mp.ptr as int, (mp.captures_end + mp.bad_quiet_len) as int));
    } else {
        lemma_ms_empty(it.subrange(mp.ptr as int, it.len() as int));
    }
    assert(mp.pending() =~= Multiset::<Move>::empty());
    assert(mp.returned@.to_multiset().add(Multiset::<Move>::empty()) =~= mp.returned@.to_multiset());
}

/// Once exhausted, a picker of the main search or of the quiescence search in check has
/// handed out every legal move of its position exactly once and nothing else: the legal
/// moves with every copy of the hash move dropped, and the hash move once when it is not "no
/// move". This holds when the legal moves fit the move list, as every chess position's do.
pub proof fn lemma_exhausted_returns_legal(mp: &Movepick)
    requires
        mp.wf(),
        mp.exhausted(),
        !mp.in_qsearch(),
        legal_moves_fit(mp.position()),
    ensures
        mp.returned().to_multiset() == legal_moves_spec(mp.position()).to_multiset().update(mp.pv_move(), 0).add(
            pv_once(mp.pv_move()),
        ),
{
    lemma_exhausted_returns_all(mp);
    assert(mp.listed());
    lemma_listed_are_legal(mp.position(), mp.pv_move());
}

/// Once exhausted, a picker of the quiescence search out of check has handed out exactly the
/// legal moves `noisy` picks (captures, en passant captures and queen promotions), every copy
/// of the hash move dropped from them, and the hash move once when it is not "no move"; when
/// the legal moves fit the move list, as every chess position's do.
pub proof fn lemma_qsearch_exhausted_returns_captures(mp: &Movepick)
    requires
        mp.wf(),
        mp.exhausted(),
        mp.in_qsearch(),
        legal_moves_fit(mp.position()),
    ensures
        mp.returned().to_multiset() == noisy_part(mp.position(), legal_moves_spec(mp.position()).to_multiset()).update(
            mp.pv_move(),
            0,
        ).add(pv_once(mp.pv_move())),
{
    lemma_exhausted_returns_all(mp);
    assert(mp.listed());
    lemma_listed_captures_are_noisy(mp.position(), mp.pv_move());
}

/// Killer moves come first among the quiet moves. In a stage that hands out quiet moves,
/// an entry still to come that is the ply's first killer scores `i32::MAX`, one that is its
/// second killer (and not the first) scores `i32::MAX - 1`, and every other entry scores
/// below both, so the picker, which hands out the best score first, hands the killers out
/// before the other quiet moves.
pub proof fn lemma_killers_first(mp: &Movepick)
    requires
        mp.wf(),
        quiet_stage(mp.stage_spec()),
    ensures
        forall|k: int| 0 <= k < mp.stage_rest().len() ==> {
            let e = #[trigger] mp.stage_rest()[k];
            let killers = mp.heuristic_spec().killer_moves@[mp.ply_spec()];
            &&& e.inner == killers[0] ==> e.score == i32::MAX
            &&& e.inner != killers[0] && e.inner == killers[1] ==> e.score == i32::MAX - 1
            &&& e.inner != killers[0] && e.inner != killers[1] ==> e.score < i32::MAX - 1
        },
{
    let items = scored_items(mp.moves);
    let p = mp.ptr as int;
    let h = *mp.heuristic;
    assert forall|k: int| 0 <= k < mp.stage_rest().len() implies {
        let e = #[trigger] mp.stage_rest()[k];
        let killers = mp.heuristic_spec().killer_moves@[mp.ply_spec()];
        &&& e.inner == killers[0] ==> e.score == i32::MAX
        &&& e.inner != killers[0] && e.inner == killers[1] ==> e.score == i32::MAX - 1
        &&& e.inner != killers[0] && e.inner != killers[1] ==> e.score < i32::MAX - 1
    } by {
        let e = mp.stage_rest()[k];
        assert(e == items[p + k]);
        assert(slot_quiet(mp.stage, mp.captures_end as int, p + k));
        assert(e.score == quiet_score(mp.pos, h, mp.ply as int, e.inner));
        let killers = h.killer_moves@[mp.ply as int];
        if e.inner != killers[0] && e.inner != killers[1] {
            let idx = main_idx_of(color_index(mp.pos.side_to_move), e.inner);
            assert(real_move(mp.it()[p + k]));
            assert(0 <= idx < 8192);
            assert(h.main_history@[idx].wf());
            h.main_history@[idx].lemma_wf_range();
        }
    }
}

/// Captures come most valuable victim first. In a stage that hands out captures, with a
/// capture history that is all zero, a promotion outranks every capture that does not
/// promote, and between two captures that both promote or both do not, the one taking the
/// more valuable piece (a pawn on an empty square) outranks the other.
pub proof fn lemma_victims_first(mp: &Movepick)
    requires
        mp.wf(),
        scored_stage(mp.stage_spec()),
        !quiet_stage(mp.stage_spec()),
        forall|i: int| 0 <= i < 4608 ==> (#[trigger] mp.heuristic_spec().capture_history@[i])@ == 0,
    ensures
        forall|a: int, b: int| 0 <= a < mp.stage_rest().len() && 0 <= b < mp.stage_rest().len() ==> {
            let x = #[trigger] mp.stage_rest()[a];
            let y = #[trigger] mp.stage_rest()[b];
            let vx = PIECE_VALUE[piece_index(captured_spec(mp.position(), x.inner))];
            let vy = PIECE_VALUE[piece_index(captured_spec(mp.position(), y.inner))];
            &&& x.inner.promotion is Some && y.inner.promotion is None ==> x.score > y.score
            &&& (x.inner.promotion is Some) == (y.inner.promotion is Some) && vx > vy ==> x.score > y.score
        },
{
    let items = scored_items(mp.moves);
    let p = mp.ptr as int;
    let h = *mp.heuristic;
    assert(PIECE_VALUE[0] == 100 && PIECE_VALUE[1] == 300 && PIECE_VALUE[2] == 300 && PIECE_VALUE[3] == 500
        && PIECE_VALUE[4] == 900 && PIECE_VALUE[5] == 0 && PIECE_VALUE[6] == 0);
    assert forall|k: int| 0 <= k < mp.stage_rest().len() implies {
        let e = #[trigger] mp.stage_rest()[k];
        e.score == MVV_MULTIPLIER * PIECE_VALUE[piece_index(captured_spec(mp.pos, e.inner))]
            + (if e.inner.promotion is Some { 10000int } else { 0int })
    } by {
        let e = mp.stage_rest()[k];
        assert(e == items[p + k]);
        assert(!slot_quiet(mp.stage, mp.captures_end as int, p + k));
        assert(e.score == capture_score(mp.pos, h, e.inner));
        assert(real_move(mp.it()[p + k]));
        if movable(mp.pos, e.inner) {
            let cp = crate::chess::colored_index(crate::heuristic::mover(mp.pos, e.inner));
            let cap = piece_index(captured_spec(mp.pos, e.inner));
            let to = e.inner.to as int;
            assert(0 <= cp < 12 && 0 <= cap < 6 && 0 <= to < 64);
            assert(0 <= cp * 384 + to * 6 + cap < 4608) by (nonlinear_arith)
                requires 0 <= cp < 12, 0 <= cap < 6, 0 <= to < 64;
            assert(capture_idx_of(mp.pos, e.inner) == cp * 384 + to * 6 + cap);
            assert(mp.heuristic_spec() == h);
            assert((mp.heuristic_spec().capture_history@[cp * 384 + to * 6 + cap])@ == 0);
        }
    }
}

} // verus!
