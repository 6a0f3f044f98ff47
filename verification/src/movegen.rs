//! Legal move generation. The generator itself is `cozy_chess`'s; this module hands it the
//! position and turns what it reports (per piece: origin square and target squares) into moves.

use vstd::prelude::*;
use crate::chess::{Color, Piece, Move, bb_has, piece_index, rank_of, sq_bb};
use crate::position::{Position, CastleRights, piece_at, color_at};
use crate::movelist::{MAX_MOVES, move_list_items, move_list_new, move_list_len, move_list_push};
use cozy_chess::{BitBoard, BoardBuilder, File, Square};
use cozy_chess::{CastleRights as CzRights, Color as CzColor, Piece as CzPiece};
use arrayvec::ArrayVec;

verus! {

/// What the generator reports for one piece: its kind (as an index in `Piece` order), its
/// square and the bitboard of squares it may legally move to.
pub type PieceMoves = (u8, u8, u64);

/// The piece placement square by square, as the generator is given it.
pub open spec fn mailbox_spec(pos: Position) -> Seq<Option<(Piece, Color)>> {
    Seq::new(
        64,
        |i: int|
            match (piece_at(pos.pieces, i), color_at(pos.colors, i)) {
                (Some(p), Some(c)) => Some((p, c)),
                _ => None,
            },
    )
}

/// The generator's report for the pieces standing on `mask`, in its order; `None` when the
/// placement, castling rights and en passant square do not make a legal chess position.
pub uninterp spec fn legal_piece_moves(
    squares: Seq<Option<(Piece, Color)>>,
    side: Color,
    castles: Seq<CastleRights>,
    ep: Option<usize>,
    mask: u64,
) -> Option<Seq<PieceMoves>>;

/// The entries of a report whose square lies in `mask`, in order.
pub open spec fn entries_in(es: Seq<PieceMoves>, mask: u64) -> Seq<PieceMoves>
    decreases es.len(),
{
    if es.len() == 0 {
        Seq::empty()
    } else {
        let rest = entries_in(es.drop_last(), mask);
        if bb_has(mask, es.last().1 as int) { rest.push(es.last()) } else { rest }
    }
}

/// A pawn of `side` on `from` may reach `t`: one rank forward, or two from its starting rank.
pub open spec fn pawn_step(from: int, t: int, side: Color) -> bool {
    let d: int = if side == Color::White { 1 } else { -1 };
    let start: int = if side == Color::White { 1 } else { 6 };
    rank_of(t) == rank_of(from) + d || (rank_of(from) == start && rank_of(t) == rank_of(from) + 2 * d)
}

/// What every full report shows: entries name a kind, a square and targets (see
/// `report_wf`), each entry's square holds a piece of that kind of the side to move, and a
/// pawn's targets are pawn steps.
pub open spec fn full_report_ok(f: Seq<PieceMoves>, squares: Seq<Option<(Piece, Color)>>, side: Color) -> bool {
    &&& report_wf(f)
    &&& forall|i: int| 0 <= i < f.len() ==> squares[(#[trigger] f[i]).1 as int] == Some((crate::chess::piece_of_index(f[i].0 as int), side))
    &&& forall|i: int, t: int| 0 <= i < f.len() && f[i].0 == 0 && 0 <= t < 64 && #[trigger] bb_has(f[i].2, t)
        ==> pawn_step(f[i].1 as int, t, side)
}

/// The generator's report for `mask` is the full report's entries on `mask`, and the full
/// report exists exactly when the report for `mask` does.
pub open spec fn split_ok(
    squares: Seq<Option<(Piece, Color)>>,
    side: Color,
    castles: Seq<CastleRights>,
    ep: Option<usize>,
    mask: u64,
) -> bool {
    match legal_piece_moves(squares, side, castles, ep, 0xffff_ffff_ffff_ffffu64) {
        None => legal_piece_moves(squares, side, castles, ep, mask) is None,
        Some(f) => legal_piece_moves(squares, side, castles, ep, mask) == Some(entries_in(f, mask))
            && full_report_ok(f, squares, side),
    }
}

/// `cozy_chess::BoardBuilder::build` on the given placement (clocks at their defaults), then
/// `Board::generate_moves_for` with `mask`. The result is named by `legal_piece_moves`; each
/// reported piece index names one of the six kinds, each square lies on the board and each
/// reported piece has at least one target (the generator skips pieces without one) and never
/// its own square (targets exclude the mover's own pieces). The generator walks the same
/// pieces in the same order whatever the mask, skipping those off it, so the report for a
/// mask is the full report's entries on the mask; the position is refused whatever the mask.
/// A reported piece is the side to move's piece of that kind on that square, and a pawn's
/// targets lie one rank ahead, or two from its starting rank.
#[verifier::external_body]
fn generate_for(
    squares: &[Option<(Piece, Color)>; 64],
    side: Color,
    castles: &[CastleRights; 2],
    ep: Option<usize>,
    mask: u64,
) -> (r: Option<Vec<PieceMoves>>)
    requires
        castles[0].wf() && castles[1].wf(),
        ep matches Some(s) ==> s < 64,
    ensures
        match r {
            None => legal_piece_moves(squares@, side, castles@, ep, mask) is None
                && split_ok(squares@, side, castles@, ep, mask),
            Some(v) => legal_piece_moves(squares@, side, castles@, ep, mask) == Some(v@)
                && (forall|i: int| 0 <= i < v@.len() ==> (#[trigger] v@[i]).0 < 6 && v@[i].1 < 64 && v@[i].2 != 0
                && !bb_has(v@[i].2, v@[i].1 as int))
                && split_ok(squares@, side, castles@, ep, mask),
        },
{
    let board = BoardBuilder {
        board: squares.map(|s| s.map(|(p, c)| (CzPiece::index(p as usize), CzColor::index(c as usize)))),
        side_to_move: CzColor::index(side as usize),
        castle_rights: castles.map(|c| CzRights { short: c.short.map(|f| File::index(f as usize)), long: c.long.map(|f| File::index(f as usize)) }),
        en_passant: ep.map(Square::index),
        halfmove_clock: 0,
        fullmove_number: 1,
    }.build().ok()?;
    let mut out = Vec::new();
    board.generate_moves_for(BitBoard(mask), |m| { out.push((m.piece as u8, m.from as u8, m.to.0)); false });
    Some(out)
}

/// A report whose every entry names a piece kind, a square on the board and some target
/// other than that square.
pub open spec fn report_wf(v: Seq<PieceMoves>) -> bool {
    forall|i: int| 0 <= i < v.len() ==> (#[trigger] v[i]).0 < 6 && v[i].1 < 64 && v[i].2 != 0
        && !bb_has(v[i].2, v[i].1 as int)
}

/// The generator's report for a position.
pub open spec fn report_of(pos: Position, mask: u64) -> Option<Seq<PieceMoves>> {
    legal_piece_moves(
        mailbox_spec(pos),
        pos.side_to_move,
        pos.castle_rights@,
        ep_index(pos),
        mask,
    )
}

/// The report for `mask` as `split_ok` relates it to the full report, for a position.
pub open spec fn report_split(pos: Position, mask: u64) -> bool {
    split_ok(mailbox_spec(pos), pos.side_to_move, pos.castle_rights@, ep_index(pos), mask)
}

/// The en passant target square as an index.
pub open spec fn ep_index(pos: Position) -> Option<usize> {
    match pos.ep_square_spec() {
        None => None,
        Some(s) => Some(s as usize),
    }
}

impl Position {
    /// The placement square by square.
    pub fn mailbox(&self) -> (r: [Option<(Piece, Color)>; 64])
        ensures
            r@ == mailbox_spec(*self),
    {
        let mut r: [Option<(Piece, Color)>; 64] = [None; 64];
        let mut sq: u8 = 0;
        while sq < 64
            invariant
                sq <= 64,
                r@.len() == 64,
                forall|i: int| 0 <= i < sq ==> r@[i] == #[trigger] mailbox_spec(*self)[i],
            decreases 64 - sq,
        {
            let v = match (self.piece_on(sq), self.color_on(sq)) {
                (Some(p), Some(c)) => Some((p, c)),
                _ => None,
            };
            r[sq as usize] = v;
            sq += 1;
        }
        assert(r@ =~= mailbox_spec(*self));
        r
    }

    /// The generator's report for the pieces on `mask`: per piece its kind, its square and
    /// the squares it may move to; `None` when the position is not a legal one.
    pub fn generate_moves_for(&self, mask: u64) -> (r: Option<Vec<PieceMoves>>)
        requires
            self.wf(),
        ensures
            match r {
                None => report_of(*self, mask) is None,
                Some(v) => report_of(*self, mask) == Some(v@) && report_wf(v@),
            },
            report_split(*self, mask),
    {
        let squares = self.mailbox();
        let ep = match self.ep_square() {
            None => None,
            Some(s) => Some(s as usize),
        };
        assert(ep == ep_index(*self));
        generate_for(&squares, self.side_to_move, &self.castle_rights, ep, mask)
    }
}

// ---------------------------------------------------------------------------------------------
// turning reports into moves

/// The legal moves of a position in the generator's order (none for an illegal position),
/// at most `MAX_MOVES` of them.
pub open spec fn legal_moves_spec(pos: Position) -> Seq<Move> {
    match report_of(pos, u64::MAX) {
        None => Seq::empty(),
        Some(v) => capped(report_moves(v), 218),
    }
}

/// Pushes `m` when the list has room.
fn push_capped(ml: &mut ArrayVec<Move, 218>, m: Move, Ghost(s): Ghost<Seq<Move>>, Ghost(t): Ghost<Seq<Move>>)
    requires
        move_list_items(*old(ml)) == capped(s + t, 218),
    ensures
        move_list_items(*final(ml)) == capped(s + t.push(m), 218),
{
    proof { lemma_capped_append(s, t, m, 218); }
    if move_list_len(ml) < MAX_MOVES {
        move_list_push(ml, m);
    }
}

impl Position {
    /// Whether the side to move has a legal move.
    pub fn any_moves(&self) -> (r: bool)
        requires
            self.wf(),
        ensures
            r == (report_of(*self, u64::MAX) matches Some(v) && v.len() > 0),
    {
        match self.generate_moves_for(u64::MAX) {
            None => false,
            Some(v) => v.len() > 0,
        }
    }

    /// All legal moves, in the generator's order: piece after piece, each piece's targets
    /// ascending, a promoting pawn's four promotions in the order knight, bishop, rook, queen.
    /// The list holds 218 moves, as many as a chess position can have: past that the rest
    /// would be left out.
    pub fn get_legal_moves(&self) -> (r: ArrayVec<Move, 218>)
        requires
            self.wf(),
        ensures
            move_list_items(r) == legal_moves_spec(*self),
            report_of(*self, u64::MAX) matches Some(f) ==> (report_moves(f).len() <= 218 ==> move_list_items(r)
                == report_moves(f)),
    {
        let mut ml = move_list_new();
        let report = self.generate_moves_for(u64::MAX);
        match report {
            None => {
                return ml;
            },
            Some(v) => {
                let mut k: usize = 0;
                while k < v.len()
                    invariant
                        k <= v@.len(),
                        report_wf(v@),
                        move_list_items(ml) == capped(report_moves(v@.take(k as int)), 218),
                    decreases v@.len() - k,
                {
                    let e = v[k];
                    let ghost base = report_moves(v@.take(k as int));
                    let mut t: u8 = 0;
                    while t < 64
                        invariant
                            t <= 64,
                            e.1 < 64,
                            move_list_items(ml) == capped(base + entry_moves(e, t as nat), 218),
                        decreases 64 - t,
                    {
                        let ghost before = entry_moves(e, t as nat);
                        if e.2 & (1u64 << t) != 0 {
                            let rank = t / 8;
                            if e.0 == 0 && (rank == 0 || rank == 7) {
                                let m1 = Move { from: e.1, to: t, promotion: Some(Piece::Knight) };
                                let m2 = Move { from: e.1, to: t, promotion: Some(Piece::Bishop) };
                                let m3 = Move { from: e.1, to: t, promotion: Some(Piece::Rook) };
                                let m4 = Move { from: e.1, to: t, promotion: Some(Piece::Queen) };
                                push_capped(&mut ml, m1, Ghost(base), Ghost(before));
                                push_capped(&mut ml, m2, Ghost(base), Ghost(before.push(m1)));
                                push_capped(&mut ml, m3, Ghost(base), Ghost(before.push(m1).push(m2)));
                                push_capped(&mut ml, m4, Ghost(base), Ghost(before.push(m1).push(m2).push(m3)));
                                assert(entry_moves(e, (t + 1) as nat) =~= before.push(m1).push(m2).push(m3).push(m4));
                            } else {
                                let m = Move { from: e.1, to: t, promotion: None };
                                push_capped(&mut ml, m, Ghost(base), Ghost(before));
                                assert(entry_moves(e, (t + 1) as nat) =~= before.push(m));
                            }
                        } else {
                            assert(entry_moves(e, (t + 1) as nat) =~= before);
                        }
                        t += 1;
                    }
                    assert(v@.take(k as int + 1).drop_last() =~= v@.take(k as int));
                    assert(v@.take(k as int + 1).last() == e);
                    k += 1;
                }
                assert(v@.take(v@.len() as int) =~= v@);
                ml
            },
        }
    }
}

/// The moves from `from` to each square of `bb` below `n`, ascending, each repeated once per
/// entry of `promos` in that order.
pub open spec fn fan(from: u8, bb: u64, n: nat, promos: Seq<Option<Piece>>) -> Seq<Move>
    decreases n,
{
    if n == 0 {
        Seq::empty()
    } else {
        fan(from, bb, (n - 1) as nat, promos) + (if bb_has(bb, n - 1) {
            promos.map_values(|p: Option<Piece>| Move { from, to: (n - 1) as u8, promotion: p })
        } else {
            Seq::empty()
        })
    }
}

/// The promotions the generator lists for a pawn reaching the last rank, in its order.
pub open spec fn generator_promos() -> Seq<Option<Piece>> {
    seq![Some(Piece::Knight), Some(Piece::Bishop), Some(Piece::Rook), Some(Piece::Queen)]
}

/// The moves one report entry stands for, below square `n`: a pawn reaching the first or the
/// last rank promotes to each of knight, bishop, rook and queen; every other target is one
/// plain move.
pub open spec fn entry_moves(e: PieceMoves, n: nat) -> Seq<Move>
    decreases n,
{
    if n == 0 {
        Seq::empty()
    } else {
        let t = n - 1;
        entry_moves(e, (n - 1) as nat) + (if !bb_has(e.2, t) {
            Seq::empty()
        } else if e.0 == 0 && (rank_of(t) == 0 || rank_of(t) == 7) {
            generator_promos().map_values(|p: Option<Piece>| Move { from: e.1, to: t as u8, promotion: p })
        } else {
            seq![Move { from: e.1, to: t as u8, promotion: None }]
        })
    }
}

/// All the moves a report stands for, entry after entry.
pub open spec fn report_moves(es: Seq<PieceMoves>) -> Seq<Move>
    decreases es.len(),
{
    if es.len() == 0 {
        Seq::empty()
    } else {
        report_moves(es.drop_last()) + entry_moves(es.last(), 64)
    }
}

/// At most the first `cap` elements of a sequence.
pub open spec fn capped<T>(s: Seq<T>, cap: nat) -> Seq<T> {
    if s.len() <= cap {
        s
    } else {
        s.take(cap as int)
    }
}

/// Appending one more element to a capped sequence.
pub proof fn lemma_capped_push<T>(s: Seq<T>, x: T, cap: nat)
    ensures
        capped(s.push(x), cap) == (if capped(s, cap).len() < cap {
            capped(s, cap).push(x)
        } else {
            capped(s, cap)
        }),
{
    if s.len() < cap {
    } else if s.len() == cap {
        assert(s.push(x).take(cap as int) =~= s);
    } else {
        assert(s.push(x).take(cap as int) =~= s.take(cap as int));
    }
}

/// Appending a whole sequence to a capped one, one element at a time.
pub proof fn lemma_capped_append<T>(s: Seq<T>, t: Seq<T>, x: T, cap: nat)
    ensures
        capped(s + t.push(x), cap) == (if capped(s + t, cap).len() < cap {
            capped(s + t, cap).push(x)
        } else {
            capped(s + t, cap)
        }),
{
    assert(s + t.push(x) =~= (s + t).push(x));
    lemma_capped_push(s + t, x, cap);
}

} // verus!
