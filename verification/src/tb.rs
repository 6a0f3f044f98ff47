//! What the endgame tablebases are asked and how their answers are read: which positions
//! qualify, the arguments of a probe, and the value of a win/draw/loss answer.

use vstd::prelude::*;
use crate::chess::{Color, bitboard_len, popcount};
use crate::position::{CastleRights, Position};

verus! {

/// No castling rights on either wing.
pub open spec fn no_castling(r: CastleRights) -> bool {
    r.short is None && r.long is None
}

/// A position the tables can answer during the search: nothing but a fresh fifty-move count,
/// at most seven pieces, no en passant square and no castling rights.
pub open spec fn static_test_spec(pos: Position) -> bool {
    &&& pos.halfmove_clock == 0
    &&& popcount(pos.occupied_spec()) <= 7
    &&& pos.en_passant is None
    &&& no_castling(pos.castle_rights[0])
    &&& no_castling(pos.castle_rights[1])
}

/// A position the tables can answer at the root: as during the search, but with any
/// fifty-move count.
pub open spec fn static_test_root_spec(pos: Position) -> bool {
    &&& popcount(pos.occupied_spec()) <= 7
    &&& pos.en_passant is None
    &&& no_castling(pos.castle_rights[0])
    &&& no_castling(pos.castle_rights[1])
}

fn castling_empty(r: &CastleRights) -> (b: bool)
    ensures
        b == no_castling(*r),
{
    r.short.is_none() && r.long.is_none()
}

/// Whether the search may probe the tables in `pos`.
pub fn static_test(pos: &Position) -> (r: bool)
    ensures
        r == static_test_spec(*pos),
{
    pos.halfmove_clock == 0 && bitboard_len(pos.occupied()) <= 7 && pos.en_passant.is_none()
        && castling_empty(&pos.castle_rights[0]) && castling_empty(&pos.castle_rights[1])
}

/// Whether the root may be probed in `pos`.
pub fn static_test_root(pos: &Position) -> (r: bool)
    ensures
        r == static_test_root_spec(*pos),
{
    bitboard_len(pos.occupied()) <= 7 && pos.en_passant.is_none() && castling_empty(&pos.castle_rights[0])
        && castling_empty(&pos.castle_rights[1])
}

/// Whether `pos` has no more pieces than tables of `max_pieces` pieces cover.
pub fn fits_tables(pos: &Position, max_pieces: u32) -> (r: bool)
    ensures
        r == (popcount(pos.occupied_spec()) <= max_pieces),
{
    bitboard_len(pos.occupied()) <= max_pieces
}

/// The arguments of a probe: the occupancy of each color and piece kind, the fifty-move
/// count, the en passant square (0 for none) and whether white is to move.
#[derive(Clone, Copy, Debug)]
pub struct ProbeArgs {
    pub white: u64,
    pub black: u64,
    pub kings: u64,
    pub queens: u64,
    pub rooks: u64,
    pub bishops: u64,
    pub knights: u64,
    pub pawns: u64,
    pub rule50: u32,
    pub ep: u32,
    pub white_to_move: bool,
}

/// The probe arguments of `pos`.
pub fn probe_args(pos: &Position) -> (r: ProbeArgs)
    requires
        pos.wf(),
    ensures
        r.white == pos.colors[0],
        r.black == pos.colors[1],
        r.kings == pos.pieces[5],
        r.queens == pos.pieces[4],
        r.rooks == pos.pieces[3],
        r.bishops == pos.pieces[2],
        r.knights == pos.pieces[1],
        r.pawns == pos.pieces[0],
        r.rule50 == pos.halfmove_clock,
        r.ep == (match pos.ep_square_spec() {
            Some(s) => s,
            None => 0,
        }),
        r.white_to_move == (pos.side_to_move == Color::White),
{
    let ep: u32 = match pos.ep_square() {
        Some(s) => s as u32,
        None => 0,
    };
    ProbeArgs {
        white: pos.colors[0],
        black: pos.colors[1],
        kings: pos.pieces[5],
        queens: pos.pieces[4],
        rooks: pos.pieces[3],
        bishops: pos.pieces[2],
        knights: pos.pieces[1],
        pawns: pos.pieces[0],
        rule50: pos.halfmove_clock as u32,
        ep,
        white_to_move: match pos.side_to_move {
            Color::White => true,
            Color::Black => false,
        },
    }
}

/// A win/draw/loss answer, for the side to move; a blessed loss and a cursed win are draws
/// under the fifty-move rule.
#[derive(Clone, Copy, Debug, PartialEq, Eq, Structural)]
pub enum Wdl {
    Loss,
    BlessedLoss,
    Draw,
    CursedWin,
    Win,
}

/// The value of an answer, from -2 (loss) to 2 (win).
pub open spec fn wdl_value(w: Wdl) -> int {
    match w {
        Wdl::Loss => -2,
        Wdl::BlessedLoss => -1,
        Wdl::Draw => 0,
        Wdl::CursedWin => 1,
        Wdl::Win => 2,
    }
}

/// What a probe is worth to the search: `None` when the probe failed.
pub fn query_value(answer: Option<Wdl>) -> (r: Option<i32>)
    ensures
        match answer {
            Some(w) => r == Some(wdl_value(w) as i32),
            None => r is None,
        },
{
    match answer {
        None => None,
        Some(w) => Some(match w {
            Wdl::Loss => -2,
            Wdl::BlessedLoss => -1,
            Wdl::Draw => 0,
            Wdl::CursedWin => 1,
            Wdl::Win => 2,
        }),
    }
}

} // verus!
