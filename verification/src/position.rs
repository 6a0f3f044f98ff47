//! A chess position as bitboards, and the board queries the search makes of it.

use vstd::prelude::*;
use crate::chess::{
    Color, Piece, ColoredPiece, Move, MoveType, color_index, piece_index, opposite, bb_has, sq_bb,
    file_of, rank_of, square_bitboard, make_square, square_rank, same_color, lsb, count_upto,
    popcount, bitboard_len, lemma_count_empty, null_move_spec, move_on_board,
};
use crate::attacks::{pawn_attacks, get_pawn_attacks, bishop_rays, rook_rays, between_rays, get_bishop_rays, get_rook_rays, get_between_rays};
use vstd::std_specs::bits::u64_trailing_zeros;

verus! {

/// A position as the engine's logic reads it. Besides the piece placement it carries the
/// facts that the move generator computes for the same position: the pieces giving check,
/// the pinned pieces and the two Zobrist hashes.
#[derive(Clone, Copy, Debug)]
pub struct Position {
    /// Occupancy of each color, white first.
    pub colors: [u64; 2],
    /// Occupancy of each piece kind, in `Piece` order.
    pub pieces: [u64; 6],
    pub side_to_move: Color,
    /// File of the en passant target, if the last move was a double pawn push.
    pub en_passant: Option<u8>,
    pub halfmove_clock: u8,
    /// Pieces giving check to the side to move.
    pub checkers: u64,
    /// Pieces of either color pinned to their king.
    pub pinned: u64,
    /// Zobrist hash of the position.
    pub hash: u64,
    /// Zobrist hash of the position with the en passant file left out.
    pub hash_without_ep: u64,
    /// Castling rights of each side, white first.
    pub castle_rights: [CastleRights; 2],
}

/// The files of the rooks a side may still castle with, on either wing.
#[derive(Clone, Copy, Debug, PartialEq, Eq, Structural)]
pub struct CastleRights {
    pub short: Option<u8>,
    pub long: Option<u8>,
}

impl CastleRights {
    /// Both files on the board.
    pub open spec fn wf(&self) -> bool {
        &&& (self.short matches Some(f) ==> f < 8)
        &&& (self.long matches Some(f) ==> f < 8)
    }
}

/// An optional square as an optional integer.
pub open spec fn opt_sq(s: Option<u8>) -> Option<int> {
    match s {
        None => None,
        Some(x) => Some(x as int),
    }
}

/// Lowest square of a bitboard.
pub open spec fn lsb_spec(bb: u64) -> int {
    u64_trailing_zeros(bb) as int
}

/// Square of the first piece kind (in `Piece` order) whose bitboard holds `sq`.
pub open spec fn piece_at(pieces: [u64; 6], sq: int) -> Option<Piece> {
    if bb_has(pieces[0], sq) {
        Some(Piece::Pawn)
    } else if bb_has(pieces[1], sq) {
        Some(Piece::Knight)
    } else if bb_has(pieces[2], sq) {
        Some(Piece::Bishop)
    } else if bb_has(pieces[3], sq) {
        Some(Piece::Rook)
    } else if bb_has(pieces[4], sq) {
        Some(Piece::Queen)
    } else if bb_has(pieces[5], sq) {
        Some(Piece::King)
    } else {
        None
    }
}

pub open spec fn color_at(colors: [u64; 2], sq: int) -> Option<Color> {
    if bb_has(colors[0], sq) {
        Some(Color::White)
    } else if bb_has(colors[1], sq) {
        Some(Color::Black)
    } else {
        None
    }
}

impl Position {
    /// A well-formed position: en passant and castling files on the board and a king for each side.
    pub open spec fn wf(&self) -> bool {
        &&& (self.en_passant matches Some(f) ==> f < 8)
        &&& self.castle_rights[0].wf()
        &&& self.castle_rights[1].wf()
        &&& self.colors[0] & self.pieces[5] != 0
        &&& self.colors[1] & self.pieces[5] != 0
    }

    pub open spec fn occupied_spec(&self) -> u64 {
        self.colors[0] | self.colors[1]
    }

    pub open spec fn colored_spec(&self, c: Color, p: Piece) -> u64 {
        self.colors[color_index(c)] & self.pieces[piece_index(p)]
    }

    pub open spec fn piece_on_spec(&self, sq: int) -> Option<Piece> {
        piece_at(self.pieces, sq)
    }

    pub open spec fn color_on_spec(&self, sq: int) -> Option<Color> {
        color_at(self.colors, sq)
    }

    /// The en passant target square (where the capturing pawn lands).
    pub open spec fn ep_square_spec(&self) -> Option<int> {
        match self.en_passant {
            None => None,
            Some(f) => Some(
                (if self.side_to_move == Color::White { 5int } else { 2int }) * 8 + f,
            ),
        }
    }

    /// The square of the pawn an en passant capture removes.
    pub open spec fn ep_capture_square_spec(&self) -> Option<int> {
        match self.en_passant {
            None => None,
            Some(f) => Some(
                (if self.side_to_move == Color::White { 4int } else { 3int }) * 8 + f,
            ),
        }
    }

    pub open spec fn is_ep_spec(&self, m: Move) -> bool {
        self.piece_on_spec(m.from as int) == Some(Piece::Pawn) && self.ep_square_spec() == Some(
            m.to as int,
        )
    }

    pub open spec fn is_castle_spec(&self, m: Move) -> bool {
        self.piece_on_spec(m.to as int) == Some(Piece::Rook) && self.color_on_spec(m.to as int)
            == Some(self.side_to_move)
    }

    pub open spec fn is_quiet_spec(&self, m: Move) -> bool {
        if self.is_ep_spec(m) {
            false
        } else if self.is_castle_spec(m) {
            true
        } else {
            self.piece_on_spec(m.to as int) is None && m.promotion != Some(Piece::Queen)
        }
    }

    pub open spec fn move_type_spec(&self, m: Move) -> MoveType {
        if m == null_move_spec() {
            MoveType::NONE
        } else if m.promotion is Some {
            MoveType::PROMOTION
        } else if self.is_ep_spec(m) {
            MoveType::ENPASSENT
        } else if self.is_castle_spec(m) {
            MoveType::CASTLE
        } else {
            MoveType::NORMAL
        }
    }

    /// The hash with the en passant file dropped when no capture onto it is possible.
    pub open spec fn correct_hash_spec(&self) -> u64 {
        match self.ep_square_spec() {
            None => self.hash,
            Some(ep) => if self.colored_spec(self.side_to_move, Piece::Pawn) & pawn_attacks(
                ep as u8,
                opposite(self.side_to_move) == Color::Black,
            ) == 0 {
                self.hash_without_ep
            } else {
                self.hash
            },
        }
    }

    pub fn occupied(&self) -> (r: u64)
        ensures
            r == self.occupied_spec(),
    {
        self.colors[0] | self.colors[1]
    }

    pub fn colors(&self, c: Color) -> (r: u64)
        ensures
            r == self.colors[color_index(c)],
    {
        self.colors[c.index()]
    }

    pub fn pieces(&self, p: Piece) -> (r: u64)
        ensures
            r == self.pieces[piece_index(p)],
    {
        self.pieces[p.index()]
    }

    pub fn colored_pieces(&self, c: Color, p: Piece) -> (r: u64)
        ensures
            r == self.colored_spec(c, p),
    {
        self.colors[c.index()] & self.pieces[p.index()]
    }

    pub fn piece_on(&self, sq: u8) -> (r: Option<Piece>)
        requires
            sq < 64,
        ensures
            r == self.piece_on_spec(sq as int),
    {
        let b = square_bitboard(sq);
        if self.pieces[0] & b != 0 {
            Some(Piece::Pawn)
        } else if self.pieces[1] & b != 0 {
            Some(Piece::Knight)
        } else if self.pieces[2] & b != 0 {
            Some(Piece::Bishop)
        } else if self.pieces[3] & b != 0 {
            Some(Piece::Rook)
        } else if self.pieces[4] & b != 0 {
            Some(Piece::Queen)
        } else if self.pieces[5] & b != 0 {
            Some(Piece::King)
        } else {
            None
        }
    }

    pub fn color_on(&self, sq: u8) -> (r: Option<Color>)
        requires
            sq < 64,
        ensures
            r == self.color_on_spec(sq as int),
    {
        let b = square_bitboard(sq);
        if self.colors[0] & b != 0 {
            Some(Color::White)
        } else if self.colors[1] & b != 0 {
            Some(Color::Black)
        } else {
            None
        }
    }

    /// The square of `color`'s king (its lowest one, should there be several).
    pub fn king(&self, color: Color) -> (r: u8)
        requires
            self.wf(),
        ensures
            r < 64,
            r == lsb_spec(self.colored_spec(color, Piece::King)),
            bb_has(self.colored_spec(color, Piece::King), r as int),
    {
        lsb(self.colored_pieces(color, Piece::King))
    }

    pub fn in_check(&self) -> (r: bool)
        ensures
            r == (self.checkers != 0),
    {
        self.checkers != 0
    }

    /// The piece a capture takes; a move to an empty square (en passant, or a queen
    /// promotion counted as a capture) takes a pawn.
    pub fn get_captured(&self, m: Move) -> (r: Piece)
        requires
            m.to < 64,
        ensures
            r == match self.piece_on_spec(m.to as int) {
                Some(p) => p,
                None => Piece::Pawn,
            },
    {
        match self.piece_on(m.to) {
            Some(piece) => piece,
            None => Piece::Pawn,
        }
    }

    /// The en passant target square; this is not the square of the captured pawn.
    pub fn ep_square(&self) -> (r: Option<u8>)
        requires
            self.wf(),
        ensures
            r matches Some(s) ==> s < 64,
            opt_sq(r) == self.ep_square_spec(),
    {
        match self.en_passant {
            Some(file) => {
                let ep_rank: u8 = match self.side_to_move {
                    Color::White => 5,
                    Color::Black => 2,
                };
                Some(make_square(file, ep_rank))
            },
            None => None,
        }
    }

    /// The square of the pawn an en passant capture removes.
    pub fn ep_capture_square(&self) -> (r: Option<u8>)
        requires
            self.wf(),
        ensures
            r matches Some(s) ==> s < 64,
            opt_sq(r) == self.ep_capture_square_spec(),
    {
        match self.en_passant {
            Some(file) => {
                let ep_rank: u8 = match self.side_to_move {
                    Color::White => 4,
                    Color::Black => 3,
                };
                Some(make_square(file, ep_rank))
            },
            None => None,
        }
    }

    pub fn is_ep(&self, m: Move) -> (r: bool)
        requires
            self.wf(),
            move_on_board(m),
        ensures
            r == self.is_ep_spec(m),
    {
        let ep = self.ep_square();
        self.piece_on(m.from) == Some(Piece::Pawn) && match ep {
            Some(s) => s == m.to,
            None => false,
        }
    }

    /// Castling is written as the king taking a rook of its own color.
    pub fn is_castle(&self, m: Move) -> (r: bool)
        requires
            move_on_board(m),
        ensures
            r == self.is_castle_spec(m),
    {
        self.piece_on(m.to) == Some(Piece::Rook) && self.color_on(m.to) == Some(
            self.side_to_move,
        )
    }

    /// A quiet move captures nothing and is no queen promotion; castling is quiet,
    /// en passant is not.
    pub fn is_quiet(&self, m: Move) -> (r: bool)
        requires
            self.wf(),
            move_on_board(m),
        ensures
            r == self.is_quiet_spec(m),
    {
        if self.is_ep(m) {
            return false;
        }
        if self.is_castle(m) {
            return true;
        }
        self.piece_on(m.to).is_none() && m.promotion != Some(Piece::Queen)
    }

    pub fn move_type(&self, m: Move) -> (r: MoveType)
        requires
            self.wf(),
            move_on_board(m),
        ensures
            r == self.move_type_spec(m),
    {
        if m.is_null() {
            return MoveType::NONE;
        }
        if m.promotion.is_some() {
            return MoveType::PROMOTION;
        }
        if self.is_ep(m) {
            return MoveType::ENPASSENT;
        }
        if self.is_castle(m) {
            return MoveType::CASTLE;
        }
        MoveType::NORMAL
    }

    /// Index of the piece on `sq`, 6 for an empty square.
    pub fn piece_on_index(&self, sq: u8) -> (r: usize)
        requires
            sq < 64,
        ensures
            r == match self.piece_on_spec(sq as int) {
                None => 6,
                Some(p) => piece_index(p),
            },
            r <= 6,
    {
        match self.piece_on(sq) {
            None => 6,
            Some(piece) => piece.index(),
        }
    }

    /// Whether `side` has a piece other than its king and pawns.
    pub fn has_non_pawns(&self, side: Color) -> (r: bool)
        ensures
            r == (self.colors[color_index(side)] != (self.colored_spec(side, Piece::King)
                | self.colored_spec(side, Piece::Pawn))),
    {
        self.colors(side) != (self.colored_pieces(side, Piece::King) | self.colored_pieces(
            side,
            Piece::Pawn,
        ))
    }

    pub fn by_color(&self) -> (r: [u64; 2])
        ensures
            r == self.colors,
    {
        self.colors
    }

    pub fn by_piece(&self) -> (r: [u64; 6])
        ensures
            r == self.pieces,
    {
        self.pieces
    }

    pub fn color_piece_on(&self, sq: u8) -> (r: Option<ColoredPiece>)
        requires
            sq < 64,
        ensures
            r == match (self.color_on_spec(sq as int), self.piece_on_spec(sq as int)) {
                (Some(c), Some(p)) => Some(ColoredPiece { color: c, piece: p }),
                _ => None,
            },
    {
        match (self.color_on(sq), self.piece_on(sq)) {
            (Some(c), Some(p)) => Some(ColoredPiece::new(c, p)),
            _ => None,
        }
    }

    /// Where king and rook land when castling with move `m` (king takes rook):
    /// the G and F files to the right, the C and D files to the left, on the king's rank.
    pub fn castle_to(&self, m: Move) -> (r: (u8, u8))
        requires
            move_on_board(m),
        ensures
            r.0 < 64 && r.1 < 64,
            m.to > m.from ==> r.0 == rank_of(m.from as int) * 8 + 6 && r.1 == rank_of(
                m.from as int,
            ) * 8 + 5,
            m.to <= m.from ==> r.0 == rank_of(m.from as int) * 8 + 2 && r.1 == rank_of(
                m.from as int,
            ) * 8 + 3,
    {
        let rank = square_rank(m.from);
        if m.to > m.from {
            (make_square(6, rank), make_square(5, rank))
        } else {
            (make_square(2, rank), make_square(3, rank))
        }
    }

    /// The position's hash, leaving out the en passant file when no pawn of the side to move
    /// could make that capture (so that equal positions hash equally).
    pub fn correct_hash(&self) -> (r: u64)
        requires
            self.wf(),
        ensures
            r == self.correct_hash_spec(),
    {
        match self.ep_square() {
            None => self.hash,
            Some(ep_square) => {
                let them = self.side_to_move.other();
                let origins = get_pawn_attacks(ep_square, them == Color::Black);
                if self.colored_pieces(self.side_to_move, Piece::Pawn) & origins == 0 {
                    self.hash_without_ep
                } else {
                    self.hash
                }
            },
        }
    }

    /// Only kings; a king and one minor piece against a king; or two bishops standing on
    /// squares of the same color (one per side, or both of one side) beside the kings.
    pub fn has_insufficient_material(&self) -> (r: bool)
        requires
            self.wf(),
        ensures
            r == insufficient_material_spec(*self),
    {
        let count = bitboard_len(self.occupied());
        if count == 2 {
            return true;
        }
        if count == 3 {
            if self.pieces(Piece::Bishop) != 0 || self.pieces(Piece::Knight) != 0 {
                return true;
            }
        }
        if count == 4 {
            let white_bishops = self.colored_pieces(Color::White, Piece::Bishop);
            let black_bishops = self.colored_pieces(Color::Black, Piece::Bishop);
            if white_bishops != 0 && black_bishops != 0 {
                let wb = lsb(white_bishops);
                let bb = lsb(black_bishops);
                if same_color(wb, bb) {
                    return true;
                }
            }
            proof { lemma_count_empty(64); }
            if bitboard_len(white_bishops) == 2 {
                let sq1 = lsb(white_bishops);
                let rest = white_bishops ^ square_bitboard(sq1);
                proof { lemma_two_squares_rest(white_bishops, sq1); }
                let sq2 = lsb(rest);
                if same_color(sq1, sq2) {
                    return true;
                }
            } else if bitboard_len(black_bishops) == 2 {
                let sq1 = lsb(black_bishops);
                let rest = black_bishops ^ square_bitboard(sq1);
                proof { lemma_two_squares_rest(black_bishops, sq1); }
                let sq2 = lsb(rest);
                if same_color(sq1, sq2) {
                    return true;
                }
            }
        }
        false
    }
}

/// Whether two squares have the same color.
pub open spec fn same_color_spec(a: int, b: int) -> bool {
    (file_of(a) + rank_of(a)) % 2 == (file_of(b) + rank_of(b)) % 2
}

/// Whether the two lowest squares of a two-square bitboard have the same color.
pub open spec fn pair_same_color(bb: u64) -> bool {
    let s1 = lsb_spec(bb);
    same_color_spec(s1, lsb_spec(bb ^ sq_bb(s1)))
}

pub open spec fn insufficient_material_spec(pos: Position) -> bool {
    let count = popcount(pos.occupied_spec());
    let wb = pos.colored_spec(Color::White, Piece::Bishop);
    let bb = pos.colored_spec(Color::Black, Piece::Bishop);
    if count == 2 {
        true
    } else if count == 3 && (pos.pieces[2] != 0 || pos.pieces[1] != 0) {
        true
    } else if count == 4 {
        if wb != 0 && bb != 0 && same_color_spec(lsb_spec(wb), lsb_spec(bb)) {
            true
        } else if popcount(wb) == 2 {
            pair_same_color(wb)
        } else if popcount(bb) == 2 {
            pair_same_color(bb)
        } else {
            false
        }
    } else {
        false
    }
}

/// Removing the lowest square of a bitboard with two squares leaves a nonempty bitboard.
proof fn lemma_two_squares_rest(bb: u64, s: u8)
    requires
        popcount(bb) == 2,
        s == lsb_spec(bb),
        s < 64,
        bb_has(bb, s as int),
    ensures
        bb ^ sq_bb(s as int) != 0,
{
    if bb ^ sq_bb(s as int) == 0 {
        let su = s as u64;
        assert(bb ^ (1u64 << su) == 0 ==> bb == 1u64 << su) by (bit_vector);
        lemma_single_square_count(bb, s as int, 64);
        assert(false);
    }
}

/// A bitboard holding exactly one square `s` has at most one square among any prefix.
proof fn lemma_single_square_count(bb: u64, s: int, n: nat)
    requires
        0 <= s < 64,
        bb == sq_bb(s),
        n <= 64,
    ensures
        count_upto(bb, n) == (if n > s { 1nat } else { 0nat }),
    decreases n,
{
    if n > 0 {
        lemma_single_square_count(bb, s, (n - 1) as nat);
        let i = (n - 1) as u64;
        let su = s as u64;
        assert(i < 64 && su < 64 && bb == 1u64 << su ==> ((bb & (1u64 << i) != 0) == (i == su)))
            by (bit_vector);
    }
}


// ---------------------------------------------------------------------------------------------
// pins

/// The enemy sliders lined up with `color`'s king on `king` on an empty board.
pub open spec fn king_sliders(pos: Position, color: Color, king: u8) -> u64 {
    pos.colors[color_index(opposite(color))] & ((bishop_rays(king) & (pos.pieces[2] | pos.pieces[4]))
        | (rook_rays(king) & (pos.pieces[3] | pos.pieces[4])))
}

/// Scanning the sliders of `attackers` below square `n` against the king on `king`: the
/// pieces standing alone between a slider and the king (pinned), the sliders with nothing
/// between (checkers) and the sliders with one piece between (pinners).
pub open spec fn pin_scan(pos: Position, attackers: u64, king: u8, n: nat) -> (u64, u64, u64)
    decreases n,
{
    if n == 0 {
        (0u64, 0u64, 0u64)
    } else {
        let (pinned, checkers, pinners) = pin_scan(pos, attackers, king, (n - 1) as nat);
        let s = n - 1;
        if !bb_has(attackers, s) {
            (pinned, checkers, pinners)
        } else {
            let between = between_rays(s as u8, king) & pos.occupied_spec();
            if popcount(between) == 0 {
                (pinned, checkers | sq_bb(s), pinners)
            } else if popcount(between) == 1 {
                (pinned | between, checkers, pinners | sq_bb(s))
            } else {
                (pinned, checkers, pinners)
            }
        }
    }
}

impl Position {
    fn scan_pins(&self, color: Color) -> (r: (u64, u64, u64))
        requires
            self.wf(),
        ensures
            r == pin_scan(*self, king_sliders(*self, color, lsb_spec(self.colored_spec(color, Piece::King)) as u8),
                lsb_spec(self.colored_spec(color, Piece::King)) as u8, 64),
    {
        let king = self.king(color);
        let attackers = self.colors(color.other()) & ((get_bishop_rays(king) & (self.pieces(Piece::Bishop) | self.pieces(Piece::Queen)))
            | (get_rook_rays(king) & (self.pieces(Piece::Rook) | self.pieces(Piece::Queen))));
        let occ = self.occupied();
        let mut pinned: u64 = 0;
        let mut checkers: u64 = 0;
        let mut pinners: u64 = 0;
        let mut s: u8 = 0;
        while s < 64
            invariant
                s <= 64,
                king < 64,
                occ == self.occupied_spec(),
                (pinned, checkers, pinners) == pin_scan(*self, attackers, king, s as nat),
            decreases 64 - s,
        {
            if attackers & (1u64 << s) != 0 {
                let between = get_between_rays(s, king) & occ;
                let n = bitboard_len(between);
                if n == 0 {
                    checkers = checkers | (1u64 << s);
                } else if n == 1 {
                    pinned = pinned | between;
                    pinners = pinners | (1u64 << s);
                }
            }
            s += 1;
        }
        (pinned, checkers, pinners)
    }

    /// For the side that just moved: its pieces' pins and the checks against its king, as
    /// (pinned pieces, checking sliders).
    pub fn opp_pinned_checkers(&self) -> (r: (u64, u64))
        requires
            self.wf(),
        ensures
            ({
                let c = opposite(self.side_to_move);
                let k = lsb_spec(self.colored_spec(c, Piece::King)) as u8;
                let (pinned, checkers, _) = pin_scan(*self, king_sliders(*self, c, k), k, 64);
                r == (pinned, checkers)
            }),
    {
        let (pinned, checkers, _) = self.scan_pins(self.side_to_move.other());
        (pinned, checkers)
    }

    /// For the side that just moved: (pinned pieces, pinning sliders).
    pub fn opp_pinned_pinners(&self) -> (r: (u64, u64))
        requires
            self.wf(),
        ensures
            ({
                let c = opposite(self.side_to_move);
                let k = lsb_spec(self.colored_spec(c, Piece::King)) as u8;
                let (pinned, _, pinners) = pin_scan(*self, king_sliders(*self, c, k), k, 64);
                r == (pinned, pinners)
            }),
    {
        let (pinned, _, pinners) = self.scan_pins(self.side_to_move.other());
        (pinned, pinners)
    }

    /// The enemy sliders pinning a piece to the king of the side to move.
    pub fn pinners(&self) -> (r: u64)
        requires
            self.wf(),
        ensures
            ({
                let c = self.side_to_move;
                let k = lsb_spec(self.colored_spec(c, Piece::King)) as u8;
                r == pin_scan(*self, king_sliders(*self, c, k), k, 64).2
            }),
    {
        let (_, _, pinners) = self.scan_pins(self.side_to_move);
        pinners
    }
}

} // verus!
