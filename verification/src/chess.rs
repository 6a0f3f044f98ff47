//! The board model the engine's logic reads: colors, pieces, squares, moves and a position
//! held as bitboards, with the facts about it that the move generator supplies.

use vstd::prelude::*;

verus! {

/// Side of a piece or of the player to move.
#[derive(Clone, Copy, Debug, PartialEq, Eq, Structural)]
pub enum Color {
    White,
    Black,
}

/// Kind of a chess piece, in the engine's index order.
#[derive(Clone, Copy, Debug, PartialEq, Eq, Structural)]
pub enum Piece {
    Pawn,
    Knight,
    Bishop,
    Rook,
    Queen,
    King,
}

pub open spec fn color_index(c: Color) -> int {
    match c {
        Color::White => 0,
        Color::Black => 1,
    }
}

pub open spec fn piece_index(p: Piece) -> int {
    match p {
        Piece::Pawn => 0,
        Piece::Knight => 1,
        Piece::Bishop => 2,
        Piece::Rook => 3,
        Piece::Queen => 4,
        Piece::King => 5,
    }
}

pub open spec fn opposite(c: Color) -> Color {
    match c {
        Color::White => Color::Black,
        Color::Black => Color::White,
    }
}

impl Color {
    pub fn index(self) -> (r: usize)
        ensures
            r == color_index(self),
    {
        match self {
            Color::White => 0,
            Color::Black => 1,
        }
    }

    pub fn other(self) -> (r: Color)
        ensures
            r == opposite(self),
    {
        match self {
            Color::White => Color::Black,
            Color::Black => Color::White,
        }
    }

    pub fn from_index(i: usize) -> (r: Color)
        requires
            i < 2,
        ensures
            color_index(r) == i,
    {
        if i == 0 { Color::White } else { Color::Black }
    }
}

impl Piece {
    pub fn index(self) -> (r: usize)
        ensures
            r == piece_index(self),
    {
        match self {
            Piece::Pawn => 0,
            Piece::Knight => 1,
            Piece::Bishop => 2,
            Piece::Rook => 3,
            Piece::Queen => 4,
            Piece::King => 5,
        }
    }

    pub fn from_index(i: usize) -> (r: Piece)
        requires
            i < 6,
        ensures
            piece_index(r) == i,
    {
        if i == 0 {
            Piece::Pawn
        } else if i == 1 {
            Piece::Knight
        } else if i == 2 {
            Piece::Bishop
        } else if i == 3 {
            Piece::Rook
        } else if i == 4 {
            Piece::Queen
        } else {
            Piece::King
        }
    }
}

/// A piece together with its color.
#[derive(Clone, Copy, Debug, PartialEq, Eq, Structural)]
pub struct ColoredPiece {
    pub color: Color,
    pub piece: Piece,
}

pub open spec fn colored_index(cp: ColoredPiece) -> int {
    color_index(cp.color) * 6 + piece_index(cp.piece)
}

impl ColoredPiece {
    pub fn new(color: Color, piece: Piece) -> (r: Self)
        ensures
            r.color == color,
            r.piece == piece,
    {
        Self { color, piece }
    }

    /// Index in `0..12`: white pieces first, then black ones.
    pub fn index(&self) -> (r: usize)
        ensures
            r == colored_index(*self),
            r < 12,
    {
        self.color.index() * 6 + self.piece.index()
    }
}

/// Index of an optional colored piece; an empty square takes the index 12.
pub fn index_with_option(c: &Option<ColoredPiece>) -> (r: usize)
    ensures
        r == match c {
            None => 12,
            Some(cp) => colored_index(*cp),
        },
        r <= 12,
{
    match c {
        None => 12,
        Some(c) => c.index(),
    }
}

// ---------------------------------------------------------------------------------------------
// squares and bitboards

/// Whether square `sq` is set in bitboard `bb`.
pub open spec fn bb_has(bb: u64, sq: int) -> bool {
    bb & (1u64 << (sq as u64)) != 0
}

/// Bitboard holding only square `sq`.
pub open spec fn sq_bb(sq: int) -> u64 {
    1u64 << (sq as u64)
}

pub open spec fn file_of(sq: int) -> int {
    sq % 8
}

pub open spec fn rank_of(sq: int) -> int {
    sq / 8
}

/// The bitboard of one square.
pub fn square_bitboard(sq: u8) -> (r: u64)
    requires
        sq < 64,
    ensures
        r == sq_bb(sq as int),
{
    1u64 << sq
}

/// Square from file and rank, both in `0..8`.
pub fn make_square(file: u8, rank: u8) -> (r: u8)
    requires
        file < 8,
        rank < 8,
    ensures
        r == rank * 8 + file,
        r < 64,
{
    rank * 8 + file
}

pub fn square_file(sq: u8) -> (r: u8)
    requires
        sq < 64,
    ensures
        r == file_of(sq as int),
{
    sq % 8
}

pub fn square_rank(sq: u8) -> (r: u8)
    requires
        sq < 64,
    ensures
        r == rank_of(sq as int),
{
    sq / 8
}

/// The same square on the mirrored file (A <-> H).
pub fn flip_file(sq: u8) -> (r: u8)
    requires
        sq < 64,
    ensures
        r == rank_of(sq as int) * 8 + (7 - file_of(sq as int)),
        r < 64,
{
    let r = sq ^ 7;
    assert(r == (sq / 8) * 8 + (7 - sq % 8)) by (bit_vector)
        requires
            sq < 64,
            r == sq ^ 7,
    ;
    r
}

/// The square seen from `color`'s side of the board: black mirrors the ranks.
pub fn relative_to(sq: u8, color: Color) -> (r: u8)
    requires
        sq < 64,
    ensures
        r == (if color == Color::White { sq as int } else { (7 - rank_of(sq as int)) * 8
            + file_of(sq as int) }),
        r < 64,
{
    match color {
        Color::White => sq,
        Color::Black => {
            let r = sq ^ 56;
            assert(r == (7 - sq / 8) * 8 + sq % 8) by (bit_vector)
                requires
                    sq < 64,
                    r == sq ^ 56,
            ;
            r
        },
    }
}

/// Two squares have the same color on the board exactly when `file + rank` has the same parity.
pub fn same_color(a: u8, b: u8) -> (r: bool)
    requires
        a < 64,
        b < 64,
    ensures
        r == ((file_of(a as int) + rank_of(a as int)) % 2 == (file_of(b as int) + rank_of(
            b as int,
        )) % 2),
{
    let x: i32 = ((a ^ b) as i32) * 9;
    let r = (x & 8) == 0;
    assert(r == ((a % 8 + a / 8) % 2 == (b % 8 + b / 8) % 2)) by (bit_vector)
        requires
            a < 64,
            b < 64,
            x == ((a ^ b) as i32) * 9,
            r == ((x & 8) == 0),
    ;
    r
}

/// The lowest set square of a nonempty bitboard.
pub fn lsb(bb: u64) -> (r: u8)
    requires
        bb != 0,
    ensures
        r < 64,
        r == vstd::std_specs::bits::u64_trailing_zeros(bb),
        bb_has(bb, r as int),
        forall|s: int| 0 <= s < r ==> !bb_has(bb, s),
{
    let tz = bb.trailing_zeros();
    proof {
        vstd::std_specs::bits::axiom_u64_trailing_zeros(bb);
        let t = tz as u64;
        lemma_bit_test(bb, t);
        assert forall|s: int| 0 <= s < tz implies !bb_has(bb, s) by {
            let su = s as u64;
            assert((bb >> su) & 1u64 == 0u64);
            lemma_bit_test(bb, su);
        }
    }
    tz as u8
}

/// Testing bit `t` by shifting it down is testing it in place.
pub proof fn lemma_bit_test(bb: u64, t: u64)
    requires
        t < 64,
    ensures
        ((bb >> t) & 1 == 1) == (bb & (1u64 << t) != 0),
        ((bb >> t) & 1 == 0) == (bb & (1u64 << t) == 0),
{
    assert(((bb >> t) & 1 == 1) == (bb & (1u64 << t) != 0) && ((bb >> t) & 1 == 0) == (bb & (1u64 << t) == 0))
        by (bit_vector)
        requires t < 64;
}

/// Number of squares set among the lowest `n` squares.
pub open spec fn count_upto(bb: u64, n: nat) -> nat
    decreases n,
{
    if n == 0 {
        0
    } else {
        count_upto(bb, (n - 1) as nat) + (if bb_has(bb, n - 1) { 1nat } else { 0nat })
    }
}

/// Number of squares in a bitboard.
pub open spec fn popcount(bb: u64) -> nat {
    count_upto(bb, 64)
}

/// The empty bitboard has no squares in any prefix.
pub proof fn lemma_count_empty(n: nat)
    ensures
        count_upto(0, n) == 0,
    decreases n,
{
    if n > 0 {
        lemma_count_empty((n - 1) as nat);
        let i = (n - 1) as u64;
        assert(0u64 & (1u64 << i) == 0) by (bit_vector);
    }
}

/// Number of squares in a bitboard.
pub fn bitboard_len(bb: u64) -> (r: u32)
    ensures
        r == popcount(bb),
        r <= 64,
{
    let mut n: u32 = 0;
    let mut i: u64 = 0;
    while i < 64
        invariant
            i <= 64,
            n == count_upto(bb, i as nat),
            n <= i,
        decreases 64 - i,
    {
        if bb & (1u64 << i) != 0 {
            n = n + 1;
        }
        i = i + 1;
    }
    n
}

// ---------------------------------------------------------------------------------------------
// moves

/// A move: origin square, target square and the piece a pawn promotes to.
/// Castling is written as the king capturing its own rook.
#[derive(Clone, Copy, Debug, PartialEq, Eq, Structural)]
pub struct Move {
    pub from: u8,
    pub to: u8,
    pub promotion: Option<Piece>,
}

/// The move that stands for "no move" (A1 to A1).
pub open spec fn null_move_spec() -> Move {
    Move { from: 0, to: 0, promotion: None }
}

/// Bit encoding of "no move".
pub const NULL_MOVE_BITS: u16 = 24576;

/// The 15-bit encoding of a move: origin, target, then the promotion (6 for none).
pub open spec fn move_bits_spec(m: Move) -> int {
    m.from + m.to * 64 + (match m.promotion {
        None => 6,
        Some(p) => piece_index(p),
    }) * 4096
}

/// A move whose squares lie on the board.
pub open spec fn move_on_board(m: Move) -> bool {
    m.from < 64 && m.to < 64
}

impl Move {
    pub fn null() -> (r: Move)
        ensures
            r == null_move_spec(),
    {
        Move { from: 0, to: 0, promotion: None }
    }

    pub fn is_null(&self) -> (r: bool)
        ensures
            r == (*self == null_move_spec()),
    {
        self.from == 0 && self.to == 0 && self.promotion.is_none()
    }

    pub fn to_bits(&self) -> (r: u16)
        requires
            move_on_board(*self),
        ensures
            r == move_bits_spec(*self),
    {
        move_to_bits(*self)
    }

    /// Decodes the 15-bit encoding; a promotion field of 6 means no promotion.
    pub fn from_bits(value: u16) -> (r: Move)
        requires
            value / 4096 <= 6,
        ensures
            move_on_board(r),
            r.from == value % 64,
            r.to == (value / 64) % 64,
            r.promotion == (if value / 4096 < 6 {
                Some(piece_of_index((value / 4096) as int))
            } else {
                None::<Piece>
            }),
    {
        let from = (value & 63) as u8;
        let to = ((value >> 6) & 63) as u8;
        let promotion = value >> 12;
        assert(value & 63 == value % 64 && (value >> 6) & 63 == (value / 64) % 64 && value >> 12
            == value / 4096) by (bit_vector);
        Move {
            from,
            to,
            promotion: if promotion < 6 {
                Some(Piece::from_index(promotion as usize))
            } else {
                None
            },
        }
    }

    /// Promotion to a rook or a bishop.
    pub fn is_under_promotion(&self) -> (r: bool)
        ensures
            r == (self.promotion == Some(Piece::Rook) || self.promotion == Some(Piece::Bishop)
                || self.promotion == Some(Piece::Pawn) || self.promotion == Some(Piece::King)),
    {
        match self.promotion {
            None => false,
            Some(Piece::Queen) => false,
            Some(Piece::Knight) => false,
            _ => true,
        }
    }
}

pub open spec fn piece_of_index(i: int) -> Piece {
    if i == 0 {
        Piece::Pawn
    } else if i == 1 {
        Piece::Knight
    } else if i == 2 {
        Piece::Bishop
    } else if i == 3 {
        Piece::Rook
    } else if i == 4 {
        Piece::Queen
    } else {
        Piece::King
    }
}

/// The 15-bit encoding of a move.
pub fn move_to_bits(m: Move) -> (r: u16)
    requires
        move_on_board(m),
    ensures
        r == move_bits_spec(m),
{
    let from = m.from as u16;
    let to = m.to as u16;
    let promotion: u16 = match m.promotion {
        None => 6,
        Some(piece) => piece.index() as u16,
    };
    let r = from | (to << 6) | (promotion << 12);
    assert(r == from + to * 64 + promotion * 4096) by (bit_vector)
        requires
            from < 64,
            to < 64,
            promotion <= 6,
            r == from | (to << 6) | (promotion << 12),
    ;
    r
}

/// Whether a move is "no move", judged by its encoding.
pub fn move_is_null(m: Move) -> (r: bool)
    requires
        move_on_board(m),
    ensures
        r == (m == null_move_spec()),
{
    move_to_bits(m) == NULL_MOVE_BITS
}

/// Encoding a move and decoding it again gives the same move.
pub proof fn lemma_move_bits_roundtrip(m: Move, bits: u16)
    requires
        move_on_board(m),
        bits == move_bits_spec(m),
    ensures
        bits % 64 == m.from,
        (bits / 64) % 64 == m.to,
        (if bits / 4096 < 6 {
            Some(piece_of_index((bits / 4096) as int))
        } else {
            None::<Piece>
        }) == m.promotion,
{
}

/// Distinct moves on the board have distinct encodings.
pub proof fn lemma_move_bits_injective(a: Move, b: Move)
    requires
        move_on_board(a),
        move_on_board(b),
        move_bits_spec(a) == move_bits_spec(b),
    ensures
        a == b,
{
    let ba = move_bits_spec(a);
    assert(ba % 64 == a.from);
    assert(ba % 64 == b.from);
    assert((ba / 64) % 64 == a.to);
    assert((ba / 64) % 64 == b.to);
    assert(ba / 4096 == (match a.promotion { None => 6, Some(p) => piece_index(p) }));
    assert(ba / 4096 == (match b.promotion { None => 6, Some(p) => piece_index(p) }));
}

/// Kind of a move as the board sees it.
#[derive(Debug, Clone, Copy, PartialEq, Eq, Structural)]
pub enum MoveType {
    NORMAL,
    ENPASSENT,
    CASTLE,
    PROMOTION,
    NONE,
}

impl Default for MoveType {
    fn default() -> (r: Self)
        ensures
            r == MoveType::NONE,
    {
        MoveType::NONE
    }
}

} // verus!
