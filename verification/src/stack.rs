//! Stacks the search keeps along the current line: position keys for repetition
//! detection, the pawn / piece-group keys used by the correction histories, the principal
//! variation and the per-ply search entries.

use vstd::prelude::*;
use crate::chess::{Color, Piece, ColoredPiece, Move, MoveType, opposite, move_on_board, color_index, bb_has};
use crate::threats::{Threats, piece_attacks_spec, lemma_or_zero};
use crate::position::Position;
use crate::zobrist::{zkey, zobrist_pst};
use crate::chess::null_move_spec;
use crate::param::VALUE_NONE;
use crate::movelist::{pv_items, pv_new, pv_len, pv_push, pv_get, pv_clear};
use arrayvec::ArrayVec;

verus! {

/// Capacity of the key stack: the deepest line plus the game history the fifty-move rule
/// can still reach.
pub const KEY_STACK_SIZE: usize = 174;

/// Hashes of the positions on the path from the game start to the current node.
pub struct KeyStack {
    pub keys: [u64; 174],
    pub head: usize,
}

impl KeyStack {
    /// The keys that are on the stack, oldest first.
    pub open spec fn view(&self) -> Seq<u64> {
        self.keys@.subrange(0, self.head as int)
    }

    pub open spec fn wf(&self) -> bool {
        self.head <= KEY_STACK_SIZE
    }

    pub fn new() -> (r: Self)
        ensures
            r.wf(),
            r@ == Seq::<u64>::empty(),
            r.keys@ == Seq::new(174, |i: int| 0u64),
    {
        let r = Self { keys: [0; 174], head: 0 };
        assert(r.keys@ =~= Seq::new(174, |i: int| 0u64));
        r
    }

    pub fn push(&mut self, key: u64)
        requires
            old(self).head < KEY_STACK_SIZE,
        ensures
            final(self).wf(),
            final(self).head == old(self).head + 1,
            final(self).keys@ == old(self).keys@.update(old(self).head as int, key),
            final(self)@ == old(self)@.push(key),
    {
        self.keys[self.head] = key;
        self.head += 1;
        assert(self@ =~= old(self)@.push(key));
    }

    pub fn pop(&mut self)
        requires
            old(self).head > 0,
            old(self).wf(),
        ensures
            final(self).wf(),
            final(self).keys == old(self).keys,
            final(self).head == old(self).head - 1,
            final(self)@ == old(self)@.drop_last(),
    {
        self.head -= 1;
        assert(self@ =~= old(self)@.drop_last());
    }

    pub fn clear(&mut self)
        ensures
            final(self).wf(),
            final(self).keys == old(self).keys,
            final(self)@ == Seq::<u64>::empty(),
    {
        self.head = 0;
        assert(self@ =~= Seq::<u64>::empty());
    }
}

/// Pushing a key and popping it again leaves the stack as it was.
pub proof fn lemma_key_stack_push_pop(before: Seq<u64>, key: u64)
    ensures
        before.push(key).drop_last() == before,
{
    assert(before.push(key).drop_last() =~= before);
}

/// Depth of the key stacks of `PawnKey`.
pub const PAWN_KEY_SIZE: usize = 64;

/// Per-ply keys of piece groups: pawns, each side's non-pawn pieces, the major pieces
/// (king, queen, rook) and the minor ones (pawn, bishop, knight).
pub struct PawnKey {
    pub pawns: [u64; 64],
    pub colored: [[u64; 2]; 64],
    pub major: [u64; 64],
    pub minor: [u64; 64],
    pub size: usize,
}

/// XOR of the keys of the pieces on squares below `n` that `sel` picks.
pub open spec fn key_fold(pos: Position, sel: spec_fn(ColoredPiece) -> bool, n: nat) -> u64
    decreases n,
{
    if n == 0 {
        0
    } else {
        let s = (n - 1) as int;
        let rest = key_fold(pos, sel, (n - 1) as nat);
        match (pos.color_on_spec(s), pos.piece_on_spec(s)) {
            (Some(c), Some(p)) => if sel(ColoredPiece { color: c, piece: p }) {
                rest ^ zkey(c, p, s)
            } else {
                rest
            },
            _ => rest,
        }
    }
}

pub open spec fn sel_pawn() -> spec_fn(ColoredPiece) -> bool {
    |cp: ColoredPiece| cp.piece == Piece::Pawn
}

pub open spec fn sel_colored(c: Color) -> spec_fn(ColoredPiece) -> bool {
    |cp: ColoredPiece| cp.color == c && cp.piece != Piece::Pawn
}

pub open spec fn is_major(p: Piece) -> bool {
    p == Piece::King || p == Piece::Queen || p == Piece::Rook
}

pub open spec fn sel_major() -> spec_fn(ColoredPiece) -> bool {
    |cp: ColoredPiece| is_major(cp.piece)
}

pub open spec fn sel_minor() -> spec_fn(ColoredPiece) -> bool {
    |cp: ColoredPiece| !is_major(cp.piece)
}

/// The keys `PawnKey::init` computes for a position.
pub open spec fn pawn_key_of(pos: Position) -> u64 {
    key_fold(pos, sel_pawn(), 64)
}

pub open spec fn colored_key_of(pos: Position, c: Color) -> u64 {
    key_fold(pos, sel_colored(c), 64)
}

pub open spec fn major_key_of(pos: Position) -> u64 {
    key_fold(pos, sel_major(), 64)
}

pub open spec fn minor_key_of(pos: Position) -> u64 {
    key_fold(pos, sel_minor(), 64)
}

/// A key placed in the slot of color `c`: (white part, black part).
pub open spec fn put_side(c: Color, k: u64) -> (u64, u64) {
    if c == Color::White { (k, 0u64) } else { (0u64, k) }
}

/// Whether a piece counts with the minor group (pawn, bishop, knight).
pub open spec fn is_minor(p: Piece) -> bool {
    p == Piece::Pawn || p == Piece::Bishop || p == Piece::Knight
}

/// Key changes (pawn, white pieces, black pieces, major, minor) of castling.
pub open spec fn castle_delta(pos: Position, m: Move) -> (u64, u64, u64, u64, u64) {
    let us = pos.side_to_move;
    let rank = (m.from as int) / 8;
    let king_to = if m.to > m.from { rank * 8 + 6 } else { rank * 8 + 2 };
    let rook_to = if m.to > m.from { rank * 8 + 5 } else { rank * 8 + 3 };
    let k = zkey(us, Piece::King, m.from as int) ^ zkey(us, Piece::King, king_to) ^ zkey(
        us,
        Piece::Rook,
        m.to as int,
    ) ^ zkey(us, Piece::Rook, rook_to);
    (0, put_side(us, k).0, put_side(us, k).1, k, 0)
}

/// Key changes of a promotion, with or without a capture.
pub open spec fn promotion_delta(pos: Position, m: Move) -> (u64, u64, u64, u64, u64) {
    let us = pos.side_to_move;
    let them = opposite(us);
    let t = m.to as int;
    let pk = zkey(us, Piece::Pawn, m.from as int);
    let promo = m.promotion.unwrap();
    let promo_key = zkey(us, promo, t);
    let minor0 = pk ^ (if is_minor(promo) { promo_key } else { 0 });
    let major0: u64 = if is_minor(promo) { 0 } else { promo_key };
    match pos.piece_on_spec(t) {
        Some(target) => {
            let tk = zkey(them, target, t);
            (
                pk,
                put_side(us, promo_key).0 ^ put_side(them, tk).0,
                put_side(us, promo_key).1 ^ put_side(them, tk).1,
                if is_minor(target) { major0 } else { major0 ^ tk },
                if is_minor(target) { minor0 ^ tk } else { minor0 },
            )
        },
        None => (pk, put_side(us, promo_key).0, put_side(us, promo_key).1, major0, minor0),
    }
}

/// Key changes of an en passant capture.
pub open spec fn en_passant_delta(pos: Position, m: Move) -> (u64, u64, u64, u64, u64) {
    let us = pos.side_to_move;
    let k = zkey(us, Piece::Pawn, m.from as int) ^ zkey(us, Piece::Pawn, m.to as int) ^ zkey(
        opposite(us),
        Piece::Pawn,
        pos.ep_capture_square_spec().unwrap(),
    );
    (k, 0, 0, 0, k)
}

/// Key changes of a plain move, with or without a capture.
pub open spec fn normal_delta(pos: Position, m: Move) -> (u64, u64, u64, u64, u64) {
    let us = pos.side_to_move;
    let them = opposite(us);
    let t = m.to as int;
    let piece = pos.piece_on_spec(m.from as int).unwrap();
    let mk = zkey(us, piece, m.from as int) ^ zkey(us, piece, t);
    let pawn0: u64 = if piece == Piece::Pawn { mk } else { 0 };
    let side0 = if piece == Piece::Pawn { (0u64, 0u64) } else { put_side(us, mk) };
    let major0: u64 = if is_minor(piece) { 0 } else { mk };
    let minor0: u64 = if is_minor(piece) { mk } else { 0 };
    match pos.piece_on_spec(t) {
        Some(target) => {
            let tk = zkey(them, target, t);
            let side1 = if target == Piece::Pawn { (0u64, 0u64) } else { put_side(them, tk) };
            (
                if target == Piece::Pawn { pawn0 ^ tk } else { pawn0 },
                side0.0 ^ side1.0,
                side0.1 ^ side1.1,
                if is_minor(target) { major0 } else { major0 ^ tk },
                if is_minor(target) { minor0 ^ tk } else { minor0 },
            )
        },
        None => (pawn0, side0.0, side0.1, major0, minor0),
    }
}

/// The key changes (pawn, white pieces, black pieces, major, minor), as XOR masks, that
/// move `m` makes in position `pos`.
pub open spec fn key_delta(pos: Position, m: Move) -> (u64, u64, u64, u64, u64) {
    match pos.move_type_spec(m) {
        MoveType::CASTLE => castle_delta(pos, m),
        MoveType::PROMOTION => promotion_delta(pos, m),
        MoveType::ENPASSENT => en_passant_delta(pos, m),
        MoveType::NORMAL => normal_delta(pos, m),
        MoveType::NONE => (0, 0, 0, 0, 0),
    }
}

/// Places a key in the slot of color `c`.
fn put_side_exec(c: Color, k: u64) -> (r: (u64, u64))
    ensures
        r == put_side(c, k),
{
    match c {
        Color::White => (k, 0),
        Color::Black => (0, k),
    }
}

fn is_minor_exec(p: Piece) -> (r: bool)
    ensures
        r == is_minor(p),
{
    p == Piece::Pawn || p == Piece::Bishop || p == Piece::Knight
}

fn castle_delta_exec(pos: &Position, m: Move) -> (r: (u64, u64, u64, u64, u64))
    requires
        move_on_board(m),
    ensures
        r == castle_delta(*pos, m),
{
    let us = pos.side_to_move;
    let (king_to, rook_to) = pos.castle_to(m);
    let k = zobrist_pst(us, Piece::King, m.from) ^ zobrist_pst(us, Piece::King, king_to)
        ^ zobrist_pst(us, Piece::Rook, m.to) ^ zobrist_pst(us, Piece::Rook, rook_to);
    let (w, b) = put_side_exec(us, k);
    (0, w, b, k, 0)
}

fn promotion_delta_exec(pos: &Position, m: Move) -> (r: (u64, u64, u64, u64, u64))
    requires
        move_on_board(m),
        m.promotion is Some,
    ensures
        r == promotion_delta(*pos, m),
{
    let us = pos.side_to_move;
    let them = us.other();
    let pk = zobrist_pst(us, Piece::Pawn, m.from);
    let promo = m.promotion.unwrap();
    let promo_key = zobrist_pst(us, promo, m.to);
    let minor0 = pk ^ (if is_minor_exec(promo) { promo_key } else { 0 });
    let major0: u64 = if is_minor_exec(promo) { 0 } else { promo_key };
    let (pw, pb) = put_side_exec(us, promo_key);
    match pos.piece_on(m.to) {
        Some(target) => {
            let tk = zobrist_pst(them, target, m.to);
            let (tw, tb) = put_side_exec(them, tk);
            let minor_target = is_minor_exec(target);
            (
                pk,
                pw ^ tw,
                pb ^ tb,
                if minor_target { major0 } else { major0 ^ tk },
                if minor_target { minor0 ^ tk } else { minor0 },
            )
        },
        None => (pk, pw, pb, major0, minor0),
    }
}

fn en_passant_delta_exec(pos: &Position, m: Move) -> (r: (u64, u64, u64, u64, u64))
    requires
        pos.wf(),
        move_on_board(m),
        pos.en_passant is Some,
    ensures
        r == en_passant_delta(*pos, m),
{
    let us = pos.side_to_move;
    let cap = pos.ep_capture_square().unwrap();
    let k = zobrist_pst(us, Piece::Pawn, m.from) ^ zobrist_pst(us, Piece::Pawn, m.to)
        ^ zobrist_pst(us.other(), Piece::Pawn, cap);
    (k, 0, 0, 0, k)
}

fn normal_delta_exec(pos: &Position, m: Move) -> (r: (u64, u64, u64, u64, u64))
    requires
        move_on_board(m),
        pos.piece_on_spec(m.from as int) is Some,
    ensures
        r == normal_delta(*pos, m),
{
    let us = pos.side_to_move;
    let them = us.other();
    let piece = pos.piece_on(m.from).unwrap();
    let mk = zobrist_pst(us, piece, m.from) ^ zobrist_pst(us, piece, m.to);
    let pawn0: u64 = if piece == Piece::Pawn { mk } else { 0 };
    let side0 = if piece == Piece::Pawn { (0u64, 0u64) } else { put_side_exec(us, mk) };
    let minor_piece = is_minor_exec(piece);
    let major0: u64 = if minor_piece { 0 } else { mk };
    let minor0: u64 = if minor_piece { mk } else { 0 };
    match pos.piece_on(m.to) {
        Some(target) => {
            let tk = zobrist_pst(them, target, m.to);
            let side1 = if target == Piece::Pawn { (0u64, 0u64) } else { put_side_exec(them, tk) };
            let minor_target = is_minor_exec(target);
            (
                if target == Piece::Pawn { pawn0 ^ tk } else { pawn0 },
                side0.0 ^ side1.0,
                side0.1 ^ side1.1,
                if minor_target { major0 } else { major0 ^ tk },
                if minor_target { minor0 ^ tk } else { minor0 },
            )
        },
        None => (pawn0, side0.0, side0.1, major0, minor0),
    }
}

/// The key changes move `m` makes in `pos`.
fn key_delta_exec(pos: &Position, m: Move) -> (r: (u64, u64, u64, u64, u64))
    requires
        pos.wf(),
        move_on_board(m),
        pos.move_type_spec(m) == MoveType::NORMAL ==> pos.piece_on_spec(m.from as int) is Some,
    ensures
        r == key_delta(*pos, m),
{
    match pos.move_type(m) {
        MoveType::CASTLE => castle_delta_exec(pos, m),
        MoveType::PROMOTION => promotion_delta_exec(pos, m),
        MoveType::ENPASSENT => en_passant_delta_exec(pos, m),
        MoveType::NORMAL => normal_delta_exec(pos, m),
        MoveType::NONE => (0, 0, 0, 0, 0),
    }
}

impl PawnKey {
    pub open spec fn wf(&self) -> bool {
        self.size <= PAWN_KEY_SIZE
    }

    /// The top keys are those `init` computes for `pos`.
    pub open spec fn keys_match(&self, pos: Position) -> bool {
        &&& 0 < self.size <= PAWN_KEY_SIZE
        &&& self.pawns[self.size - 1] == pawn_key_of(pos)
        &&& self.colored[self.size - 1][0] == colored_key_of(pos, Color::White)
        &&& self.colored[self.size - 1][1] == colored_key_of(pos, Color::Black)
        &&& self.major[self.size - 1] == major_key_of(pos)
        &&& self.minor[self.size - 1] == minor_key_of(pos)
    }

    pub fn new() -> (r: Self)
        ensures
            r.wf(),
            r.size == 0,
    {
        Self { pawns: [0; 64], colored: [[0; 2]; 64], major: [0; 64], minor: [0; 64], size: 0 }
    }

    /// Starts the stacks with the keys of `board`.
    pub fn init(&mut self, board: &Position)
        ensures
            final(self).size == 1,
            final(self).pawns[0] == pawn_key_of(*board),
            final(self).colored[0][0] == colored_key_of(*board, Color::White),
            final(self).colored[0][1] == colored_key_of(*board, Color::Black),
            final(self).major[0] == major_key_of(*board),
            final(self).minor[0] == minor_key_of(*board),
            final(self).keys_match(*board),
    {
        let mut pawn: u64 = 0;
        let mut white: u64 = 0;
        let mut black: u64 = 0;
        let mut major: u64 = 0;
        let mut minor: u64 = 0;
        let mut sq: u8 = 0;
        while sq < 64
            invariant
                sq <= 64,
                pawn == key_fold(*board, sel_pawn(), sq as nat),
                white == key_fold(*board, sel_colored(Color::White), sq as nat),
                black == key_fold(*board, sel_colored(Color::Black), sq as nat),
                major == key_fold(*board, sel_major(), sq as nat),
                minor == key_fold(*board, sel_minor(), sq as nat),
            decreases 64 - sq,
        {
            match board.color_piece_on(sq) {
                Some(cp) => {
                    let k = zobrist_pst(cp.color, cp.piece, sq);
                    if cp.piece == Piece::Pawn {
                        pawn = pawn ^ k;
                    } else {
                        match cp.color {
                            Color::White => { white = white ^ k; },
                            Color::Black => { black = black ^ k; },
                        }
                    }
                    if cp.piece == Piece::King || cp.piece == Piece::Queen || cp.piece == Piece::Rook {
                        major = major ^ k;
                    } else {
                        minor = minor ^ k;
                    }
                },
                None => {},
            }
            sq = sq + 1;
        }
        self.pawns[0] = pawn;
        self.colored[0] = [white, black];
        self.major[0] = major;
        self.minor[0] = minor;
        self.size = 1;
    }

    /// Pushes the keys of the position after `m` is played in `board`.
    pub fn push(&mut self, board: &Position, m: Move)
        requires
            old(self).size > 0,
            old(self).size < PAWN_KEY_SIZE,
            board.wf(),
            move_on_board(m),
            board.move_type_spec(m) == MoveType::NORMAL ==> board.piece_on_spec(m.from as int) is Some,
        ensures
            final(self).size == old(self).size + 1,
            final(self).pawns[old(self).size as int] == old(self).pawns[old(self).size - 1]
                ^ key_delta(*board, m).0,
            final(self).colored[old(self).size as int][0] == old(self).colored[old(self).size
                - 1][0] ^ key_delta(*board, m).1,
            final(self).colored[old(self).size as int][1] == old(self).colored[old(self).size
                - 1][1] ^ key_delta(*board, m).2,
            final(self).major[old(self).size as int] == old(self).major[old(self).size - 1]
                ^ key_delta(*board, m).3,
            final(self).minor[old(self).size as int] == old(self).minor[old(self).size - 1]
                ^ key_delta(*board, m).4,
            forall|i: int| 0 <= i < old(self).size ==> final(self).pawns[i] == old(self).pawns[i]
                && final(self).colored[i] == old(self).colored[i] && final(self).major[i]
                == old(self).major[i] && final(self).minor[i] == old(self).minor[i],
    {
        let s = self.size;
        let d = key_delta_exec(board, m);
        let next_pawn = self.pawns[s - 1] ^ d.0;
        let next_w = self.colored[s - 1][0] ^ d.1;
        let next_b = self.colored[s - 1][1] ^ d.2;
        let next_major = self.major[s - 1] ^ d.3;
        let next_minor = self.minor[s - 1] ^ d.4;
        self.pawns[s] = next_pawn;
        self.colored[s] = [next_w, next_b];
        self.major[s] = next_major;
        self.minor[s] = next_minor;
        self.size = s + 1;
    }

    pub fn pop(&mut self)
        requires
            old(self).size > 0,
        ensures
            final(self).size == old(self).size - 1,
            final(self).pawns == old(self).pawns,
            final(self).colored == old(self).colored,
            final(self).major == old(self).major,
            final(self).minor == old(self).minor,
    {
        self.size -= 1;
    }

    pub fn get(&self) -> (r: u64)
        requires
            0 < self.size <= PAWN_KEY_SIZE,
        ensures
            r == self.pawns[self.size - 1],
    {
        self.pawns[self.size - 1]
    }

    pub fn get_colored(&self) -> (r: [u64; 2])
        requires
            0 < self.size <= PAWN_KEY_SIZE,
        ensures
            r == self.colored[self.size - 1],
    {
        self.colored[self.size - 1]
    }

    pub fn get_major(&self) -> (r: u64)
        requires
            0 < self.size <= PAWN_KEY_SIZE,
        ensures
            r == self.major[self.size - 1],
    {
        self.major[self.size - 1]
    }

    pub fn get_minor(&self) -> (r: u64)
        requires
            0 < self.size <= PAWN_KEY_SIZE,
        ensures
            r == self.minor[self.size - 1],
    {
        self.minor[self.size - 1]
    }

    /// The key of the opponent's pieces that the side to move attacks.
    pub fn get_threats(&self, pos: &Position) -> (r: u64)
        requires
            occupied_has_pieces(*pos),
        ensures
            r == threat_key_of(*pos),
    {
        let occ = pos.occupied();
        let stm = pos.side_to_move;
        let own = pos.colors(stm);
        let opp = pos.colors(stm.other());
        let mut threats: u64 = 0;
        let mut sq: u8 = 0;
        while sq < 64
            invariant
                sq <= 64,
                occ == pos.occupied_spec(),
                stm == pos.side_to_move,
                own == pos.colors[color_index(stm)],
                threats == own_attacks(*pos, sq as nat),
            decreases 64 - sq,
        {
            if own & (1u64 << sq) != 0 {
                match pos.piece_on(sq) {
                    Some(p) => {
                        threats = threats | Threats::get_attacks(occ, sq, p, stm);
                    },
                    None => {
                        proof { lemma_or_zero(threats); }
                    },
                }
            } else {
                proof { lemma_or_zero(threats); }
            }
            sq = sq + 1;
        }
        threats = threats & opp;
        let mut key: u64 = 0;
        let mut sq: u8 = 0;
        while sq < 64
            invariant
                sq <= 64,
                stm == pos.side_to_move,
                threats == threatened_spec(*pos),
                key == threat_key_fold(*pos, threats, sq as nat),
            decreases 64 - sq,
        {
            if threats & (1u64 << sq) != 0 {
                match pos.piece_on(sq) {
                    Some(p) => {
                        key = key ^ zobrist_pst(stm.other(), p, sq);
                    },
                    None => {},
                }
            }
            sq = sq + 1;
        }
        key
    }
}

/// Every occupied square holds a piece kind.
pub open spec fn occupied_has_pieces(pos: Position) -> bool {
    forall|s: int| 0 <= s < 64 && #[trigger] bb_has(pos.occupied_spec(), s) ==> pos.piece_on_spec(s) is Some
}

/// The union of the attacks of the side to move's pieces on squares below `n`.
pub open spec fn own_attacks(pos: Position, n: nat) -> u64
    decreases n,
{
    if n == 0 {
        0
    } else {
        let s = n - 1;
        own_attacks(pos, (n - 1) as nat) | (if bb_has(pos.colors[color_index(pos.side_to_move)], s) {
            match pos.piece_on_spec(s) {
                Some(p) => piece_attacks_spec(pos.occupied_spec(), s as u8, p, pos.side_to_move),
                None => 0,
            }
        } else {
            0
        })
    }
}

/// XOR of the keys of the opponent's pieces on the squares of `threats` below `n`.
pub open spec fn threat_key_fold(pos: Position, threats: u64, n: nat) -> u64
    decreases n,
{
    if n == 0 {
        0
    } else {
        let s = n - 1;
        let rest = threat_key_fold(pos, threats, (n - 1) as nat);
        if bb_has(threats, s) {
            match pos.piece_on_spec(s) {
                Some(p) => rest ^ zkey(opposite(pos.side_to_move), p, s),
                None => rest,
            }
        } else {
            rest
        }
    }
}

/// The opponent's pieces that the side to move attacks.
pub open spec fn threatened_spec(pos: Position) -> u64 {
    own_attacks(pos, 64) & pos.colors[color_index(opposite(pos.side_to_move))]
}

/// The key of the opponent's pieces under attack.
pub open spec fn threat_key_of(pos: Position) -> u64 {
    threat_key_fold(pos, threatened_spec(pos), 64)
}



/// A principal variation: the best line found, first move first.
#[derive(Debug)]
pub struct PvList {
    moves: ArrayVec<Move, 64>,
}

impl PvList {
    /// The moves of the line.
    pub closed spec fn view(&self) -> Seq<Move> {
        pv_items(self.moves)
    }

    pub fn new() -> (r: Self)
        ensures
            r@ == Seq::<Move>::empty(),
    {
        PvList { moves: pv_new() }
    }

    pub fn clear(&mut self)
        ensures
            final(self)@ == Seq::<Move>::empty(),
    {
        pv_clear(&mut self.moves);
    }

    /// The line `m` followed by `other`.
    pub fn set(&mut self, m: &Move, other: &PvList)
        requires
            other@.len() < 64,
        ensures
            final(self)@ == seq![*m] + other@,
    {
        pv_clear(&mut self.moves);
        pv_push(&mut self.moves, *m);
        let n = pv_len(&other.moves);
        let mut i: usize = 0;
        while i < n
            invariant
                n == other@.len(),
                n < 64,
                i <= n,
                pv_items(self.moves) == seq![*m] + other@.take(i as int),
            decreases n - i,
        {
            let x = pv_get(&other.moves, i);
            pv_push(&mut self.moves, x);
            assert(seq![*m] + other@.take(i as int + 1) =~= (seq![*m] + other@.take(i as int)).push(x));
            i += 1;
        }
        assert(other@.take(n as int) =~= other@);
    }

    /// The first move of the line.
    pub fn pv(&self) -> (r: Move)
        requires
            self@.len() > 0,
        ensures
            r == self@[0],
    {
        pv_get(&self.moves, 0)
    }

    pub fn get(&self, i: usize) -> (r: Move)
        requires
            i < self@.len(),
        ensures
            r == self@[i as int],
    {
        pv_get(&self.moves, i)
    }

    pub fn get_moves(&self) -> (r: &ArrayVec<Move, 64>)
        ensures
            pv_items(*r) == self@,
    {
        &self.moves
    }

    pub fn len(&self) -> (r: usize)
        ensures
            r == self@.len(),
    {
        pv_len(&self.moves)
    }
}

/// What the search keeps per ply.
#[derive(Debug)]
pub struct SearchStack {
    pub ply: i8,
    pub m: Move,
    pub pv_list: PvList,
    pub adjusted_static: i16,
    pub tt_pv: bool,
    pub excluded: Move,
    pub conseq_checks: i32,
    pub verify_null: bool,
}

impl SearchStack {
    /// The entry of the root.
    pub fn new() -> (r: Self)
        ensures
            r.ply == 0,
            r.m == null_move_spec(),
            r.pv_list@ == Seq::<Move>::empty(),
            r.adjusted_static == VALUE_NONE,
            !r.tt_pv,
            r.excluded == null_move_spec(),
            r.conseq_checks == 0,
            !r.verify_null,
    {
        Self::new_ply(0)
    }

    /// A fresh entry for ply `ply`.
    pub fn new_ply(ply: i8) -> (r: Self)
        ensures
            r.ply == ply,
            r.m == null_move_spec(),
            r.pv_list@ == Seq::<Move>::empty(),
            r.adjusted_static == VALUE_NONE,
            !r.tt_pv,
            r.excluded == null_move_spec(),
            r.conseq_checks == 0,
            !r.verify_null,
    {
        SearchStack {
            ply,
            m: Move::null(),
            pv_list: PvList::new(),
            adjusted_static: VALUE_NONE,
            tt_pv: false,
            excluded: Move::null(),
            conseq_checks: 0,
            verify_null: false,
        }
    }
}

} // verus!
