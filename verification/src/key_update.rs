//! The piece-group keys pushed along a line agree with the keys computed afresh for the
//! position each move leads to.

use vstd::prelude::*;
use crate::chess::{Color, Piece, ColoredPiece, Move, MoveType, opposite};
use crate::position::Position;
use crate::zobrist::zkey;
use crate::stack::{key_fold, key_delta, sel_pawn, sel_colored, sel_major, sel_minor, pawn_key_of, colored_key_of,
    major_key_of, minor_key_of, PawnKey, PAWN_KEY_SIZE};

verus! {

/// What stands on square `s`.
pub open spec fn occupant(pos: Position, s: int) -> Option<ColoredPiece> {
    match (pos.color_on_spec(s), pos.piece_on_spec(s)) {
        (Some(c), Some(p)) => Some(ColoredPiece { color: c, piece: p }),
        _ => None,
    }
}

/// Whether square `s` holds neither a color nor a piece.
pub open spec fn empty_square(pos: Position, s: int) -> bool {
    pos.color_on_spec(s) is None && pos.piece_on_spec(s) is None
}

/// Where the king lands when castling with move `m` (the king takes its own rook): the g-file
/// on the king's wing, the c-file on the queen's wing.
pub open spec fn castle_king_to(m: Move) -> int {
    let rank = (m.from as int) / 8;
    if m.to > m.from { rank * 8 + 6 } else { rank * 8 + 2 }
}

/// Where the rook lands when castling with move `m`: the f-file or the d-file.
pub open spec fn castle_rook_to(m: Move) -> int {
    let rank = (m.from as int) / 8;
    if m.to > m.from { rank * 8 + 5 } else { rank * 8 + 3 }
}

/// What stands on square `s` once `m` is played in `pos`.
pub open spec fn occupant_after(pos: Position, m: Move, s: int) -> Option<ColoredPiece> {
    let us = pos.side_to_move;
    let f = m.from as int;
    let t = m.to as int;
    match pos.move_type_spec(m) {
        MoveType::CASTLE => if s == castle_king_to(m) {
            Some(ColoredPiece { color: us, piece: Piece::King })
        } else if s == castle_rook_to(m) {
            Some(ColoredPiece { color: us, piece: Piece::Rook })
        } else if s == f || s == t {
            None
        } else {
            occupant(pos, s)
        },
        MoveType::PROMOTION => if s == t {
            Some(ColoredPiece { color: us, piece: m.promotion.unwrap() })
        } else if s == f {
            None
        } else {
            occupant(pos, s)
        },
        MoveType::ENPASSENT => if s == t {
            Some(ColoredPiece { color: us, piece: Piece::Pawn })
        } else if s == f || Some(s) == pos.ep_capture_square_spec() {
            None
        } else {
            occupant(pos, s)
        },
        MoveType::NORMAL => if s == t {
            occupant(pos, f)
        } else if s == f {
            None
        } else {
            occupant(pos, s)
        },
        MoveType::NONE => occupant(pos, s),
    }
}

/// Whether the squares that move `m` touches hold what a move of its kind needs: the side to
/// move's piece on the start square (the king when castling, a pawn for a promotion or an en
/// passant capture), the target empty or the opponent's (the own rook when castling, empty
/// for en passant, with the opponent's pawn on the square it takes, no pawn for a
/// promotion), a promotion to another piece than a pawn, and the castling landing squares
/// empty unless the king or rook leaves them.
pub open spec fn keys_move_ok(pos: Position, m: Move) -> bool {
    let us = pos.side_to_move;
    let them = opposite(us);
    let f = m.from as int;
    let t = m.to as int;
    &&& m.from < 64 && m.to < 64 && m.from != m.to
    &&& match pos.move_type_spec(m) {
        MoveType::CASTLE => {
            &&& occupant(pos, f) == Some(ColoredPiece { color: us, piece: Piece::King })
            &&& (empty_square(pos, castle_king_to(m)) || castle_king_to(m) == f || castle_king_to(m) == t)
            &&& (empty_square(pos, castle_rook_to(m)) || castle_rook_to(m) == f || castle_rook_to(m) == t)
        },
        MoveType::PROMOTION => {
            &&& occupant(pos, f) == Some(ColoredPiece { color: us, piece: Piece::Pawn })
            &&& m.promotion != Some(Piece::Pawn)
            &&& (empty_square(pos, t) || (occupant(pos, t) matches Some(cp) && cp.color == them && cp.piece != Piece::Pawn))
        },
        MoveType::ENPASSENT => {
            &&& occupant(pos, f) == Some(ColoredPiece { color: us, piece: Piece::Pawn })
            &&& empty_square(pos, t)
            &&& pos.ep_capture_square_spec() matches Some(e) && 0 <= e < 64 && e != f && e != t
                && occupant(pos, e) == Some(ColoredPiece { color: them, piece: Piece::Pawn })
        },
        MoveType::NORMAL => {
            &&& occupant(pos, f) matches Some(cp) && cp.color == us
            &&& (empty_square(pos, t) || (occupant(pos, t) matches Some(cp) && cp.color == them))
        },
        MoveType::NONE => true,
    }
}

/// The key a selected piece adds on square `s`; zero when `sel` leaves it out.
pub open spec fn sel_key(sel: spec_fn(ColoredPiece) -> bool, c: Color, p: Piece, s: int) -> u64 {
    if sel(ColoredPiece { color: c, piece: p }) { zkey(c, p, s) } else { 0 }
}

/// The key square `s` adds to a fold with selector `sel`.
pub open spec fn square_key(pos: Position, sel: spec_fn(ColoredPiece) -> bool, s: int) -> u64 {
    match occupant(pos, s) {
        Some(cp) => sel_key(sel, cp.color, cp.piece, s),
        None => 0,
    }
}

/// XOR of `h` over the squares below `n`.
pub open spec fn xfold(h: spec_fn(int) -> u64, n: nat) -> u64
    decreases n,
{
    if n == 0 { 0 } else { xfold(h, (n - 1) as nat) ^ h(n - 1) }
}

/// Four square changes: `va` on `a`, `vb` on `b`, `vc` on `c`, `vd` on `d`, combined by XOR.
pub open spec fn four(a: int, va: u64, b: int, vb: u64, c: int, vc: u64, d: int, vd: u64, s: int) -> u64 {
    (if s == a { va } else { 0u64 }) ^ (if s == b { vb } else { 0u64 }) ^ (if s == c { vc } else { 0u64 })
        ^ (if s == d { vd } else { 0u64 })
}

proof fn lemma_xor_zero(x: u64)
    ensures
        x ^ 0u64 == x,
        0u64 ^ x == x,
        x ^ x == 0u64,
{
    assert(x ^ 0u64 == x && 0u64 ^ x == x && x ^ x == 0u64) by (bit_vector);
}

/// A key fold is the XOR of what each square adds.
#[verifier::spinoff_prover]
proof fn lemma_fold_squares(pos: Position, sel: spec_fn(ColoredPiece) -> bool, n: nat)
    ensures
        key_fold(pos, sel, n) == xfold(|s: int| square_key(pos, sel, s), n),
    decreases n,
{
    if n > 0 {
        lemma_fold_squares(pos, sel, (n - 1) as nat);
        lemma_xor_zero(key_fold(pos, sel, (n - 1) as nat));
    }
}

/// Folding a pointwise XOR gives the XOR of the folds.
#[verifier::spinoff_prover]
proof fn lemma_fold_split(h: spec_fn(int) -> u64, g: spec_fn(int) -> u64, n: nat)
    ensures
        xfold(|s: int| h(s) ^ g(s), n) == xfold(h, n) ^ xfold(g, n),
    decreases n,
{
    let f = |s: int| h(s) ^ g(s);
    lemma_xor_zero(0u64);
    if n > 0 {
        lemma_fold_split(h, g, (n - 1) as nat);
        assert(xfold(f, n) == xfold(f, (n - 1) as nat) ^ f(n - 1));
        assert(f(n - 1) == h(n - 1) ^ g(n - 1));
        let a = xfold(h, (n - 1) as nat);
        let b = xfold(g, (n - 1) as nat);
        let x = h(n - 1);
        let y = g(n - 1);
        assert((a ^ b) ^ (x ^ y) == (a ^ x) ^ (b ^ y)) by (bit_vector);
    }
}

/// Folds of functions that agree below `n` agree.
#[verifier::spinoff_prover]
proof fn lemma_fold_ext(h: spec_fn(int) -> u64, g: spec_fn(int) -> u64, n: nat)
    requires
        forall|s: int| 0 <= s < n ==> #[trigger] h(s) == g(s),
    ensures
        xfold(h, n) == xfold(g, n),
    decreases n,
{
    if n > 0 {
        lemma_fold_ext(h, g, (n - 1) as nat);
    }
}

/// Folding one change on a square of the board gives that change.
#[verifier::spinoff_prover]
proof fn lemma_fold_point(a: int, v: u64, n: nat)
    requires
        0 <= a < 64,
        n <= 64,
    ensures
        xfold(|s: int| if s == a { v } else { 0u64 }, n) == (if a < n { v } else { 0u64 }),
    decreases n,
{
    if n > 0 {
        lemma_fold_point(a, v, (n - 1) as nat);
        lemma_xor_zero(v);
        lemma_xor_zero(0u64);
    }
}

/// Folding four changes on squares of the board gives their XOR.
#[verifier::spinoff_prover]
proof fn lemma_fold_four(a: int, va: u64, b: int, vb: u64, c: int, vc: u64, d: int, vd: u64)
    requires
        0 <= a < 64,
        0 <= b < 64,
        0 <= c < 64,
        0 <= d < 64,
    ensures
        xfold(|s: int| four(a, va, b, vb, c, vc, d, vd, s), 64) == va ^ vb ^ vc ^ vd,
{
    let pa = |s: int| if s == a { va } else { 0u64 };
    let pb = |s: int| if s == b { vb } else { 0u64 };
    let pc = |s: int| if s == c { vc } else { 0u64 };
    let pd = |s: int| if s == d { vd } else { 0u64 };
    let ab = |s: int| pa(s) ^ pb(s);
    let abc = |s: int| ab(s) ^ pc(s);
    let abcd = |s: int| abc(s) ^ pd(s);
    lemma_fold_point(a, va, 64);
    lemma_fold_point(b, vb, 64);
    lemma_fold_point(c, vc, 64);
    lemma_fold_point(d, vd, 64);
    lemma_fold_split(pa, pb, 64);
    lemma_fold_split(ab, pc, 64);
    lemma_fold_split(abc, pd, 64);
    lemma_fold_ext(abcd, |s: int| four(a, va, b, vb, c, vc, d, vd, s), 64);
}

/// When the squares of `pos2` add what those of `pos` add, changed on at most four squares,
/// the key folds differ by the XOR of the changes.
#[verifier::spinoff_prover]
proof fn lemma_fold_changes(
    pos: Position,
    pos2: Position,
    sel: spec_fn(ColoredPiece) -> bool,
    a: int, va: u64, b: int, vb: u64, c: int, vc: u64, d: int, vd: u64,
)
    requires
        0 <= a < 64,
        0 <= b < 64,
        0 <= c < 64,
        0 <= d < 64,
        forall|s: int| 0 <= s < 64 ==> square_key(pos2, sel, s) == square_key(pos, sel, s) ^ four(a, va, b, vb, c, vc, d, vd, s),
    ensures
        key_fold(pos2, sel, 64) == key_fold(pos, sel, 64) ^ (va ^ vb ^ vc ^ vd),
{
    let h1 = |s: int| square_key(pos, sel, s);
    let h2 = |s: int| square_key(pos2, sel, s);
    let p = |s: int| four(a, va, b, vb, c, vc, d, vd, s);
    lemma_fold_squares(pos, sel, 64);
    lemma_fold_squares(pos2, sel, 64);
    lemma_fold_four(a, va, b, vb, c, vc, d, vd);
    lemma_fold_split(h1, p, 64);
    lemma_fold_ext(h2, |s: int| h1(s) ^ p(s), 64);
}

/// XOR identities on a few values.
proof fn lemma_xor_swap(x: u64, y: u64, z: u64)
    ensures
        x ^ (x ^ y) == y,
        (x ^ y) ^ x == y,
        x ^ (y ^ x) == y,
        (y ^ x) ^ x == y,
        (x ^ y) ^ z == x ^ (y ^ z),
        x ^ y == y ^ x,
{
    assert(x ^ (x ^ y) == y && (x ^ y) ^ x == y && x ^ (y ^ x) == y && (y ^ x) ^ x == y
        && (x ^ y) ^ z == x ^ (y ^ z) && x ^ y == y ^ x) by (bit_vector);
}

/// The square changes of move `m` for selector `sel`, as four (square, key) pairs: what
/// leaves and what arrives on the start, target and (en passant or castling) extra squares.
pub open spec fn change_points(pos: Position, m: Move, sel: spec_fn(ColoredPiece) -> bool)
    -> (int, u64, int, u64, int, u64, int, u64)
{
    let us = pos.side_to_move;
    let them = opposite(us);
    let f = m.from as int;
    let t = m.to as int;
    match pos.move_type_spec(m) {
        MoveType::CASTLE => (
            f, sel_key(sel, us, Piece::King, f),
            castle_king_to(m), sel_key(sel, us, Piece::King, castle_king_to(m)),
            t, sel_key(sel, us, Piece::Rook, t),
            castle_rook_to(m), sel_key(sel, us, Piece::Rook, castle_rook_to(m)),
        ),
        MoveType::PROMOTION => (
            f, sel_key(sel, us, Piece::Pawn, f),
            t, sel_key(sel, us, m.promotion.unwrap(), t),
            t, square_key(pos, sel, t),
            f, 0,
        ),
        MoveType::ENPASSENT => {
            let e = pos.ep_capture_square_spec().unwrap();
            (f, sel_key(sel, us, Piece::Pawn, f), t, sel_key(sel, us, Piece::Pawn, t), e, sel_key(sel, them, Piece::Pawn, e), f, 0)
        },
        MoveType::NORMAL => {
            let p = pos.piece_on_spec(f).unwrap();
            (f, sel_key(sel, us, p, f), t, sel_key(sel, us, p, t), t, square_key(pos, sel, t), f, 0)
        },
        MoveType::NONE => (f, 0, f, 0, f, 0, f, 0),
    }
}

/// The XOR of the square changes of `m` for `sel`.
pub open spec fn change_mask(pos: Position, m: Move, sel: spec_fn(ColoredPiece) -> bool) -> u64 {
    let c = change_points(pos, m, sel);
    c.1 ^ c.3 ^ c.5 ^ c.7
}

/// Square by square, the position after `m` adds what `pos` adds, changed as `change_points`
/// says.
#[verifier::spinoff_prover]
proof fn lemma_points(pos: Position, pos2: Position, m: Move, sel: spec_fn(ColoredPiece) -> bool)
    requires
        keys_move_ok(pos, m),
        forall|s: int| 0 <= s < 64 ==> occupant(pos2, s) == #[trigger] occupant_after(pos, m, s),
    ensures
        key_fold(pos2, sel, 64) == key_fold(pos, sel, 64) ^ change_mask(pos, m, sel),
{
    let c = change_points(pos, m, sel);
    lemma_xor_zero(0u64);
    assert forall|s: int| 0 <= s < 64 implies square_key(pos2, sel, s) == square_key(pos, sel, s) ^ four(c.0, c.1, c.2, c.3, c.4,
        c.5, c.6, c.7, s) by {
        assert(occupant(pos2, s) == occupant_after(pos, m, s));
        let k1 = square_key(pos, sel, s);
        let k2 = square_key(pos2, sel, s);
        let fs = four(c.0, c.1, c.2, c.3, c.4, c.5, c.6, c.7, s);
        lemma_xor_zero(k1);
        lemma_xor_zero(c.1);
        lemma_xor_zero(c.3);
        lemma_xor_zero(c.5);
        lemma_xor_zero(c.7);
        let f = m.from as int;
        let t = m.to as int;
        match pos.move_type_spec(m) {
            MoveType::NORMAL | MoveType::PROMOTION => {
                if s == f {
                    assert(fs == c.1);
                    assert(k2 == 0);
                } else if s == t {
                    lemma_xor_zero(c.3 ^ c.5);
                    assert(fs == c.3 ^ c.5);
                    assert(k2 == c.3);
                    assert(k1 == c.5);
                    lemma_xor_swap(c.5, c.3, 0);
                } else {
                    assert(fs == 0);
                }
            },
            MoveType::ENPASSENT => {
                let e = pos.ep_capture_square_spec().unwrap();
                if s == f {
                    assert(fs == c.1);
                } else if s == t {
                    assert(fs == c.3);
                    assert(k1 == 0);
                } else if s == e {
                    assert(fs == c.5);
                } else {
                    assert(fs == 0);
                }
            },
            MoveType::CASTLE => {
                let kt = castle_king_to(m);
                let rt = castle_rook_to(m);
                lemma_xor_swap(c.1, c.3, 0);
                lemma_xor_swap(c.5, c.7, 0);
                lemma_xor_swap(c.1, c.7, 0);
                lemma_xor_swap(c.5, c.3, 0);
                lemma_xor_swap(c.3, c.5, 0);
                lemma_xor_swap(c.7, c.1, 0);
                if s == kt {
                    if s == f {
                        assert(c.1 == c.3);
                        assert(fs == (c.1 ^ c.3));
                    } else if s == t {
                        assert(k1 == c.5);
                        assert(fs == (c.3 ^ c.5));
                    } else {
                        assert(k1 == 0);
                        assert(fs == c.3);
                    }
                } else if s == rt {
                    if s == f {
                        assert(k1 == c.1);
                        assert(fs == (c.1 ^ c.7));
                    } else if s == t {
                        assert(c.5 == c.7);
                        assert(fs == (c.5 ^ c.7));
                    } else {
                        assert(k1 == 0);
                        assert(fs == c.7);
                    }
                } else if s == f {
                    assert(fs == c.1);
                } else if s == t {
                    assert(fs == c.5);
                } else {
                    assert(fs == 0);
                }
            },
            MoveType::NONE => {},
        }
    }
    assert(0 <= c.0 < 64 && 0 <= c.2 < 64 && 0 <= c.4 < 64 && 0 <= c.6 < 64);
    lemma_fold_changes(pos, pos2, sel, c.0, c.1, c.2, c.3, c.4, c.5, c.6, c.7);
}

/// Zero facts for the sums a change mask is made of.
proof fn lemma_mask_zero(pos: Position, m: Move, sel: spec_fn(ColoredPiece) -> bool)
    ensures
        ({
            let c = change_points(pos, m, sel);
            &&& c.1 ^ 0u64 == c.1 && 0u64 ^ c.1 == c.1
            &&& c.3 ^ 0u64 == c.3 && 0u64 ^ c.3 == c.3
            &&& c.5 ^ 0u64 == c.5 && 0u64 ^ c.5 == c.5
            &&& (c.1 ^ c.3) ^ 0u64 == c.1 ^ c.3
            &&& ((c.1 ^ c.3) ^ c.5) ^ 0u64 == (c.1 ^ c.3) ^ c.5
        }),
{
    let c = change_points(pos, m, sel);
    lemma_xor_zero(c.1);
    lemma_xor_zero(c.3);
    lemma_xor_zero(c.5);
    lemma_xor_zero(c.1 ^ c.3);
    lemma_xor_zero((c.1 ^ c.3) ^ c.5);
}

/// The change masks of a move are the masks `key_delta` gives, group by group.
#[verifier::spinoff_prover]
proof fn lemma_masks(pos: Position, m: Move)
    requires
        keys_move_ok(pos, m),
    ensures
        change_mask(pos, m, sel_pawn()) == key_delta(pos, m).0,
        change_mask(pos, m, sel_colored(Color::White)) == key_delta(pos, m).1,
        change_mask(pos, m, sel_colored(Color::Black)) == key_delta(pos, m).2,
        change_mask(pos, m, sel_major()) == key_delta(pos, m).3,
        change_mask(pos, m, sel_minor()) == key_delta(pos, m).4,
{
    lemma_xor_zero(0u64);
    lemma_mask_zero(pos, m, sel_pawn());
    lemma_mask_zero(pos, m, sel_colored(Color::White));
    lemma_mask_zero(pos, m, sel_colored(Color::Black));
    lemma_mask_zero(pos, m, sel_major());
    lemma_mask_zero(pos, m, sel_minor());
}

/// The group keys of the position a move leads to are the keys of the position before it
/// XORed with the masks `key_delta` gives: pawns, white pieces, black pieces, major and
/// minor pieces.
pub proof fn lemma_key_delta_exact(pos: Position, pos2: Position, m: Move)
    requires
        keys_move_ok(pos, m),
        forall|s: int| 0 <= s < 64 ==> occupant(pos2, s) == #[trigger] occupant_after(pos, m, s),
    ensures
        pawn_key_of(pos2) == pawn_key_of(pos) ^ key_delta(pos, m).0,
        colored_key_of(pos2, Color::White) == colored_key_of(pos, Color::White) ^ key_delta(pos, m).1,
        colored_key_of(pos2, Color::Black) == colored_key_of(pos, Color::Black) ^ key_delta(pos, m).2,
        major_key_of(pos2) == major_key_of(pos) ^ key_delta(pos, m).3,
        minor_key_of(pos2) == minor_key_of(pos) ^ key_delta(pos, m).4,
{
    lemma_points(pos, pos2, m, sel_pawn());
    lemma_points(pos, pos2, m, sel_colored(Color::White));
    lemma_points(pos, pos2, m, sel_colored(Color::Black));
    lemma_points(pos, pos2, m, sel_major());
    lemma_points(pos, pos2, m, sel_minor());
    lemma_masks(pos, m);
}

/// Keys pushed incrementally equal keys computed afresh: when the top keys of `before` are
/// those of `pos` and `after` is `before` with move `m` pushed (the top keys XORed with
/// `key_delta`), the top keys of `after` are those `init` computes for the position `m`
/// leads to.
pub proof fn lemma_push_matches_init(before: PawnKey, after: PawnKey, pos: Position, pos2: Position, m: Move)
    requires
        before.keys_match(pos),
        before.size < PAWN_KEY_SIZE,
        after.size == before.size + 1,
        after.pawns[before.size as int] == before.pawns[before.size - 1] ^ key_delta(pos, m).0,
        after.colored[before.size as int][0] == before.colored[before.size - 1][0] ^ key_delta(pos, m).1,
        after.colored[before.size as int][1] == before.colored[before.size - 1][1] ^ key_delta(pos, m).2,
        after.major[before.size as int] == before.major[before.size - 1] ^ key_delta(pos, m).3,
        after.minor[before.size as int] == before.minor[before.size - 1] ^ key_delta(pos, m).4,
        keys_move_ok(pos, m),
        forall|s: int| 0 <= s < 64 ==> occupant(pos2, s) == #[trigger] occupant_after(pos, m, s),
    ensures
        after.keys_match(pos2),
{
    lemma_key_delta_exact(pos, pos2, m);
}

} // verus!
