//! Attack sets of single pieces, as the move generator's tables give them.

use vstd::prelude::*;
use crate::chess::{sq_bb, file_of, rank_of};

verus! {

/// The square `df` files and `dr` ranks away from `sq`, as a bitboard; empty off the board.
pub open spec fn offset_bb(sq: int, df: int, dr: int) -> u64 {
    let f = sq % 8 + df;
    let r = sq / 8 + dr;
    if 0 <= f < 8 && 0 <= r < 8 {
        sq_bb(r * 8 + f)
    } else {
        0
    }
}

/// Squares a knight on `sq` attacks.
pub closed spec fn knight_attacks(sq: u8) -> u64 {
    let s = sq as int;
    offset_bb(s, 1, 2) | offset_bb(s, 2, 1) | offset_bb(s, 2, -1) | offset_bb(s, 1, -2)
        | offset_bb(s, -1, -2) | offset_bb(s, -2, -1) | offset_bb(s, -2, 1) | offset_bb(s, -1, 2)
}

/// Squares a king on `sq` attacks.
pub closed spec fn king_attacks(sq: u8) -> u64 {
    let s = sq as int;
    offset_bb(s, 0, 1) | offset_bb(s, 1, 1) | offset_bb(s, 1, 0) | offset_bb(s, 1, -1)
        | offset_bb(s, 0, -1) | offset_bb(s, -1, -1) | offset_bb(s, -1, 0) | offset_bb(s, -1, 1)
}

/// Squares a pawn on `sq` attacks: one rank forward (down the board for `black`), one file to
/// either side.
pub closed spec fn pawn_attacks(sq: u8, black: bool) -> u64 {
    let s = sq as int;
    if black {
        offset_bb(s, 1, -1) | offset_bb(s, -1, -1)
    } else {
        offset_bb(s, 1, 1) | offset_bb(s, -1, 1)
    }
}


/// The bitboard of the squares below `n` that satisfy `p`.
pub open spec fn squares_where(p: spec_fn(int) -> bool, n: nat) -> u64
    decreases n,
{
    if n == 0 {
        0
    } else {
        squares_where(p, (n - 1) as nat) | (if p(n - 1) { sq_bb(n - 1) } else { 0 })
    }
}

pub open spec fn abs_diff(a: int, b: int) -> int {
    if a >= b { a - b } else { b - a }
}

pub open spec fn sign(x: int) -> int {
    if x > 0 { 1 } else if x < 0 { -1 } else { 0 }
}

/// Whether two squares share a rank, a file or a diagonal.
pub open spec fn aligned(a: int, b: int) -> bool {
    file_of(a) == file_of(b) || rank_of(a) == rank_of(b)
        || abs_diff(file_of(a), file_of(b)) == abs_diff(rank_of(a), rank_of(b))
}

/// Squares a bishop on `sq` reaches on an empty board: its two diagonals without `sq`.
pub closed spec fn bishop_rays(sq: u8) -> u64 {
    let s = sq as int;
    squares_where(
        |t: int| t != s && abs_diff(file_of(t), file_of(s)) == abs_diff(rank_of(t), rank_of(s)),
        64,
    )
}

/// Squares a rook on `sq` reaches on an empty board: its rank and file without `sq`.
pub closed spec fn rook_rays(sq: u8) -> u64 {
    let s = sq as int;
    squares_where(|t: int| t != s && (file_of(t) == file_of(s) || rank_of(t) == rank_of(s)), 64)
}

/// Whether `t` lies strictly between `a` and `b` on the line from `a` to `b`: `k` steps of the
/// line's unit step from `a`, with `0 < k` and `k` short of the distance to `b`.
pub open spec fn strictly_between(a: int, b: int, t: int) -> bool {
    let dx = file_of(b) - file_of(a);
    let dy = rank_of(b) - rank_of(a);
    let n = if abs_diff(dx, 0) >= abs_diff(dy, 0) { abs_diff(dx, 0) } else { abs_diff(dy, 0) };
    let tx = file_of(t) - file_of(a);
    let ty = rank_of(t) - rank_of(a);
    let k = if abs_diff(tx, 0) >= abs_diff(ty, 0) { abs_diff(tx, 0) } else { abs_diff(ty, 0) };
    &&& tx == k * sign(dx)
    &&& ty == k * sign(dy)
    &&& 0 < k < n
}

/// Squares strictly between two squares on a shared rank, file or diagonal; empty when they
/// share none.
pub closed spec fn between_rays(a: u8, b: u8) -> u64 {
    if aligned(a as int, b as int) {
        squares_where(|t: int| strictly_between(a as int, b as int, t), 64)
    } else {
        0
    }
}

/// Squares a bishop on `sq` reaches when `blockers` are occupied: along each diagonal up to
/// and including the first blocker, that is every diagonal square with no blocker strictly
/// between it and `sq`.
pub closed spec fn bishop_attacks(sq: u8, blockers: u64) -> u64 {
    let s = sq as int;
    squares_where(
        |t: int| 0 <= t < 64 && t != s && abs_diff(file_of(t), file_of(s)) == abs_diff(rank_of(t), rank_of(s))
            && between_rays(sq, t as u8) & blockers == 0,
        64,
    )
}

/// Squares a rook on `sq` reaches when `blockers` are occupied: along its rank and file up to
/// and including the first blocker.
pub closed spec fn rook_attacks(sq: u8, blockers: u64) -> u64 {
    let s = sq as int;
    squares_where(
        |t: int| 0 <= t < 64 && t != s && (file_of(t) == file_of(s) || rank_of(t) == rank_of(s))
            && between_rays(sq, t as u8) & blockers == 0,
        64,
    )
}

/// `cozy_chess::get_knight_moves`: the squares a knight's eight jumps reach on the board.
#[verifier::external_body]
pub(crate) fn get_knight_moves(sq: u8) -> (r: u64)
    requires
        sq < 64,
    ensures
        r == knight_attacks(sq),
{
    cozy_chess::get_knight_moves(cozy_chess::Square::index(sq as usize)).0
}

/// `cozy_chess::get_king_moves`: the squares one step away in the eight directions.
#[verifier::external_body]
pub(crate) fn get_king_moves(sq: u8) -> (r: u64)
    requires
        sq < 64,
    ensures
        r == king_attacks(sq),
{
    cozy_chess::get_king_moves(cozy_chess::Square::index(sq as usize)).0
}

/// `cozy_chess::get_pawn_attacks`: the two forward diagonal squares on the board.
#[verifier::external_body]
pub(crate) fn get_pawn_attacks(sq: u8, black: bool) -> (r: u64)
    requires
        sq < 64,
    ensures
        r == pawn_attacks(sq, black),
{
    let color = if black {
        cozy_chess::Color::Black
    } else {
        cozy_chess::Color::White
    };
    cozy_chess::get_pawn_attacks(cozy_chess::Square::index(sq as usize), color).0
}

/// `cozy_chess::get_bishop_moves`: the bishop's moves along each diagonal up to and
/// including the first blocker.
#[verifier::external_body]
pub(crate) fn get_bishop_moves(sq: u8, blockers: u64) -> (r: u64)
    requires
        sq < 64,
    ensures
        r == bishop_attacks(sq, blockers),
{
    cozy_chess::get_bishop_moves(
        cozy_chess::Square::index(sq as usize),
        cozy_chess::BitBoard(blockers),
    ).0
}

/// `cozy_chess::get_rook_moves`: the rook's moves along its rank and file up to and
/// including the first blocker.
#[verifier::external_body]
pub(crate) fn get_rook_moves(sq: u8, blockers: u64) -> (r: u64)
    requires
        sq < 64,
    ensures
        r == rook_attacks(sq, blockers),
{
    cozy_chess::get_rook_moves(
        cozy_chess::Square::index(sq as usize),
        cozy_chess::BitBoard(blockers),
    ).0
}

/// `cozy_chess::get_between_rays`: the squares strictly between two aligned squares, none
/// for squares that share no line.
#[verifier::external_body]
pub(crate) fn get_between_rays(a: u8, b: u8) -> (r: u64)
    requires
        a < 64,
        b < 64,
    ensures
        r == between_rays(a, b),
{
    cozy_chess::get_between_rays(
        cozy_chess::Square::index(a as usize),
        cozy_chess::Square::index(b as usize),
    ).0
}


/// `cozy_chess::get_bishop_rays`: the bishop's moves on an empty board, its diagonals
/// without the square.
#[verifier::external_body]
pub(crate) fn get_bishop_rays(sq: u8) -> (r: u64)
    requires
        sq < 64,
    ensures
        r == bishop_rays(sq),
{
    cozy_chess::get_bishop_rays(cozy_chess::Square::index(sq as usize)).0
}

/// `cozy_chess::get_rook_rays`: the rook's moves on an empty board, its rank and file
/// without the square.
#[verifier::external_body]
pub(crate) fn get_rook_rays(sq: u8) -> (r: u64)
    requires
        sq < 64,
    ensures
        r == rook_rays(sq),
{
    cozy_chess::get_rook_rays(cozy_chess::Square::index(sq as usize)).0
}

proof fn lemma_shift_bit(s: u64)
    requires
        s < 64,
    ensures
        ((1u64 << s) & 0x7f7f_7f7f_7f7f_7f7fu64) << 9u64 == (if s % 8 < 7 && s / 8 < 7 { 1u64 << ((s + 9) as u64) } else { 0u64 }),
        ((1u64 << s) & 0xfefe_fefe_fefe_fefeu64) << 7u64 == (if s % 8 > 0 && s / 8 < 7 { 1u64 << ((s + 7) as u64) } else { 0u64 }),
        ((1u64 << s) & 0x7f7f_7f7f_7f7f_7f7fu64) >> 7u64 == (if s % 8 < 7 && s / 8 > 0 { 1u64 << ((s - 7) as u64) } else { 0u64 }),
        ((1u64 << s) & 0xfefe_fefe_fefe_fefeu64) >> 9u64 == (if s % 8 > 0 && s / 8 > 0 { 1u64 << ((s - 9) as u64) } else { 0u64 }),
{
    assert(((1u64 << s) & 0x7f7f_7f7f_7f7f_7f7fu64) << 9u64 == (if s % 8 < 7 && s / 8 < 7 { 1u64 << ((s + 9) as u64) } else { 0u64 })
        && ((1u64 << s) & 0xfefe_fefe_fefe_fefeu64) << 7u64 == (if s % 8 > 0 && s / 8 < 7 { 1u64 << ((s + 7) as u64) } else { 0u64 })
        && ((1u64 << s) & 0x7f7f_7f7f_7f7f_7f7fu64) >> 7u64 == (if s % 8 < 7 && s / 8 > 0 { 1u64 << ((s - 7) as u64) } else { 0u64 })
        && ((1u64 << s) & 0xfefe_fefe_fefe_fefeu64) >> 9u64 == (if s % 8 > 0 && s / 8 > 0 { 1u64 << ((s - 9) as u64) } else { 0u64 })) by (bit_vector)
        requires s < 64;
}

/// A pawn's attacks are its square shifted one rank forward and one file aside, the edge
/// files masked off first.
pub proof fn lemma_pawn_attacks_shift(sq: u8, black: bool)
    requires
        sq < 64,
    ensures
        pawn_attacks(sq, black) == (if black {
            ((sq_bb(sq as int) & 0x7f7f_7f7f_7f7f_7f7fu64) >> 7u64) | ((sq_bb(sq as int) & 0xfefe_fefe_fefe_fefeu64) >> 9u64)
        } else {
            ((sq_bb(sq as int) & 0xfefe_fefe_fefe_fefeu64) << 7u64) | ((sq_bb(sq as int) & 0x7f7f_7f7f_7f7f_7f7fu64) << 9u64)
        }),
{
    let s = sq as u64;
    lemma_shift_bit(s);
    let si = sq as int;
    assert(si % 8 == s % 8 && si / 8 == s / 8);
    assert((si / 8 + 1) * 8 + (si % 8 + 1) == si + 9);
    assert((si / 8 + 1) * 8 + (si % 8 - 1) == si + 7);
    assert((si / 8 - 1) * 8 + (si % 8 + 1) == si - 7);
    assert((si / 8 - 1) * 8 + (si % 8 - 1) == si - 9);
    let a = offset_bb(si, 1, 1);
    let b = offset_bb(si, -1, 1);
    let c = offset_bb(si, 1, -1);
    let d = offset_bb(si, -1, -1);
    assert(a | b == b | a && c | d == c | d) by (bit_vector);
}

} // verus!
