//! The game position the `position` command sets up: the start position or a FEN, then the
//! moves played from it in UCI notation, as the library's `Position`.

use vstd::prelude::*;
use crate::chess::Color;
use crate::position::{Position, CastleRights};

verus! {

#[verifier::external_type_specification]
#[verifier::external_body]
pub struct ExChess(shakmaty::Chess);

#[verifier::external_type_specification]
#[verifier::external_body]
pub struct ExBoard(cozy_chess::Board);

/// `shakmaty::Chess::default`: the standard start position.
#[verifier::external_body]
fn chess_start() -> (r: shakmaty::Chess) {
    shakmaty::Chess::default()
}

/// `shakmaty::fen::Fen::from_ascii`, then `Fen::into_position` with standard castling; `None`
/// when the text is no FEN or does not set up a legal position. Nothing is stated of the
/// position: shakmaty's type is opaque here.
#[verifier::external_body]
fn chess_from_fen(text: &Vec<u8>) -> (r: Option<shakmaty::Chess>) {
    shakmaty::fen::Fen::from_ascii(text).ok()?.into_position(shakmaty::CastlingMode::Standard).ok()
}

/// `shakmaty::uci::UciMove::from_ascii`, `UciMove::to_move` and `Position::play_unchecked`:
/// plays the move written `word`; `false`, with the position unchanged, when the word is no
/// UCI move or not a legal move of the position.
#[verifier::external_body]
fn chess_play(pos: &mut shakmaty::Chess, word: &Vec<u8>) -> (r: bool) {
    let m = match shakmaty::uci::UciMove::from_ascii(word) {
        Ok(u) => match u.to_move(pos) {
            Ok(m) => m,
            Err(_) => return false,
        },
        Err(_) => return false,
    };
    shakmaty::Position::play_unchecked(pos, &m);
    true
}

/// `shakmaty::fen::Fen::from_position` (en passant square written when a capture onto it is
/// legal), as text.
#[verifier::external_body]
fn chess_fen(pos: &shakmaty::Chess) -> (r: Vec<u8>) {
    shakmaty::fen::Fen::from_position(pos.clone(), shakmaty::EnPassantMode::Legal).to_string().into_bytes()
}

/// `cozy_chess::Board::from_fen` with standard castling notation; `None` when the text is no
/// FEN of a legal position.
#[verifier::external_body]
fn board_from_fen(text: &Vec<u8>) -> (r: Option<cozy_chess::Board>) {
    cozy_chess::Board::from_fen(std::str::from_utf8(text).ok()?, false).ok()
}

/// `cozy_chess::Board::colors` of each side and `Board::pieces` of each kind, as bitboards.
#[verifier::external_body]
fn board_bits(b: &cozy_chess::Board) -> (r: ([u64; 2], [u64; 6])) {
    (
        [b.colors(cozy_chess::Color::White).0, b.colors(cozy_chess::Color::Black).0],
        [b.pieces(cozy_chess::Piece::Pawn).0, b.pieces(cozy_chess::Piece::Knight).0,
            b.pieces(cozy_chess::Piece::Bishop).0, b.pieces(cozy_chess::Piece::Rook).0,
            b.pieces(cozy_chess::Piece::Queen).0, b.pieces(cozy_chess::Piece::King).0],
    )
}

/// `cozy_chess::Board::side_to_move`, `en_passant` (as a file index) and `halfmove_clock`.
#[verifier::external_body]
fn board_side(b: &cozy_chess::Board) -> (r: (Color, Option<u8>, u8)) {
    let side = match b.side_to_move() {
        cozy_chess::Color::White => Color::White,
        cozy_chess::Color::Black => Color::Black,
    };
    (side, b.en_passant().map(|f| f as u8), b.halfmove_clock())
}

/// `cozy_chess::Board::checkers`, `pinned`, `hash` and `hash_without_ep`.
#[verifier::external_body]
fn board_keys(b: &cozy_chess::Board) -> (r: (u64, u64, u64, u64)) {
    (b.checkers().0, b.pinned().0, b.hash(), b.hash_without_ep())
}

/// `cozy_chess::Board::castle_rights` of each side, files as indices.
#[verifier::external_body]
fn board_castles(b: &cozy_chess::Board) -> (r: [CastleRights; 2]) {
    let w = b.castle_rights(cozy_chess::Color::White);
    let k = b.castle_rights(cozy_chess::Color::Black);
    [
        CastleRights { short: w.short.map(|f| f as u8), long: w.long.map(|f| f as u8) },
        CastleRights { short: k.short.map(|f| f as u8), long: k.long.map(|f| f as u8) },
    ]
}


/// Whether a position is well formed (see `Position::wf`).
pub fn position_wf(p: &Position) -> (r: bool)
    ensures
        r == p.wf(),
{
    let ep_ok = match p.en_passant {
        Some(f) => f < 8,
        None => true,
    };
    let mut castles_ok = true;
    let mut c: usize = 0;
    while c < 2
        invariant
            c <= 2,
            castles_ok == (forall|k: int| 0 <= k < c ==> (#[trigger] p.castle_rights[k]).wf()),
        decreases 2 - c,
    {
        let r = p.castle_rights[c];
        let short_ok = match r.short {
            Some(f) => f < 8,
            None => true,
        };
        let long_ok = match r.long {
            Some(f) => f < 8,
            None => true,
        };
        castles_ok = castles_ok && short_ok && long_ok;
        c += 1;
    }
    ep_ok && castles_ok && p.colors[0] & p.pieces[5] != 0 && p.colors[1] & p.pieces[5] != 0
}

/// The library's position for a cozy-chess board: its occupancy, side to move, en passant
/// file, clock, checkers, pins, hashes and castling rights; `None` when that is not a
/// well-formed position.
fn position_of_board(b: &cozy_chess::Board) -> (r: Option<Position>)
    ensures
        r matches Some(p) ==> p.wf(),
{
    let (colors, pieces) = board_bits(b);
    let (side, ep, clock) = board_side(b);
    let (checkers, pinned, hash, hash_without_ep) = board_keys(b);
    let castles = board_castles(b);
    let p = Position {
        colors,
        pieces,
        side_to_move: side,
        en_passant: ep,
        halfmove_clock: clock,
        checkers,
        pinned,
        hash,
        hash_without_ep,
        castle_rights: castles,
    };
    if position_wf(&p) {
        Some(p)
    } else {
        None
    }
}

/// The position a FEN (standard castling notation) sets up, read by cozy-chess; `None` when
/// the text is no FEN of a legal position.
pub fn position_from_fen(text: &Vec<u8>) -> (r: Option<Position>)
    ensures
        r matches Some(p) ==> p.wf(),
{
    match board_from_fen(text) {
        Some(b) => position_of_board(&b),
        None => None,
    }
}

pub const WORD_STARTPOS: [u8; 8] = [115, 116, 97, 114, 116, 112, 111, 115];
pub const WORD_FEN: [u8; 3] = [102, 101, 110];

/// Whether the words of a `position` command have the shape it needs: `startpos`, or `fen`
/// followed by the six fields of a FEN (and, in either case, `moves` and the moves after it).
pub open spec fn position_words_ok(words: Seq<Vec<u8>>) -> bool {
    &&& words.len() >= 2
    &&& (words[1]@ == WORD_STARTPOS@ || (words[1]@ == WORD_FEN@ && words.len() >= 8))
}

/// Where the moves start: after `startpos moves`, or after `fen`, its six fields and `moves`.
pub open spec fn moves_start(words: Seq<Vec<u8>>) -> int {
    if words[1]@ == WORD_STARTPOS@ { 3 } else { 9 }
}

/// Words `2..n` joined by single spaces.
pub open spec fn fen_text(words: Seq<Vec<u8>>, n: nat) -> Seq<u8>
    decreases n,
{
    if n <= 3 {
        words[2]@
    } else {
        fen_text(words, (n - 1) as nat) + seq![32u8] + words[n - 1]@
    }
}

fn word_eq(w: &Vec<u8>, k: &[u8]) -> (r: bool)
    ensures
        r == (w@ == k@),
{
    if w.len() != k.len() {
        return false;
    }
    let mut i: usize = 0;
    while i < w.len()
        invariant
            i <= w@.len(),
            w@.len() == k@.len(),
            forall|j: int| 0 <= j < i ==> w@[j] == k@[j],
        decreases w@.len() - i,
    {
        if w[i] != k[i] {
            return false;
        }
        i += 1;
    }
    assert(w@ =~= k@);
    true
}

/// The FEN of a `fen` command: words 2 to 7 joined by single spaces.
pub fn join_fen(words: &Vec<Vec<u8>>) -> (r: Vec<u8>)
    requires
        words@.len() >= 8,
    ensures
        r@ == fen_text(words@, 8),
{
    let mut out: Vec<u8> = Vec::new();
    let mut i: usize = 2;
    while i < 8
        invariant
            2 <= i <= 8,
            words@.len() >= 8,
            i == 2 ==> out@ == Seq::<u8>::empty(),
            i > 2 ==> out@ == fen_text(words@, i as nat),
        decreases 8 - i,
    {
        let ghost before = out@;
        if i > 2 {
            out.push(32u8);
        }
        let w = &words[i];
        let mut k: usize = 0;
        while k < w.len()
            invariant
                k <= w@.len(),
                out@ == (if i > 2 { before + seq![32u8] } else { before }) + w@.subrange(0, k as int),
            decreases w@.len() - k,
        {
            out.push(w[k]);
            k += 1;
            proof {
                assert(w@.subrange(0, k as int) =~= w@.subrange(0, k - 1).push(w@[k - 1]));
            }
        }
        assert(w@.subrange(0, w@.len() as int) =~= w@);
        if i == 2 {
            assert(out@ =~= fen_text(words@, 3));
        } else {
            assert(out@ =~= fen_text(words@, (i + 1) as nat));
        }
        i += 1;
    }
    out
}

/// The position a `position` command sets up (`words` are its words, the first being
/// `position`): the start position or the FEN of words 2 to 7, read with shakmaty and
/// standard castling, then each move from `moves_start` on, in UCI notation. `None` when the
/// words lack that shape, the FEN or a move is refused, or the result is not well formed.
pub fn apply_position(words: &Vec<Vec<u8>>) -> (r: Option<Position>)
    ensures
        !position_words_ok(words@) ==> r is None,
        r matches Some(p) ==> p.wf(),
{
    if words.len() < 2 {
        return None;
    }
    let mut pos = if word_eq(&words[1], &WORD_STARTPOS) {
        chess_start()
    } else if word_eq(&words[1], &WORD_FEN) && words.len() >= 8 {
        let fen = join_fen(words);
        match chess_from_fen(&fen) {
            Some(p) => p,
            None => return None,
        }
    } else {
        return None;
    };
    let mut i: usize = if word_eq(&words[1], &WORD_STARTPOS) { 3 } else { 9 };
    while i < words.len()
        decreases words@.len() - i,
    {
        if !chess_play(&mut pos, &words[i]) {
            return None;
        }
        i += 1;
    }
    let text = chess_fen(&pos);
    position_from_fen(&text)
}

} // verus!
