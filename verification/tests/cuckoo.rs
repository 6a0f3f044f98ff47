use chrusty::chess::{Color, Move, Piece};
use chrusty::cuckoo::{h1, h2, is_upcoming_rep, Cuckoo, CUCKOO_MOVES};
use chrusty::position::{CastleRights, Position};
use chrusty::stack::KeyStack;
use chrusty::zobrist::{zobrist_pst, BLACK_TO_MOVE_KEY};
use cozy_chess::Board;

fn castle(r: &cozy_chess::CastleRights) -> CastleRights {
    CastleRights { short: r.short.map(|f| f as u8), long: r.long.map(|f| f as u8) }
}

fn to_position(b: &Board) -> Position {
    Position {
        colors: [b.colors(cozy_chess::Color::White).0, b.colors(cozy_chess::Color::Black).0],
        pieces: cozy_chess::Piece::ALL.map(|p| b.pieces(p).0),
        side_to_move: if b.side_to_move() == cozy_chess::Color::White { Color::White } else { Color::Black },
        en_passant: b.en_passant().map(|f| f as u8),
        halfmove_clock: b.halfmove_clock(),
        checkers: b.checkers().0,
        pinned: b.pinned().0,
        hash: b.hash(),
        hash_without_ep: b.hash_without_ep(),
        castle_rights: [
            castle(b.castle_rights(cozy_chess::Color::White)),
            castle(b.castle_rights(cozy_chess::Color::Black)),
        ],
    }
}

fn lookup(table: &Cuckoo, key: u64) -> Option<Move> {
    for slot in [h1(key), h2(key)] {
        if table.keys[slot] == key {
            return Some(table.moves[slot]);
        }
    }
    None
}

#[test]
fn cuckoo_table_holds_every_reversible_move() {
    let table = Cuckoo::init().expect("the table fills");
    let stored = table.moves.iter().filter(|m| !m.is_null()).count();
    assert_eq!(stored, CUCKOO_MOVES);
    // white knight b1-c3
    let key = zobrist_pst(Color::White, Piece::Knight, 1) ^ zobrist_pst(Color::White, Piece::Knight, 18) ^ BLACK_TO_MOVE_KEY;
    assert_eq!(lookup(&table, key), Some(Move { from: 1, to: 18, promotion: None }));
    // black queen a8-h1 (the long diagonal)
    let key = zobrist_pst(Color::Black, Piece::Queen, 7) ^ zobrist_pst(Color::Black, Piece::Queen, 56) ^ BLACK_TO_MOVE_KEY;
    assert_eq!(lookup(&table, key), Some(Move { from: 7, to: 56, promotion: None }));
}

#[test]
fn knight_shuffle_is_an_upcoming_repetition() {
    let table = Cuckoo::init().unwrap();
    let mut board = Board::default();
    let mut stack = KeyStack::new();
    for mv in ["g1f3", "g8f6", "f3g1"] {
        stack.push(board.hash());
        board.play(mv.parse().unwrap());
    }
    let pos = to_position(&board);
    // black can play Nf6-g8 and be back at the start: inside the search line it counts
    assert!(is_upcoming_rep(&pos, &stack, 4, &table));
    // at the root the start position would have to have repeated before
    assert!(!is_upcoming_rep(&pos, &stack, 0, &table));
}
