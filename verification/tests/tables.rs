use chrusty::chess::{Color, Move};
use chrusty::param::{win_in, VALUE_NONE};
use chrusty::position::{CastleRights, Position};
use chrusty::rep::is_rep;
use chrusty::see::see_ge;
use chrusty::stack::{KeyStack, PvList};
use chrusty::tb::{static_test, static_test_root};
use chrusty::tt::{Entry, Table, FLAG_BETA, FLAG_EXACT};
use cozy_chess::Board;

fn rights_from(r: &cozy_chess::CastleRights) -> CastleRights {
    CastleRights { short: r.short.map(|f| f as u8), long: r.long.map(|f| f as u8) }
}

fn position(fen: &str) -> Position {
    let b = Board::from_fen(fen, false).unwrap();
    board_pos(&b)
}

fn board_pos(b: &Board) -> Position {
    Position {
        colors: [b.colors(cozy_chess::Color::White).0, b.colors(cozy_chess::Color::Black).0],
        pieces: cozy_chess::Piece::ALL.map(|p| b.pieces(p).0),
        side_to_move: if b.side_to_move() == cozy_chess::Color::White { Color::White } else { Color::Black },
        en_passant: b.en_passant().map(|f| f as u8),
        halfmove_clock: b.halfmove_clock(),
        checkers: b.checkers().0,
        pinned: b.pinned().0,
        hash: b.hash(),
        hash_without_ep: b.hash_without_ep(),
        castle_rights: [
            rights_from(b.castle_rights(cozy_chess::Color::White)),
            rights_from(b.castle_rights(cozy_chess::Color::Black)),
        ],
    }
}

fn mv(from: u8, to: u8) -> Move {
    Move { from, to, promotion: None }
}

#[test]
fn entry_reads_back_what_was_written() {
    let mut e = Entry::new();
    let pv = mv(12, 28);
    e.set(0xabcdef, pv, 3, 5, FLAG_EXACT, 100, 50, true, 2);
    let r = e.get(0xabcdef, 3, 5, -100, 200);
    assert!(r.hit && r.can_use);
    assert_eq!((r.score, r.static_score, r.depth, r.flag, r.is_pv), (100, 50, 5, FLAG_EXACT, true));
    assert_eq!(r.pv, pv);
    // another key misses
    assert!(!e.get(0x123456, 3, 5, -100, 200).hit);
    // a deeper request cannot use the bound
    assert!(!e.get(0xabcdef, 3, 6, -100, 200).can_use);
}

#[test]
fn mate_scores_are_stored_from_the_node_and_read_back_from_the_root() {
    let mut e = Entry::new();
    // a mate found 3 plies below the root, 5 plies away from the node
    e.set(7, mv(1, 18), 3, 4, FLAG_BETA, win_in(8), VALUE_NONE, false, 0);
    let same = e.get(7, 3, 4, 0, 1);
    assert_eq!(same.score, win_in(8));
    // read 1 ply from the root, the same mate is 2 plies closer
    let closer = e.get(7, 1, 4, 0, 1);
    assert_eq!(closer.score, win_in(6));
}

#[test]
fn table_probe_returns_the_written_entry() {
    let mut t = Table::new(1);
    let (_, w) = t.get(42);
    w.set(42, mv(6, 21), 0, 7, FLAG_EXACT, -30, -10, false, 0);
    let (r, _) = t.get(42);
    let v = r.get(42, 0, 7, -50, 50);
    assert!(v.hit);
    assert_eq!(v.score, -30);
    assert!(t.hashfull() >= 0);
    t.resize(2);
    let (r, _) = t.get(42);
    assert!(!r.get(42, 0, 7, -50, 50).hit);
}

#[test]
fn key_stack_push_pop_and_repetition() {
    let mut board = Board::default();
    let mut stack = KeyStack::new();
    for m in ["g1f3", "g8f6", "f3g1", "f6g8"] {
        stack.push(board.hash());
        board.play(m.parse().unwrap());
    }
    let pos = board_pos(&board);
    // the start position is back: a repetition inside the search line
    assert!(is_rep(&pos, 8, &stack));
    stack.push(1);
    stack.pop();
    assert!(is_rep(&pos, 8, &stack));
}

#[test]
fn static_exchange_thresholds() {
    // pawn takes an undefended knight
    let pos = position("4k3/8/8/3n4/4P3/8/8/4K3 w - - 0 1");
    assert!(see_ge(&pos, &mv(28, 35), 0));
    assert!(see_ge(&pos, &mv(28, 35), 300));
    assert!(!see_ge(&pos, &mv(28, 35), 400));
    // queen takes a pawn defended by a pawn loses the queen
    let pos = position("4k3/2p5/3p4/8/8/8/3Q4/4K3 w - - 0 1");
    assert!(!see_ge(&pos, &mv(11, 43), 0));
}

#[test]
fn material_and_tablebase_tests() {
    assert!(position("8/8/4k3/8/8/4K3/8/8 w - - 0 1").has_insufficient_material());
    assert!(position("8/8/4k3/8/8/4KN2/8/8 w - - 0 1").has_insufficient_material());
    assert!(!position("8/8/4k3/8/8/4KR2/8/8 w - - 0 1").has_insufficient_material());
    let few = position("8/8/4k3/8/8/4KR2/8/8 w - - 0 1");
    assert!(static_test(&few) && static_test_root(&few));
    let later = position("8/8/4k3/8/8/4KR2/8/8 w - - 3 40");
    assert!(!static_test(&later) && static_test_root(&later));
    assert!(!static_test(&position("rnbqkbnr/pppppppp/8/8/8/8/PPPPPPPP/RNBQKBNR w KQkq - 0 1")));
}

#[test]
fn pins_and_pinners() {
    // the black rook on e8 pins the white knight on e4 to the king on e1
    let pos = position("4r1k1/8/8/8/4N3/8/8/4K3 w - - 0 1");
    assert_eq!(pos.pinned, 1 << 28);
    let pinners = pos.pinners();
    assert_eq!(pinners, 1 << 60);
}

#[test]
fn principal_variation_prepends_the_move() {
    let mut child = PvList::new();
    child.set(&mv(52, 36), &PvList::new());
    let mut root = PvList::new();
    root.set(&mv(12, 28), &child);
    assert_eq!(root.len(), 2);
    assert_eq!(root.pv(), mv(12, 28));
    assert_eq!(root.get(1), mv(52, 36));
}

#[test]
fn a_miss_reads_as_the_empty_value() {
    let e = Entry::new();
    let v = e.get(99, 0, 0, -10, 10);
    assert!(!v.hit && !v.can_use);
    assert_eq!(v.pv, Move { from: 0, to: 0, promotion: None });
    assert_eq!((v.depth, v.static_score, v.score, v.is_pv, v.flag), (chrusty::param::UNINIT_DEPTH, VALUE_NONE, VALUE_NONE, false, chrusty::tt::FLAG_NONE));
}

#[test]
fn a_written_entry_is_usable_up_to_its_depth() {
    let mut e = Entry::new();
    e.set(5, mv(12, 28), 2, 6, FLAG_EXACT, 40, 0, false, 1);
    for d in 0..=6 {
        assert!(e.get(5, 2, d, 0, 100).can_use);
    }
    assert!(!e.get(5, 2, 7, 0, 100).can_use);
}

#[test]
fn see_is_monotone_in_the_threshold() {
    let cases = [
        ("4k3/8/8/3n4/4P3/8/8/4K3 w - - 0 1", mv(28, 35)),
        ("4k3/2p5/3p4/8/8/8/3Q4/4K3 w - - 0 1", mv(11, 43)),
        ("4k3/8/2p5/3r4/8/8/3R4/3QK3 w - - 0 1", mv(11, 35)),
    ];
    for (fen, m) in cases {
        let pos = position(fen);
        let mut prev = true;
        for beta in (-1200..=1200).step_by(50) {
            let now = see_ge(&pos, &m, beta);
            // once a threshold fails, every higher one fails too
            assert!(prev || !now);
            prev = now;
        }
    }
}
