use chrusty::chess::Color;
use chrusty::game::{apply_position, position_from_fen};
use chrusty::param::{MAX_DEPTH, MAX_NODES, MAX_TIME};
use chrusty::uci::{go_key, parse_go, parse_i64, parse_i8, parse_u128, GoKey, SearchLimits};

fn words(line: &str) -> Vec<Vec<u8>> {
    line.split_whitespace().map(|w| w.as_bytes().to_vec()).collect()
}

#[test]
fn numbers_parse_like_the_standard_library() {
    for s in ["0", "+7", "123", "340282366920938463463374607431768211455", "340282366920938463463374607431768211456", "", "+", "-1", "12a"] {
        assert_eq!(parse_u128(&s.as_bytes().to_vec()), s.parse::<u128>().ok(), "{}", s);
    }
    for s in ["-128", "127", "128", "-129", "+5", "-", "-0", "09"] {
        assert_eq!(parse_i8(&s.as_bytes().to_vec()), s.parse::<i8>().ok(), "{}", s);
    }
    for s in ["-9223372036854775808", "9223372036854775807", "9223372036854775808", "1000000"] {
        assert_eq!(parse_i64(&s.as_bytes().to_vec()), s.parse::<i64>().ok(), "{}", s);
    }
}

#[test]
fn go_words_are_recognised() {
    assert_eq!(go_key(&b"depth".to_vec()), GoKey::Depth);
    assert_eq!(go_key(&b"movetime".to_vec()), GoKey::Movetime);
    assert_eq!(go_key(&b"binc".to_vec()), GoKey::Binc);
    assert_eq!(go_key(&b"infinite".to_vec()), GoKey::Other);
}

#[test]
fn go_sets_fixed_limits() {
    let (lim, skipped) = parse_go(&words("depth 10 nodes 5000 movetime 1000"), true).unwrap();
    assert_eq!(lim.max_depths, 10);
    assert_eq!(lim.max_nodes, 5000);
    assert_eq!(lim.opt_time, 1000);
    assert_eq!(lim.max_time, 1000);
    assert!(skipped.is_empty());
}

#[test]
fn go_with_a_clock_plans_the_side_to_move() {
    let w = words("wtime 60000 winc 1000 btime 30000 binc 0");
    let (white, _) = parse_go(&w, true).unwrap();
    assert_eq!((white.opt_time, white.max_time), (3500, 48000));
    let (black, _) = parse_go(&w, false).unwrap();
    assert_eq!((black.opt_time, black.max_time), (1500, 24000));
    // a tiny clock still leaves 10 ms
    let (tiny, _) = parse_go(&words("wtime 5"), true).unwrap();
    assert_eq!((tiny.opt_time, tiny.max_time), (10, 10));
}

#[test]
fn go_skips_unknown_words_and_refuses_bad_values() {
    let (lim, skipped) = parse_go(&words("infinite depth 3 ponder"), true).unwrap();
    assert_eq!(lim.max_depths, 3);
    assert_eq!(skipped, vec![0, 3]);
    assert!(parse_go(&words("depth"), true).is_none());
    assert!(parse_go(&words("depth 200"), true).is_none());
    assert!(parse_go(&words("nodes many"), true).is_none());
    let (none, _) = parse_go(&words(""), true).unwrap();
    let fresh = SearchLimits::new();
    assert_eq!(none.max_depths, MAX_DEPTH);
    assert_eq!(none.max_nodes, MAX_NODES);
    assert_eq!((none.opt_time, none.max_time), (MAX_TIME, MAX_TIME));
    assert_eq!(fresh.max_depths, none.max_depths);
}

#[test]
fn position_startpos_with_moves() {
    let p = apply_position(&words("position startpos")).unwrap();
    assert_eq!(p.side_to_move, Color::White);
    assert_eq!(p.colors[0] | p.colors[1], 0xFFFF_0000_0000_FFFF);
    let p = apply_position(&words("position startpos moves e2e4 e7e5")).unwrap();
    assert_eq!(p.side_to_move, Color::White);
    // white pawn on e4 (28), black pawn on e5 (36)
    assert!(p.pieces[0] & p.colors[0] & (1 << 28) != 0);
    assert!(p.pieces[0] & p.colors[1] & (1 << 36) != 0);
    assert!(p.pieces[0] & (1 << 12) == 0);
}

#[test]
fn position_fen_with_standard_castling() {
    let p = apply_position(&words("position fen r3k2r/8/8/8/8/8/8/R3K2R w KQkq - 0 1 moves e1g1")).unwrap();
    // king on g1 (6), rook on f1 (5), black to move
    assert!(p.pieces[5] & p.colors[0] & (1 << 6) != 0);
    assert!(p.pieces[3] & p.colors[0] & (1 << 5) != 0);
    assert_eq!(p.side_to_move, Color::Black);
    assert_eq!(p.castle_rights[0].short, None);
}

#[test]
fn malformed_position_commands_are_refused() {
    assert!(apply_position(&words("position")).is_none());
    assert!(apply_position(&words("position kiwipete")).is_none());
    assert!(apply_position(&words("position fen 8/8/8")).is_none());
    assert!(apply_position(&words("position startpos moves e2e5")).is_none());
    assert!(position_from_fen(&b"not a fen".to_vec()).is_none());
    let p = position_from_fen(&b"4k3/8/8/8/8/8/8/4K3 b - - 3 9".to_vec()).unwrap();
    assert_eq!((p.side_to_move, p.halfmove_clock), (Color::Black, 3));
}
