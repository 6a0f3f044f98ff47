use chrusty::chess::{Color, Move, Piece};
use chrusty::heuristic::Heuristic;
use chrusty::movepick::Movepick;
use chrusty::position::{CastleRights, Position};
use cozy_chess::Board;

fn piece_of(p: cozy_chess::Piece) -> Piece {
    match p {
        cozy_chess::Piece::Pawn => Piece::Pawn,
        cozy_chess::Piece::Knight => Piece::Knight,
        cozy_chess::Piece::Bishop => Piece::Bishop,
        cozy_chess::Piece::Rook => Piece::Rook,
        cozy_chess::Piece::Queen => Piece::Queen,
        cozy_chess::Piece::King => Piece::King,
    }
}

fn rights_of(r: &cozy_chess::CastleRights) -> CastleRights {
    CastleRights { short: r.short.map(|f| f as u8), long: r.long.map(|f| f as u8) }
}

fn position_of(b: &Board) -> Position {
    Position {
        colors: [b.colors(cozy_chess::Color::White).0, b.colors(cozy_chess::Color::Black).0],
        pieces: cozy_chess::Piece::ALL.map(|p| b.pieces(p).0),
        side_to_move: if b.side_to_move() == cozy_chess::Color::White { Color::White } else { Color::Black },
        en_passant: b.en_passant().map(|f| f as u8),
        halfmove_clock: b.halfmove_clock(),
        checkers: b.checkers().0,
        pinned: b.pinned().0,
        hash: b.hash(),
        hash_without_ep: b.hash_without_ep(),
        castle_rights: [
            rights_of(b.castle_rights(cozy_chess::Color::White)),
            rights_of(b.castle_rights(cozy_chess::Color::Black)),
        ],
    }
}

fn move_of(m: cozy_chess::Move) -> Move {
    Move { from: m.from as u8, to: m.to as u8, promotion: m.promotion.map(piece_of) }
}

fn diff_movegen(fen: &str, heuristic: &Heuristic) {
    let board = Board::from_fen(fen, false).unwrap();
    let pos = position_of(&board);
    let mut total = vec![];
    board.generate_moves(|moves| {
        for m in moves {
            total.push(move_of(m));
        }
        false
    });
    total.sort_by_key(|m| m.to_bits());

    for mut mp in vec![
        Movepick::new_negamax(pos, Move::null(), 0, heuristic),
        Movepick::new_qsearch(pos, Move::null(), 0, heuristic, true),
    ] {
        let mut mp_moves = vec![];
        loop {
            let m = mp.next_move();
            if m.is_null() {
                break;
            }
            mp_moves.push(m.inner);
        }
        mp_moves.sort_by_key(|m| m.to_bits());
        assert!(total.len() == mp_moves.len(), "length mismatch, {}, {:?}, {:?}", fen, total, mp_moves);
        for (a, b) in total.iter().zip(&mp_moves) {
            assert!(a == b);
        }
    }
}

#[test]
fn test_movegen() {
    let heuristic = Heuristic::new(vec![0; 96 * 64]);
    let fens = vec![
        "rnbqkbnr/pppppppp/8/8/8/8/PPPPPPPP/RNBQKBNR w KQkq - 0 1",
        "rnbqkbnr/pppppppp/8/8/8/N7/PPPPPPPP/R1BQKBNR b KQkq - 1 1",
        "rnbqkbnr/pppppppp/8/8/8/5N2/PPPPPPPP/RNBQKB1R b KQkq - 1 1",
        "r3r1k1/pp3pbp/1qp1b1p1/2B5/2BP4/Q1n2N2/P4PPP/3R1K1R w - - 4 18",
        "rnbqkbnr/pppppppp/8/8/8/8/PPPPPPPP/RNBQKBNR w KQkq - 0 1",
        "r3k2r/p1ppqpb1/bn2pnp1/3PN3/1p2P3/2N2Q1p/PPPBBPPP/R3K2R w KQkq - 0 1",
        "8/2p5/3p4/KP5r/1R3p1k/8/4P1P1/8 w - - 0 1",
        "r3k2r/Pppp1ppp/1b3nbN/nP6/BBP1P3/q4N2/Pp1P2PP/R2Q1RK1 w kq - 0 1",
        "rnbq1k1r/pp1Pbppp/2p5/8/2B5/8/PPP1NnPP/RNBQK2R w KQ - 1 8",
        "r4rk1/1pp1qppp/p1np1n2/2b1p1B1/2B1P1b1/P1NP1N2/1PP1QPPP/R4RK1 w - - 0 10",
        "3k4/3p4/8/K1P4r/8/8/8/8 b - - 0 1",
        "8/8/4k3/8/2p5/8/B2P2K1/8 w - - 0 1",
        "8/8/1k6/2b5/2pP4/8/5K2/8 b - d3 0 1",
        "5k2/8/8/8/8/8/8/4K2R w K - 0 1",
        "r1bqkb1r/pppp1ppp/2n2n2/4p3/4P3/3P1N2/PPP2PPP/RNBQKB1R b KQkq - 0 4",
        "r1b1k2r/pp1p1ppp/2n1pn2/q7/1bP1P3/2N2N2/PP1B1PPP/R2QKB1R w KQkq - 4 8",
        "r2q1rk1/pbpn1ppp/1p2pn2/3p4/1bPP4/2N1PN2/PPQB1PPP/R3KB1R w KQ - 2 9",
        "r1bqkb1r/pppp1ppp/2n5/4p3/2B1n3/5N2/PPPP1PPP/RNBQK2R w KQkq - 0 5",
        "rnbqkb1r/pppp1ppp/5n2/4p3/4P3/2N5/PPPP1PPP/R1BQKBNR b KQkq - 1 3",
        "r1bqk2r/pppp1ppp/2n2n2/4p3/1b2P3/2NP1N2/PPP2PPP/R1BQKB1R w KQkq - 1 6",
        "r2qkb1r/ppp2ppp/2np1n2/4p3/4P1b1/2NP1N2/PPP2PPP/R1BQKB1R w KQkq - 2 6",
        "r1bq1rk1/pppn1ppp/4pn2/3p4/1bPP4/2N1PN2/PP1B1PPP/R2QKB1R w KQ - 3 7",
        "r2qk2r/pppnbppp/4pn2/3p1b2/3P4/2N1PN2/PPP1BPPP/R1BQ1RK1 w kq - 4 8",
        "r1bq1rk1/pppn1ppp/4pn2/3p4/1bPP4/2N1PN2/PP1B1PPP/R2QKB1R b KQ - 3 7",
        "r1bqkb1r/pppp1ppp/2n5/4p3/4n3/5N2/PPPP1PPP/RNBQKB1R w KQkq - 0 5",
        "rnbqkb1r/pppp1ppp/5n2/4p3/4P3/2N5/PPPP1PPP/R1BQKBNR w KQkq - 2 3",
        "r1bqk1nr/pppp1ppp/2n5/2b1p3/2B1P3/5N2/PPPP1PPP/RNBQK2R w KQkq - 4 4",
    ];
    for fen in fens.iter() {
        diff_movegen(fen, &heuristic);
    }
}

#[test]
fn hash_move_comes_first_and_once() {
    let heuristic = Heuristic::new(vec![0; 96 * 64]);
    let board = Board::default();
    let pos = position_of(&board);
    // e2e4
    let pv = Move { from: 12, to: 28, promotion: None };
    let mut mp = Movepick::new_negamax(pos, pv, 0, &heuristic);
    assert_eq!(mp.next_move().inner, pv);
    let mut rest = vec![];
    loop {
        let m = mp.next_move();
        if m.is_null() {
            break;
        }
        rest.push(m.inner);
    }
    assert_eq!(rest.len(), 19);
    assert!(!rest.contains(&pv));
    // once exhausted it stays so
    assert!(mp.next_move().is_null());
}

#[test]
fn qsearch_out_of_check_gives_captures_only() {
    let heuristic = Heuristic::new(vec![0; 96 * 64]);
    // white can take on d5 with the e4 pawn and with the c3 knight
    let board = Board::from_fen("4k3/8/8/3p4/4P3/2N5/8/4K3 w - - 0 1", false).unwrap();
    let pos = position_of(&board);
    let mut mp = Movepick::new_qsearch(pos, Move::null(), 0, &heuristic, false);
    let mut got = vec![];
    loop {
        let m = mp.next_move();
        if m.is_null() {
            break;
        }
        got.push((m.inner, m.score));
    }
    assert_eq!(got.len(), 2);
    // both take a pawn (value 100, doubled) with empty histories
    assert!(got.iter().all(|(m, s)| m.to == 35 && *s == 200));
}

#[test]
fn legal_moves_of_the_start_position() {
    let board = Board::default();
    let pos = position_of(&board);
    assert!(pos.any_moves());
    let list = pos.get_legal_moves();
    assert_eq!(list.len(), 20);
}

#[test]
fn captures_come_best_first_and_before_the_quiet_moves() {
    let heuristic = Heuristic::new(vec![0; 96 * 64]);
    // the c3 knight can take the d5 queen or the e4 pawn
    let board = Board::from_fen("4k3/8/8/3q4/4p3/2N5/8/4K3 w - - 0 1", false).unwrap();
    let pos = position_of(&board);
    let mut mp = Movepick::new_negamax(pos, Move::null(), 0, &heuristic);
    let mut got = vec![];
    loop {
        let m = mp.next_move();
        if m.is_null() {
            break;
        }
        got.push((m.inner, m.score));
    }
    assert_eq!(got[0], (Move { from: 18, to: 35, promotion: None }, 1800));
    assert_eq!(got[1], (Move { from: 18, to: 28, promotion: None }, 200));
    // the rest are quiet moves, none of them onto an occupied square
    let occupied = board.occupied();
    assert!(got[2..].iter().all(|(m, _)| !occupied.has(cozy_chess::Square::index(m.to as usize))));
    let mut legal = 0;
    board.generate_moves(|ms| {
        legal += ms.len();
        false
    });
    assert_eq!(got.len(), legal);
}
