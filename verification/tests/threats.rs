use chrusty::chess::{Color, Piece};
use chrusty::position::{CastleRights, Position};
use chrusty::threats::{setwise_bishop, setwise_knight, setwise_pawn, setwise_rook, Threats};
use chrusty::stack::PawnKey;
use chrusty::zobrist::zobrist_pst;
use cozy_chess::{BitBoard, Board, Square};

fn rights(r: &cozy_chess::CastleRights) -> CastleRights {
    CastleRights { short: r.short.map(|f| f as u8), long: r.long.map(|f| f as u8) }
}

fn board_position(b: &Board) -> Position {
    Position {
        colors: [b.colors(cozy_chess::Color::White).0, b.colors(cozy_chess::Color::Black).0],
        pieces: cozy_chess::Piece::ALL.map(|p| b.pieces(p).0),
        side_to_move: if b.side_to_move() == cozy_chess::Color::White { Color::White } else { Color::Black },
        en_passant: b.en_passant().map(|f| f as u8),
        halfmove_clock: b.halfmove_clock(),
        checkers: b.checkers().0,
        pinned: b.pinned().0,
        hash: b.hash(),
        hash_without_ep: b.hash_without_ep(),
        castle_rights: [
            rights(b.castle_rights(cozy_chess::Color::White)),
            rights(b.castle_rights(cozy_chess::Color::Black)),
        ],
    }
}

fn own_color(c: cozy_chess::Color) -> Color {
    if c == cozy_chess::Color::White { Color::White } else { Color::Black }
}

fn get_attacks(occ: BitBoard, square: Square, piece: cozy_chess::Piece, color: cozy_chess::Color) -> BitBoard {
    match piece {
        cozy_chess::Piece::Pawn => cozy_chess::get_pawn_attacks(square, color),
        cozy_chess::Piece::Knight => cozy_chess::get_knight_moves(square),
        cozy_chess::Piece::Bishop => cozy_chess::get_bishop_moves(square, occ),
        cozy_chess::Piece::Rook => cozy_chess::get_rook_moves(square, occ),
        cozy_chess::Piece::Queen => {
            cozy_chess::get_bishop_moves(square, occ) | cozy_chess::get_rook_moves(square, occ)
        }
        cozy_chess::Piece::King => cozy_chess::get_king_moves(square),
    }
}

const FENS: [&str; 27] = [
    "rnbqkbnr/pppppppp/8/8/8/8/PPPPPPPP/RNBQKBNR w KQkq - 0 1",
    "rnbqkbnr/pppppppp/8/8/8/N7/PPPPPPPP/R1BQKBNR b KQkq - 1 1",
    "rnbqkbnr/pppppppp/8/8/8/5N2/PPPPPPPP/RNBQKB1R b KQkq - 1 1",
    "r3r1k1/pp3pbp/1qp1b1p1/2B5/2BP4/Q1n2N2/P4PPP/3R1K1R w - - 4 18",
    "rnbqkbnr/pppppppp/8/8/8/8/PPPPPPPP/RNBQKBNR w KQkq - 0 1",
    "r3k2r/p1ppqpb1/bn2pnp1/3PN3/1p2P3/2N2Q1p/PPPBBPPP/R3K2R w KQkq - 0 1",
    "8/2p5/3p4/KP5r/1R3p1k/8/4P1P1/8 w - - 0 1",
    "r3k2r/Pppp1ppp/1b3nbN/nP6/BBP1P3/q4N2/Pp1P2PP/R2Q1RK1 w kq - 0 1",
    "rnbq1k1r/pp1Pbppp/2p5/8/2B5/8/PPP1NnPP/RNBQK2R w KQ - 1 8",
    "r4rk1/1pp1qppp/p1np1n2/2b1p1B1/2B1P1b1/P1NP1N2/1PP1QPPP/R4RK1 w - - 0 10",
    "3k4/3p4/8/K1P4r/8/8/8/8 b - - 0 1",
    "8/8/4k3/8/2p5/8/B2P2K1/8 w - - 0 1",
    "8/8/1k6/2b5/2pP4/8/5K2/8 b - d3 0 1",
    "5k2/8/8/8/8/8/8/4K2R w K - 0 1",
    "r1bqkb1r/pppp1ppp/2n2n2/4p3/4P3/3P1N2/PPP2PPP/RNBQKB1R b KQkq - 0 4",
    "r1b1k2r/pp1p1ppp/2n1pn2/q7/1bP1P3/2N2N2/PP1B1PPP/R2QKB1R w KQkq - 4 8",
    "r2q1rk1/pbpn1ppp/1p2pn2/3p4/1bPP4/2N1PN2/PPQB1PPP/R3KB1R w KQ - 2 9",
    "r1bqkb1r/pppp1ppp/2n5/4p3/2B1n3/5N2/PPPP1PPP/RNBQK2R w KQkq - 0 5",
    "rnbqkb1r/pppp1ppp/5n2/4p3/4P3/2N5/PPPP1PPP/R1BQKBNR b KQkq - 1 3",
    "r1bqk2r/pppp1ppp/2n2n2/4p3/1b2P3/2NP1N2/PPP2PPP/R1BQKB1R w KQkq - 1 6",
    "r2qkb1r/ppp2ppp/2np1n2/4p3/4P1b1/2NP1N2/PPP2PPP/R1BQKB1R w KQkq - 2 6",
    "r1bq1rk1/pppn1ppp/4pn2/3p4/1bPP4/2N1PN2/PP1B1PPP/R2QKB1R w KQ - 3 7",
    "r2qk2r/pppnbppp/4pn2/3p1b2/3P4/2N1PN2/PPP1BPPP/R1BQ1RK1 w kq - 4 8",
    "r1bq1rk1/pppn1ppp/4pn2/3p4/1bPP4/2N1PN2/PP1B1PPP/R2QKB1R b KQ - 3 7",
    "r1bqkb1r/pppp1ppp/2n5/4p3/4n3/5N2/PPPP1PPP/RNBQKB1R w KQkq - 0 5",
    "rnbqkb1r/pppp1ppp/5n2/4p3/4P3/2N5/PPPP1PPP/R1BQKBNR w KQkq - 2 3",
    "r1bqk1nr/pppp1ppp/2n5/2b1p3/2B1P3/5N2/PPPP1PPP/RNBQK2R w KQkq - 4 4",
];

#[test]
fn test_setwise() {
    for fen in FENS {
        let pos = Board::from_fen(fen, false).unwrap();

        // regular
        let occ = pos.occupied();
        let mut by_opp = [BitBoard::EMPTY; 6];
        for square in pos.colors(!pos.side_to_move()) {
            let piece = pos.piece_on(square).unwrap();
            by_opp[piece as usize] |= get_attacks(occ, square, piece, !pos.side_to_move());
        }

        // setwise
        let stm = !pos.side_to_move();
        let c = own_color(stm);
        let o = occ.0;
        let setwise_by_opp = [
            setwise_pawn(pos.colored_pieces(stm, cozy_chess::Piece::Pawn).0, c),
            setwise_knight(pos.colored_pieces(stm, cozy_chess::Piece::Knight).0),
            setwise_bishop(pos.colored_pieces(stm, cozy_chess::Piece::Bishop).0, o),
            setwise_rook(pos.colored_pieces(stm, cozy_chess::Piece::Rook).0, o),
            setwise_bishop(pos.colored_pieces(stm, cozy_chess::Piece::Queen).0, o)
                | setwise_rook(pos.colored_pieces(stm, cozy_chess::Piece::Queen).0, o),
            cozy_chess::get_king_moves(pos.king(stm)).0,
        ];

        assert_eq!(by_opp.map(|b| b.0), setwise_by_opp, "{}", fen);
    }
}

#[test]
fn threats_build_agrees_with_per_piece_attacks() {
    for fen in FENS {
        let board = Board::from_fen(fen, false).unwrap();
        let pos = board_position(&board);
        let threats = Threats::build(&pos);
        let ntm = !board.side_to_move();
        let occ = board.occupied();
        let mut by_opp = [BitBoard::EMPTY; 6];
        for square in board.colors(ntm) {
            let piece = board.piece_on(square).unwrap();
            by_opp[piece as usize] |= get_attacks(occ, square, piece, ntm);
        }
        assert_eq!(threats.by_opp, by_opp.map(|b| b.0), "{}", fen);
        let king = board.king(ntm);
        assert_eq!(threats.checks[0], 0);
        assert_eq!(threats.checks[1], cozy_chess::get_knight_moves(king).0);
        assert_eq!(threats.checks[2], cozy_chess::get_bishop_moves(king, occ).0);
        assert_eq!(threats.checks[3], cozy_chess::get_rook_moves(king, occ).0);
        assert_eq!(threats.checks[4], threats.checks[2] | threats.checks[3]);
        assert_eq!(threats.checks[5], 0);
    }
}

#[test]
fn pawn_attacks_of_the_start_position() {
    // white pawns on the second rank attack the whole third rank
    assert_eq!(setwise_pawn(0xff00, Color::White), 0xff_0000);
    // an a-file pawn attacks only the b-file, an h-file pawn only the g-file
    assert_eq!(setwise_pawn(1 << 8, Color::White), 1 << 17);
    assert_eq!(setwise_pawn(1 << 15, Color::White), 1 << 22);
    // black pawns capture down the board
    assert_eq!(setwise_pawn(1 << 52, Color::Black), (1 << 43) | (1 << 45));
}

#[test]
fn threat_key_xors_the_attacked_opponent_pieces() {
    let piece_of = |p: cozy_chess::Piece| match p {
        cozy_chess::Piece::Pawn => Piece::Pawn,
        cozy_chess::Piece::Knight => Piece::Knight,
        cozy_chess::Piece::Bishop => Piece::Bishop,
        cozy_chess::Piece::Rook => Piece::Rook,
        cozy_chess::Piece::Queen => Piece::Queen,
        cozy_chess::Piece::King => Piece::King,
    };
    let keys = PawnKey::new();
    for fen in FENS {
        let board = Board::from_fen(fen, false).unwrap();
        let pos = board_position(&board);
        let stm = board.side_to_move();
        let occ = board.occupied();
        let mut attacked = BitBoard::EMPTY;
        for square in board.colors(stm) {
            attacked |= get_attacks(occ, square, board.piece_on(square).unwrap(), stm);
        }
        attacked &= board.colors(!stm);
        let mut expected = 0u64;
        for square in attacked {
            expected ^= zobrist_pst(own_color(!stm), piece_of(board.piece_on(square).unwrap()), square as u8);
        }
        assert_eq!(keys.get_threats(&pos), expected, "{}", fen);
    }
    // nothing attacked in the start position
    let start = board_position(&Board::default());
    assert_eq!(keys.get_threats(&start), 0);
}
