use chrusty::chess::{Color, Move, Piece};
use chrusty::position::{CastleRights, Position};
use chrusty::stack::PawnKey;
use cozy_chess::Board;

fn piece_from(p: cozy_chess::Piece) -> Piece {
    match p {
        cozy_chess::Piece::Pawn => Piece::Pawn,
        cozy_chess::Piece::Knight => Piece::Knight,
        cozy_chess::Piece::Bishop => Piece::Bishop,
        cozy_chess::Piece::Rook => Piece::Rook,
        cozy_chess::Piece::Queen => Piece::Queen,
        cozy_chess::Piece::King => Piece::King,
    }
}

fn rights(r: &cozy_chess::CastleRights) -> CastleRights {
    CastleRights { short: r.short.map(|f| f as u8), long: r.long.map(|f| f as u8) }
}

fn to_pos(b: &Board) -> Position {
    Position {
        colors: [b.colors(cozy_chess::Color::White).0, b.colors(cozy_chess::Color::Black).0],
        pieces: cozy_chess::Piece::ALL.map(|p| b.pieces(p).0),
        side_to_move: if b.side_to_move() == cozy_chess::Color::White { Color::White } else { Color::Black },
        en_passant: b.en_passant().map(|f| f as u8),
        halfmove_clock: b.halfmove_clock(),
        checkers: b.checkers().0,
        pinned: b.pinned().0,
        hash: b.hash(),
        hash_without_ep: b.hash_without_ep(),
        castle_rights: [
            rights(b.castle_rights(cozy_chess::Color::White)),
            rights(b.castle_rights(cozy_chess::Color::Black)),
        ],
    }
}

fn keys_of(k: &PawnKey) -> (u64, [u64; 2], u64, u64) {
    (k.get(), k.get_colored(), k.get_major(), k.get_minor())
}

#[test]
fn pushed_keys_equal_fresh_keys_after_every_legal_move() {
    let fens = [
        "rnbqkbnr/pppppppp/8/8/8/8/PPPPPPPP/RNBQKBNR w KQkq - 0 1",
        "rnbqkbnr/ppp1p1pp/8/3pPp2/8/8/PPPP1PPP/RNBQKBNR w KQkq f6 0 3",
        "r3k2r/pppq1ppp/2n1bn2/3pp3/3PP3/2N1BN2/PPPQ1PPP/R3K2R w KQkq - 0 1",
        "r3k2r/pppq1ppp/2n1bn2/3pp3/3PP3/2N1BN2/PPPQ1PPP/R3K2R b KQkq - 0 1",
        "n1n5/PPPk4/8/8/8/8/4Kppp/5N1N w - - 0 1",
        "n1n5/PPPk4/8/8/8/8/4Kppp/5N1N b - - 0 1",
    ];
    let mut checked = 0;
    for fen in fens {
        let board = Board::from_fen(fen, false).unwrap();
        let pos = to_pos(&board);
        let mut moves = vec![];
        board.generate_moves(|ms| {
            moves.extend(ms);
            false
        });
        for cm in moves {
            let m = Move { from: cm.from as u8, to: cm.to as u8, promotion: cm.promotion.map(piece_from) };
            let mut pushed = PawnKey::new();
            pushed.init(&pos);
            pushed.push(&pos, m);
            let mut after = board.clone();
            after.play(cm);
            let mut fresh = PawnKey::new();
            fresh.init(&to_pos(&after));
            assert_eq!(keys_of(&pushed), keys_of(&fresh), "{} {}", fen, cm);
            checked += 1;
        }
    }
    assert!(checked > 100);
}
