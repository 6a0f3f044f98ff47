use chrusty::chess::{Color, Move};
use chrusty::engine::{sort_root_moves, static_correction, RootMove};
use chrusty::heuristic::Heuristic;
use chrusty::param::{VALUE_EVAL, VALUE_NONE};
use chrusty::position::{CastleRights, Position};
use chrusty::stack::PawnKey;
use cozy_chess::Board;

fn rights_here(r: &cozy_chess::CastleRights) -> CastleRights {
    CastleRights { short: r.short.map(|f| f as u8), long: r.long.map(|f| f as u8) }
}

fn start_position() -> Position {
    let b = Board::default();
    Position {
        colors: [b.colors(cozy_chess::Color::White).0, b.colors(cozy_chess::Color::Black).0],
        pieces: cozy_chess::Piece::ALL.map(|p| b.pieces(p).0),
        side_to_move: Color::White,
        en_passant: None,
        halfmove_clock: 0,
        checkers: 0,
        pinned: 0,
        hash: b.hash(),
        hash_without_ep: b.hash_without_ep(),
        castle_rights: [rights_here(b.castle_rights(cozy_chess::Color::White)), rights_here(b.castle_rights(cozy_chess::Color::Black))],
    }
}

#[test]
fn root_moves_start_empty_and_the_best_comes_first() {
    let m = Move { from: 12, to: 28, promotion: None };
    let r = RootMove::new(&m);
    assert_eq!((r.average_score, r.score, r.nodes), (VALUE_NONE, 0, 0));
    assert_eq!(r.pv_list.pv(), m);
    assert_eq!(r.pv_list.len(), 1);

    let mut moves: Vec<RootMove> = (0..5u8).map(|i| RootMove::new(&Move { from: i, to: i + 8, promotion: None })).collect();
    for (r, s) in moves.iter_mut().zip([10i16, 40, -3, 40, 7]) {
        r.score = s;
    }
    sort_root_moves(&mut moves);
    let scores: Vec<i16> = moves.iter().map(|r| r.score).collect();
    // the first of the two best moves (index 1) is swapped with the first
    assert_eq!(scores, vec![40, 10, -3, 40, 7]);
    assert_eq!(moves[0].pv_list.pv().from, 1);
    assert_eq!(moves[1].pv_list.pv().from, 0);
    let mut none: Vec<RootMove> = Vec::new();
    sort_root_moves(&mut none);
    assert!(none.is_empty());
}

#[test]
fn static_evaluation_is_corrected_and_clamped() {
    let mut h = Heuristic::new(vec![0; 96 * 64]);
    let mut keys = PawnKey::new();
    let pos = start_position();
    keys.init(&pos);
    assert_eq!(static_correction(&h, &keys, Color::White, 100, None), 100);
    let k = (keys.get() % 16384) as usize;
    h.pawn_corrhist[k][0].add(512);
    assert_eq!(static_correction(&h, &keys, Color::White, 100, None), 132);
    // black reads its own entry
    assert_eq!(static_correction(&h, &keys, Color::Black, 100, None), 100);
    h.cont_corrhist[3 * 64 + 5][2][20].add(-1000);
    // 24 * -1000 / 512 = -46.875, rounded toward zero
    assert_eq!(static_correction(&h, &keys, Color::White, 100, Some(((3, 5), 2, 20))), 132 - 46);
    assert_eq!(static_correction(&h, &keys, Color::White, 32700, None), VALUE_EVAL);
}
