use chrusty::chess::{Color, Move, Piece};
use chrusty::nnue::network::{Aligned, Permute};
use chrusty::nnue::raw::RawNetwork;
use chrusty::nnue::ti::FULL_THREATS;
use chrusty::nnue::NNUE;
use chrusty::position::{CastleRights, Position};
use cozy_chess::{Board, GameStatus};

fn rights_of(r: &cozy_chess::CastleRights) -> CastleRights {
    CastleRights { short: r.short.map(|f| f as u8), long: r.long.map(|f| f as u8) }
}

fn pos_of(b: &Board) -> Position {
    Position {
        colors: [b.colors(cozy_chess::Color::White).0, b.colors(cozy_chess::Color::Black).0],
        pieces: cozy_chess::Piece::ALL.map(|p| b.pieces(p).0),
        side_to_move: if b.side_to_move() == cozy_chess::Color::White { Color::White } else { Color::Black },
        en_passant: b.en_passant().map(|f| f as u8),
        halfmove_clock: b.halfmove_clock(),
        checkers: b.checkers().0,
        pinned: b.pinned().0,
        hash: b.hash(),
        hash_without_ep: b.hash_without_ep(),
        castle_rights: [
            rights_of(b.castle_rights(cozy_chess::Color::White)),
            rights_of(b.castle_rights(cozy_chess::Color::Black)),
        ],
    }
}

fn cozy_move(m: Move) -> cozy_chess::Move {
    cozy_chess::Move {
        from: cozy_chess::Square::index(m.from as usize),
        to: cozy_chess::Square::index(m.to as usize),
        promotion: m.promotion.map(|p| match p {
            Piece::Pawn => cozy_chess::Piece::Pawn,
            Piece::Knight => cozy_chess::Piece::Knight,
            Piece::Bishop => cozy_chess::Piece::Bishop,
            Piece::Rook => cozy_chess::Piece::Rook,
            Piece::Queen => cozy_chess::Piece::Queen,
            Piece::King => cozy_chess::Piece::King,
        }),
    }
}

/// Small deterministic weights, far from overflowing the accumulators.
fn synthetic_raw() -> RawNetwork {
    let mut x: u32 = 0x1234_5678;
    let mut next = move || {
        x ^= x << 13;
        x ^= x >> 17;
        x ^= x << 5;
        x
    };
    let mut feature_weights = Vec::with_capacity(16 * 768);
    for _ in 0..16 * 768 {
        let mut row = Aligned([0i16; 768]);
        for v in row.0.iter_mut() {
            *v = (next() % 129) as i16 - 64;
        }
        feature_weights.push(row);
    }
    let mut threat_weights = Vec::with_capacity(FULL_THREATS);
    for r in 0..FULL_THREATS {
        let mut row = Aligned([0i8; 768]);
        for (l, v) in row.0.iter_mut().enumerate() {
            *v = ((r * 31 + l * 17) % 17) as i8 - 8;
        }
        threat_weights.push(row);
    }
    let mut feature_bias = Aligned([0i16; 768]);
    for v in feature_bias.0.iter_mut() {
        *v = (next() % 201) as i16;
    }
    let mut l1_weights = Vec::with_capacity(8 * 32);
    for _ in 0..8 * 32 {
        let mut row = Aligned([0i8; 768]);
        for v in row.0.iter_mut() {
            *v = (next() % 255) as i8;
        }
        l1_weights.push(row);
    }
    RawNetwork { feature_weights, threat_weights, feature_bias, l1_weights }
}

fn new_net() -> NNUE {
    NNUE::build(synthetic_raw(), &Permute::default()).unwrap()
}

fn eval(net: &mut NNUE, board: &Board) -> [i32; 32] {
    net.evaluate_l1(&pos_of(board)).expect("sums fit").0
}

fn legal(board: &Board) -> Vec<Move> {
    let list = pos_of(board).get_legal_moves();
    list.iter().copied().collect()
}

fn play(net: &mut NNUE, board: &Board, m: Move) -> Board {
    let mut next = board.clone();
    next.play_unchecked(cozy_move(m));
    net.make_move(&pos_of(board), &pos_of(&next), m);
    next
}

#[test]
fn nnue_make_unmake_test() {
    let mut net = new_net();
    let board = Board::default();
    net.init(&pos_of(&board));
    let before = eval(&mut net, &board);
    let m = legal(&board)[12];
    play(&mut net, &board, m);
    net.unmake_move();
    assert_eq!(eval(&mut net, &board), before);
}

#[test]
fn nnue_symmetry_test() {
    let mut net = new_net();
    let board = Board::default();
    net.init(&pos_of(&board));
    let e = eval(&mut net, &board);
    let flipped = board.null_move().unwrap();
    net.init(&pos_of(&flipped));
    assert_eq!(eval(&mut net, &flipped), e);
}

#[test]
fn nnue_make_unmake_catchup_test() {
    let mut net = new_net();
    let board = Board::default();
    net.init(&pos_of(&board));
    let before = eval(&mut net, &board);
    net.catchup(&pos_of(&board));
    let m = legal(&board)[12];
    let next = play(&mut net, &board, m);
    net.catchup(&pos_of(&next));
    net.unmake_move();
    net.catchup(&pos_of(&board));
    assert_eq!(eval(&mut net, &board), before);
}

fn random_walk(sequence: &[i32], catchup: bool) {
    let mut net = new_net();
    let board = Board::default();
    net.init(&pos_of(&board));
    let mut evals = vec![None; 256];
    let mut boards: Vec<Option<Board>> = vec![None; 256];
    let mut sp = 0;
    evals[0] = Some(eval(&mut net, &board));
    boards[0] = Some(board);
    for &op in sequence {
        if op > 0 {
            for _ in 0..op {
                let board = boards[sp].clone().unwrap();
                let moves = legal(&board);
                let m = moves[1337 % moves.len()];
                let next = play(&mut net, &board, m);
                sp += 1;
                if catchup {
                    net.catchup(&pos_of(&next));
                }
                evals[sp] = Some(eval(&mut net, &next));
                boards[sp] = Some(next);
            }
        } else {
            for _ in 0..-op {
                net.unmake_move();
                sp -= 1;
                let board = boards[sp].clone().unwrap();
                if catchup {
                    net.catchup(&pos_of(&board));
                }
                assert_eq!(eval(&mut net, &board), evals[sp].unwrap());
            }
        }
    }
}

#[test]
fn nnue_random_make_unmake_catchup_test() {
    random_walk(&[4, -2, 3, -2, -1, 10, -5, -2], true);
}

#[test]
fn nnue_random_make_unmake_test() {
    random_walk(&[4, -2, 3, -2, -1, 10, -5, -2, 20, -1, -2, -5, -10], false);
}

#[test]
fn random_make_unmake_init_test() {
    let mut net = new_net();
    let mut fresh = new_net();
    for op in 0..100 {
        let mut board = Board::default();
        net.init(&pos_of(&board));
        let mut plies = 0;
        while board.status() == GameStatus::Ongoing && plies < 60 {
            let moves = legal(&board);
            let m = moves[op % moves.len()];
            let next = play(&mut net, &board, m);
            let incremental = eval(&mut net, &next);
            fresh.init(&pos_of(&next));
            assert_eq!(incremental, eval(&mut fresh, &next), "{} then {:?}", board, m);
            board = next;
            plies += 1;
        }
    }
}

const PERMUTE_FENS: [&str; 8] = [
    "rnbqkbnr/pppppppp/8/8/8/8/PPPPPPPP/RNBQKBNR w KQkq - 0 1",
    "r3r1k1/pp3pbp/1qp1b1p1/2B5/2BP4/Q1n2N2/P4PPP/3R1K1R w - - 4 18",
    "r3k2r/p1ppqpb1/bn2pnp1/3PN3/1p2P3/2N2Q1p/PPPBBPPP/R3K2R w KQkq - 0 1",
    "8/2p5/3p4/KP5r/1R3p1k/8/4P1P1/8 w - - 0 1",
    "8/8/1k6/2b5/2pP4/8/5K2/8 b - d3 0 1",
    "r1bq1rk1/pppn1ppp/4pn2/3p4/1bPP4/2N1PN2/PP1B1PPP/R2QKB1R b KQ - 3 7",
    "rnbqkb1r/pppp1ppp/5n2/4p3/4P3/2N5/PPPP1PPP/R1BQKBNR w KQkq - 2 3",
    "r1bqk1nr/pppp1ppp/2n5/2b1p3/2B1P3/5N2/PPPP1PPP/RNBQK2R w KQkq - 4 4",
];

#[test]
fn test_permute() {
    let mut plain = new_net();
    let mut mapping = [0usize; 768];
    for (i, m) in mapping.iter_mut().enumerate().take(384) {
        *m = (i * 7 + 3) % 384;
    }
    let mut reordered = NNUE::build(synthetic_raw(), &Permute::new(mapping)).unwrap();
    for fen in PERMUTE_FENS {
        let board = Board::from_fen(fen, false).unwrap();
        plain.init(&pos_of(&board));
        reordered.init(&pos_of(&board));
        assert_eq!(eval(&mut plain, &board), eval(&mut reordered, &board), "{}", fen);
    }
}
