use chrusty::chess::Color;
use chrusty::nnue::eval::{activate, l1_sums, nonzero_blocks};
use chrusty::nnue::network::{Aligned, Network, Permute};
use chrusty::nnue::raw::RawNetwork;
use chrusty::nnue::ti::FULL_THREATS;
use chrusty::nnue::NNUE;
use chrusty::position::{CastleRights, Position};
use cozy_chess::Board;

fn raw_rights(r: &cozy_chess::CastleRights) -> CastleRights {
    CastleRights { short: r.short.map(|f| f as u8), long: r.long.map(|f| f as u8) }
}

fn position_from(b: &Board) -> Position {
    Position {
        colors: [b.colors(cozy_chess::Color::White).0, b.colors(cozy_chess::Color::Black).0],
        pieces: cozy_chess::Piece::ALL.map(|p| b.pieces(p).0),
        side_to_move: if b.side_to_move() == cozy_chess::Color::White { Color::White } else { Color::Black },
        en_passant: b.en_passant().map(|f| f as u8),
        halfmove_clock: b.halfmove_clock(),
        checkers: b.checkers().0,
        pinned: b.pinned().0,
        hash: b.hash(),
        hash_without_ep: b.hash_without_ep(),
        castle_rights: [
            raw_rights(b.castle_rights(cozy_chess::Color::White)),
            raw_rights(b.castle_rights(cozy_chess::Color::Black)),
        ],
    }
}

fn zero_raw() -> RawNetwork {
    RawNetwork {
        feature_weights: vec![Aligned([0i16; 768]); 16 * 768],
        threat_weights: vec![Aligned([0i8; 768]); FULL_THREATS],
        feature_bias: Aligned([0i16; 768]),
        l1_weights: vec![Aligned([0i8; 768]); 8 * 32],
    }
}

#[test]
fn activation_clamps_and_multiplies_the_halves() {
    let mut acc = [Aligned([0i16; 768]); 2];
    let mut thr = [Aligned([0i16; 768]); 2];
    acc[0].0[0] = 300; // clamps to 255
    thr[0].0[384] = 100;
    acc[0].0[384] = 28; // 128 in all
    acc[1].0[1] = 200;
    thr[1].0[385] = -5; // clamps to 0
    acc[1].0[2] = 16;
    acc[1].0[386] = 16;
    let mut ft = Aligned([7u8; 768]);
    activate(&acc, &thr, Color::White, &mut ft);
    assert_eq!(ft.0[0], (255 * 128 / 256) as u8);
    assert_eq!(ft.0[384 + 1], 0);
    assert_eq!(ft.0[384 + 2], 1);
    assert_eq!(ft.0.iter().filter(|&&x| x != 0).count(), 2);
    // black to move reads black's accumulators first
    let mut ft2 = Aligned([0u8; 768]);
    activate(&acc, &thr, Color::Black, &mut ft2);
    assert_eq!(ft2.0[2], 1);
    assert_eq!(ft2.0[384], 127);
}

#[test]
fn nonzero_blocks_are_listed_in_order() {
    let mut ft = Aligned([0u8; 768]);
    ft.0[1] = 3;
    ft.0[9] = 1;
    ft.0[767] = 200;
    let mut idx = Aligned([0u16; 192]);
    let n = nonzero_blocks(&ft, &mut idx);
    assert_eq!(n, 3);
    assert_eq!(&idx.0[..3], &[0, 2, 191]);
    let zero = Aligned([0u8; 768]);
    assert_eq!(nonzero_blocks(&zero, &mut idx), 0);
}

#[test]
fn first_layer_sums_over_nonzero_blocks_match_the_dense_sums() {
    let mut raw = zero_raw();
    for j in 0..32 {
        for h in 0..768 {
            raw.l1_weights[3 * 32 + j].0[h] = (((h * 7 + j * 13) % 255) as i32 - 127) as i8;
        }
    }
    let expected_weights = raw.l1_weights.clone();
    let net = Network::load(raw).expect("threat lookup closes");
    let mut ft = Aligned([0u8; 768]);
    for h in 0..768 {
        if h % 5 == 0 {
            ft.0[h] = (h % 256) as u8;
        }
    }
    let mut idx = Aligned([0u16; 192]);
    let n = nonzero_blocks(&ft, &mut idx);
    let sums = l1_sums(&net, 3, &ft, &idx, n);
    for j in 0..32 {
        let dense: i32 = (0..768).map(|h| ft.0[h] as i32 * expected_weights[3 * 32 + j].0[h] as i32).sum();
        assert_eq!(sums[j], dense);
    }
}

#[test]
fn permuting_moves_every_row_lane() {
    let mut raw = zero_raw();
    for h in 0..768 {
        raw.feature_bias.0[h] = h as i16;
        raw.l1_weights[0].0[h] = (h % 100) as i8;
    }
    raw.feature_weights[5].0[10] = 42;
    let mut mapping = [0usize; 768];
    for i in 0..384 {
        mapping[i] = 383 - i;
    }
    let permute = Permute::new(mapping);
    raw.permute(&permute);
    assert_eq!(raw.feature_bias.0[0], 383);
    assert_eq!(raw.feature_bias.0[384], 767);
    assert_eq!(raw.feature_weights[5].0[373], 42);
    assert_eq!(raw.l1_weights[0].0[1], (382 % 100) as i8);
}

#[test]
fn zero_network_gives_zero_first_layer() {
    let mut nnue = NNUE::build(zero_raw(), &Permute::default()).expect("threat lookup closes");
    let board = Board::default();
    let pos = position_from(&board);
    nnue.init(&pos);
    let (sums, bucket) = nnue.evaluate_l1(&pos).expect("sums fit");
    assert_eq!(bucket, (32 - 2) / 4);
    assert_eq!(sums, [0; 32]);
    assert_eq!(nnue.head(), (0, 0, 0));
}
