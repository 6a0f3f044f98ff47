//! Indexing of threat features: (attacker, its square, target square, target kind) tuples
//! packed densely, counting only the squares an attacker can geometrically reach.

use vstd::prelude::*;
use crate::chess::{Piece, piece_index, popcount, bitboard_len, rank_of, count_upto, bb_has};
use crate::attacks::{pawn_attacks, knight_attacks, bishop_attacks, rook_attacks, get_pawn_attacks,
    get_knight_moves, get_bishop_moves, get_rook_moves};

verus! {

pub const NUM_ATTACKER_PIECES: usize = 5;
pub const NUM_TARGET_PIECES: usize = 5;

/// `TARGET_MAP[attacker][target]`: the slot of a target kind among an attacker's targets, or
/// -1 when that pair is no feature. Pawns only target knights and rooks; bishops and rooks
/// do not target queens; kings take part in none.
pub const TARGET_MAP: [[i8; 6]; 6] = [
    [-1, 0, -1, 1, -1, -1],
    [0, 1, 2, 3, 4, -1],
    [0, 1, 2, 3, -1, -1],
    [0, 1, 2, 3, -1, -1],
    [0, 1, 2, 3, 4, -1],
    [-1, -1, -1, -1, -1, -1],
];

/// Number of target slots among the first `n` target kinds of `attacker`.
pub open spec fn targets_upto(attacker: int, n: int) -> int
    decreases n,
{
    if n <= 0 {
        0
    } else {
        targets_upto(attacker, n - 1) + (if TARGET_MAP[attacker][n - 1] >= 0 { 1int } else { 0int })
    }
}

/// Number of target kinds `attacker` has features for.
pub fn count_targets(attacker: usize) -> (r: usize)
    requires
        attacker < 6,
    ensures
        r == targets_upto(attacker as int, 6),
        r <= 6,
{
    let mut n: usize = 0;
    let mut t: usize = 0;
    while t < 6
        invariant
            t <= 6,
            attacker < 6,
            n == targets_upto(attacker as int, t as int),
            n <= t,
        decreases 6 - t,
    {
        if TARGET_MAP[attacker][t] >= 0 {
            n += 1;
        }
        t += 1;
    }
    n
}

/// Target counts of pawn, knight, bishop, rook and queen attackers.
pub const NUM_TARGETS: [usize; 5] = [2, 5, 4, 4, 5];

/// Sum over all squares of the squares each attacker kind can reach on an empty board.
pub const GEO_COUNTS: [usize; 5] = [84, 336, 560, 896, 1456];

/// Features per attacker side: `sum(GEO_COUNTS[i] * NUM_TARGETS[i])`.
pub const HALF_THREATS: usize = 14952;
pub const THREATS: usize = 29904;
pub const FULL_THREATS: usize = 59808;

/// `NUM_TARGETS` holds the counts that `TARGET_MAP` gives.
pub proof fn lemma_num_targets()
    ensures
        forall|i: int| 0 <= i < 5 ==> #[trigger] NUM_TARGETS[i] == targets_upto(i, 6),
{
    reveal_with_fuel(targets_upto, 7);
}

pub open spec fn half_size_upto(n: int) -> int
    decreases n,
{
    if n <= 0 {
        0
    } else {
        half_size_upto(n - 1) + GEO_COUNTS[n - 1] * NUM_TARGETS[n - 1]
    }
}

/// Number of features for one attacker side.
pub fn half_size() -> (r: usize)
    ensures
        r == half_size_upto(5),
        r == HALF_THREATS,
{
    let mut total: usize = 0;
    let mut i: usize = 0;
    assert(NUM_TARGETS[0] == 2 && NUM_TARGETS[1] == 5 && NUM_TARGETS[2] == 4 && NUM_TARGETS[3] == 4 && NUM_TARGETS[4] == 5);
    assert(GEO_COUNTS[0] == 84 && GEO_COUNTS[1] == 336 && GEO_COUNTS[2] == 560 && GEO_COUNTS[3] == 896 && GEO_COUNTS[4] == 1456);
    while i < NUM_ATTACKER_PIECES
        invariant
            forall|j: int| 0 <= j < 5 ==> #[trigger] NUM_TARGETS[j] <= 5,
            forall|j: int| 0 <= j < 5 ==> #[trigger] GEO_COUNTS[j] <= 1456,
            i <= 5,
            total == half_size_upto(i as int),
            total <= 7280 * i,
        decreases 5 - i,
    {
        let g = GEO_COUNTS[i];
        let t = NUM_TARGETS[i];
        assert(g * t <= 7280) by (nonlinear_arith) requires g <= 1456, t <= 5;
        total += g * t;
        i += 1;
    }
    assert(half_size_upto(5) == 14952) by {
        assert(NUM_TARGETS[0] == 2 && NUM_TARGETS[1] == 5 && NUM_TARGETS[2] == 4 && NUM_TARGETS[3] == 4 && NUM_TARGETS[4] == 5);
        assert(GEO_COUNTS[0] == 84 && GEO_COUNTS[1] == 336 && GEO_COUNTS[2] == 560 && GEO_COUNTS[3] == 896 && GEO_COUNTS[4] == 1456);
        assert(half_size_upto(0) == 0);
        assert(GEO_COUNTS[0] * NUM_TARGETS[0] == 168) by (nonlinear_arith) requires GEO_COUNTS[0] == 84, NUM_TARGETS[0] == 2;
        assert(half_size_upto(1) == 168);
        assert(GEO_COUNTS[1] * NUM_TARGETS[1] == 1680) by (nonlinear_arith) requires GEO_COUNTS[1] == 336, NUM_TARGETS[1] == 5;
        assert(half_size_upto(2) == 1848);
        assert(GEO_COUNTS[2] * NUM_TARGETS[2] == 2240) by (nonlinear_arith) requires GEO_COUNTS[2] == 560, NUM_TARGETS[2] == 4;
        assert(half_size_upto(3) == 4088);
        assert(GEO_COUNTS[3] * NUM_TARGETS[3] == 3584) by (nonlinear_arith) requires GEO_COUNTS[3] == 896, NUM_TARGETS[3] == 4;
        assert(half_size_upto(4) == 7672);
        assert(GEO_COUNTS[4] * NUM_TARGETS[4] == 7280) by (nonlinear_arith) requires GEO_COUNTS[4] == 1456, NUM_TARGETS[4] == 5;
        assert(half_size_upto(5) == 14952);
    }
    total
}

/// Whether an attacker / target pair is a feature at all.
pub fn is_feature(attacker: Piece, target: Piece) -> (r: bool)
    ensures
        r == (TARGET_MAP[piece_index(attacker)][piece_index(target)] >= 0),
{
    TARGET_MAP[attacker.index()][target.index()] >= 0
}

/// Squares an attacker of kind `pi` (pawn .. queen) on `sq` reaches on an empty board; pawns
/// of the side to move attack upward, the other side's downward, and pawns on the first or
/// last rank attack nothing.
pub open spec fn geometric_spec(pi: int, sq: u8, attacker_is_us: bool) -> u64 {
    if pi == 0 {
        if rank_of(sq as int) == 0 || rank_of(sq as int) == 7 {
            0
        } else {
            pawn_attacks(sq, !attacker_is_us)
        }
    } else if pi == 1 {
        knight_attacks(sq)
    } else if pi == 2 {
        bishop_attacks(sq, 0)
    } else if pi == 3 {
        rook_attacks(sq, 0)
    } else {
        bishop_attacks(sq, 0) | rook_attacks(sq, 0)
    }
}

fn geometric_attacks(pi: usize, sq: u8, attacker_is_us: bool) -> (r: u64)
    requires
        pi < 5,
        sq < 64,
    ensures
        r == geometric_spec(pi as int, sq, attacker_is_us),
{
    if pi == 0 {
        let rank = sq / 8;
        if rank == 0 || rank == 7 {
            0
        } else {
            get_pawn_attacks(sq, !attacker_is_us)
        }
    } else if pi == 1 {
        get_knight_moves(sq)
    } else if pi == 2 {
        get_bishop_moves(sq, 0)
    } else if pi == 3 {
        get_rook_moves(sq, 0)
    } else {
        get_bishop_moves(sq, 0) | get_rook_moves(sq, 0)
    }
}

/// One row of the lookup: the reachable squares and where the row's features start.
#[derive(Clone, Copy, Debug)]
pub struct LutEntry {
    pub attacks: u64,
    pub base: u32,
    pub stride: u32,
}

/// Position `k = half * 320 + pi * 64 + sq` of a lookup row in build order.
pub open spec fn row_half(k: int) -> int { k / 320 }
pub open spec fn row_piece(k: int) -> int { (k % 320) / 64 }
pub open spec fn row_square(k: int) -> int { k % 64 }

/// Features taken by row `k`.
pub open spec fn row_size(k: int) -> int {
    NUM_TARGETS[row_piece(k)] * popcount(
        geometric_spec(row_piece(k), row_square(k) as u8, row_half(k) == 0),
    )
}

/// Whether the rows' running totals close at `HALF_THREATS` after the first half and at
/// twice that after the second.
pub open spec fn lut_closes() -> bool {
    rows_before(320) == HALF_THREATS && rows_before(640) == 2 * HALF_THREATS
}

/// Features taken by the rows before `k`.
pub open spec fn rows_before(k: int) -> int
    decreases k,
{
    if k <= 0 {
        0
    } else {
        rows_before(k - 1) + row_size(k - 1)
    }
}

/// Row `k` holds the reachable squares, its running offset and its stride.
pub open spec fn row_ok(e: LutEntry, k: int) -> bool {
    &&& e.attacks == geometric_spec(row_piece(k), row_square(k) as u8, row_half(k) == 0)
    &&& e.base == rows_before(k)
    &&& e.stride == NUM_TARGETS[row_piece(k)]
}

/// Every row takes at most 320 features, so the rows before `k` take at most `320 * k`.
pub proof fn lemma_rows_before_bound(k: int)
    requires
        0 <= k,
    ensures
        0 <= rows_before(k) <= 320 * k,
    decreases k,
{
    if k > 0 {
        lemma_rows_before_bound(k - 1);
        let bb = geometric_spec(row_piece(k - 1), row_square(k - 1) as u8, row_half(k - 1) == 0);
        lemma_count_bound(bb, 64);
        assert(NUM_TARGETS[0] == 2 && NUM_TARGETS[1] == 5 && NUM_TARGETS[2] == 4 && NUM_TARGETS[3] == 4 && NUM_TARGETS[4] == 5);
        let t = NUM_TARGETS[row_piece(k - 1)];
        assert(0 <= row_piece(k - 1) < 5);
        assert(t <= 5);
        assert(t * popcount(bb) <= 320) by (nonlinear_arith)
            requires t <= 5, popcount(bb) <= 64;
    }
}

/// A prefix of `n` squares holds at most `n` squares.
pub proof fn lemma_count_bound(bb: u64, n: nat)
    ensures
        count_upto(bb, n) <= n,
    decreases n,
{
    if n > 0 {
        lemma_count_bound(bb, (n - 1) as nat);
    }
}

/// Threat feature lookup rows, `[attacker_is_us ? 0 : 1][attacker kind][from square]`, flat.
pub struct ThreatLut {
    pub index: Vec<LutEntry>,
}

impl ThreatLut {
    /// Every row holds the reachable squares, the row's stride and its running offset.
    pub open spec fn wf(&self) -> bool {
        &&& self.index@.len() == 640
        &&& forall|k: int| 0 <= k < 640 ==> #[trigger] row_ok(self.index@[k], k)
    }

    /// Builds the rows; `None` when the running totals do not close at `HALF_THREATS` and
    /// `2 * HALF_THREATS`, which would mean the attack tables disagree with `GEO_COUNTS`.
    pub fn build() -> (r: Option<Self>)
        ensures
            r matches Some(lut) ==> lut.wf() && rows_before(320) == HALF_THREATS && rows_before(640)
                == 2 * HALF_THREATS,
            r is None ==> !(rows_before(320) == HALF_THREATS && rows_before(640) == 2 * HALF_THREATS),
            r is Some <==> lut_closes(),
    {
        let mut index: Vec<LutEntry> = Vec::new();
        assert(NUM_TARGETS[0] == 2 && NUM_TARGETS[1] == 5 && NUM_TARGETS[2] == 4 && NUM_TARGETS[3] == 4 && NUM_TARGETS[4] == 5);
        let mut running: u64 = 0;
        let mut ok = true;
        let mut half: usize = 0;
        while half < 2
            invariant
                half <= 2,
                index@.len() == half * 320,
                running == rows_before(half * 320),
                running <= 320 * index@.len(),
                ok == ((half >= 1 ==> rows_before(320) == HALF_THREATS) && (half >= 2 ==> rows_before(640) == 2 * HALF_THREATS)),
                forall|k: int| 0 <= k < index@.len() ==> #[trigger] row_ok(index@[k], k),
                forall|j: int| 0 <= j < 5 ==> #[trigger] NUM_TARGETS[j] <= 5,
            decreases 2 - half,
        {
            let attacker_is_us = half == 0;
            let mut pi: usize = 0;
            while pi < NUM_ATTACKER_PIECES
                invariant
                    half < 2,
                    attacker_is_us == (half == 0),
                    pi <= 5,
                    index@.len() == half * 320 + pi * 64,
                    running == rows_before(half * 320 + pi * 64),
                    running <= 320 * index@.len(),
                    ok == (half >= 1 ==> rows_before(320) == HALF_THREATS),
                    forall|k: int| 0 <= k < index@.len() ==> #[trigger] row_ok(index@[k], k),
                    forall|j: int| 0 <= j < 5 ==> #[trigger] NUM_TARGETS[j] <= 5,
                decreases 5 - pi,
            {
                let stride = NUM_TARGETS[pi];
                let mut from: u8 = 0;
                while from < 64
                    invariant
                        half < 2,
                        attacker_is_us == (half == 0),
                        pi < 5,
                        stride == NUM_TARGETS[pi as int],
                        from <= 64,
                        index@.len() == half * 320 + pi * 64 + from,
                        running == rows_before(half * 320 + pi * 64 + from),
                        running <= 320 * index@.len(),
                        ok == (half >= 1 ==> rows_before(320) == HALF_THREATS),
                        forall|k: int| 0 <= k < index@.len() ==> #[trigger] row_ok(index@[k], k),
                        forall|j: int| 0 <= j < 5 ==> #[trigger] NUM_TARGETS[j] <= 5,
                    decreases 64 - from,
                {
                    let attacks = geometric_attacks(pi, from, attacker_is_us);
                    let ghost k = half * 320 + pi * 64 + from;
                    assert(row_half(k) == half && row_piece(k) == pi && row_square(k) == from);
                    index.push(LutEntry { attacks, base: running as u32, stride: stride as u32 });
                    let n = bitboard_len(attacks);
                    assert(stride <= 5);
                    assert(stride as u64 * n as u64 <= 320) by (nonlinear_arith)
                        requires stride <= 5, n <= 64;
                    running = running + stride as u64 * n as u64;
                    assert(row_ok(index@[k], k));
                    from += 1;
                }
                pi += 1;
            }
            assert(running == rows_before(half * 320 + 320));
            if half == 0 {
                ok = running == 14952;
                assert(ok == (rows_before(320) == HALF_THREATS));
            } else {
                ok = ok && running == 29904;
                assert(ok == ((rows_before(320) == HALF_THREATS) && (rows_before(640) == 2 * HALF_THREATS)));
            }
            half += 1;
        }
        if ok {
            Some(Self { index })
        } else {
            None
        }
    }

    /// Feature index in `[0, THREATS)` of an attack from `from` to `to` hitting target slot
    /// `target_slot`: the row's offset, plus the reachable squares below `to` times the
    /// stride, plus the slot.
    pub fn lut_index(&self, half: usize, attacker_pi: usize, from: u8, to: u8, target_slot: usize) -> (r: usize)
        requires
            self.wf(),
            half < 2,
            attacker_pi < 5,
            from < 64,
            to < 64,
            target_slot < 6,
            rows_before(640) == 2 * HALF_THREATS,
        ensures
            r <= 204800 + 320 + 6,
            r == self.index@[half * 320 + attacker_pi * 64 + from].base
                + popcount(self.index@[half * 320 + attacker_pi * 64 + from].attacks & (((1u64 << (to as u64)) - 1) as u64))
                * self.index@[half * 320 + attacker_pi * 64 + from].stride + target_slot,
    {
        let k = half * 320 + attacker_pi * 64 + from as usize;
        let e = self.index[k];
        assert(row_ok(self.index@[k as int], k as int));
        proof { lemma_rows_before_bound(k as int); }
        assert(NUM_TARGETS[0] == 2 && NUM_TARGETS[1] == 5 && NUM_TARGETS[2] == 4 && NUM_TARGETS[3] == 4 && NUM_TARGETS[4] == 5);
        assert(1u64 << to >= 1) by (bit_vector) requires to < 64;
        let below_mask: u64 = (1u64 << to) - 1;
        let below = e.attacks & below_mask;
        let n = bitboard_len(below);
        assert(n as usize * e.stride as usize <= 320) by (nonlinear_arith)
            requires n <= 64, e.stride <= 5;
        e.base as usize + n as usize * e.stride as usize + target_slot
    }
}

/// Index of a threat feature: attacks between opposing pieces take `[0, THREATS)`, defences
/// of own pieces the next `THREATS` slots.
pub fn threat_feature_index(
    lut: &ThreatLut,
    attacker_is_us: bool,
    is_attack: bool,
    attacker_pi: usize,
    from: u8,
    to: u8,
    target_pi: usize,
) -> (r: usize)
    requires
        lut.wf(),
        rows_before(640) == 2 * HALF_THREATS,
        attacker_pi < 5,
        target_pi < 6,
        from < 64,
        to < 64,
        TARGET_MAP[attacker_pi as int][target_pi as int] >= 0,
    ensures
        ({
            let half: int = if attacker_is_us { 0 } else { 1 };
            let e = lut.index@[half * 320 + attacker_pi * 64 + from];
            let i = e.base + popcount(e.attacks & (((1u64 << (to as u64)) - 1) as u64)) * e.stride
                + TARGET_MAP[attacker_pi as int][target_pi as int];
            r == if is_attack { i } else { i + THREATS }
        }),
        r <= 204800 + 326 + THREATS,
{
    let slot = TARGET_MAP[attacker_pi][target_pi];
    let half: usize = if attacker_is_us { 0 } else { 1 };
    let index = lut.lut_index(half, attacker_pi, from, to, slot as usize);
    assert(slot < 6) by {
        assert(TARGET_MAP[attacker_pi as int][target_pi as int] <= 4);
    }
    if is_attack {
        index
    } else {
        index + THREATS
    }
}

} // verus!
