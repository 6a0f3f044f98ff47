use vstd::prelude::*;
use crate::helpers::trunc_div;

verus! {

/// A history counter whose value is pulled back toward zero as it grows ("history gravity").
/// `LIMIT` bounds both the bonus applied in one update and the magnitude of the value.
#[derive(Clone, Copy, Debug)]
pub struct History<const LIMIT: u16> {
    value: i16,
}

/// The bonus after it is clamped to `[-limit, limit]`.
pub open spec fn clamp_bonus(bonus: int, limit: int) -> int {
    if bonus < -limit { -limit } else if bonus > limit { limit } else { bonus }
}

/// The value a history counter takes after one update with `bonus`.
pub open spec fn gravity_update(value: int, bonus: int, limit: int) -> int {
    let c = clamp_bonus(bonus, limit);
    let ac = if c < 0 { -c } else { c };
    value + c - trunc_div(value * ac, limit)
}

impl<const LIMIT: u16> History<LIMIT> {
    /// The current value as a mathematical integer.
    pub closed spec fn view(&self) -> int {
        self.value as int
    }

    /// The counter's invariant: its magnitude never exceeds `LIMIT`.
    pub closed spec fn wf(&self) -> bool {
        -(LIMIT as int) <= self.value <= LIMIT
    }

    pub fn new() -> (h: Self)
        ensures
            h@ == 0,
            h.wf(),
    {
        Self { value: 0 }
    }

    /// A counter is well formed exactly when its value lies within `LIMIT` either way.
    pub proof fn lemma_wf_range(&self)
        ensures
            self.wf() <==> -(LIMIT as int) <= self@ <= LIMIT as int,
    {
    }

    pub fn add(&mut self, bonus: i16)
        requires
            0 < LIMIT <= i16::MAX,
            old(self).wf(),
        ensures
            final(self).wf(),
            final(self)@ == gravity_update(old(self)@, bonus as int, LIMIT as int),
            bonus >= 0 ==> final(self)@ >= old(self)@,
            bonus <= 0 ==> final(self)@ <= old(self)@,
    {
        proof {
            lemma_gravity_follows_bonus(self.value as int, bonus as int, LIMIT as int);
        }
        let limit: i16 = LIMIT as i16;
        let clamped: i32 = if bonus < -limit { -limit as i32 } else if bonus > limit { limit as i32 } else { bonus as i32 };
        let abs_c: i32 = if clamped < 0 { -clamped } else { clamped };
        let v: i32 = self.value as i32;
        proof {
            lemma_gravity_bounded(v as int, clamped as int, LIMIT as int);
        }
        let prod: i32 = v * abs_c;
        let next: i32 = v + clamped - prod / (LIMIT as i32);
        self.value = next as i16;
    }

    pub fn get(&self) -> (r: i16)
        ensures
            r == self@,
    {
        self.value
    }
}

/// A history update moves the counter the way its bonus points: up (or not at all) for a
/// non-negative bonus, down (or not at all) for a non-positive one.
pub proof fn lemma_gravity_follows_bonus(value: int, bonus: int, limit: int)
    requires
        0 < limit <= 32767,
        -limit <= value <= limit,
    ensures
        bonus >= 0 ==> gravity_update(value, bonus, limit) >= value,
        bonus <= 0 ==> gravity_update(value, bonus, limit) <= value,
{
    let c = clamp_bonus(bonus, limit);
    let ac = if c < 0 { -c } else { c };
    let p = value * ac;
    assert(0 <= ac <= limit);
    assert(-(limit * ac) <= p <= limit * ac) by (nonlinear_arith)
        requires -limit <= value <= limit, 0 <= ac, p == value * ac;
    let ap = if p < 0 { -p } else { p };
    assert(ap <= limit * ac);
    assert(ap / limit <= ac) by (nonlinear_arith)
        requires 0 <= ap <= limit * ac, 0 < limit, 0 <= ac;
    assert(ap / limit >= 0) by (nonlinear_arith)
        requires 0 <= ap, 0 < limit;
}

/// One gravity step with an in-range value and bonus stays in range.
proof fn lemma_gravity_bounded(v: int, c: int, l: int)
    requires
        0 < l <= 32767,
        -l <= v <= l,
        -l <= c <= l,
    ensures
        -l <= v + c - trunc_div(v * (if c < 0 { -c } else { c }), l) <= l,
        -(l * l) <= v * (if c < 0 { -c } else { c }) <= l * l,
        l * l <= 32767 * 32767,
{
    assert(l * l <= 32767 * 32767) by (nonlinear_arith) requires 0 < l <= 32767;
    let ac = if c < 0 { -c } else { c };
    assert(0 <= ac <= l);
    assert(-(l * ac) <= v * ac <= l * ac) by (nonlinear_arith)
        requires -l <= v <= l, 0 <= ac;
    assert(l * ac <= l * l) by (nonlinear_arith)
        requires 0 <= ac <= l, 0 < l;
    let p = v * ac;
    let q = trunc_div(p, l);
    // q lies between the floor and the ceiling of p / l
    assert(p / l * l <= p < p / l * l + l) by (nonlinear_arith)
        requires 0 < l;
    if v >= 0 {
        assert(p >= 0) by (nonlinear_arith) requires v >= 0, ac >= 0, p == v * ac;
        assert(q == p / l);
        // v + c - v*ac/l <= l  since v*(1 - ac/l) <= l - c ... in integer form
        assert(q * l <= p);
        assert(p - q * l < l);
        // l*(v + c - q) = l*v + l*c - l*q, with l*q > p - l
        assert(l * (v + c - q) < l * v + l * c - p + l) by (nonlinear_arith)
            requires q * l > p - l;
        assert(l * v + l * c - v * ac <= l * l) by (nonlinear_arith)
            requires 0 <= v <= l, -l <= c <= l, ac == (if c < 0 { -c } else { c }), 0 < l;
        assert(v + c - q <= l) by (nonlinear_arith)
            requires l * (v + c - q) < l * v + l * c - p + l, l * v + l * c - p <= l * l, 0 < l;
        assert(l * (v + c - q) >= l * v + l * c - p) by (nonlinear_arith)
            requires q * l <= p;
        assert(l * v + l * c - v * ac >= -(l * l)) by (nonlinear_arith)
            requires 0 <= v <= l, -l <= c <= l, ac == (if c < 0 { -c } else { c }), 0 < l;
        assert(v + c - q >= -l) by (nonlinear_arith)
            requires l * (v + c - q) >= l * v + l * c - p, l * v + l * c - p >= -(l * l), 0 < l;
    } else {
        assert(p <= 0) by (nonlinear_arith) requires v < 0, ac >= 0, p == v * ac;
        // truncation toward zero of a non-positive number is the ceiling
        assert(q * l >= p && q * l < p + l) by {
            let m = -p;
            assert(m / l * l <= m < m / l * l + l) by (nonlinear_arith) requires 0 < l;
            if p < 0 {
                assert(q == -(m / l));
                assert(q * l == -(m / l * l)) by (nonlinear_arith) requires q == -(m / l);
            } else {
                assert(p == 0);
                assert(q == 0);
            }
        }
        assert(l * (v + c - q) > l * v + l * c - p - l) by (nonlinear_arith)
            requires q * l < p + l;
        assert(l * v + l * c - v * ac >= -(l * l)) by (nonlinear_arith)
            requires -l <= v < 0, -l <= c <= l, ac == (if c < 0 { -c } else { c }), 0 < l;
        assert(v + c - q >= -l) by (nonlinear_arith)
            requires l * (v + c - q) > l * v + l * c - p - l, l * v + l * c - p >= -(l * l), 0 < l;
        assert(l * (v + c - q) <= l * v + l * c - p) by (nonlinear_arith)
            requires q * l >= p;
        assert(l * v + l * c - v * ac <= l * l) by (nonlinear_arith)
            requires -l <= v < 0, -l <= c <= l, ac == (if c < 0 { -c } else { c }), 0 < l;
        assert(v + c - q <= l) by (nonlinear_arith)
            requires l * (v + c - q) <= l * v + l * c - p, l * v + l * c - p <= l * l, 0 < l;
    }
}

/// History gravity keeps every counter within `[-limit, limit]`, whatever bonus is applied.
pub proof fn lemma_history_stays_bounded(value: int, bonus: int, limit: int)
    requires
        0 < limit <= 32767,
        -limit <= value <= limit,
    ensures
        -limit <= gravity_update(value, bonus, limit) <= limit,
{
    let c = clamp_bonus(bonus, limit);
    lemma_gravity_bounded(value, c, limit);
}

} // verus!

use crate::chess::{Move, ColoredPiece, Color, Piece, color_index, piece_index, colored_index, move_on_board, null_move_spec};
use crate::position::Position;
use crate::param::{LMR_MOVE_COUNT, LMR_DEPTH};

verus! {

pub const CORR_LIMIT: u16 = 1024;
pub type MainHistory = History<20000>;
pub type CaptureHistory = History<20000>;
pub type PawnHistory = History<20000>;
pub type PawnCorr = History<1024>;
pub const NUM_KILLERS: usize = 2;
pub const LOW_PLY: usize = 6;
pub const PAWN_HASH: usize = 16384;
/// Number of killer slots (one per ply).
pub const KILLER_PLIES: usize = 64;

/// Index of `[side][from][to]`.
pub open spec fn main_idx(side: int, from: int, to: int) -> int {
    side * 4096 + from * 64 + to
}

/// Index of `[colored piece][to][captured piece]`.
pub open spec fn capture_idx(cp: int, to: int, captured: int) -> int {
    cp * 384 + to * 6 + captured
}

/// Index of `[ply][side][from][to]`.
pub open spec fn low_ply_idx(ply: int, side: int, from: int, to: int) -> int {
    ply * 8192 + side * 4096 + from * 64 + to
}

/// Index of `[pawn key bucket][colored piece][to]`.
pub open spec fn pawn_idx(key: u64, cp: int, to: int) -> int {
    (key as int % 16384) * 768 + cp * 64 + to
}

/// Values of a table of history counters.
pub open spec fn values<const L: u16>(t: Seq<History<L>>) -> Seq<int> {
    t.map_values(|h: History<L>| h@)
}

/// Every counter of a table is within its limit.
pub open spec fn table_wf<const L: u16>(t: Seq<History<L>>) -> bool {
    forall|i: int| 0 <= i < t.len() ==> #[trigger] t[i].wf()
}

/// A table after a gravity update of entry `i` with `bonus`.
pub open spec fn bump(t: Seq<int>, i: int, bonus: int, limit: int) -> Seq<int> {
    t.update(i, gravity_update(t[i], bonus, limit))
}

/// A table after a gravity update with `bonus` of the entry of each index of `idx`, in order.
pub open spec fn bump_all(t: Seq<int>, idx: Seq<int>, bonus: int, limit: int) -> Seq<int>
    decreases idx.len(),
{
    if idx.len() == 0 {
        t
    } else {
        bump(bump_all(t, idx.drop_last(), bonus, limit), idx.last(), bonus, limit)
    }
}

/// History tables guiding move ordering, reductions and evaluation correction.
pub struct Heuristic {
    /// `lmr[move_count][depth]`: late move reductions.
    pub lmr: Vec<i8>,
    /// `[side][from][to]`
    pub main_history: Vec<MainHistory>,
    /// `[colored piece][to][captured piece]`
    pub capture_history: Vec<CaptureHistory>,
    /// `[ply]`: the two latest quiet moves that caused a cutoff.
    pub killer_moves: Vec<[Move; 2]>,
    /// `[colored piece][to]` of the previous move: the reply that refuted it.
    pub counter: Vec<Move>,
    /// `[ply][side][from][to]` for the first plies.
    pub low_ply: Vec<MainHistory>,
    /// `[pawn key][colored piece][to]`
    pub pawn: Vec<PawnHistory>,
    /// `[key][side to move]` correction histories.
    pub pawn_corrhist: Vec<[PawnCorr; 2]>,
    pub white_corrhist: Vec<[PawnCorr; 2]>,
    pub black_corrhist: Vec<[PawnCorr; 2]>,
    pub major_corrhist: Vec<[PawnCorr; 2]>,
    pub minor_corrhist: Vec<[PawnCorr; 2]>,
    /// `[colored piece or 12][to]` of the move two plies back, then `[colored piece][to]`.
    pub cont_corrhist: Vec<[[PawnCorr; 64]; 12]>,
}

/// A counter that is zero.
pub open spec fn fresh<const L: u16>(h: History<L>) -> bool {
    h@ == 0 && h.wf()
}

fn history_table<const L: u16>(n: usize) -> (r: Vec<History<L>>)
    ensures
        r@.len() == n,
        forall|i: int| 0 <= i < n ==> #[trigger] fresh(r@[i]),
        table_wf(r@),
        forall|i: int| 0 <= i < n ==> #[trigger] r@[i]@ == 0,
{
    let mut v: Vec<History<L>> = Vec::new();
    let mut i: usize = 0;
    while i < n
        invariant
            i <= n,
            v@.len() == i,
            forall|k: int| 0 <= k < i ==> #[trigger] fresh(v@[k]),
        decreases n - i,
    {
        let h = History::<L>::new();
        v.push(h);
        assert(fresh(v@[i as int]));
        i += 1;
    }
    assert forall|k: int| 0 <= k < n implies #[trigger] v@[k].wf() by {
        assert(fresh(v@[k]));
    }
    assert forall|k: int| 0 <= k < n implies #[trigger] v@[k]@ == 0 by {
        assert(fresh(v@[k]));
    }
    v
}

fn corr_table(n: usize) -> (r: Vec<[PawnCorr; 2]>)
    ensures
        r@.len() == n,
        forall|i: int, s: int| 0 <= i < n && 0 <= s < 2 ==> fresh(#[trigger] r@[i][s]),
        forall|i: int, c: int| 0 <= i < n && 0 <= c < 2 ==> (#[trigger] r@[i][c]).wf(),
{
    let mut v: Vec<[PawnCorr; 2]> = Vec::new();
    let mut i: usize = 0;
    while i < n
        invariant
            i <= n,
            v@.len() == i,
            forall|k: int, s: int| 0 <= k < i && 0 <= s < 2 ==> #[trigger] fresh(v@[k][s]),
        decreases n - i,
    {
        let h = PawnCorr::new();
        v.push([h, h]);
        assert(fresh(v@[i as int][0]) && fresh(v@[i as int][1]));
        i += 1;
    }
    assert forall|k: int, c: int| 0 <= k < n && 0 <= c < 2 implies (#[trigger] v@[k][c]).wf() by {
        assert(fresh(v@[k][c]));
    }
    v
}

fn cont_table(n: usize) -> (r: Vec<[[PawnCorr; 64]; 12]>)
    ensures
        r@.len() == n,
        forall|i: int, p: int, t: int| 0 <= i < n && 0 <= p < 12 && 0 <= t < 64 ==> fresh(#[trigger] r@[i][p][t]),
        forall|i: int, p: int, t: int| 0 <= i < n && 0 <= p < 12 && 0 <= t < 64 ==> (#[trigger] r@[i][p][t]).wf(),
{
    let h = PawnCorr::new();
    let row = [h; 64];
    let block = [row; 12];
    let mut v: Vec<[[PawnCorr; 64]; 12]> = Vec::new();
    let mut i: usize = 0;
    while i < n
        invariant
            i <= n,
            v@.len() == i,
            fresh(h),
            forall|p: int, t: int| 0 <= p < 12 && 0 <= t < 64 ==> #[trigger] block[p][t] == h,
            forall|k: int, p: int, t: int| 0 <= k < i && 0 <= p < 12 && 0 <= t < 64 ==> #[trigger] fresh(v@[k][p][t]),
        decreases n - i,
    {
        v.push(block);
        i += 1;
    }
    assert forall|k: int, p: int, t: int| 0 <= k < n && 0 <= p < 12 && 0 <= t < 64 implies (#[trigger] v@[k][p][t]).wf() by {
        assert(fresh(v@[k][p][t]));
    }
    v
}

fn killer_table(n: usize) -> (r: Vec<[Move; 2]>)
    ensures
        r@.len() == n,
        forall|i: int, k: int| 0 <= i < n && 0 <= k < 2 ==> #[trigger] r@[i][k] == null_move_spec(),
{
    let mut v: Vec<[Move; 2]> = Vec::new();
    let mut i: usize = 0;
    while i < n
        invariant
            i <= n,
            v@.len() == i,
            forall|j: int, k: int| 0 <= j < i && 0 <= k < 2 ==> #[trigger] v@[j][k] == null_move_spec(),
        decreases n - i,
    {
        v.push([Move::null(), Move::null()]);
        i += 1;
    }
    v
}

fn counter_table(n: usize) -> (r: Vec<Move>)
    ensures
        r@.len() == n,
        forall|i: int| 0 <= i < n ==> #[trigger] r@[i] == null_move_spec(),
{
    let mut v: Vec<Move> = Vec::new();
    let mut i: usize = 0;
    while i < n
        invariant
            i <= n,
            v@.len() == i,
            forall|j: int| 0 <= j < i ==> #[trigger] v@[j] == null_move_spec(),
        decreases n - i,
    {
        v.push(Move::null());
        i += 1;
    }
    v
}

impl Heuristic {
    /// Table sizes and every counter within its limit.
    pub open spec fn wf(&self) -> bool {
        &&& self.lmr@.len() == 96 * 64
        &&& self.main_history@.len() == 8192
        &&& self.capture_history@.len() == 4608
        &&& self.killer_moves@.len() == 64
        &&& self.counter@.len() == 768
        &&& self.low_ply@.len() == 49152
        &&& self.pawn@.len() == 16384 * 768
        &&& self.pawn_corrhist@.len() == 16384
        &&& self.white_corrhist@.len() == 16384
        &&& self.black_corrhist@.len() == 16384
        &&& self.major_corrhist@.len() == 16384
        &&& self.minor_corrhist@.len() == 16384
        &&& self.cont_corrhist@.len() == 13 * 64
        &&& table_wf(self.main_history@)
        &&& table_wf(self.capture_history@)
        &&& table_wf(self.low_ply@)
        &&& table_wf(self.pawn@)
        &&& forall|i: int, c: int| 0 <= i < 16384 && 0 <= c < 2 ==> (#[trigger] self.pawn_corrhist@[i][c]).wf()
        &&& forall|i: int, c: int| 0 <= i < 16384 && 0 <= c < 2 ==> (#[trigger] self.white_corrhist@[i][c]).wf()
        &&& forall|i: int, c: int| 0 <= i < 16384 && 0 <= c < 2 ==> (#[trigger] self.black_corrhist@[i][c]).wf()
        &&& forall|i: int, c: int| 0 <= i < 16384 && 0 <= c < 2 ==> (#[trigger] self.major_corrhist@[i][c]).wf()
        &&& forall|i: int, c: int| 0 <= i < 16384 && 0 <= c < 2 ==> (#[trigger] self.minor_corrhist@[i][c]).wf()
        &&& forall|i: int, p: int, t: int| 0 <= i < 13 * 64 && 0 <= p < 12 && 0 <= t < 64 ==> (#[trigger] self.cont_corrhist@[i][p][t]).wf()
    }

    /// Fresh tables: every counter zero, no killers and no counter moves. The reduction table
    /// `lmr` (`[move_count][depth]`, 96 by 64) is computed by the caller.
    pub fn new(lmr: Vec<i8>) -> (r: Self)
        requires
            lmr@.len() == 96 * 64,
        ensures
            r.wf(),
            r.lmr@ == lmr@,
            forall|i: int| 0 <= i < 8192 ==> #[trigger] r.main_history@[i]@ == 0,
            forall|i: int| 0 <= i < 4608 ==> #[trigger] r.capture_history@[i]@ == 0,
            forall|i: int| 0 <= i < 49152 ==> #[trigger] r.low_ply@[i]@ == 0,
            forall|i: int| 0 <= i < 16384 * 768 ==> #[trigger] r.pawn@[i]@ == 0,
            forall|i: int, k: int| 0 <= i < 64 && 0 <= k < 2 ==> #[trigger] r.killer_moves@[i][k] == null_move_spec(),
            forall|i: int| 0 <= i < 768 ==> #[trigger] r.counter@[i] == null_move_spec(),
    {
        Self {
            lmr,
            main_history: history_table(8192),
            capture_history: history_table(4608),
            killer_moves: killer_table(64),
            counter: counter_table(768),
            low_ply: history_table(49152),
            pawn: history_table(16384 * 768),
            pawn_corrhist: corr_table(16384),
            white_corrhist: corr_table(16384),
            black_corrhist: corr_table(16384),
            major_corrhist: corr_table(16384),
            minor_corrhist: corr_table(16384),
            cont_corrhist: cont_table(13 * 64),
        }
    }

    /// Forgets the killer moves before a new search.
    pub fn next_search(&mut self)
        requires
            old(self).wf(),
        ensures
            final(self).wf(),
            forall|i: int, k: int| 0 <= i < 64 && 0 <= k < 2 ==> #[trigger] final(self).killer_moves@[i][k] == null_move_spec(),
            final(self).main_history == old(self).main_history,
            final(self).counter == old(self).counter,
            final(self).pawn == old(self).pawn,
    {
        self.killer_moves = killer_table(64);
    }

    /// Resets every table but the reductions, as for a new game.
    pub fn clear(&mut self)
        requires
            old(self).wf(),
        ensures
            final(self).wf(),
            final(self).lmr == old(self).lmr,
            forall|i: int| 0 <= i < 8192 ==> #[trigger] final(self).main_history@[i]@ == 0,
            forall|i: int| 0 <= i < 4608 ==> #[trigger] final(self).capture_history@[i]@ == 0,
            forall|i: int| 0 <= i < 49152 ==> #[trigger] final(self).low_ply@[i]@ == 0,
            forall|i: int| 0 <= i < 16384 * 768 ==> #[trigger] final(self).pawn@[i]@ == 0,
            forall|i: int, k: int| 0 <= i < 64 && 0 <= k < 2 ==> #[trigger] final(self).killer_moves@[i][k] == null_move_spec(),
            forall|i: int| 0 <= i < 768 ==> #[trigger] final(self).counter@[i] == null_move_spec(),
            forall|i: int, c: int| 0 <= i < 16384 && 0 <= c < 2 ==> (#[trigger] final(self).pawn_corrhist@[i][c])@ == 0,
            forall|i: int, c: int| 0 <= i < 16384 && 0 <= c < 2 ==> (#[trigger] final(self).white_corrhist@[i][c])@ == 0,
            forall|i: int, c: int| 0 <= i < 16384 && 0 <= c < 2 ==> (#[trigger] final(self).black_corrhist@[i][c])@ == 0,
            forall|i: int, c: int| 0 <= i < 16384 && 0 <= c < 2 ==> (#[trigger] final(self).major_corrhist@[i][c])@ == 0,
            forall|i: int, c: int| 0 <= i < 16384 && 0 <= c < 2 ==> (#[trigger] final(self).minor_corrhist@[i][c])@ == 0,
            forall|i: int, p: int, t: int| 0 <= i < 13 * 64 && 0 <= p < 12 && 0 <= t < 64 ==> (#[trigger] final(self).cont_corrhist@[i][p][t])@ == 0,
    {
        self.main_history = history_table(8192);
        self.capture_history = history_table(4608);
        self.killer_moves = killer_table(64);
        self.counter = counter_table(768);
        self.low_ply = history_table(49152);
        self.pawn = history_table(16384 * 768);
        self.pawn_corrhist = corr_table(16384);
        self.white_corrhist = corr_table(16384);
        self.black_corrhist = corr_table(16384);
        self.major_corrhist = corr_table(16384);
        self.minor_corrhist = corr_table(16384);
        self.cont_corrhist = cont_table(13 * 64);
    }

    /// The reduction for the `move_count`-th move at `depth`, both capped at the table's edge.
    pub fn get_lmr(&self, move_count: usize, depth: i8) -> (r: i8)
        requires
            self.wf(),
            depth >= 0,
        ensures
            r == self.lmr@[(if move_count < 95 { move_count as int } else { 95 }) * 64 + (if depth < 63 { depth as int } else { 63 })],
    {
        let mc = if move_count < LMR_MOVE_COUNT - 1 { move_count } else { LMR_MOVE_COUNT - 1 };
        let d = if (depth as usize) < LMR_DEPTH - 1 { depth as usize } else { LMR_DEPTH - 1 };
        self.lmr[mc * 64 + d]
    }

    pub fn get_main_history(&self, pos: &Position, m: Move) -> (r: &MainHistory)
        requires
            self.wf(),
            move_on_board(m),
        ensures
            *r == self.main_history@[main_idx(color_index(pos.side_to_move), m.from as int, m.to as int)],
    {
        let i = pos.side_to_move.index() * 4096 + m.from as usize * 64 + m.to as usize;
        &self.main_history[i]
    }

    pub fn get_capture_history(&self, pos: &Position, m: Move) -> (r: &CaptureHistory)
        requires
            self.wf(),
            move_on_board(m),
            pos.color_on_spec(m.from as int) is Some,
            pos.piece_on_spec(m.from as int) is Some,
        ensures
            *r == self.capture_history@[capture_idx(
                colored_index(ColoredPiece { color: pos.color_on_spec(m.from as int).unwrap(), piece: pos.piece_on_spec(m.from as int).unwrap() }),
                m.to as int,
                piece_index(captured_spec(*pos, m)),
            )],
    {
        let cp = pos.color_piece_on(m.from).unwrap();
        let i = cp.index() * 384 + m.to as usize * 6 + pos.get_captured(m).index();
        &self.capture_history[i]
    }

    pub fn get_killers(&self, ply: i8) -> (r: &[Move; 2])
        requires
            self.wf(),
            0 <= ply < 64,
        ensures
            *r == self.killer_moves@[ply as int],
    {
        &self.killer_moves[ply as usize]
    }

    pub fn get_low_ply(&self, pos: &Position, m: Move, ply: i8) -> (r: &MainHistory)
        requires
            self.wf(),
            move_on_board(m),
            0 <= ply < LOW_PLY,
        ensures
            *r == self.low_ply@[low_ply_idx(ply as int, color_index(pos.side_to_move), m.from as int, m.to as int)],
    {
        let i = ply as usize * 8192 + pos.side_to_move.index() * 4096 + m.from as usize * 64 + m.to as usize;
        &self.low_ply[i]
    }

    /// The stored reply to the previous move, or no move when there was none.
    pub fn get_counter(&self, prev_move: Move, prev_piece: Option<ColoredPiece>) -> (r: Move)
        requires
            self.wf(),
            move_on_board(prev_move),
        ensures
            r == (if prev_move == null_move_spec() {
                null_move_spec()
            } else {
                match prev_piece {
                    Some(cp) => self.counter@[colored_index(cp) * 64 + prev_move.to],
                    None => null_move_spec(),
                }
            }),
    {
        if prev_move.is_null() {
            return Move::null();
        }
        match prev_piece {
            Some(cp) => self.counter[cp.index() * 64 + prev_move.to as usize],
            None => Move::null(),
        }
    }

    pub fn get_pawn(&self, pos: &Position, m: Move, pawn_key: u64) -> (r: &PawnHistory)
        requires
            self.wf(),
            move_on_board(m),
            pos.color_on_spec(m.from as int) is Some,
            pos.piece_on_spec(m.from as int) is Some,
        ensures
            *r == self.pawn@[pawn_idx(
                pawn_key,
                colored_index(ColoredPiece { color: pos.color_on_spec(m.from as int).unwrap(), piece: pos.piece_on_spec(m.from as int).unwrap() }),
                m.to as int,
            )],
    {
        let cp = pos.color_piece_on(m.from).unwrap();
        let i = (pawn_key % 16384) as usize * 768 + cp.index() * 64 + m.to as usize;
        &self.pawn[i]
    }

    /// The correction counter of `key`'s bucket for the side to move.
    pub fn get_pawn_corrhist(&mut self, pos: &Position, key: u64) -> (r: &mut PawnCorr)
        requires
            old(self).wf(),
        ensures
            *r == old(self).pawn_corrhist@[key as int % 16384][color_index(pos.side_to_move)],
            corr_updated(old(self).pawn_corrhist@, final(self).pawn_corrhist@, key as int % 16384, color_index(pos.side_to_move), *final(r)),
            final(self).white_corrhist == old(self).white_corrhist,
            final(self).black_corrhist == old(self).black_corrhist,
            final(self).major_corrhist == old(self).major_corrhist,
            final(self).minor_corrhist == old(self).minor_corrhist,
            final(self).cont_corrhist == old(self).cont_corrhist,
            same_but_corr(*old(self), *final(self)),
    {
        let i = (key % 16384) as usize;
        let side = pos.side_to_move.index();
        &mut self.pawn_corrhist[i][side]
    }

    /// The correction counter of `key`'s bucket for the side to move.
    pub fn get_white_corrhist(&mut self, pos: &Position, key: u64) -> (r: &mut PawnCorr)
        requires
            old(self).wf(),
        ensures
            *r == old(self).white_corrhist@[key as int % 16384][color_index(pos.side_to_move)],
            corr_updated(old(self).white_corrhist@, final(self).white_corrhist@, key as int % 16384, color_index(pos.side_to_move), *final(r)),
            final(self).pawn_corrhist == old(self).pawn_corrhist,
            final(self).black_corrhist == old(self).black_corrhist,
            final(self).major_corrhist == old(self).major_corrhist,
            final(self).minor_corrhist == old(self).minor_corrhist,
            final(self).cont_corrhist == old(self).cont_corrhist,
            same_but_corr(*old(self), *final(self)),
    {
        let i = (key % 16384) as usize;
        let side = pos.side_to_move.index();
        &mut self.white_corrhist[i][side]
    }

    /// The correction counter of `key`'s bucket for the side to move.
    pub fn get_black_corrhist(&mut self, pos: &Position, key: u64) -> (r: &mut PawnCorr)
        requires
            old(self).wf(),
        ensures
            *r == old(self).black_corrhist@[key as int % 16384][color_index(pos.side_to_move)],
            corr_updated(old(self).black_corrhist@, final(self).black_corrhist@, key as int % 16384, color_index(pos.side_to_move), *final(r)),
            final(self).pawn_corrhist == old(self).pawn_corrhist,
            final(self).white_corrhist == old(self).white_corrhist,
            final(self).major_corrhist == old(self).major_corrhist,
            final(self).minor_corrhist == old(self).minor_corrhist,
            final(self).cont_corrhist == old(self).cont_corrhist,
            same_but_corr(*old(self), *final(self)),
    {
        let i = (key % 16384) as usize;
        let side = pos.side_to_move.index();
        &mut self.black_corrhist[i][side]
    }

    /// The correction counter of `key`'s bucket for the side to move.
    pub fn get_major_corrhist(&mut self, pos: &Position, key: u64) -> (r: &mut PawnCorr)
        requires
            old(self).wf(),
        ensures
            *r == old(self).major_corrhist@[key as int % 16384][color_index(pos.side_to_move)],
            corr_updated(old(self).major_corrhist@, final(self).major_corrhist@, key as int % 16384, color_index(pos.side_to_move), *final(r)),
            final(self).pawn_corrhist == old(self).pawn_corrhist,
            final(self).white_corrhist == old(self).white_corrhist,
            final(self).black_corrhist == old(self).black_corrhist,
            final(self).minor_corrhist == old(self).minor_corrhist,
            final(self).cont_corrhist == old(self).cont_corrhist,
            same_but_corr(*old(self), *final(self)),
    {
        let i = (key % 16384) as usize;
        let side = pos.side_to_move.index();
        &mut self.major_corrhist[i][side]
    }

    /// The correction counter of `key`'s bucket for the side to move.
    pub fn get_minor_corrhist(&mut self, pos: &Position, key: u64) -> (r: &mut PawnCorr)
        requires
            old(self).wf(),
        ensures
            *r == old(self).minor_corrhist@[key as int % 16384][color_index(pos.side_to_move)],
            corr_updated(old(self).minor_corrhist@, final(self).minor_corrhist@, key as int % 16384, color_index(pos.side_to_move), *final(r)),
            final(self).pawn_corrhist == old(self).pawn_corrhist,
            final(self).white_corrhist == old(self).white_corrhist,
            final(self).black_corrhist == old(self).black_corrhist,
            final(self).major_corrhist == old(self).major_corrhist,
            final(self).cont_corrhist == old(self).cont_corrhist,
            same_but_corr(*old(self), *final(self)),
    {
        let i = (key % 16384) as usize;
        let side = pos.side_to_move.index();
        &mut self.minor_corrhist[i][side]
    }

    /// The continuation correction counters indexed by `idx` (see `get_cont_corrhist_index`).
    pub fn get_cont_corrhist(&mut self, idx: (usize, usize)) -> (r: &mut [[PawnCorr; 64]; 12])
        requires
            old(self).wf(),
            idx.0 <= 12,
            idx.1 < 64,
        ensures
            *r == old(self).cont_corrhist@[idx.0 * 64 + idx.1],
            final(self).cont_corrhist@ == old(self).cont_corrhist@.update(idx.0 * 64 + idx.1, *final(r)),
            final(self).pawn_corrhist == old(self).pawn_corrhist,
            final(self).white_corrhist == old(self).white_corrhist,
            final(self).black_corrhist == old(self).black_corrhist,
            final(self).major_corrhist == old(self).major_corrhist,
            final(self).minor_corrhist == old(self).minor_corrhist,
            same_but_corr(*old(self), *final(self)),
    {
        &mut self.cont_corrhist[idx.0 * 64 + idx.1]
    }

    /// The counter-move slot of the previous move, if there was a previous move.
    pub fn get_counter_mut(&mut self, prev_move: Move, prev_piece: Option<ColoredPiece>) -> (r: Option<&mut Move>)
        requires
            old(self).wf(),
            move_on_board(prev_move),
        ensures
            (prev_move == null_move_spec() || prev_piece is None) ==> r is None && *final(self) == *old(self),
            (prev_move != null_move_spec() && prev_piece is Some) ==> {
                &&& r is Some
                &&& *r.unwrap() == old(self).counter@[colored_index(prev_piece.unwrap()) * 64 + prev_move.to]
                &&& final(self).counter@ == old(self).counter@.update(
                    colored_index(prev_piece.unwrap()) * 64 + prev_move.to,
                    *final(r.unwrap()),
                )
                &&& same_but_counter(*old(self), *final(self))
            },
    {
        if prev_move.is_null() {
            return None;
        }
        match prev_piece {
            Some(cp) => Some(&mut self.counter[cp.index() * 64 + prev_move.to as usize]),
            None => None,
        }
    }

    /// Rewards the move that caused a beta cutoff and punishes the moves tried before it.
    /// A quiet best move raises its main, low-ply (first plies only) and pawn histories by
    /// the bonus, lowers those of the earlier quiets by the malus, becomes the first killer of
    /// its ply (the old first killer moving to second unless it was this move) and the counter
    /// move of the previous move. A capturing best move raises its capture history instead.
    /// Either way the earlier captures lose the malus in capture history.
    pub fn update_history(
        &mut self,
        pos: &Position,
        depth: i8,
        div: i32,
        ply: i8,
        best_move: Move,
        prev_move: Move,
        prev_piece: Option<ColoredPiece>,
        pawn_key: u64,
        captures: &[Move],
        quiets: &[Move],
    )
        requires
            old(self).wf(),
            pos.wf(),
            div != 0,
            div > i32::MIN,
            0 <= ply < 64,
            best_move != null_move_spec(),
            movable(*pos, best_move),
            move_on_board(prev_move),
            forall|i: int| 0 <= i < quiets@.len() ==> #[trigger] movable(*pos, quiets@[i]) && quiets@[i] != null_move_spec(),
            forall|i: int| 0 <= i < captures@.len() ==> #[trigger] movable(*pos, captures@[i]) && captures@[i] != null_move_spec(),
        ensures
            final(self).wf(),
            ({
                let bonus = hist_bonus(depth as int, div as int);
                let malus = hist_malus(depth as int, div as int);
                let side = color_index(pos.side_to_move);
                if pos.is_quiet_spec(best_move) {
                    &&& values(final(self).main_history@) == bump_all(
                        bump(values(old(self).main_history@), main_idx_of(side, best_move), bonus, 20000),
                        quiets@.map_values(|m: Move| main_idx_of(side, m)), -malus, 20000)
                    &&& values(final(self).low_ply@) == (if ply < 6 {
                        bump_all(
                            bump(values(old(self).low_ply@), low_idx_of(ply as int, side, best_move), bonus, 20000),
                            quiets@.map_values(|m: Move| low_idx_of(ply as int, side, m)), -malus, 20000)
                    } else {
                        values(old(self).low_ply@)
                    })
                    &&& values(final(self).pawn@) == bump_all(
                        bump(values(old(self).pawn@), pawn_idx_of(*pos, pawn_key, best_move), bonus, 20000),
                        quiets@.map_values(|m: Move| pawn_idx_of(*pos, pawn_key, m)), -malus, 20000)
                    &&& final(self).killer_moves@[ply as int][0] == best_move
                    &&& final(self).killer_moves@[ply as int][1] == (if old(self).killer_moves@[ply as int][0] != best_move {
                        old(self).killer_moves@[ply as int][0]
                    } else {
                        old(self).killer_moves@[ply as int][1]
                    })
                    &&& forall|p: int| 0 <= p < 64 && p != ply ==> #[trigger] final(self).killer_moves@[p] == old(self).killer_moves@[p]
                    &&& final(self).counter@ == (if prev_move != null_move_spec() && prev_piece is Some {
                        old(self).counter@.update(colored_index(prev_piece.unwrap()) * 64 + prev_move.to, best_move)
                    } else {
                        old(self).counter@
                    })
                    &&& values(final(self).capture_history@) == bump_all(values(old(self).capture_history@),
                        captures@.map_values(|m: Move| capture_idx_of(*pos, m)), -malus, 20000)
                } else {
                    &&& final(self).main_history == old(self).main_history
                    &&& final(self).low_ply == old(self).low_ply
                    &&& final(self).pawn == old(self).pawn
                    &&& final(self).killer_moves == old(self).killer_moves
                    &&& final(self).counter == old(self).counter
                    &&& values(final(self).capture_history@) == bump_all(
                        bump(values(old(self).capture_history@), capture_idx_of(*pos, best_move), bonus, 20000),
                        captures@.map_values(|m: Move| capture_idx_of(*pos, m)), -malus, 20000)
                }
            }),
            final(self).lmr == old(self).lmr,
            final(self).pawn_corrhist == old(self).pawn_corrhist,
            final(self).white_corrhist == old(self).white_corrhist,
            final(self).black_corrhist == old(self).black_corrhist,
            final(self).major_corrhist == old(self).major_corrhist,
            final(self).minor_corrhist == old(self).minor_corrhist,
            final(self).cont_corrhist == old(self).cont_corrhist,
    {
        let b = if 180 * depth as i32 + 15 < 2000 { 180 * depth as i32 + 15 } else { 2000 };
        let ml = if 190 * depth as i32 - 30 < 2000 { 190 * depth as i32 - 30 } else { 2000 };
        proof {
            lemma_div_range(b as int, div as int);
            lemma_div_range(ml as int, div as int);
        }
        let bonus = crate::helpers::div_trunc(b, div) as i16;
        let malus = crate::helpers::div_trunc(ml, div) as i16;
        let side = pos.side_to_move.index();
        let ghost main0 = values(self.main_history@);
        let ghost low0 = values(self.low_ply@);
        let ghost pawn0 = values(self.pawn@);
        let ghost cap0 = values(self.capture_history@);
        if pos.is_quiet(best_move) {
            add_at(&mut self.main_history, Self::main_index(side, best_move), bonus);
            if ply < LOW_PLY as i8 {
                add_at(&mut self.low_ply, Self::low_index(ply, side, best_move), bonus);
            }
            add_at(&mut self.pawn, Self::pawn_index(pos, pawn_key, best_move), bonus);
            let ghost main1 = values(self.main_history@);
            let ghost low1 = values(self.low_ply@);
            let ghost pawn1 = values(self.pawn@);
            let ghost main_idx_seq = quiets@.map_values(|m: Move| main_idx_of(side as int, m));
            let ghost low_idx_seq = quiets@.map_values(|m: Move| low_idx_of(ply as int, side as int, m));
            let ghost pawn_idx_seq = quiets@.map_values(|m: Move| pawn_idx_of(*pos, pawn_key, m));
            let mut i: usize = 0;
            while i < quiets.len()
                invariant
                    i <= quiets@.len(),
                    self.wf(),
                    pos.wf(),
                    0 <= ply < 64,
                    side == color_index(pos.side_to_move),
                    forall|k: int| 0 <= k < quiets@.len() ==> #[trigger] movable(*pos, quiets@[k]) && quiets@[k] != null_move_spec(),
                    main_idx_seq == quiets@.map_values(|m: Move| main_idx_of(side as int, m)),
                    low_idx_seq == quiets@.map_values(|m: Move| low_idx_of(ply as int, side as int, m)),
                    pawn_idx_seq == quiets@.map_values(|m: Move| pawn_idx_of(*pos, pawn_key, m)),
                    values(self.main_history@) == bump_all(main1, main_idx_seq.take(i as int), -malus, 20000),
                    values(self.low_ply@) == (if ply < 6 { bump_all(low1, low_idx_seq.take(i as int), -malus, 20000) } else { low1 }),
                    values(self.pawn@) == bump_all(pawn1, pawn_idx_seq.take(i as int), -malus, 20000),
                    self.killer_moves == old(self).killer_moves,
                    self.counter == old(self).counter,
                    self.capture_history == old(self).capture_history,
                    self.lmr == old(self).lmr,
                    self.pawn_corrhist == old(self).pawn_corrhist,
                    self.white_corrhist == old(self).white_corrhist,
                    self.black_corrhist == old(self).black_corrhist,
                    self.major_corrhist == old(self).major_corrhist,
                    self.minor_corrhist == old(self).minor_corrhist,
                    self.cont_corrhist == old(self).cont_corrhist,
                    malus == hist_malus(depth as int, div as int),
                    -24350 <= malus <= 24350,
                decreases quiets@.len() - i,
            {
                let m = quiets[i];
                assert(movable(*pos, quiets@[i as int]));
                proof {
                    lemma_bump_all_step(main1, main_idx_seq, i as int, -malus as int, 20000);
                    lemma_bump_all_step(low1, low_idx_seq, i as int, -malus as int, 20000);
                    lemma_bump_all_step(pawn1, pawn_idx_seq, i as int, -malus as int, 20000);
                }
                add_at(&mut self.main_history, Self::main_index(side, m), -malus);
                if ply < LOW_PLY as i8 {
                    add_at(&mut self.low_ply, Self::low_index(ply, side, m), -malus);
                }
                add_at(&mut self.pawn, Self::pawn_index(pos, pawn_key, m), -malus);
                i += 1;
            }
            proof {
                assert(main_idx_seq.take(quiets@.len() as int) =~= main_idx_seq);
                assert(low_idx_seq.take(quiets@.len() as int) =~= low_idx_seq);
                assert(pawn_idx_seq.take(quiets@.len() as int) =~= pawn_idx_seq);
            }
            let p = ply as usize;
            let k0 = self.killer_moves[p][0];
            let k1 = self.killer_moves[p][1];
            let new_second = if k0 != best_move { k0 } else { k1 };
            self.killer_moves.set(p, [best_move, new_second]);
            if !prev_move.is_null() {
                match prev_piece {
                    Some(cp) => {
                        self.counter.set(cp.index() * 64 + prev_move.to as usize, best_move);
                    },
                    None => {},
                }
            }
        } else {
            add_at(&mut self.capture_history, Self::capture_index(pos, best_move), bonus);
        }
        let ghost cap1 = values(self.capture_history@);
        let ghost mid = *self;
        let ghost cap_idx_seq = captures@.map_values(|m: Move| capture_idx_of(*pos, m));
        let mut i: usize = 0;
        while i < captures.len()
            invariant
                i <= captures@.len(),
                self.wf(),
                pos.wf(),
                forall|k: int| 0 <= k < captures@.len() ==> #[trigger] movable(*pos, captures@[k]) && captures@[k] != null_move_spec(),
                cap_idx_seq == captures@.map_values(|m: Move| capture_idx_of(*pos, m)),
                values(self.capture_history@) == bump_all(cap1, cap_idx_seq.take(i as int), -malus, 20000),
                self.main_history == mid.main_history,
                self.low_ply == mid.low_ply,
                self.pawn == mid.pawn,
                self.killer_moves == mid.killer_moves,
                self.counter == mid.counter,
                self.lmr == mid.lmr,
                self.pawn_corrhist == mid.pawn_corrhist,
                self.white_corrhist == mid.white_corrhist,
                self.black_corrhist == mid.black_corrhist,
                self.major_corrhist == mid.major_corrhist,
                self.minor_corrhist == mid.minor_corrhist,
                self.cont_corrhist == mid.cont_corrhist,
                malus == hist_malus(depth as int, div as int),
                -24350 <= malus <= 24350,
            decreases captures@.len() - i,
        {
            let m = captures[i];
            assert(movable(*pos, captures@[i as int]));
            proof {
                lemma_bump_all_step(cap1, cap_idx_seq, i as int, -malus as int, 20000);
            }
            add_at(&mut self.capture_history, Self::capture_index(pos, m), -malus);
            i += 1;
        }
        proof {
            assert(cap_idx_seq.take(captures@.len() as int) =~= cap_idx_seq);
        }
    }

    fn main_index(side: usize, m: Move) -> (r: usize)
        requires
            side < 2,
            move_on_board(m),
        ensures
            r == main_idx_of(side as int, m),
            r < 8192,
    {
        side * 4096 + m.from as usize * 64 + m.to as usize
    }

    fn low_index(ply: i8, side: usize, m: Move) -> (r: usize)
        requires
            0 <= ply < 6,
            side < 2,
            move_on_board(m),
        ensures
            r == low_idx_of(ply as int, side as int, m),
            r < 49152,
    {
        ply as usize * 8192 + side * 4096 + m.from as usize * 64 + m.to as usize
    }

    fn pawn_index(pos: &Position, key: u64, m: Move) -> (r: usize)
        requires
            movable(*pos, m),
        ensures
            r == pawn_idx_of(*pos, key, m),
            r < 16384 * 768,
    {
        let cp = pos.color_piece_on(m.from).unwrap();
        (key % 16384) as usize * 768 + cp.index() * 64 + m.to as usize
    }

    fn capture_index(pos: &Position, m: Move) -> (r: usize)
        requires
            movable(*pos, m),
        ensures
            r == capture_idx_of(*pos, m),
            r < 4608,
    {
        let cp = pos.color_piece_on(m.from).unwrap();
        cp.index() * 384 + m.to as usize * 6 + pos.get_captured(m).index()
    }

    /// The pair (colored piece or 12 for an empty square, target square) that indexes the
    /// continuation correction history of move `m`.
    pub fn get_cont_corrhist_index(&self, pos: &Position, m: Move) -> (r: (usize, usize))
        requires
            move_on_board(m),
        ensures
            r.0 == (match (pos.color_on_spec(m.from as int), pos.piece_on_spec(m.from as int)) {
                (Some(c), Some(p)) => colored_index(ColoredPiece { color: c, piece: p }),
                _ => 12,
            }),
            r.1 == m.to,
            r.0 <= 12 && r.1 < 64,
    {
        (crate::chess::index_with_option(&pos.color_piece_on(m.from)), m.to as usize)
    }
}

/// `b` is table `a` with slot `c` of bucket `k` replaced by `h`.
pub open spec fn corr_updated(a: Seq<[PawnCorr; 2]>, b: Seq<[PawnCorr; 2]>, k: int, c: int, h: PawnCorr) -> bool {
    &&& b.len() == a.len()
    &&& forall|i: int| 0 <= i < a.len() && i != k ==> #[trigger] b[i] == a[i]
    &&& b[k][c] == h
    &&& b[k][1 - c] == a[k][1 - c]
}

/// The history bonus of a cutoff at `depth`.
pub open spec fn hist_bonus(depth: int, div: int) -> int {
    trunc_div(if 180 * depth + 15 < 2000 { 180 * depth + 15 } else { 2000 }, div)
}

/// The history malus of the moves tried before a cutoff at `depth`.
pub open spec fn hist_malus(depth: int, div: int) -> int {
    trunc_div(if 190 * depth - 30 < 2000 { 190 * depth - 30 } else { 2000 }, div)
}

/// A move on the board with a piece on its origin square.
pub open spec fn movable(pos: Position, m: Move) -> bool {
    &&& move_on_board(m)
    &&& pos.color_on_spec(m.from as int) is Some
    &&& pos.piece_on_spec(m.from as int) is Some
}

/// The colored piece on a move's origin square.
pub open spec fn mover(pos: Position, m: Move) -> ColoredPiece {
    ColoredPiece { color: pos.color_on_spec(m.from as int).unwrap(), piece: pos.piece_on_spec(m.from as int).unwrap() }
}

pub open spec fn main_idx_of(side: int, m: Move) -> int {
    main_idx(side, m.from as int, m.to as int)
}

pub open spec fn low_idx_of(ply: int, side: int, m: Move) -> int {
    low_ply_idx(ply, side, m.from as int, m.to as int)
}

pub open spec fn pawn_idx_of(pos: Position, key: u64, m: Move) -> int {
    pawn_idx(key, colored_index(mover(pos, m)), m.to as int)
}

pub open spec fn capture_idx_of(pos: Position, m: Move) -> int {
    capture_idx(colored_index(mover(pos, m)), m.to as int, piece_index(captured_spec(pos, m)))
}

/// Adds `bonus` with gravity to counter `i` of a table.
fn add_at<const L: u16>(v: &mut Vec<History<L>>, i: usize, bonus: i16)
    requires
        0 < L <= 32767,
        i < old(v)@.len(),
        table_wf(old(v)@),
    ensures
        final(v)@.len() == old(v)@.len(),
        table_wf(final(v)@),
        values(final(v)@) == bump(values(old(v)@), i as int, bonus as int, L as int),
{
    let mut h = v[i];
    assert(h.wf());
    h.add(bonus);
    v.set(i, h);
    assert(values(v@) =~= bump(values(old(v)@), i as int, bonus as int, L as int));
}

/// One more index applied extends `bump_all` by one step.
proof fn lemma_bump_all_step(t: Seq<int>, idx: Seq<int>, i: int, bonus: int, limit: int)
    requires
        0 <= i < idx.len(),
    ensures
        bump_all(t, idx.take(i + 1), bonus, limit) == bump(bump_all(t, idx.take(i), bonus, limit), idx[i], bonus, limit),
{
    assert(idx.take(i + 1).drop_last() =~= idx.take(i));
}

/// A truncated quotient of a value in `[-24350, 2000]` by a non-zero divisor fits an `i16`.
proof fn lemma_div_range(a: int, d: int)
    requires
        -24350 <= a <= 2000,
        d != 0,
    ensures
        -24350 <= trunc_div(a, d) <= 24350,
{
    let aa = if a < 0 { -a } else { a };
    let ad = if d < 0 { -d } else { d };
    assert(aa / ad <= aa) by (nonlinear_arith) requires aa >= 0, ad >= 1;
    assert(aa / ad >= 0) by (nonlinear_arith) requires aa >= 0, ad >= 1;
}

/// Every table but the correction histories is unchanged.
pub open spec fn same_but_corr(a: Heuristic, b: Heuristic) -> bool {
    &&& a.lmr == b.lmr
    &&& a.main_history == b.main_history
    &&& a.capture_history == b.capture_history
    &&& a.killer_moves == b.killer_moves
    &&& a.counter == b.counter
    &&& a.low_ply == b.low_ply
    &&& a.pawn == b.pawn
}

/// Every table but the counter moves is unchanged.
pub open spec fn same_but_counter(a: Heuristic, b: Heuristic) -> bool {
    &&& a.lmr == b.lmr
    &&& a.main_history == b.main_history
    &&& a.capture_history == b.capture_history
    &&& a.killer_moves == b.killer_moves
    &&& a.low_ply == b.low_ply
    &&& a.pawn == b.pawn
    &&& a.pawn_corrhist == b.pawn_corrhist
    &&& a.white_corrhist == b.white_corrhist
    &&& a.black_corrhist == b.black_corrhist
    &&& a.major_corrhist == b.major_corrhist
    &&& a.minor_corrhist == b.minor_corrhist
    &&& a.cont_corrhist == b.cont_corrhist
}

/// The piece a move captures, counting a move to an empty square as a pawn capture.
pub open spec fn captured_spec(pos: Position, m: Move) -> Piece {
    match pos.piece_on_spec(m.to as int) {
        Some(p) => p,
        None => Piece::Pawn,
    }
}

} // verus!
