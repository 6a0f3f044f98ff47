pub mod network;
pub mod update;
pub mod ti;
pub mod halfka;
pub mod threats;
pub mod eval;
pub mod raw;
pub mod perm;
pub mod incremental;

use vstd::prelude::*;
use crate::nnue::network::{Aligned, Network, Permute, OUTPUTS};
use crate::nnue::halfka::{HalfKA, move_ok, catchup_base, king_after, update_after, king_spec};
use crate::movegen::capped;
use crate::movelist::delta_items;
use crate::nnue::threats::{Threats, threat_move_ok, threat_base, threat_subs_spec, threat_adds_spec};
use crate::nnue::raw::{RawNetwork, mapping_ok, permuted_raw, loaded_from};
use crate::nnue::ti::lut_closes;
use crate::nnue::eval::{activate, nonzero_blocks, l1_sums, sums_fit, ft_value, nz_blocks, dense_l1};
use crate::position::Position;
use crate::chess::{Color, Move, popcount, color_index};
use crate::param::MAX_DEPTH_USIZE;

verus! {

/// Per-ply scratch of the evaluation: the activated feature transformer output and the
/// indices of its non-zero 4-byte blocks.
#[derive(Clone, Copy)]
pub struct Stack {
    pub valid: bool,
    pub ft: Aligned<u8, 768>,
    pub idx_n: usize,
    pub idx: Aligned<u16, 192>,
}

impl Stack {
    pub fn new() -> (r: Self)
        ensures
            !r.valid,
            r.idx_n == 0,
            forall|i: int| 0 <= i < 768 ==> #[trigger] r.ft.0[i] == 0,
            forall|i: int| 0 <= i < 192 ==> #[trigger] r.idx.0[i] == 0,
    {
        Self {
            valid: false,
            ft: Aligned::<u8, 768>::zeroed(),
            idx_n: 0,
            idx: Aligned::<u16, 192>::zeroed(),
        }
    }
}


/// The evaluation network with its accumulator stacks and per-ply scratch.
pub struct NNUE {
    pub network: Network,
    pub halfka: HalfKA,
    pub threats: Threats,
    pub head: usize,
    pub stack: Vec<Stack>,
}

/// Whether the sums of the piece and threat accumulators fit an `i16`, lane by lane.
fn sums_fit_exec(acc: &[Aligned<i16, 768>; 2], thr: &[Aligned<i16, 768>; 2]) -> (r: bool)
    ensures
        r == sums_fit(*acc, *thr),
{
    let mut s: usize = 0;
    while s < 2
        invariant
            s <= 2,
            forall|t: int, l: int| 0 <= t < s && 0 <= l < 768 ==> i16::MIN <= #[trigger] acc[t].0[l] + thr[t].0[l] <= i16::MAX,
        decreases 2 - s,
    {
        let mut l: usize = 0;
        while l < 768
            invariant
                s < 2,
                l <= 768,
                forall|t: int, k: int| 0 <= t < s && 0 <= k < 768 ==> i16::MIN <= #[trigger] acc[t].0[k] + thr[t].0[k] <= i16::MAX,
                forall|k: int| 0 <= k < l ==> i16::MIN <= #[trigger] acc[s as int].0[k] + thr[s as int].0[k] <= i16::MAX,
            decreases 768 - l,
        {
            let x = acc[s].0[l] as i32 + thr[s].0[l] as i32;
            if x < -32768 || x > 32767 {
                assert(!(i16::MIN <= acc[s as int].0[l as int] + thr[s as int].0[l as int] <= i16::MAX));
                return false;
            }
            l += 1;
        }
        s += 1;
    }
    true
}

impl NNUE {
    /// Stack sizes, a ply on each stack, and caches and recorded updates in order.
    pub open spec fn wf(&self) -> bool {
        &&& self.network.wf()
        &&& self.halfka.wf()
        &&& self.halfka.finny_ok(&self.network)
        &&& self.halfka.plies_ok()
        &&& self.threats.wf()
        &&& self.stack@.len() == MAX_DEPTH_USIZE
        &&& self.head < MAX_DEPTH_USIZE
    }

    /// The plies of the evaluation stack, the piece accumulator stack and the threat
    /// accumulator stack.
    pub fn head(&self) -> (r: (usize, usize, usize))
        ensures
            r == (self.head, self.halfka.head, self.threats.head),
    {
        (self.head, self.halfka.head, self.threats.head)
    }

    /// Builds the evaluator from the trained weights, reordered by `permute`; `None` when the
    /// threat lookup does not close (see `ThreatLut::build`).
    pub fn build(raw: RawNetwork, permute: &Permute) -> (r: Option<Self>)
        requires
            raw.wf(),
            mapping_ok(permute.mapping),
        ensures
            r is Some <==> lut_closes(),
            r matches Some(n) ==> n.wf() && n.head == 0 && n.halfka.head == 0 && n.threats.head == 0,
            r matches Some(n) ==> exists|p: RawNetwork| #[trigger] permuted_raw(raw, p, permute.mapping) && loaded_from(p, n.network),
    {
        let ghost raw0 = raw;
        let mut raw = raw;
        raw.permute(permute);
        let ghost raw1 = raw;
        let network = match Network::load(raw) {
            Some(n) => n,
            None => return None,
        };
        let mut stack: Vec<Stack> = Vec::new();
        let mut i: usize = 0;
        while i < MAX_DEPTH_USIZE
            invariant
                i <= MAX_DEPTH_USIZE,
                stack@.len() == i,
            decreases MAX_DEPTH_USIZE - i,
        {
            stack.push(Stack::new());
            i += 1;
        }
        let mut halfka = HalfKA::new();
        halfka.clear(&network);
        let r = NNUE { network, halfka, threats: Threats::new(), head: 0, stack };
        assert(permuted_raw(raw0, raw1, permute.mapping) && loaded_from(raw1, r.network));
        Some(r)
    }

    /// Starts a new root at `board`: both accumulator stacks computed afresh at their first ply.
    pub fn init(&mut self, board: &Position)
        requires
            old(self).wf(),
            board.wf(),
        ensures
            final(self).wf(),
            final(self).head == 0,
            final(self).halfka.head == 0,
            final(self).threats.head == 0,
            final(self).halfka.side@[0].is_clean == [true, true],
            final(self).threats.side@[0].is_clean == [true, true],
            !final(self).stack@[0].valid,
    {
        self.halfka.init(board, &self.network);
        self.threats.init(board, &self.network);
        self.head = 0;
        let st = &mut self.stack[0];
        st.valid = false;
    }

    /// Resets the accumulator cache.
    pub fn clear(&mut self)
        requires
            old(self).wf(),
        ensures
            final(self).wf(),
            final(self).head == old(self).head,
            final(self).halfka.head == old(self).halfka.head,
            final(self).halfka.side == old(self).halfka.side,
            final(self).threats == old(self).threats,
    {
        self.halfka.clear(&self.network);
    }

    /// Brings both accumulator stacks up to date at their head ply.
    pub fn catchup(&mut self, board: &Position)
        requires
            old(self).wf(),
            board.wf(),
            forall|s: int| 0 <= s < 2 && !old(self).halfka.side@[old(self).halfka.head as int].is_clean[s] ==> catchup_base(
                old(self).halfka.side@, s, old(self).halfka.head as int, old(self).halfka.head as int) != -2,
            forall|s: int| 0 <= s < 2 && !old(self).threats.side@[old(self).threats.head as int].is_clean[s] ==> threat_base(
                old(self).threats.side@, s, old(self).threats.head as int, old(self).threats.head as int) != -2,
        ensures
            final(self).wf(),
            final(self).head == old(self).head,
            final(self).halfka.head == old(self).halfka.head,
            final(self).threats.head == old(self).threats.head,
            final(self).halfka.side@[final(self).halfka.head as int].is_clean == [true, true],
            final(self).threats.side@[final(self).threats.head as int].is_clean == [true, true],
    {
        self.halfka.catchup(board, &self.network);
        self.threats.catchup(board, &self.network);
    }

    /// Pushes a ply for move `m` from `board` to `new_board` on both accumulator stacks and on
    /// the evaluation stack.
    pub fn make_move(&mut self, board: &Position, new_board: &Position, m: Move)
        requires
            old(self).wf(),
            old(self).head + 1 < MAX_DEPTH_USIZE,
            old(self).halfka.head + 1 < MAX_DEPTH_USIZE,
            old(self).threats.head + 1 < MAX_DEPTH_USIZE,
            board.wf(),
            new_board.wf(),
            move_ok(*board, m),
            threat_move_ok(*board, *new_board, m),
        ensures
            final(self).wf(),
            final(self).head == old(self).head + 1,
            final(self).halfka.head == old(self).halfka.head + 1,
            final(self).threats.head == old(self).threats.head + 1,
            !final(self).stack@[final(self).head as int].valid,
            final(self).network == old(self).network,
            final(self).halfka.finny == old(self).halfka.finny,
            ({
                let a = final(self).halfka.side@[final(self).halfka.head as int];
                let e = update_after(*board, m, old(self).halfka.side@[final(self).halfka.head as int].up);
                &&& a.is_clean == [false, false]
                &&& a.vals == old(self).halfka.side@[final(self).halfka.head as int].vals
                &&& a.up.king_sq[0] == king_after(*board, m, Color::White)
                &&& a.up.king_sq[1] == king_after(*board, m, Color::Black)
                &&& a.up.add1 == e.add1 && a.up.add2 == e.add2 && a.up.sub1 == e.sub1 && a.up.sub2 == e.sub2
                &&& a.up.update_type == e.update_type
            }),
            ({
                let t = final(self).threats.side@[final(self).threats.head as int];
                &&& t.is_clean == [false, false]
                &&& t.king_sq[0] == king_spec(*new_board, Color::White)
                &&& t.king_sq[1] == king_spec(*new_board, Color::Black)
                &&& delta_items(t.update.subs) == capped(threat_subs_spec(*board, m), 96)
                &&& delta_items(t.update.adds) == capped(threat_adds_spec(*board, *new_board, m), 96)
            }),
            forall|i: int| 0 <= i < MAX_DEPTH_USIZE && i != final(self).halfka.head ==> #[trigger] final(self).halfka.side@[i] == old(self).halfka.side@[i],
            forall|i: int| 0 <= i < MAX_DEPTH_USIZE && i != final(self).threats.head ==> #[trigger] final(self).threats.side@[i] == old(self).threats.side@[i],
            forall|i: int| 0 <= i < MAX_DEPTH_USIZE && i != final(self).head ==> #[trigger] final(self).stack@[i] == old(self).stack@[i],
            old(self).halfka.plies_ok() ==> final(self).halfka.plies_ok(),
    {
        self.halfka.make_move(board, m);
        self.threats.make_move(board, new_board, m);
        self.head = self.head + 1;
        let h = self.head;
        let st = &mut self.stack[h];
        st.valid = false;
    }

    /// Pushes a ply for a null move on the evaluation stack only.
    pub fn make_null_move(&mut self)
        requires
            old(self).wf(),
            old(self).head + 1 < MAX_DEPTH_USIZE,
        ensures
            final(self).wf(),
            final(self).head == old(self).head + 1,
            final(self).halfka == old(self).halfka,
            final(self).threats == old(self).threats,
            !final(self).stack@[final(self).head as int].valid,
    {
        self.head = self.head + 1;
        let h = self.head;
        let st = &mut self.stack[h];
        st.valid = false;
    }

    /// Pops the ply of the last move from every stack.
    pub fn unmake_move(&mut self)
        requires
            old(self).wf(),
            old(self).head > 0,
            old(self).halfka.head > 0,
            old(self).threats.head > 0,
        ensures
            final(self).wf(),
            final(self).head == old(self).head - 1,
            final(self).halfka.head == old(self).halfka.head - 1,
            final(self).threats.head == old(self).threats.head - 1,
            final(self).halfka.side == old(self).halfka.side,
            final(self).threats.side == old(self).threats.side,
            final(self).stack == old(self).stack,
    {
        self.halfka.unmake_move();
        self.threats.unmake_move();
        self.head = self.head - 1;
    }

    /// Pops the ply of a null move.
    pub fn unmake_null_move(&mut self)
        requires
            old(self).wf(),
            old(self).head > 0,
        ensures
            final(self).wf(),
            final(self).head == old(self).head - 1,
            final(self).halfka == old(self).halfka,
            final(self).threats == old(self).threats,
            final(self).stack == old(self).stack,
    {
        self.head = self.head - 1;
    }

    /// Activates the accumulators at plies `head` into the evaluation ply `head.0` and lists
    /// its non-zero blocks; marks that ply valid.
    pub fn evaluate_head(&mut self, head: (usize, usize, usize), board: &Position)
        requires
            old(self).wf(),
            head.0 < MAX_DEPTH_USIZE,
            head.1 < MAX_DEPTH_USIZE,
            head.2 < MAX_DEPTH_USIZE,
            sums_fit(old(self).halfka.side@[head.1 as int].vals, old(self).threats.side@[head.2 as int].vals),
        ensures
            final(self).wf(),
            final(self).network == old(self).network,
            final(self).halfka == old(self).halfka,
            final(self).threats == old(self).threats,
            final(self).head == old(self).head,
            final(self).stack@.len() == old(self).stack@.len(),
            ({
                let st = final(self).stack@[head.0 as int];
                &&& st.valid
                &&& forall|i: int| 0 <= i < 768 ==> #[trigger] st.ft.0[i] == ft_value(
                    old(self).halfka.side@[head.1 as int].vals,
                    old(self).threats.side@[head.2 as int].vals,
                    board.side_to_move,
                    i,
                )
                &&& st.idx_n == nz_blocks(st.ft.0, 192).len()
                &&& forall|t: int| 0 <= t < st.idx_n ==> #[trigger] st.idx.0[t] == nz_blocks(st.ft.0, 192)[t]
            }),
            forall|i: int| 0 <= i < MAX_DEPTH_USIZE && i != head.0 ==> #[trigger] final(self).stack@[i] == old(self).stack@[i],
    {
        let acc = self.halfka.side[head.1].vals;
        let thr = self.threats.side[head.2].vals;
        let mut st = self.stack[head.0];
        st.valid = true;
        activate(&acc, &thr, board.side_to_move, &mut st.ft);
        let n = nonzero_blocks(&st.ft, &mut st.idx);
        st.idx_n = n;
        self.stack.set(head.0, st);
    }

    /// The first layer's sums for `board` at the current plies, with the output bucket:
    /// the accumulators brought up to date, activated, and summed over their non-zero
    /// blocks. `None` when a piece and a threat accumulator lane sum past the `i16` range.
    pub fn evaluate_l1(&mut self, board: &Position) -> (r: Option<([i32; 32], usize)>)
        requires
            old(self).wf(),
            board.wf(),
            2 <= popcount(board.occupied_spec()) <= 33,
            forall|s: int| 0 <= s < 2 && !old(self).halfka.side@[old(self).halfka.head as int].is_clean[s] ==> catchup_base(
                old(self).halfka.side@, s, old(self).halfka.head as int, old(self).halfka.head as int) != -2,
            forall|s: int| 0 <= s < 2 && !old(self).threats.side@[old(self).threats.head as int].is_clean[s] ==> threat_base(
                old(self).threats.side@, s, old(self).threats.head as int, old(self).threats.head as int) != -2,
        ensures
            final(self).wf(),
            final(self).head == old(self).head,
            r matches Some((sums, bucket)) ==> {
                let st = final(self).stack@[final(self).head as int];
                &&& bucket == (popcount(board.occupied_spec()) - 2) / 4
                &&& st.valid
                &&& forall|i: int| 0 <= i < 768 ==> #[trigger] st.ft.0[i] == ft_value(
                    final(self).halfka.side@[final(self).halfka.head as int].vals,
                    final(self).threats.side@[final(self).threats.head as int].vals,
                    board.side_to_move,
                    i,
                )
                &&& forall|j: int| 0 <= j < 32 ==> #[trigger] sums[j] == dense_l1(
                    final(self).network.l1_weights@, bucket as int, st.ft.0, j, 192)
            },
            r is None <==> !sums_fit(
                final(self).halfka.side@[final(self).halfka.head as int].vals,
                final(self).threats.side@[final(self).threats.head as int].vals,
            ),
    {
        self.catchup(board);
        let h = self.head();
        let acc = self.halfka.side[h.1].vals;
        let thr = self.threats.side[h.2].vals;
        if !sums_fit_exec(&acc, &thr) {
            return None;
        }
        self.evaluate_head(h, board);
        let bucket = Network::get_output_bucket(board);
        let st = &self.stack[h.0];
        let sums = l1_sums(&self.network, bucket, &st.ft, &st.idx, st.idx_n);
        Some((sums, bucket))
    }

    /// Whether the lane sums of the current piece and threat accumulators fit an `i16`, as
    /// `sort_eval` needs.
    pub fn sums_fit_now(&self) -> (r: bool)
        requires
            self.wf(),
        ensures
            r == sums_fit(self.halfka.side@[self.halfka.head as int].vals, self.threats.side@[self.threats.head as int].vals),
    {
        let acc = self.halfka.side[self.halfka.head].vals;
        let thr = self.threats.side[self.threats.head].vals;
        sums_fit_exec(&acc, &thr)
    }

    /// Activates the current accumulators into the current evaluation ply, for ordering.
    pub fn sort_eval(&mut self, board: &Position)
        requires
            old(self).wf(),
            sums_fit(old(self).halfka.side@[old(self).halfka.head as int].vals,
                old(self).threats.side@[old(self).threats.head as int].vals),
        ensures
            final(self).wf(),
            final(self).head == old(self).head,
            forall|i: int| 0 <= i < 768 ==> #[trigger] final(self).stack@[final(self).head as int].ft.0[i] == ft_value(
                old(self).halfka.side@[old(self).halfka.head as int].vals,
                old(self).threats.side@[old(self).threats.head as int].vals,
                board.side_to_move,
                i,
            ),
    {
        let acc = self.halfka.side[self.halfka.head].vals;
        let thr = self.threats.side[self.threats.head].vals;
        let h = self.head;
        let mut st = self.stack[h];
        activate(&acc, &thr, board.side_to_move, &mut st.ft);
        self.stack.set(h, st);
    }

    /// The activation of the current evaluation ply.
    pub fn sort_ft(&self) -> (r: &Aligned<u8, 768>)
        requires
            self.wf(),
        ensures
            *r == self.stack@[self.head as int].ft,
    {
        &self.stack[self.head].ft
    }
}
} // verus!
