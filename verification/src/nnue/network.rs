//! Network sizes, accumulator vector operations, the hidden-layer permutation and the
//! king-bucket layout of the input features.

use vstd::prelude::*;
use crate::position::Position;
use crate::chess::{popcount, bitboard_len, Color, Piece, ColoredPiece, color_index, piece_index, file_of, rank_of, flip_file, relative_to};
use crate::nnue::ti::{ThreatLut, rows_before, HALF_THREATS, FULL_THREATS, THREATS, TARGET_MAP, is_feature, threat_feature_index};
use crate::nnue::update::{Update, UpdateType, ThreatDelta, ThreatUpdate};
use crate::movelist::{delta_items, delta_len, delta_get, index_items, index_new, index_len, index_push, index_get};
use arrayvec::ArrayVec;

verus! {

/// Width of the feature transformer (hidden layer), both halves together.
pub const HL: usize = 768;
/// Half of `HL`.
pub const HALF_HL: usize = 384;
/// A quarter of `HL`: the number of 4-neuron blocks.
pub const HL_QUARTER: usize = 192;
pub const L1: usize = 32;
pub const L2: usize = 32;
pub const OUTPUTS: usize = 8;
pub const QA: i32 = 255;
pub const QB: i32 = 128;
pub const FT_SHIFT: usize = 8;
pub const SCALE: i32 = 400;
/// Number of king buckets.
pub const KINGS: usize = 16;

/// A fixed-size vector of `N` values.
#[derive(Debug, Clone, Copy)]
pub struct Aligned<T, const N: usize>(pub [T; N]);

impl<const N: usize> Aligned<i16, N> {
    /// A vector of zeros.
    pub fn zeroed() -> (r: Self)
        ensures
            forall|i: int| 0 <= i < N ==> #[trigger] r.0[i] == 0,
    {
        Aligned([0i16; N])
    }
}

impl<const N: usize> Aligned<u8, N> {
    /// A vector of zeros.
    pub fn zeroed() -> (r: Self)
        ensures
            forall|i: int| 0 <= i < N ==> #[trigger] r.0[i] == 0,
    {
        Aligned([0u8; N])
    }
}

impl<const N: usize> Aligned<u16, N> {
    /// A vector of zeros.
    pub fn zeroed() -> (r: Self)
        ensures
            forall|i: int| 0 <= i < N ==> #[trigger] r.0[i] == 0,
    {
        Aligned([0u16; N])
    }
}


/// Accumulator arithmetic, lane by lane over `HL` lanes.
pub struct SimdOps;

impl SimdOps {
    pub fn zero(out: &mut Aligned<i16, 768>)
        ensures
            forall|i: int| 0 <= i < 768 ==> #[trigger] final(out).0[i] == 0,
    {
        let mut i: usize = 0;
        while i < HL
            invariant
                i <= HL,
                forall|j: int| 0 <= j < i ==> #[trigger] out.0[j] == 0,
            decreases HL - i,
        {
            out.0[i] = 0;
            i += 1;
        }
    }

    pub fn fused_copy(out: &mut Aligned<i16, 768>, in_vec: &Aligned<i16, 768>)
        ensures
            final(out).0 == in_vec.0,
    {
        let mut i: usize = 0;
        while i < HL
            invariant
                i <= HL,
                forall|j: int| 0 <= j < i ==> #[trigger] out.0[j] == in_vec.0[j],
            decreases HL - i,
        {
            out.0[i] = in_vec.0[i];
            i += 1;
        }
        assert(out.0@ =~= in_vec.0@);
    }

    pub fn fused_add(out: &mut Aligned<i16, 768>, add: &Aligned<i16, 768>)
        requires
            forall|i: int| 0 <= i < 768 ==> i16::MIN <= #[trigger] old(out).0[i] + add.0[i] <= i16::MAX,
        ensures
            forall|i: int| 0 <= i < 768 ==> #[trigger] final(out).0[i] == old(out).0[i] + add.0[i],
    {
        let ghost o = out.0;
        let mut i: usize = 0;
        while i < HL
            invariant
                i <= HL,
                forall|j: int| 0 <= j < 768 ==> i16::MIN <= #[trigger] o[j] + add.0[j] <= i16::MAX,
                forall|j: int| 0 <= j < i ==> #[trigger] out.0[j] == o[j] + add.0[j],
                forall|j: int| i <= j < 768 ==> #[trigger] out.0[j] == o[j],
            decreases HL - i,
        {
            out.0[i] = out.0[i] + add.0[i];
            i += 1;
        }
    }

    pub fn fused_add2(out: &mut Aligned<i16, 768>, add: &Aligned<i8, 768>)
        requires
            forall|i: int| 0 <= i < 768 ==> i16::MIN <= #[trigger] old(out).0[i] + add.0[i] <= i16::MAX,
        ensures
            forall|i: int| 0 <= i < 768 ==> #[trigger] final(out).0[i] == old(out).0[i] + add.0[i],
    {
        let ghost o = out.0;
        let mut i: usize = 0;
        while i < HL
            invariant
                i <= HL,
                forall|j: int| 0 <= j < 768 ==> i16::MIN <= #[trigger] o[j] + add.0[j] <= i16::MAX,
                forall|j: int| 0 <= j < i ==> #[trigger] out.0[j] == o[j] + add.0[j],
                forall|j: int| i <= j < 768 ==> #[trigger] out.0[j] == o[j],
            decreases HL - i,
        {
            out.0[i] = out.0[i] + add.0[i] as i16;
            i += 1;
        }
    }

    pub fn fused_add_base(out: &mut Aligned<i16, 768>, base: &Aligned<i16, 768>, add: &Aligned<i16, 768>)
        requires
            forall|i: int| 0 <= i < 768 ==> i16::MIN <= #[trigger] base.0[i] + add.0[i] <= i16::MAX,
        ensures
            forall|i: int| 0 <= i < 768 ==> #[trigger] final(out).0[i] == base.0[i] + add.0[i],
    {
        let mut i: usize = 0;
        while i < HL
            invariant
                i <= HL,
                forall|j: int| 0 <= j < 768 ==> i16::MIN <= #[trigger] base.0[j] + add.0[j] <= i16::MAX,
                forall|j: int| 0 <= j < i ==> #[trigger] out.0[j] == base.0[j] + add.0[j],
            decreases HL - i,
        {
            out.0[i] = base.0[i] + add.0[i];
            i += 1;
        }
    }

    pub fn fused_sub_base(out: &mut Aligned<i16, 768>, base: &Aligned<i16, 768>, sub: &Aligned<i16, 768>)
        requires
            forall|i: int| 0 <= i < 768 ==> i16::MIN <= #[trigger] base.0[i] - sub.0[i] <= i16::MAX,
        ensures
            forall|i: int| 0 <= i < 768 ==> #[trigger] final(out).0[i] == base.0[i] - sub.0[i],
    {
        let mut i: usize = 0;
        while i < HL
            invariant
                i <= HL,
                forall|j: int| 0 <= j < 768 ==> i16::MIN <= #[trigger] base.0[j] - sub.0[j] <= i16::MAX,
                forall|j: int| 0 <= j < i ==> #[trigger] out.0[j] == base.0[j] - sub.0[j],
            decreases HL - i,
        {
            out.0[i] = base.0[i] - sub.0[i];
            i += 1;
        }
    }

    pub fn fused_add_add(out: &mut Aligned<i16, 768>, add1: &Aligned<i16, 768>, add2: &Aligned<i16, 768>)
        requires
            forall|i: int| 0 <= i < 768 ==> i16::MIN <= #[trigger] add1.0[i] + add2.0[i] <= i16::MAX,
            forall|i: int| 0 <= i < 768 ==> i16::MIN <= #[trigger] old(out).0[i] + (add1.0[i] + add2.0[i]) <= i16::MAX,
        ensures
            forall|i: int| 0 <= i < 768 ==> #[trigger] final(out).0[i] == old(out).0[i] + (add1.0[i] + add2.0[i]),
    {
        let ghost o = out.0;
        let mut i: usize = 0;
        while i < HL
            invariant
                i <= HL,
                forall|j: int| 0 <= j < 768 ==> i16::MIN <= #[trigger] add1.0[j] + add2.0[j] <= i16::MAX,
                forall|j: int| 0 <= j < 768 ==> i16::MIN <= #[trigger] o[j] + (add1.0[j] + add2.0[j]) <= i16::MAX,
                forall|j: int| 0 <= j < i ==> #[trigger] out.0[j] == o[j] + (add1.0[j] + add2.0[j]),
                forall|j: int| i <= j < 768 ==> #[trigger] out.0[j] == o[j],
            decreases HL - i,
        {
            out.0[i] = out.0[i] + (add1.0[i] + add2.0[i]);
            i += 1;
        }
    }

    pub fn fused_sub(out: &mut Aligned<i16, 768>, sub: &Aligned<i16, 768>)
        requires
            forall|i: int| 0 <= i < 768 ==> i16::MIN <= #[trigger] old(out).0[i] - sub.0[i] <= i16::MAX,
        ensures
            forall|i: int| 0 <= i < 768 ==> #[trigger] final(out).0[i] == old(out).0[i] - sub.0[i],
    {
        let ghost o = out.0;
        let mut i: usize = 0;
        while i < HL
            invariant
                i <= HL,
                forall|j: int| 0 <= j < 768 ==> i16::MIN <= #[trigger] o[j] - sub.0[j] <= i16::MAX,
                forall|j: int| 0 <= j < i ==> #[trigger] out.0[j] == o[j] - sub.0[j],
                forall|j: int| i <= j < 768 ==> #[trigger] out.0[j] == o[j],
            decreases HL - i,
        {
            out.0[i] = out.0[i] - sub.0[i];
            i += 1;
        }
    }

    pub fn fused_sub2(out: &mut Aligned<i16, 768>, sub: &Aligned<i8, 768>)
        requires
            forall|i: int| 0 <= i < 768 ==> i16::MIN <= #[trigger] old(out).0[i] - sub.0[i] <= i16::MAX,
        ensures
            forall|i: int| 0 <= i < 768 ==> #[trigger] final(out).0[i] == old(out).0[i] - sub.0[i],
    {
        let ghost o = out.0;
        let mut i: usize = 0;
        while i < HL
            invariant
                i <= HL,
                forall|j: int| 0 <= j < 768 ==> i16::MIN <= #[trigger] o[j] - sub.0[j] <= i16::MAX,
                forall|j: int| 0 <= j < i ==> #[trigger] out.0[j] == o[j] - sub.0[j],
                forall|j: int| i <= j < 768 ==> #[trigger] out.0[j] == o[j],
            decreases HL - i,
        {
            out.0[i] = out.0[i] - sub.0[i] as i16;
            i += 1;
        }
    }

    pub fn fused_sub_sub(out: &mut Aligned<i16, 768>, sub1: &Aligned<i16, 768>, sub2: &Aligned<i16, 768>)
        requires
            forall|i: int| 0 <= i < 768 ==> i16::MIN <= #[trigger] sub1.0[i] + sub2.0[i] <= i16::MAX,
            forall|i: int| 0 <= i < 768 ==> i16::MIN <= #[trigger] old(out).0[i] - (sub1.0[i] + sub2.0[i]) <= i16::MAX,
        ensures
            forall|i: int| 0 <= i < 768 ==> #[trigger] final(out).0[i] == old(out).0[i] - (sub1.0[i] + sub2.0[i]),
    {
        let ghost o = out.0;
        let mut i: usize = 0;
        while i < HL
            invariant
                i <= HL,
                forall|j: int| 0 <= j < 768 ==> i16::MIN <= #[trigger] sub1.0[j] + sub2.0[j] <= i16::MAX,
                forall|j: int| 0 <= j < 768 ==> i16::MIN <= #[trigger] o[j] - (sub1.0[j] + sub2.0[j]) <= i16::MAX,
                forall|j: int| 0 <= j < i ==> #[trigger] out.0[j] == o[j] - (sub1.0[j] + sub2.0[j]),
                forall|j: int| i <= j < 768 ==> #[trigger] out.0[j] == o[j],
            decreases HL - i,
        {
            out.0[i] = out.0[i] - (sub1.0[i] + sub2.0[i]);
            i += 1;
        }
    }

    pub fn fused_add_sub(out: &mut Aligned<i16, 768>, add: &Aligned<i16, 768>, sub: &Aligned<i16, 768>)
        requires
            forall|i: int| 0 <= i < 768 ==> i16::MIN <= #[trigger] add.0[i] - sub.0[i] <= i16::MAX,
            forall|i: int| 0 <= i < 768 ==> i16::MIN <= #[trigger] old(out).0[i] + (add.0[i] - sub.0[i]) <= i16::MAX,
        ensures
            forall|i: int| 0 <= i < 768 ==> #[trigger] final(out).0[i] == old(out).0[i] + (add.0[i] - sub.0[i]),
    {
        let ghost o = out.0;
        let mut i: usize = 0;
        while i < HL
            invariant
                i <= HL,
                forall|j: int| 0 <= j < 768 ==> i16::MIN <= #[trigger] add.0[j] - sub.0[j] <= i16::MAX,
                forall|j: int| 0 <= j < 768 ==> i16::MIN <= #[trigger] o[j] + (add.0[j] - sub.0[j]) <= i16::MAX,
                forall|j: int| 0 <= j < i ==> #[trigger] out.0[j] == o[j] + (add.0[j] - sub.0[j]),
                forall|j: int| i <= j < 768 ==> #[trigger] out.0[j] == o[j],
            decreases HL - i,
        {
            out.0[i] = out.0[i] + (add.0[i] - sub.0[i]);
            i += 1;
        }
    }

    pub fn fused_add_sub2(out: &mut Aligned<i16, 768>, add: &Aligned<i8, 768>, sub: &Aligned<i8, 768>)
        requires
            forall|i: int| 0 <= i < 768 ==> i16::MIN <= #[trigger] old(out).0[i] + (add.0[i] - sub.0[i]) <= i16::MAX,
        ensures
            forall|i: int| 0 <= i < 768 ==> #[trigger] final(out).0[i] == old(out).0[i] + (add.0[i] - sub.0[i]),
    {
        let ghost o = out.0;
        let mut i: usize = 0;
        while i < HL
            invariant
                i <= HL,
                forall|j: int| 0 <= j < 768 ==> i16::MIN <= #[trigger] o[j] + (add.0[j] - sub.0[j]) <= i16::MAX,
                forall|j: int| 0 <= j < i ==> #[trigger] out.0[j] == o[j] + (add.0[j] - sub.0[j]),
                forall|j: int| i <= j < 768 ==> #[trigger] out.0[j] == o[j],
            decreases HL - i,
        {
            out.0[i] = out.0[i] + (add.0[i] as i16 - sub.0[i] as i16);
            i += 1;
        }
    }

    pub fn fused_add_sub_base(out: &mut Aligned<i16, 768>, base: &Aligned<i16, 768>, add: &Aligned<i16, 768>, sub: &Aligned<i16, 768>)
        requires
            forall|i: int| 0 <= i < 768 ==> i16::MIN <= #[trigger] base.0[i] + add.0[i] <= i16::MAX,
            forall|i: int| 0 <= i < 768 ==> i16::MIN <= #[trigger] base.0[i] + add.0[i] - sub.0[i] <= i16::MAX,
        ensures
            forall|i: int| 0 <= i < 768 ==> #[trigger] final(out).0[i] == base.0[i] + add.0[i] - sub.0[i],
    {
        let mut i: usize = 0;
        while i < HL
            invariant
                i <= HL,
                forall|j: int| 0 <= j < 768 ==> i16::MIN <= #[trigger] base.0[j] + add.0[j] <= i16::MAX,
                forall|j: int| 0 <= j < 768 ==> i16::MIN <= #[trigger] base.0[j] + add.0[j] - sub.0[j] <= i16::MAX,
                forall|j: int| 0 <= j < i ==> #[trigger] out.0[j] == base.0[j] + add.0[j] - sub.0[j],
            decreases HL - i,
        {
            out.0[i] = base.0[i] + add.0[i] - sub.0[i];
            i += 1;
        }
    }

    pub fn fused_add_sub_sub_base(
        out: &mut Aligned<i16, 768>,
        base: &Aligned<i16, 768>,
        add: &Aligned<i16, 768>,
        sub1: &Aligned<i16, 768>,
        sub2: &Aligned<i16, 768>,
    )
        requires
            forall|i: int| 0 <= i < 768 ==> i16::MIN <= #[trigger] base.0[i] + add.0[i] <= i16::MAX,
            forall|i: int| 0 <= i < 768 ==> i16::MIN <= #[trigger] base.0[i] + add.0[i] - sub1.0[i] <= i16::MAX,
            forall|i: int| 0 <= i < 768 ==> i16::MIN <= #[trigger] base.0[i] + add.0[i] - sub1.0[i] - sub2.0[i] <= i16::MAX,
        ensures
            forall|i: int| 0 <= i < 768 ==> #[trigger] final(out).0[i] == base.0[i] + add.0[i] - sub1.0[i] - sub2.0[i],
    {
        let mut i: usize = 0;
        while i < HL
            invariant
                i <= HL,
                forall|j: int| 0 <= j < 768 ==> i16::MIN <= #[trigger] base.0[j] + add.0[j] <= i16::MAX,
                forall|j: int| 0 <= j < 768 ==> i16::MIN <= #[trigger] base.0[j] + add.0[j] - sub1.0[j] <= i16::MAX,
                forall|j: int| 0 <= j < 768 ==> i16::MIN <= #[trigger] base.0[j] + add.0[j] - sub1.0[j] - sub2.0[j] <= i16::MAX,
                forall|j: int| 0 <= j < i ==> #[trigger] out.0[j] == base.0[j] + add.0[j] - sub1.0[j] - sub2.0[j],
            decreases HL - i,
        {
            out.0[i] = base.0[i] + add.0[i] - sub1.0[i] - sub2.0[i];
            i += 1;
        }
    }

    pub fn fused_add_add_sub_sub_base(
        out: &mut Aligned<i16, 768>,
        base: &Aligned<i16, 768>,
        add1: &Aligned<i16, 768>,
        add2: &Aligned<i16, 768>,
        sub1: &Aligned<i16, 768>,
        sub2: &Aligned<i16, 768>,
    )
        requires
            forall|i: int| 0 <= i < 768 ==> i16::MIN <= #[trigger] base.0[i] + add1.0[i] <= i16::MAX,
            forall|i: int| 0 <= i < 768 ==> i16::MIN <= #[trigger] base.0[i] + add1.0[i] + add2.0[i] <= i16::MAX,
            forall|i: int| 0 <= i < 768 ==> i16::MIN <= #[trigger] base.0[i] + add1.0[i] + add2.0[i] - sub1.0[i] <= i16::MAX,
            forall|i: int| 0 <= i < 768 ==> i16::MIN <= #[trigger] base.0[i] + add1.0[i] + add2.0[i] - sub1.0[i] - sub2.0[i] <= i16::MAX,
        ensures
            forall|i: int| 0 <= i < 768 ==> #[trigger] final(out).0[i] == base.0[i] + add1.0[i] + add2.0[i] - sub1.0[i] - sub2.0[i],
    {
        let mut i: usize = 0;
        while i < HL
            invariant
                i <= HL,
                forall|j: int| 0 <= j < 768 ==> i16::MIN <= #[trigger] base.0[j] + add1.0[j] <= i16::MAX,
                forall|j: int| 0 <= j < 768 ==> i16::MIN <= #[trigger] base.0[j] + add1.0[j] + add2.0[j] <= i16::MAX,
                forall|j: int| 0 <= j < 768 ==> i16::MIN <= #[trigger] base.0[j] + add1.0[j] + add2.0[j] - sub1.0[j] <= i16::MAX,
                forall|j: int| 0 <= j < 768 ==> i16::MIN <= #[trigger] base.0[j] + add1.0[j] + add2.0[j] - sub1.0[j] - sub2.0[j] <= i16::MAX,
                forall|j: int| 0 <= j < i ==> #[trigger] out.0[j] == base.0[j] + add1.0[j] + add2.0[j] - sub1.0[j] - sub2.0[j],
            decreases HL - i,
        {
            out.0[i] = base.0[i] + add1.0[i] + add2.0[i] - sub1.0[i] - sub2.0[i];
            i += 1;
        }
    }
}

/// An ordering of the hidden neurons: `mapping[i] = j` moves neuron `j` to place `i`. The
/// second half always mirrors the first (`mapping[i + HL/2] == mapping[i] + HL/2`), so the
/// two multiplied halves stay paired.
pub struct Permute {
    pub mapping: [usize; 768],
}

/// The permutation `Permute::new` builds from `mapping`: the first half as given, the second
/// half mirroring it.
pub open spec fn mirrored_mapping(mapping: [usize; 768], i: int) -> int {
    if i < 384 {
        mapping[i] as int
    } else {
        mapping[i - 384] + 384
    }
}

impl Permute {
    pub fn new(mapping: [usize; 768]) -> (r: Self)
        requires
            forall|i: int| 0 <= i < 384 ==> #[trigger] mapping[i] + 384 <= usize::MAX,
        ensures
            forall|i: int| 0 <= i < 768 ==> #[trigger] r.mapping[i] == mirrored_mapping(mapping, i),
    {
        let mut m = mapping;
        let mut i: usize = 0;
        while i < HALF_HL
            invariant
                i <= HALF_HL,
                forall|j: int| 0 <= j < 384 ==> #[trigger] mapping[j] + 384 <= usize::MAX,
                forall|j: int| 0 <= j < 384 ==> #[trigger] m[j] == mapping[j],
                forall|j: int| 384 <= j < 384 + i ==> #[trigger] m[j] == mapping[j - 384] + 384,
            decreases HALF_HL - i,
        {
            m[i + HALF_HL] = m[i] + HALF_HL;
            i += 1;
        }
        Self { mapping: m }
    }

    /// The identity ordering.
    pub fn default() -> (r: Self)
        ensures
            forall|i: int| 0 <= i < 768 ==> #[trigger] r.mapping[i] == i,
    {
        let mut mapping = [0usize; 768];
        let mut i: usize = 0;
        while i < HL
            invariant
                i <= HL,
                forall|j: int| 0 <= j < i ==> #[trigger] mapping[j] == j,
            decreases HL - i,
        {
            mapping[i] = i;
            i += 1;
        }
        let r = Self::new(mapping);
        assert forall|i: int| 0 <= i < 768 implies #[trigger] r.mapping[i] == i by {
            if i >= 384 {
                assert(mapping[i - 384] == i - 384);
            }
        }
        r
    }

    /// The ordering the engine loads: the identity, as no tuned ordering is built in.
    pub fn load() -> (r: Self)
        ensures
            forall|i: int| 0 <= i < 768 ==> #[trigger] r.mapping[i] == i,
    {
        Self::default()
    }
}

/// King bucket of each square of one half of the board (files A-D), rank by rank.
pub const HALF_KING_BUCKET: [usize; 32] = [
    0, 1, 2, 3,
    4, 5, 6, 7,
    8, 8, 9, 9,
    10, 10, 11, 11,
    12, 12, 13, 13,
    12, 12, 13, 13,
    14, 14, 15, 15,
    14, 14, 15, 15,
];

/// The king bucket of a square: files E-H mirror onto files D-A.
pub open spec fn king_bucket_spec(sq: int) -> int {
    let file = file_of(sq);
    let mirrored = if file < 4 { file } else { 7 - file };
    HALF_KING_BUCKET[rank_of(sq) * 4 + mirrored] as int
}

/// Whether a king on `sq` stands on the mirrored half (files E-H).
pub open spec fn is_mirrored_spec(sq: int) -> bool {
    file_of(sq) >= 4
}

/// The integer layers of the evaluation network: the feature transformer's weights per king
/// bucket and feature, its threat weights and bias, and the first layer's weights; with the
/// lookup that places threat features.
pub struct Network {
    /// `[king bucket * 768 + feature]`
    pub feature_weights: Vec<Aligned<i16, 768>>,
    /// `[threat feature]`
    pub threat_weights: Vec<Aligned<i8, 768>>,
    pub feature_bias: Aligned<i16, 768>,
    /// `[output bucket * 192 + block of four neurons][neuron of the layer * 4 + k]`
    pub l1_weights: Vec<Aligned<i8, 128>>,
    /// Rows of the threat feature lookup.
    pub lut: ThreatLut,
}

/// The feature row of `piece` on `square` as seen from `side` with its king on `king_sq`.
pub open spec fn feature_row(king_sq: int, side: Color, piece: ColoredPiece, square: int) -> int {
    king_bucket_spec(relative_sq(king_sq, side)) * 768 + ((if piece.color == side { 0int } else { 6 })
        + piece_index(piece.piece)) * 64 + relative_sq(
        if is_mirrored_spec(king_sq) { rank_of(square) * 8 + 7 - file_of(square) } else { square },
        side,
    )
}

impl Network {
    /// Table sizes, and a threat lookup whose totals close.
    pub open spec fn wf(&self) -> bool {
        &&& self.feature_weights@.len() == KINGS * 768
        &&& self.threat_weights@.len() == FULL_THREATS
        &&& self.l1_weights@.len() == OUTPUTS * HL_QUARTER
        &&& self.lut.wf()
        &&& rows_before(640) == 2 * HALF_THREATS
    }

    /// The feature weights of `piece` on `square` as seen from `side` with its king on
    /// `king_sq`.
    pub fn feature_lookup(&self, king_sq: u8, side: Color, piece: ColoredPiece, square: u8) -> (r: &Aligned<i16, 768>)
        requires
            self.wf(),
            king_sq < 64,
            square < 64,
        ensures
            *r == self.feature_weights@[feature_row(king_sq as int, side, piece, square as int)],
    {
        let (bucket, index768) = Self::feature_index(king_sq, side, piece, square);
        &self.feature_weights[bucket * 768 + index768]
    }

    pub fn get_king_bucket(square: u8) -> (r: usize)
        requires
            square < 64,
        ensures
            r == king_bucket_spec(square as int),
            r < KINGS,
    {
        let file = (square % 8) as usize;
        let rank = (square / 8) as usize;
        let mirrored = if file < 4 { file } else { 7 - file };
        HALF_KING_BUCKET[rank * 4 + mirrored]
    }

    pub fn is_mirrored(square: u8) -> (r: bool)
        requires
            square < 64,
        ensures
            r == is_mirrored_spec(square as int),
    {
        square % 8 >= 4
    }

    /// Whether moving `side`'s king from `old_king` to `new_king` forces a full refresh of that
    /// side's accumulator: it does when the king crosses between the halves or changes bucket.
    pub fn needs_refresh(side: Color, old_king: u8, new_king: u8) -> (r: bool)
        requires
            old_king < 64,
            new_king < 64,
        ensures
            r == (old_king != new_king && (is_mirrored_spec(old_king as int) != is_mirrored_spec(
                new_king as int,
            ) || king_bucket_spec(relative_sq(old_king as int, side)) != king_bucket_spec(
                relative_sq(new_king as int, side),
            ))),
    {
        if old_king == new_king {
            return false;
        }
        if Self::is_mirrored(old_king) != Self::is_mirrored(new_king) {
            return true;
        }
        Self::get_king_bucket(relative_to(old_king, side)) != Self::get_king_bucket(
            relative_to(new_king, side),
        )
    }

    /// Threat features only refresh when the king crosses between the halves.
    pub fn needs_refresh_threat(old_king: u8, new_king: u8) -> (r: bool)
        requires
            old_king < 64,
            new_king < 64,
        ensures
            r == (old_king != new_king && is_mirrored_spec(old_king as int) != is_mirrored_spec(
                new_king as int,
            )),
    {
        if old_king == new_king {
            return false;
        }
        Self::is_mirrored(old_king) != Self::is_mirrored(new_king)
    }

    /// Output bucket from the number of pieces on the board.
    pub fn get_output_bucket(board: &Position) -> (r: usize)
        requires
            popcount(board.occupied_spec()) >= 2,
        ensures
            r == (popcount(board.occupied_spec()) - 2) / 4,
    {
        let n = bitboard_len(board.occupied());
        ((n - 2) / 4) as usize
    }

    /// Row of the feature weights for `piece` on `square` seen from `side` with its king on
    /// `king_sq`: (king bucket, feature index in `0..768`). Boards with the king on files
    /// E-H are mirrored first.
    pub fn feature_index(king_sq: u8, side: Color, piece: ColoredPiece, square: u8) -> (r: (usize, usize))
        requires
            king_sq < 64,
            square < 64,
        ensures
            r.0 == king_bucket_spec(relative_sq(king_sq as int, side)),
            r.1 == ((if piece.color == side { 0int } else { 6 }) + piece_index(piece.piece)) * 64
                + relative_sq(
                if is_mirrored_spec(king_sq as int) {
                    rank_of(square as int) * 8 + 7 - file_of(square as int)
                } else {
                    square as int
                },
                side,
            ),
            r.0 < KINGS,
            r.1 < 768,
    {
        let sq = if king_sq & 4 != 0 { flip_file(square) } else { square };
        assert((king_sq & 4 != 0) == (king_sq % 8 >= 4)) by (bit_vector)
            requires king_sq < 64;
        let base: usize = if piece.color == side { 0 } else { 6 };
        let index768 = (base + piece.piece.index()) * 64 + relative_to(sq, side) as usize;
        (Self::get_king_bucket(relative_to(king_sq, side)), index768)
    }
}

/// A square seen from `side`: black mirrors the ranks.
pub open spec fn relative_sq(sq: int, side: Color) -> int {
    if side == Color::White { sq } else { (7 - rank_of(sq)) * 8 + file_of(sq) }
}


/// Entry `i` of the updated accumulator.
pub open spec fn update_result(base: [i16; 768], a1: [i16; 768], a2: [i16; 768], s1: [i16; 768], s2: [i16; 768], ty: UpdateType, i: int) -> int {
    match ty {
        UpdateType::Move => base[i] + a1[i] - s1[i],
        UpdateType::Capture => base[i] + a1[i] - s1[i] - s2[i],
        UpdateType::Castle => base[i] + a1[i] + a2[i] - s1[i] - s2[i],
    }
}

/// The squares an update names lie on the board.
pub open spec fn update_on_board(u: Update) -> bool {
    &&& u.king_sq[0] < 64
    &&& u.king_sq[1] < 64
    &&& u.add1.0 < 64
    &&& u.add2.0 < 64
    &&& u.sub1.0 < 64
    &&& u.sub2.0 < 64
}

impl Network {
    /// The weights of one added or removed piece of an update, seen from `side`.
    pub open spec fn update_row(&self, u: Update, side: Color, e: (u8, ColoredPiece)) -> [i16; 768] {
        self.feature_weights@[feature_row(u.king_sq[color_index(side)] as int, side, e.1, e.0 as int)].0
    }

    /// The accumulator after a move: `base` plus the rows of the added pieces minus those of
    /// the removed ones (one each for a move, a second removal for a capture, two of each for
    /// castling), each lane wrapping as 16-bit vector lanes do.
    pub fn apply_update(&self, next: &mut Aligned<i16, 768>, base: &Aligned<i16, 768>, update: &Update, side: Color)
        requires
            self.wf(),
            update_on_board(*update),
        ensures
            forall|i: int| 0 <= i < 768 ==> #[trigger] final(next).0[i] == wrap16(update_result(
                base.0,
                self.update_row(*update, side, update.add1),
                self.update_row(*update, side, update.add2),
                self.update_row(*update, side, update.sub1),
                self.update_row(*update, side, update.sub2),
                update.update_type,
                i,
            )),
    {
        let king = update.king_sq[side.index()];
        let ghost a1 = self.update_row(*update, side, update.add1);
        let ghost a2 = self.update_row(*update, side, update.add2);
        let ghost s1 = self.update_row(*update, side, update.sub1);
        let ghost s2 = self.update_row(*update, side, update.sub2);
        copy_lanes(next, base);
        let ghost x0 = Seq::new(768, |j: int| base.0[j] as int);
        proof {
            assert forall|j: int| 0 <= j < 768 implies #[trigger] next.0[j] == wrap16(x0[j]) by {
                lemma_wrap_small(base.0[j] as int);
            }
        }
        let add1 = self.feature_lookup(king, side, update.add1.1, update.add1.0);
        add_lanes(next, add1, false, Ghost(x0));
        let ghost x1 = Seq::new(768, |j: int| x0[j] + a1[j]);
        let ghost x2 = if update.update_type == UpdateType::Castle {
            Seq::new(768, |j: int| x1[j] + a2[j])
        } else {
            x1
        };
        if update.update_type == UpdateType::Castle {
            let add2 = self.feature_lookup(king, side, update.add2.1, update.add2.0);
            add_lanes(next, add2, false, Ghost(x1));
        }
        let sub1 = self.feature_lookup(king, side, update.sub1.1, update.sub1.0);
        add_lanes(next, sub1, true, Ghost(x2));
        let ghost x3 = Seq::new(768, |j: int| x2[j] - s1[j]);
        if update.update_type != UpdateType::Move {
            let sub2 = self.feature_lookup(king, side, update.sub2.1, update.sub2.0);
            add_lanes(next, sub2, true, Ghost(x3));
        }
    }
}

/// Copies every lane.
pub fn copy_lanes(out: &mut Aligned<i16, 768>, src: &Aligned<i16, 768>)
    ensures
        forall|i: int| 0 <= i < 768 ==> #[trigger] final(out).0[i] == src.0[i],
{
    let mut l: usize = 0;
    while l < HL
        invariant
            l <= HL,
            forall|j: int| 0 <= j < l ==> #[trigger] out.0[j] == src.0[j],
        decreases HL - l,
    {
        out.0[l] = src.0[l];
        l += 1;
    }
}

/// Adds `row` to every lane (or, with `subtract`, takes it away), lanes wrapping.
pub fn add_lanes(out: &mut Aligned<i16, 768>, row: &Aligned<i16, 768>, subtract: bool, Ghost(x): Ghost<Seq<int>>)
    requires
        x.len() == 768,
        forall|i: int| 0 <= i < 768 ==> #[trigger] old(out).0[i] == wrap16(x[i]),
    ensures
        forall|i: int| 0 <= i < 768 ==> #[trigger] final(out).0[i] == wrap16(
            if subtract { x[i] - row.0[i] } else { x[i] + row.0[i] },
        ),
{
    let mut l: usize = 0;
    while l < HL
        invariant
            l <= HL,
            x.len() == 768,
            forall|j: int| 0 <= j < l ==> #[trigger] out.0[j] == wrap16(
                if subtract { x[j] - row.0[j] } else { x[j] + row.0[j] },
            ),
            forall|j: int| l <= j < 768 ==> #[trigger] out.0[j] == wrap16(x[j]),
        decreases HL - l,
    {
        let cur = out.0[l];
        proof { lemma_wrap_add(cur, row.0[l as int] as int, x[l as int]); }
        if subtract {
            out.0[l] = cur.wrapping_sub(row.0[l]);
        } else {
            out.0[l] = cur.wrapping_add(row.0[l]);
        }
        l += 1;
    }
}

/// `x` wrapped into `i16`, as 16-bit vector lanes add.
pub open spec fn wrap16(x: int) -> int {
    vstd::wrapping::i16_specs::signed_crop(x) as int
}

pub proof fn lemma_wrap_small(a: int)
    requires
        i16::MIN <= a <= i16::MAX,
    ensures
        wrap16(a) == a,
{
    if a >= 0 {
        assert(a % 65536 == a);
    } else {
        assert(a % 65536 == a + 65536) by {
            vstd::arithmetic::div_mod::lemma_mod_multiples_vanish(-1, a + 65536, 65536);
            vstd::arithmetic::div_mod::lemma_small_mod((a + 65536) as nat, 65536);
        }
    }
}

pub proof fn lemma_wrap_shift(x: int, y: int)
    ensures
        wrap16(wrap16(x) + y) == wrap16(x + y),
{
    let m = 65536int;
    let c = wrap16(x);
    let r = x % m;
    vstd::arithmetic::div_mod::lemma_fundamental_div_mod(x, m);
    assert(0 <= r < m);
    let q = x / m;
    // c is x minus a multiple of m
    let k: int = if r > 32767 { q + 1 } else { q };
    assert(c == x - m * k) by {
        if r > 32767 {
            assert(c == r - m);
        } else {
            assert(c == r);
        }
        assert(x == m * q + r);
        assert(m * (q + 1) == m * q + m) by (nonlinear_arith);
    }
    assert((c + y) % m == (x + y) % m) by {
        vstd::arithmetic::div_mod::lemma_mod_multiples_vanish(k, c + y, m);
        assert(m * k + (c + y) == x + y);
    }
}

/// One lane step: wrapping addition of `b` to a wrapped sum.
pub proof fn lemma_wrap_add(a: i16, b: int, x: int)
    requires
        a == wrap16(x),
        i16::MIN <= b <= i16::MAX,
    ensures
        vstd::wrapping::i16_specs::wrapping_add(a, b as i16) == wrap16(x + b),
        vstd::wrapping::i16_specs::wrapping_sub(a, b as i16) == wrap16(x - b),
{
    lemma_wrap_shift(x, b);
    lemma_wrap_shift(x, -b);
    let s = a + b;
    let d = a - b;
    if s > i16::MAX {
        lemma_wrap_small(s - 65536);
        lemma_wrap_shift(s - 65536, 65536);
        lemma_wrap_shift_back(s);
    } else if s < i16::MIN {
        lemma_wrap_small(s + 65536);
        lemma_wrap_shift_back(s);
    } else {
        lemma_wrap_small(s);
    }
    if d > i16::MAX {
        lemma_wrap_small(d - 65536);
        lemma_wrap_shift_back(d);
    } else if d < i16::MIN {
        lemma_wrap_small(d + 65536);
        lemma_wrap_shift_back(d);
    } else {
        lemma_wrap_small(d);
    }
}

/// Adding or removing a whole period does not change the wrapped value.
proof fn lemma_wrap_shift_back(s: int)
    ensures
        wrap16(s - 65536) == wrap16(s),
        wrap16(s + 65536) == wrap16(s),
{
    vstd::arithmetic::div_mod::lemma_mod_multiples_vanish(-1, s, 65536);
    vstd::arithmetic::div_mod::lemma_mod_multiples_vanish(1, s, 65536);
    assert(65536 * -1 + s == s - 65536);
}

/// Index into the threat weights of an attack seen from `side` with its king on `king_sq`,
/// or -1 when the pair of kinds makes no feature.
pub open spec fn threat_index_spec(
    lut: ThreatLut,
    king_sq: int,
    side: Color,
    attacker_color: Color,
    target_color: Color,
    attacker: Piece,
    attacker_sq: int,
    target: Piece,
    target_sq: int,
) -> int {
    if TARGET_MAP[piece_index(attacker)][piece_index(target)] < 0 {
        -1
    } else {
        let mirror = |sq: int| if is_mirrored_spec(king_sq) { rank_of(sq) * 8 + 7 - file_of(sq) } else { sq };
        let from = relative_sq(mirror(attacker_sq), side);
        let to = relative_sq(mirror(target_sq), side);
        let half: int = if side == attacker_color { 0 } else { 1 };
        let e = lut.index@[half * 320 + piece_index(attacker) * 64 + from];
        let i = e.base + popcount(e.attacks & (((1u64 << (to as u64)) - 1) as u64)) * e.stride
            + TARGET_MAP[piece_index(attacker)][piece_index(target)];
        if attacker_color != target_color { i } else { i + THREATS }
    }
}

/// The threat features of a list of threat changes, in order; a change that makes no
/// feature, or lies outside the table, is left out.
pub open spec fn delta_features(lut: ThreatLut, ds: Seq<ThreatDelta>, king_sq: int, side: Color) -> Seq<usize>
    decreases ds.len(),
{
    if ds.len() == 0 {
        Seq::empty()
    } else {
        let d = ds.last();
        let prev = delta_features(lut, ds.drop_last(), king_sq, side);
        let i = threat_index_spec(lut, king_sq, side, d.attacker.color, d.target.color, d.attacker.piece,
            d.attacker_sq as int, d.target.piece, d.target_sq as int);
        if 0 <= i < FULL_THREATS { prev.push(i as usize) } else { prev }
    }
}

/// Column `i` of the threat weights summed over a list of features.
pub open spec fn threat_sum(w: Seq<Aligned<i8, 768>>, idx: Seq<usize>, i: int) -> int
    decreases idx.len(),
{
    if idx.len() == 0 {
        0
    } else {
        threat_sum(w, idx.drop_last(), i) + w[idx.last() as int].0[i]
    }
}

/// Every change names squares on the board.
pub open spec fn deltas_on_board(ds: Seq<ThreatDelta>) -> bool {
    forall|k: int| 0 <= k < ds.len() ==> (#[trigger] ds[k]).attacker_sq < 64 && ds[k].target_sq < 64
}

impl Network {
    /// The threat feature of an attack by `attacker` on `attacker_square` on `target` on
    /// `target_square`, seen from `side` with its king on `king_sq`; -1 when the pair of
    /// kinds makes no feature.
    pub fn threat_feature_lookup_index(
        &self,
        king_sq: u8,
        side: Color,
        attacker_color: Color,
        target_color: Color,
        attacker: Piece,
        attacker_square: u8,
        target: Piece,
        target_square: u8,
    ) -> (r: i32)
        requires
            self.wf(),
            king_sq < 64,
            attacker_square < 64,
            target_square < 64,
        ensures
            r == threat_index_spec(self.lut, king_sq as int, side, attacker_color, target_color, attacker,
                attacker_square as int, target, target_square as int),
    {
        if !is_feature(attacker, target) {
            return -1;
        }
        assert(TARGET_MAP[5][0] < 0 && TARGET_MAP[5][1] < 0 && TARGET_MAP[5][2] < 0 && TARGET_MAP[5][3] < 0
            && TARGET_MAP[5][4] < 0 && TARGET_MAP[5][5] < 0);
        let mirrored = king_sq & 4 != 0;
        assert(mirrored == (king_sq % 8 >= 4)) by (bit_vector)
            requires mirrored == (king_sq & 4 != 0), king_sq < 64;
        let (asq, tsq) = if mirrored {
            (flip_file(attacker_square), flip_file(target_square))
        } else {
            (attacker_square, target_square)
        };
        let i = threat_feature_index(
            &self.lut,
            side == attacker_color,
            attacker_color != target_color,
            attacker.index(),
            relative_to(asq, side),
            relative_to(tsq, side),
            target.index(),
        );
        i as i32
    }

    /// The features of a list of threat changes, as `threat_apply_update` reads them.
    fn delta_feature_list(&self, ds: &ArrayVec<ThreatDelta, 96>, king_sq: u8, side: Color) -> (r: ArrayVec<usize, 96>)
        requires
            self.wf(),
            king_sq < 64,
            deltas_on_board(delta_items(*ds)),
        ensures
            index_items(r) == delta_features(self.lut, delta_items(*ds), king_sq as int, side),
    {
        let mut out = index_new();
        let n = delta_len(ds);
        let mut k: usize = 0;
        while k < n
            invariant
                self.wf(),
                king_sq < 64,
                n == delta_items(*ds).len(),
                n <= 96,
                k <= n,
                deltas_on_board(delta_items(*ds)),
                index_items(out) == delta_features(self.lut, delta_items(*ds).take(k as int), king_sq as int, side),
                index_items(out).len() <= k,
            decreases n - k,
        {
            let d = delta_get(ds, k);
            let i = self.threat_feature_lookup_index(king_sq, side, d.attacker.color, d.target.color,
                d.attacker.piece, d.attacker_sq, d.target.piece, d.target_sq);
            assert(delta_items(*ds).take(k as int + 1).drop_last() =~= delta_items(*ds).take(k as int));
            assert(delta_items(*ds).take(k as int + 1).last() == d);
            if i >= 0 && (i as usize) < FULL_THREATS {
                index_push(&mut out, i as usize);
            }
            k += 1;
        }
        assert(delta_items(*ds).take(n as int) =~= delta_items(*ds));
        out
    }

    /// Adds the threat weights of the listed features to every lane (`subtract` false) or
    /// takes them away, lanes wrapping as 16-bit vector lanes do.
    pub(crate) fn apply_threats(&self, next: &mut Aligned<i16, 768>, idx: &ArrayVec<usize, 96>, subtract: bool, Ghost(x): Ghost<Seq<int>>)
        requires
            self.wf(),
            x.len() == 768,
            forall|k: int| 0 <= k < index_items(*idx).len() ==> #[trigger] index_items(*idx)[k] < FULL_THREATS,
            forall|l: int| 0 <= l < 768 ==> #[trigger] old(next).0[l] == wrap16(x[l]),
        ensures
            forall|l: int| 0 <= l < 768 ==> #[trigger] final(next).0[l] == wrap16(
                if subtract {
                    x[l] - threat_sum(self.threat_weights@, index_items(*idx), l)
                } else {
                    x[l] + threat_sum(self.threat_weights@, index_items(*idx), l)
                },
            ),
    {
        let n = index_len(idx);
        let mut k: usize = 0;
        while k < n
            invariant
                self.wf(),
                x.len() == 768,
                n == index_items(*idx).len(),
                k <= n,
                forall|j: int| 0 <= j < index_items(*idx).len() ==> #[trigger] index_items(*idx)[j] < FULL_THREATS,
                forall|l: int| 0 <= l < 768 ==> #[trigger] next.0[l] == wrap16(
                    if subtract {
                        x[l] - threat_sum(self.threat_weights@, index_items(*idx).take(k as int), l)
                    } else {
                        x[l] + threat_sum(self.threat_weights@, index_items(*idx).take(k as int), l)
                    },
                ),
            decreases n - k,
        {
            let f = index_get(idx, k);
            let w = &self.threat_weights[f];
            let ghost taken = index_items(*idx).take(k as int);
            proof {
                assert(index_items(*idx).take(k as int + 1).drop_last() =~= taken);
                assert(index_items(*idx).take(k as int + 1).last() == f);
            }
            let mut l: usize = 0;
            while l < HL
                invariant
                    l <= HL,
                    x.len() == 768,
                    f < FULL_THREATS,
                    self.threat_weights@.len() == FULL_THREATS,
                    *w == self.threat_weights@[f as int],
                    forall|j: int| 0 <= j < l ==> #[trigger] next.0[j] == wrap16(
                        if subtract {
                            x[j] - threat_sum(self.threat_weights@, taken, j) - w.0[j]
                        } else {
                            x[j] + threat_sum(self.threat_weights@, taken, j) + w.0[j]
                        },
                    ),
                    forall|j: int| l <= j < 768 ==> #[trigger] next.0[j] == wrap16(
                        if subtract {
                            x[j] - threat_sum(self.threat_weights@, taken, j)
                        } else {
                            x[j] + threat_sum(self.threat_weights@, taken, j)
                        },
                    ),
                decreases HL - l,
            {
                let cur = next.0[l];
                let v = w.0[l] as i16;
                let ghost base: int = if subtract {
                    x[l as int] - threat_sum(self.threat_weights@, taken, l as int)
                } else {
                    x[l as int] + threat_sum(self.threat_weights@, taken, l as int)
                };
                proof { lemma_wrap_add(cur, v as int, base); }
                if subtract {
                    next.0[l] = cur.wrapping_sub(v);
                } else {
                    next.0[l] = cur.wrapping_add(v);
                }
                l += 1;
            }
            k += 1;
        }
        assert(index_items(*idx).take(n as int) =~= index_items(*idx));
    }

    /// The threat accumulator after a move: `base` plus the weights of the threat features
    /// the move starts, minus those of the ones it ends, each lane wrapping as 16-bit vector
    /// lanes do.
    pub fn threat_apply_update(&self, next: &mut Aligned<i16, 768>, base: &Aligned<i16, 768>, update: &ThreatUpdate, side: Color, king_sq: u8)
        requires
            self.wf(),
            king_sq < 64,
            deltas_on_board(delta_items(update.adds)),
            deltas_on_board(delta_items(update.subs)),
        ensures
            forall|l: int| 0 <= l < 768 ==> #[trigger] final(next).0[l] == wrap16(
                base.0[l] + threat_sum(self.threat_weights@, delta_features(self.lut, delta_items(update.adds), king_sq as int, side), l)
                    - threat_sum(self.threat_weights@, delta_features(self.lut, delta_items(update.subs), king_sq as int, side), l),
            ),
    {
        let adds = self.delta_feature_list(&update.adds, king_sq, side);
        let subs = self.delta_feature_list(&update.subs, king_sq, side);
        proof {
            lemma_features_in_table(self.lut, delta_items(update.adds), king_sq as int, side);
            lemma_features_in_table(self.lut, delta_items(update.subs), king_sq as int, side);
        }
        let mut l: usize = 0;
        while l < HL
            invariant
                l <= HL,
                forall|j: int| 0 <= j < l ==> #[trigger] next.0[j] == base.0[j],
            decreases HL - l,
        {
            next.0[l] = base.0[l];
            l += 1;
        }
        let ghost x0 = Seq::new(768, |j: int| base.0[j] as int);
        proof {
            assert forall|j: int| 0 <= j < 768 implies #[trigger] next.0[j] == wrap16(x0[j]) by {
                lemma_wrap_small(base.0[j] as int);
            }
        }
        self.apply_threats(next, &adds, false, Ghost(x0));
        let ghost x1 = Seq::new(768, |j: int| x0[j] + threat_sum(self.threat_weights@, index_items(adds), j));
        self.apply_threats(next, &subs, true, Ghost(x1));
    }
}

/// Listed features index the table.
pub proof fn lemma_features_in_table(lut: ThreatLut, ds: Seq<ThreatDelta>, king_sq: int, side: Color)
    ensures
        forall|k: int| 0 <= k < delta_features(lut, ds, king_sq, side).len()
            ==> #[trigger] delta_features(lut, ds, king_sq, side)[k] < FULL_THREATS,
    decreases ds.len(),
{
    if ds.len() > 0 {
        lemma_features_in_table(lut, ds.drop_last(), king_sq, side);
        let prev = delta_features(lut, ds.drop_last(), king_sq, side);
        let cur = delta_features(lut, ds, king_sq, side);
        assert forall|k: int| 0 <= k < cur.len() implies #[trigger] cur[k] < FULL_THREATS by {
            if k < prev.len() {
                assert(cur[k] == prev[k]);
            }
        }
    }
}

} // verus!
