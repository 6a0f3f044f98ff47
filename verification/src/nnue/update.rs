//! Descriptions of how one move changes the accumulators.

use vstd::prelude::*;
use crate::chess::ColoredPiece;
use crate::movelist::{delta_items, delta_new, delta_clear};
use arrayvec::ArrayVec;

verus! {

/// Shape of an accumulator update: one piece moves; one moves and one is captured; or king
/// and rook both move (castling).
#[derive(Copy, Clone, PartialEq, Eq, Structural, Debug)]
pub enum UpdateType {
    Move,
    Capture,
    Castle,
}

/// The feature changes of one move: pieces added and removed, with their squares, and the
/// kings' squares after the move.
#[derive(Clone, Copy, Debug)]
pub struct Update {
    pub king_sq: [u8; 2],
    pub add1: (u8, ColoredPiece),
    pub add2: (u8, ColoredPiece),
    pub sub1: (u8, ColoredPiece),
    pub sub2: (u8, ColoredPiece),
    pub update_type: UpdateType,
}

/// One attack relation between two pieces.
#[derive(Clone, Copy, Debug)]
pub struct ThreatDelta {
    pub attacker: ColoredPiece,
    pub attacker_sq: u8,
    pub target: ColoredPiece,
    pub target_sq: u8,
}

impl ThreatDelta {
    pub fn new(attacker: ColoredPiece, attacker_sq: u8, target: ColoredPiece, target_sq: u8) -> (r: Self)
        ensures
            r.attacker == attacker,
            r.attacker_sq == attacker_sq,
            r.target == target,
            r.target_sq == target_sq,
    {
        Self { attacker, attacker_sq, target, target_sq }
    }
}


/// The threat relations a move ends (`subs`) and starts (`adds`).
#[derive(Debug)]
pub struct ThreatUpdate {
    pub adds: ArrayVec<ThreatDelta, 96>,
    pub subs: ArrayVec<ThreatDelta, 96>,
}

impl ThreatUpdate {
    pub fn new() -> (r: Self)
        ensures
            delta_items(r.adds) == Seq::<ThreatDelta>::empty(),
            delta_items(r.subs) == Seq::<ThreatDelta>::empty(),
    {
        ThreatUpdate { adds: delta_new(), subs: delta_new() }
    }

    pub fn clear(&mut self)
        ensures
            delta_items(final(self).adds) == Seq::<ThreatDelta>::empty(),
            delta_items(final(self).subs) == Seq::<ThreatDelta>::empty(),
    {
        delta_clear(&mut self.adds);
        delta_clear(&mut self.subs);
    }
}

impl Default for ThreatUpdate {
    fn default() -> (r: Self)
        ensures
            delta_items(r.adds) == Seq::<ThreatDelta>::empty(),
            delta_items(r.subs) == Seq::<ThreatDelta>::empty(),
    {
        Self::new()
    }
}

} // verus!
