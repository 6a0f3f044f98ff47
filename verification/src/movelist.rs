//! Fixed-capacity move lists, held in `arrayvec::ArrayVec`.

use vstd::prelude::*;
use crate::chess::{Move, null_move_spec};
use crate::nnue::update::ThreatDelta;
use arrayvec::ArrayVec;

verus! {

/// Most legal moves a chess position has.
pub const MAX_MOVES: usize = 218;

#[verifier::external_type_specification]
#[verifier::external_body]
#[verifier::reject_recursive_types(T)]
pub struct ExArrayVec<T, const CAP: usize>(ArrayVec<T, CAP>);

/// The moves a move list holds, in order.
pub uninterp spec fn move_list_items(v: ArrayVec<Move, 218>) -> Seq<Move>;

/// `ArrayVec::new`: an empty list.
#[verifier::external_body]
pub(crate) fn move_list_new() -> (r: ArrayVec<Move, 218>)
    ensures
        move_list_items(r) == Seq::<Move>::empty(),
{
    ArrayVec::new()
}

/// `ArrayVec::len`: the number of moves held, never beyond the capacity.
#[verifier::external_body]
pub(crate) fn move_list_len(v: &ArrayVec<Move, 218>) -> (r: usize)
    ensures
        r == move_list_items(*v).len(),
        r <= 218,
{
    v.len()
}

/// `ArrayVec::push`: appends a move; the list must have room.
#[verifier::external_body]
pub(crate) fn move_list_push(v: &mut ArrayVec<Move, 218>, m: Move)
    requires
        move_list_items(*old(v)).len() < 218,
    ensures
        move_list_items(*final(v)) == move_list_items(*old(v)).push(m),
{
    v.push(m)
}

/// Indexing: the move at `i`.
#[verifier::external_body]
pub(crate) fn move_list_get(v: &ArrayVec<Move, 218>, i: usize) -> (r: Move)
    requires
        i < move_list_items(*v).len(),
    ensures
        r == move_list_items(*v)[i as int],
{
    v[i]
}

/// A move with the score the move picker orders it by.
#[derive(Clone, Copy, Debug)]
pub struct ScoredMove {
    pub inner: Move,
    pub score: i32,
}

impl ScoredMove {
    pub fn new(inner: Move, score: i32) -> (r: Self)
        ensures
            r == (ScoredMove { inner, score }),
    {
        ScoredMove { inner, score }
    }

    /// The move with score zero.
    pub fn from_move(inner: Move) -> (r: Self)
        ensures
            r == (ScoredMove { inner, score: 0 }),
    {
        Self::new(inner, 0)
    }

    /// "No move", scored zero.
    pub fn null() -> (r: Self)
        ensures
            r == (ScoredMove { inner: null_move_spec(), score: 0 }),
    {
        Self::from_move(Move::null())
    }

    pub fn is_null(&self) -> (r: bool)
        ensures
            r == (self.inner == null_move_spec()),
    {
        self.inner.is_null()
    }

    pub fn get_score(&self) -> (r: i32)
        ensures
            r == self.score,
    {
        self.score
    }
}

/// The scored moves a scored move list holds, in order.
pub uninterp spec fn scored_items(v: ArrayVec<ScoredMove, 218>) -> Seq<ScoredMove>;

/// `ArrayVec::new`: an empty list.
#[verifier::external_body]
pub(crate) fn scored_new() -> (r: ArrayVec<ScoredMove, 218>)
    ensures
        scored_items(r) == Seq::<ScoredMove>::empty(),
{
    ArrayVec::new()
}

/// `ArrayVec::len`: the number of entries, never beyond the capacity.
#[verifier::external_body]
pub(crate) fn scored_len(v: &ArrayVec<ScoredMove, 218>) -> (r: usize)
    ensures
        r == scored_items(*v).len(),
        r <= 218,
{
    v.len()
}

/// `ArrayVec::push`: appends an entry; the list must have room.
#[verifier::external_body]
pub(crate) fn scored_push(v: &mut ArrayVec<ScoredMove, 218>, m: ScoredMove)
    requires
        scored_items(*old(v)).len() < 218,
    ensures
        scored_items(*final(v)) == scored_items(*old(v)).push(m),
{
    v.push(m)
}

/// Indexing: the entry at `i`.
#[verifier::external_body]
pub(crate) fn scored_get(v: &ArrayVec<ScoredMove, 218>, i: usize) -> (r: ScoredMove)
    requires
        i < scored_items(*v).len(),
    ensures
        r == scored_items(*v)[i as int],
{
    v[i]
}

/// Indexing for writing: sets the score of the entry at `i`.
#[verifier::external_body]
pub(crate) fn scored_set_score(v: &mut ArrayVec<ScoredMove, 218>, i: usize, score: i32)
    requires
        i < scored_items(*old(v)).len(),
    ensures
        scored_items(*final(v)) == scored_items(*old(v)).update(
            i as int,
            ScoredMove { inner: scored_items(*old(v))[i as int].inner, score },
        ),
{
    v[i].score = score;
}

/// `swap` on the list's slice: exchanges the entries at `i` and `j`.
#[verifier::external_body]
pub(crate) fn scored_swap(v: &mut ArrayVec<ScoredMove, 218>, i: usize, j: usize)
    requires
        i < scored_items(*old(v)).len(),
        j < scored_items(*old(v)).len(),
    ensures
        scored_items(*final(v)) == scored_items(*old(v)).update(i as int, scored_items(*old(v))[j as int]).update(
            j as int,
            scored_items(*old(v))[i as int],
        ),
{
    v.swap(i, j)
}

/// `ArrayVec::swap_remove`: removes the entry at `i` and moves the last one into its place.
#[verifier::external_body]
pub(crate) fn scored_swap_remove(v: &mut ArrayVec<ScoredMove, 218>, i: usize) -> (r: ScoredMove)
    requires
        i < scored_items(*old(v)).len(),
    ensures
        r == scored_items(*old(v))[i as int],
        scored_items(*final(v)) == scored_items(*old(v)).update(i as int, scored_items(*old(v)).last()).drop_last(),
{
    v.swap_remove(i)
}


/// The threat changes a delta list holds, in order.
pub uninterp spec fn delta_items(v: ArrayVec<ThreatDelta, 96>) -> Seq<ThreatDelta>;

/// `ArrayVec::new`: an empty list.
#[verifier::external_body]
pub(crate) fn delta_new() -> (r: ArrayVec<ThreatDelta, 96>)
    ensures
        delta_items(r) == Seq::<ThreatDelta>::empty(),
{
    ArrayVec::new()
}

/// `ArrayVec::len`: the number of entries, never beyond the capacity.
#[verifier::external_body]
pub(crate) fn delta_len(v: &ArrayVec<ThreatDelta, 96>) -> (r: usize)
    ensures
        r == delta_items(*v).len(),
        r <= 96,
{
    v.len()
}

/// `ArrayVec::push`: appends an entry; the list must have room.
#[verifier::external_body]
pub(crate) fn delta_push(v: &mut ArrayVec<ThreatDelta, 96>, d: ThreatDelta)
    requires
        delta_items(*old(v)).len() < 96,
    ensures
        delta_items(*final(v)) == delta_items(*old(v)).push(d),
{
    v.push(d)
}

/// Indexing: the entry at `i`.
#[verifier::external_body]
pub(crate) fn delta_get(v: &ArrayVec<ThreatDelta, 96>, i: usize) -> (r: ThreatDelta)
    requires
        i < delta_items(*v).len(),
    ensures
        r == delta_items(*v)[i as int],
{
    v[i]
}

/// `ArrayVec::clear`: empties the list.
#[verifier::external_body]
pub(crate) fn delta_clear(v: &mut ArrayVec<ThreatDelta, 96>)
    ensures
        delta_items(*final(v)) == Seq::<ThreatDelta>::empty(),
{
    v.clear()
}

/// The feature indices an index list holds, in order.
pub uninterp spec fn index_items(v: ArrayVec<usize, 96>) -> Seq<usize>;

/// `ArrayVec::new`: an empty list.
#[verifier::external_body]
pub(crate) fn index_new() -> (r: ArrayVec<usize, 96>)
    ensures
        index_items(r) == Seq::<usize>::empty(),
{
    ArrayVec::new()
}

/// `ArrayVec::len`: the number of entries, never beyond the capacity.
#[verifier::external_body]
pub(crate) fn index_len(v: &ArrayVec<usize, 96>) -> (r: usize)
    ensures
        r == index_items(*v).len(),
        r <= 96,
{
    v.len()
}

/// `ArrayVec::push`: appends an entry; the list must have room.
#[verifier::external_body]
pub(crate) fn index_push(v: &mut ArrayVec<usize, 96>, i: usize)
    requires
        index_items(*old(v)).len() < 96,
    ensures
        index_items(*final(v)) == index_items(*old(v)).push(i),
{
    v.push(i)
}

/// Indexing: the entry at `i`.
#[verifier::external_body]
pub(crate) fn index_get(v: &ArrayVec<usize, 96>, i: usize) -> (r: usize)
    requires
        i < index_items(*v).len(),
    ensures
        r == index_items(*v)[i as int],
{
    v[i]
}


/// The moves a principal-variation list holds, in order.
pub uninterp spec fn pv_items(v: ArrayVec<Move, 64>) -> Seq<Move>;

/// `ArrayVec::new`: an empty list.
#[verifier::external_body]
pub(crate) fn pv_new() -> (r: ArrayVec<Move, 64>)
    ensures
        pv_items(r) == Seq::<Move>::empty(),
{
    ArrayVec::new()
}

/// `ArrayVec::len`: the number of moves, never beyond the capacity.
#[verifier::external_body]
pub(crate) fn pv_len(v: &ArrayVec<Move, 64>) -> (r: usize)
    ensures
        r == pv_items(*v).len(),
        r <= 64,
{
    v.len()
}

/// `ArrayVec::push`: appends a move; the list must have room.
#[verifier::external_body]
pub(crate) fn pv_push(v: &mut ArrayVec<Move, 64>, m: Move)
    requires
        pv_items(*old(v)).len() < 64,
    ensures
        pv_items(*final(v)) == pv_items(*old(v)).push(m),
{
    v.push(m)
}

/// Indexing: the move at `i`.
#[verifier::external_body]
pub(crate) fn pv_get(v: &ArrayVec<Move, 64>, i: usize) -> (r: Move)
    requires
        i < pv_items(*v).len(),
    ensures
        r == pv_items(*v)[i as int],
{
    v[i]
}

/// `ArrayVec::clear`: empties the list.
#[verifier::external_body]
pub(crate) fn pv_clear(v: &mut ArrayVec<Move, 64>)
    ensures
        pv_items(*final(v)) == Seq::<Move>::empty(),
{
    v.clear()
}

} // verus!
