use vstd::prelude::*;

verus! {

/// Deepest ply the search ever reaches.
pub const MAX_DEPTH: i8 = 64;
/// `MAX_DEPTH` as an index bound.
pub const MAX_DEPTH_USIZE: usize = 64;
/// Marker for "no value stored".
pub const VALUE_NONE: i16 = 32701;
/// Upper bound of every real score.
pub const VALUE_INF: i16 = 32700;
/// Scores strictly beyond this are mate scores.
pub const VALUE_CHECKMATE: i16 = 32635;
/// Largest score a static evaluation may take.
pub const VALUE_EVAL: i16 = 32634;
/// Score of a drawn position.
pub const VALUE_DRAW: i16 = 0;
/// Time budget that stands for "no limit", in milliseconds.
pub const MAX_TIME: u128 = 1_000_000_000_000_000;
/// Node budget that stands for "no limit".
pub const MAX_NODES: i64 = 1_000_000_000_000_000;

pub const QDEPTH: i8 = 0;
pub const UNSEARCH_DEPTH: i8 = -10;
pub const UNINIT_DEPTH: i8 = -20;

pub const ALL_PIECES: usize = 6;
/// Material value of each piece kind; the last slot stands for "no piece".
pub const PIECE_VALUE: [i16; 7] = [100, 300, 300, 500, 900, 0, 0];

pub const NONE_PIECE_INDEX: usize = 6;
pub const MVV_MULTIPLIER: i16 = 2;
pub const BAD_QUIET_SCORE: i16 = -15000;

pub const LMR_MOVE_COUNT: usize = 96;
pub const LMR_DEPTH: usize = 64;

pub const SS_SIZE_PRE: usize = 10;
pub const SS_SIZE: usize = 74;

pub const ASP_WINDOW: i16 = 15;
pub const ASP_WINDOW_SCORE_SCALE: i16 = 13000;
pub const ASP_WINDOW_MIN_DEPTH: i8 = 3;
pub const ASP_WINDOW_MAX_SIZE: i16 = 4000;
pub const ASP_WINDOW_SCALE: i16 = 2;

/// The absolute value of a score, as a mathematical integer.
pub open spec fn abs_score(value: int) -> int {
    if value < 0 { -value } else { value }
}

/// A score is decisive when it is a mate score for either side.
pub fn is_decisive(value: i16) -> (r: bool)
    ensures
        r == (abs_score(value as int) > VALUE_CHECKMATE),
{
    value > VALUE_CHECKMATE || value < -VALUE_CHECKMATE
}

/// A score is a win when it is a mate score for the side to move.
pub fn is_win(value: i16) -> (r: bool)
    ensures
        r == (value > VALUE_CHECKMATE),
{
    value > VALUE_CHECKMATE
}

/// A score is a loss when it is a mate score against the side to move.
pub fn is_loss(value: i16) -> (r: bool)
    ensures
        r == (value < -VALUE_CHECKMATE),
{
    value < -VALUE_CHECKMATE
}

/// Score of delivering mate `ply` plies from the root.
pub fn win_in(ply: i8) -> (r: i16)
    requires
        VALUE_INF - ply <= i16::MAX,
    ensures
        r == VALUE_INF - ply,
{
    VALUE_INF - ply as i16
}

/// Score of being mated `ply` plies from the root.
pub fn lose_in(ply: i8) -> (r: i16)
    requires
        -VALUE_INF + ply >= i16::MIN,
    ensures
        r == -VALUE_INF + ply,
{
    -VALUE_INF + ply as i16
}

/// Whether a stored score holds a real value.
pub fn is_valid(value: i16) -> (r: bool)
    ensures
        r == (value != VALUE_NONE),
{
    value != VALUE_NONE
}

/// Mate scores of either side are symmetric: a score is a win exactly when its negation is a loss.
pub proof fn lemma_win_loss_symmetric(value: i16)
    requires
        value > i16::MIN,
    ensures
        (value > VALUE_CHECKMATE) == (-value < -VALUE_CHECKMATE),
        (abs_score(value as int) > VALUE_CHECKMATE) == ((value > VALUE_CHECKMATE) || (value < -VALUE_CHECKMATE)),
{
}

/// Mating sooner is better: `win_in` decreases and `lose_in` increases with the ply, and
/// both are decisive for every ply the search can reach.
pub proof fn lemma_mate_scores(a: i8, b: i8)
    requires
        0 <= a <= b <= MAX_DEPTH,
    ensures
        VALUE_INF - b <= VALUE_INF - a,
        -VALUE_INF + a <= -VALUE_INF + b,
        VALUE_INF - b > VALUE_CHECKMATE,
        -VALUE_INF + b < -VALUE_CHECKMATE,
{
}

} // verus!
