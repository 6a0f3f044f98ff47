//! Repetition detection along the current line and the game history.

use vstd::prelude::*;
use crate::position::Position;
use crate::stack::KeyStack;

verus! {

/// Whether the position `i` plies back (`i` even) on the stack repeats `hash`.
pub open spec fn repeats_at(keys: [u64; 174], head: int, hash: u64, i: int) -> bool {
    keys[head - i] == hash
}

/// Number of even distances `i` in `[4, limit)` at which `hash` repeats.
pub open spec fn repeat_count(keys: [u64; 174], head: int, hash: u64, limit: int) -> int
    decreases limit,
{
    if limit <= 4 {
        0
    } else {
        let i = limit - 1;
        repeat_count(keys, head, hash, limit - 1) + (if i % 2 == 0 && repeats_at(keys, head, hash, i) {
            1int
        } else {
            0int
        })
    }
}

/// The draw-by-repetition rule the search applies: within reach of the fifty-move counter,
/// the position repeated once inside the current search line (at most `ply` plies back), or
/// twice anywhere.
pub open spec fn is_rep_spec(keys: [u64; 174], head: int, hash: u64, ply: int, dist: int) -> bool {
    (exists|i: int| 4 <= i <= dist && i % 2 == 0 && i <= ply && #[trigger] repeats_at(keys, head, hash, i))
        || repeat_count(keys, head, hash, dist + 1) >= 2
}

/// Whether `pos`, reached `ply` plies into the search, counts as a repetition draw.
pub fn is_rep(pos: &Position, ply: usize, stack: &KeyStack) -> (r: bool)
    requires
        pos.wf(),
        stack.wf(),
    ensures
        r == is_rep_spec(
            stack.keys,
            stack.head as int,
            pos.correct_hash_spec(),
            ply as int,
            if (pos.halfmove_clock as int) < stack.head { pos.halfmove_clock as int } else { stack.head as int },
        ),
{
    let dist: usize = if (pos.halfmove_clock as usize) < stack.head { pos.halfmove_clock as usize } else { stack.head };
    let mut count: usize = 0;
    let hash = pos.correct_hash();
    let mut i: usize = 4;
    let ghost head = stack.head as int;
    while i <= dist
        invariant
            4 <= i,
            i <= dist + 2 || i == 4,
            i % 2 == 0,
            head == stack.head,
            dist as int == (if (pos.halfmove_clock as int) < stack.head { pos.halfmove_clock as int } else { stack.head as int }),
            dist <= stack.head,
            stack.head <= 174,
            hash == pos.correct_hash_spec(),
            count == repeat_count(stack.keys, head, hash, i as int),
            count <= 1,
            forall|j: int| 4 <= j < i && j % 2 == 0 && j <= ply ==> !#[trigger] repeats_at(stack.keys, head, hash, j),
        decreases dist + 2 - i,
    {
        let x = stack.keys[stack.head - i];
        proof {
            assert(repeat_count(stack.keys, head, hash, i as int + 1) == count + (if repeats_at(stack.keys, head, hash, i as int) { 1int } else { 0int }));
            assert(repeat_count(stack.keys, head, hash, i as int + 2) == repeat_count(stack.keys, head, hash, i as int + 1));
        }
        if x == hash {
            if i <= ply {
                assert(repeats_at(stack.keys, head, hash, i as int));
                assert(is_rep_spec(stack.keys, head, hash, ply as int, dist as int));
                return true;
            }
            count += 1;
            if count > 1 {
                proof { lemma_repeat_count_mono(stack.keys, head, hash, i as int + 1, dist as int + 1); }
                assert(repeat_count(stack.keys, head, hash, dist as int + 1) >= 2);
                assert(is_rep_spec(stack.keys, head, hash, ply as int, dist as int));
                return true;
            }
        }
        i += 2;
    }
    proof {
        assert(repeat_count(stack.keys, head, hash, dist as int + 1) == count) by {
            if dist < 4 {
                assert(repeat_count(stack.keys, head, hash, dist as int + 1) == 0);
            } else if i == dist + 2 {
                assert(repeat_count(stack.keys, head, hash, i as int) == repeat_count(stack.keys, head, hash, dist as int + 1));
            }
        }
    }
    false
}

/// Counting repetitions over a longer range never gives fewer.
pub proof fn lemma_repeat_count_mono(keys: [u64; 174], head: int, hash: u64, a: int, b: int)
    requires
        a <= b,
    ensures
        repeat_count(keys, head, hash, a) <= repeat_count(keys, head, hash, b),
    decreases b - a,
{
    if a < b {
        lemma_repeat_count_mono(keys, head, hash, a, b - 1);
    }
}

} // verus!
