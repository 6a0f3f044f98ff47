//! Ordering the hidden neurons so that neurons active in the same positions share a block of
//! four: the activation is read block by block and a block that is all zero is skipped.
//!
//! Each neuron of the first half comes with its activity signature: one bit per sampled
//! position, in words of 64 bits. A block's cost is the number of positions in which any of
//! its neurons is active (the ones of the union of their signatures).

use vstd::prelude::*;
use crate::chess::popcount;
use crate::nnue::network::Aligned;

verus! {

/// Neurons of one half of the hidden layer.
pub const HALF: usize = 384;
/// Blocks of four neurons in one half.
pub const BLOCKS: usize = 96;

/// `u64::count_ones`: the number of ones in the binary representation of `x`.
#[verifier::external_body]
fn count_ones(x: u64) -> (r: u32)
    ensures
        r == popcount(x),
{
    x.count_ones()
}

proof fn lemma_popcount_le_64(x: u64)
    ensures
        popcount(x) <= 64,
{
    lemma_count_le(x, 64);
}

proof fn lemma_count_le(x: u64, n: nat)
    ensures
        crate::chess::count_upto(x, n) <= n,
    decreases n,
{
    if n > 0 {
        lemma_count_le(x, (n - 1) as nat);
    }
}

/// Every neuron of the half has a signature of `w` words.
pub open spec fn activity_ok(act: Seq<Vec<u64>>, w: nat) -> bool {
    &&& act.len() == HALF
    &&& forall|i: int| 0 <= i < HALF ==> (#[trigger] act[i])@.len() == w
}

/// The ones of the first `n` words of a signature.
pub open spec fn row_ones(row: Seq<u64>, n: nat) -> nat
    decreases n,
{
    if n == 0 {
        0
    } else {
        row_ones(row, (n - 1) as nat) + popcount(row[n - 1])
    }
}

/// Word `word` of the union of the signatures of a block.
pub open spec fn word_or(act: Seq<Vec<u64>>, blk: [usize; 4], word: int) -> u64 {
    (((0u64 | act[blk[0] as int]@[word]) | act[blk[1] as int]@[word]) | act[blk[2] as int]@[word])
        | act[blk[3] as int]@[word]
}

/// The cost of a block over the first `n` words.
pub open spec fn block_score(act: Seq<Vec<u64>>, blk: [usize; 4], n: nat) -> nat
    decreases n,
{
    if n == 0 {
        0
    } else {
        block_score(act, blk, (n - 1) as nat) + popcount(word_or(act, blk, n - 1))
    }
}

/// The cost of the first `k` blocks.
pub open spec fn total_score(act: Seq<Vec<u64>>, blocks: Seq<[usize; 4]>, w: nat, k: nat) -> nat
    decreases k,
{
    if k == 0 {
        0
    } else {
        total_score(act, blocks, w, (k - 1) as nat) + block_score(act, blocks[k - 1], w)
    }
}

/// Block `blk` with neuron `i` replaced by `v`.
pub open spec fn set4(blk: [usize; 4], i: int, v: usize) -> [usize; 4] {
    [
        if i == 0 { v } else { blk[0] },
        if i == 1 { v } else { blk[1] },
        if i == 2 { v } else { blk[2] },
        if i == 3 { v } else { blk[3] },
    ]
}

/// The blocks with neuron `ia` of block `a` and neuron `ib` of block `b` exchanged.
pub open spec fn swapped(blocks: Seq<[usize; 4]>, a: int, ia: int, b: int, ib: int) -> Seq<[usize; 4]> {
    blocks.update(a, set4(blocks[a], ia, blocks[b][ib])).update(b, set4(blocks[b], ib, blocks[a][ia]))
}

/// No exchange of two neurons between two blocks lowers the cost of the two blocks.
pub open spec fn local_optimum(act: Seq<Vec<u64>>, blocks: Seq<[usize; 4]>, w: nat) -> bool {
    forall|a: int, b: int, ia: int, ib: int|
        0 <= a < b < blocks.len() && 0 <= ia < 4 && 0 <= ib < 4 ==> block_score(act, #[trigger] swapped(blocks, a, ia, b, ib)[a], w)
            + block_score(act, swapped(blocks, a, ia, b, ib)[b], w) >= block_score(act, blocks[a], w) + block_score(act, blocks[b], w)
}

/// The blocks hold neurons of the half, each at most once.
pub open spec fn distinct_blocks(blocks: Seq<[usize; 4]>) -> bool {
    &&& forall|a: int, i: int| 0 <= a < blocks.len() && 0 <= i < 4 ==> (#[trigger] blocks[a][i]) < HALF
    &&& forall|a: int, i: int, b: int, j: int|
        0 <= a < blocks.len() && 0 <= i < 4 && 0 <= b < blocks.len() && 0 <= j < 4 && (a != b || i != j) ==> #[trigger] blocks[a][i]
            != #[trigger] blocks[b][j]
}

/// The ordering that places the blocks first, four neurons each, and leaves the second half
/// in place.
pub open spec fn mapping_of(blocks: Seq<[usize; 4]>, mapping: [usize; 768]) -> bool {
    &&& forall|i: int| 0 <= i < HALF ==> #[trigger] mapping[i] == blocks[i / 4][i % 4]
    &&& forall|i: int| HALF <= i < 768 ==> #[trigger] mapping[i] == i
}

// ---------------------------------------------------------------------------------------------
// costs

fn signature_ones(row: &Vec<u64>) -> (r: u32)
    requires
        row@.len() * 64 <= u32::MAX,
    ensures
        r == row_ones(row@, row@.len()),
{
    let mut s: u32 = 0;
    let mut k: usize = 0;
    while k < row.len()
        invariant
            k <= row@.len(),
            row@.len() * 64 <= u32::MAX,
            s == row_ones(row@, k as nat),
            s <= k * 64,
        decreases row@.len() - k,
    {
        proof {
            lemma_popcount_le_64(row@[k as int]);
        }
        s = s + count_ones(row[k]);
        k += 1;
    }
    s
}

fn block_cost(act: &Vec<Vec<u64>>, blk: &[usize; 4], w: usize) -> (r: u64)
    requires
        activity_ok(act@, w as nat),
        w * 64 <= u32::MAX,
        forall|i: int| 0 <= i < 4 ==> #[trigger] blk[i] < HALF,
    ensures
        r == block_score(act@, *blk, w as nat),
        r <= w * 64,
{
    let mut s: u64 = 0;
    let mut word: usize = 0;
    while word < w
        invariant
            word <= w,
            activity_ok(act@, w as nat),
            w * 64 <= u32::MAX,
            forall|i: int| 0 <= i < 4 ==> #[trigger] blk[i] < HALF,
            s == block_score(act@, *blk, word as nat),
            s <= word * 64,
        decreases w - word,
    {
        let mut union: u64 = 0;
        union = union | act[blk[0]][word];
        union = union | act[blk[1]][word];
        union = union | act[blk[2]][word];
        union = union | act[blk[3]][word];
        proof {
            lemma_popcount_le_64(union);
        }
        s = s + count_ones(union) as u64;
        word += 1;
    }
    s
}

/// Word `word` of the union of the signature of neuron `i` with those of the first `k`
/// neurons of `prefix`.
pub open spec fn cand_or(act: Seq<Vec<u64>>, prefix: Seq<usize>, k: nat, i: int, word: int) -> u64
    decreases k,
{
    if k == 0 {
        act[i]@[word]
    } else {
        cand_or(act, prefix, (k - 1) as nat, i, word) | act[prefix[k - 1] as int]@[word]
    }
}

/// The cost of the block `prefix` with neuron `i` added, over the first `n` words.
pub open spec fn cand_score(act: Seq<Vec<u64>>, prefix: Seq<usize>, i: int, n: nat) -> nat
    decreases n,
{
    if n == 0 {
        0
    } else {
        cand_score(act, prefix, i, (n - 1) as nat) + popcount(cand_or(act, prefix, prefix.len(), i, n - 1))
    }
}

/// The positions in which neuron `i` is active.
pub open spec fn ones_of(act: Seq<Vec<u64>>, i: int) -> nat {
    row_ones(act[i]@, act[i]@.len())
}

/// The cost of block `block[..slot]` with neuron `i` added, and neuron `i`'s own ones.
fn candidate_cost(act: &Vec<Vec<u64>>, block: &[usize; 4], slot: usize, i: usize, w: usize) -> (r: (usize, u32))
    requires
        activity_ok(act@, w as nat),
        w * 64 <= u32::MAX,
        i < HALF,
        slot <= 4,
        forall|k: int| 0 <= k < 4 ==> #[trigger] block[k] < HALF,
    ensures
        r.0 <= w * 64,
        r.0 == cand_score(act@, block@.subrange(0, slot as int), i as int, w as nat),
        r.1 == ones_of(act@, i as int),
{
    let ghost prefix = block@.subrange(0, slot as int);
    let mut score: usize = 0;
    let mut word: usize = 0;
    while word < w
        invariant
            word <= w,
            activity_ok(act@, w as nat),
            w * 64 <= u32::MAX,
            i < HALF,
            slot <= 4,
            prefix == block@.subrange(0, slot as int),
            forall|k: int| 0 <= k < 4 ==> #[trigger] block[k] < HALF,
            score <= word * 64,
            score == cand_score(act@, prefix, i as int, word as nat),
        decreases w - word,
    {
        let mut union = act[i][word];
        let mut j: usize = 0;
        while j < slot
            invariant
                j <= slot,
                slot <= 4,
                word < w,
                i < HALF,
                activity_ok(act@, w as nat),
                prefix == block@.subrange(0, slot as int),
                forall|k: int| 0 <= k < 4 ==> #[trigger] block[k] < HALF,
                union == cand_or(act@, prefix, j as nat, i as int, word as int),
            decreases slot - j,
        {
            assert(prefix[j as int] == block[j as int]);
            union = union | act[block[j]][word];
            j += 1;
        }
        proof {
            lemma_popcount_le_64(union);
        }
        score = score + count_ones(union) as usize;
        word += 1;
    }
    let active = signature_ones(&act[i]);
    (score, active)
}

// ---------------------------------------------------------------------------------------------
// greedy filling

/// The number of neurons below `n` already taken.
pub open spec fn used_count(used: Seq<bool>, n: nat) -> nat
    decreases n,
{
    if n == 0 {
        0
    } else {
        used_count(used, (n - 1) as nat) + (if used[n - 1] { 1nat } else { 0nat })
    }
}

proof fn lemma_used_count_set(used: Seq<bool>, v: int, n: nat)
    requires
        0 <= v < used.len(),
        !used[v],
        n <= used.len(),
    ensures
        used_count(used.update(v, true), n) == used_count(used, n) + (if v < n { 1nat } else { 0nat }),
    decreases n,
{
    if n > 0 {
        lemma_used_count_set(used, v, (n - 1) as nat);
    }
}

proof fn lemma_all_used(used: Seq<bool>, n: nat)
    requires
        n <= used.len(),
        forall|k: int| 0 <= k < n ==> #[trigger] used[k],
    ensures
        used_count(used, n) == n,
    decreases n,
{
    if n > 0 {
        lemma_all_used(used, (n - 1) as nat);
    }
}

/// Neurons of the half, none twice.
pub open spec fn distinct_order(order: Seq<usize>) -> bool {
    &&& forall|k: int| 0 <= k < order.len() ==> #[trigger] order[k] < HALF
    &&& forall|i: int, j: int| 0 <= i < j < order.len() ==> #[trigger] order[i] != #[trigger] order[j]
}

/// The seed among the neurons below `n` not yet in `order`: the one active in the most
/// positions, the last such on a tie; -1 when there is none.
pub open spec fn seed_upto(act: Seq<Vec<u64>>, order: Seq<usize>, n: nat) -> int
    decreases n,
{
    if n == 0 {
        -1
    } else {
        let b = seed_upto(act, order, (n - 1) as nat);
        let i = n - 1;
        if !order.contains(i as usize) && (b == -1 || ones_of(act, i) >= ones_of(act, b)) {
            i
        } else {
            b
        }
    }
}

/// The neuron among those below `n` not yet in `order` to add to the block `prefix`: the one
/// whose union with the block is active least often, then the one itself active most often,
/// then the first; -1 when there is none.
pub open spec fn cand_upto(act: Seq<Vec<u64>>, w: nat, order: Seq<usize>, prefix: Seq<usize>, n: nat) -> int
    decreases n,
{
    if n == 0 {
        -1
    } else {
        let b = cand_upto(act, w, order, prefix, (n - 1) as nat);
        let i = n - 1;
        if !order.contains(i as usize) && (b == -1 || cand_score(act, prefix, i, w) < cand_score(act, prefix, b, w) || (
        cand_score(act, prefix, i, w) == cand_score(act, prefix, b, w) && ones_of(act, i) > ones_of(act, b))) {
            i
        } else {
            b
        }
    }
}

/// The neuron the greedy filling takes after `order`: a seed to open a block, else the best
/// addition to the open block.
pub open spec fn next_pick(act: Seq<Vec<u64>>, w: nat, order: Seq<usize>) -> int {
    if order.len() % 4 == 0 {
        seed_upto(act, order, HALF as nat)
    } else {
        cand_upto(act, w, order, order.subrange(order.len() - order.len() % 4, order.len() as int), HALF as nat)
    }
}

/// The first `n` neurons the greedy filling takes, in order.
pub open spec fn greedy_order(act: Seq<Vec<u64>>, w: nat, n: nat) -> Seq<usize>
    decreases n,
{
    if n == 0 {
        Seq::empty()
    } else {
        let o = greedy_order(act, w, (n - 1) as nat);
        o.push(next_pick(act, w, o) as usize)
    }
}

/// The seed of a new block (see `seed_upto`).
fn pick_seed(act: &Vec<Vec<u64>>, used: &Vec<bool>, w: usize, Ghost(order): Ghost<Seq<usize>>) -> (r: usize)
    requires
        activity_ok(act@, w as nat),
        w * 64 <= u32::MAX,
        used@.len() == HALF,
        used_count(used@, HALF as nat) < HALF,
        forall|v: int| 0 <= v < HALF ==> (#[trigger] used@[v] <==> order.contains(v as usize)),
    ensures
        r < HALF,
        !used@[r as int],
        r == seed_upto(act@, order, HALF as nat),
{
    let mut best: usize = HALF;
    let mut best_count: u32 = 0;
    let mut i: usize = 0;
    while i < HALF
        invariant
            i <= HALF,
            activity_ok(act@, w as nat),
            w * 64 <= u32::MAX,
            used@.len() == HALF,
            forall|v: int| 0 <= v < HALF ==> (#[trigger] used@[v] <==> order.contains(v as usize)),
            best == HALF ==> forall|k: int| 0 <= k < i ==> #[trigger] used@[k],
            best < HALF ==> !used@[best as int] && best_count == ones_of(act@, best as int),
            best == HALF || best < HALF,
            (if best == HALF { -1 } else { best as int }) == seed_upto(act@, order, i as nat),
        decreases HALF - i,
    {
        if !used[i] {
            let count = signature_ones(&act[i]);
            if best == HALF || count >= best_count {
                best = i;
                best_count = count;
            }
        }
        i += 1;
    }
    if best == HALF {
        proof {
            lemma_all_used(used@, HALF as nat);
        }
    }
    best
}

/// The neuron to add to `block[..slot]` (see `cand_upto`).
fn pick_candidate(act: &Vec<Vec<u64>>, used: &Vec<bool>, block: &[usize; 4], slot: usize, w: usize, Ghost(order): Ghost<Seq<usize>>) -> (r: usize)
    requires
        activity_ok(act@, w as nat),
        w * 64 <= u32::MAX,
        used@.len() == HALF,
        used_count(used@, HALF as nat) < HALF,
        slot <= 4,
        forall|k: int| 0 <= k < 4 ==> #[trigger] block[k] < HALF,
        forall|v: int| 0 <= v < HALF ==> (#[trigger] used@[v] <==> order.contains(v as usize)),
    ensures
        r < HALF,
        !used@[r as int],
        r == cand_upto(act@, w as nat, order, block@.subrange(0, slot as int), HALF as nat),
{
    let ghost prefix = block@.subrange(0, slot as int);
    let mut best: usize = HALF;
    let mut best_score: usize = usize::MAX;
    let mut best_activity: u32 = 0;
    let mut i: usize = 0;
    while i < HALF
        invariant
            i <= HALF,
            activity_ok(act@, w as nat),
            w * 64 <= u32::MAX,
            used@.len() == HALF,
            slot <= 4,
            prefix == block@.subrange(0, slot as int),
            forall|k: int| 0 <= k < 4 ==> #[trigger] block[k] < HALF,
            forall|v: int| 0 <= v < HALF ==> (#[trigger] used@[v] <==> order.contains(v as usize)),
            best == HALF ==> best_score == usize::MAX && forall|k: int| 0 <= k < i ==> #[trigger] used@[k],
            best < HALF ==> !used@[best as int] && best_score == cand_score(act@, prefix, best as int, w as nat)
                && best_activity == ones_of(act@, best as int),
            best == HALF || best < HALF,
            (if best == HALF { -1 } else { best as int }) == cand_upto(act@, w as nat, order, prefix, i as nat),
        decreases HALF - i,
    {
        if !used[i] {
            let (score, active) = candidate_cost(act, block, slot, i, w);
            if score < best_score || (score == best_score && active > best_activity) {
                best = i;
                best_score = score;
                best_activity = active;
            }
        }
        i += 1;
    }
    if best == HALF {
        proof {
            lemma_all_used(used@, HALF as nat);
        }
    }
    best
}

/// Fills the blocks one after the other: a seed, then three neurons picked one at a time.
fn fill_blocks(act: &Vec<Vec<u64>>, w: usize) -> (order: Vec<usize>)
    requires
        activity_ok(act@, w as nat),
        w * 64 <= u32::MAX,
    ensures
        order@.len() == HALF,
        distinct_order(order@),
        order@ == greedy_order(act@, w as nat, HALF as nat),
{
    let mut used: Vec<bool> = Vec::new();
    let mut k: usize = 0;
    while k < HALF
        invariant
            k <= HALF,
            used@.len() == k,
            forall|j: int| 0 <= j < k ==> !#[trigger] used@[j],
        decreases HALF - k,
    {
        used.push(false);
        k += 1;
    }
    proof {
        assert(used_count(used@, HALF as nat) == 0) by {
            lemma_none_used(used@, HALF as nat);
        }
    }
    let mut order: Vec<usize> = Vec::new();
    while order.len() < HALF
        invariant
            order@.len() <= HALF,
            order@.len() % 4 == 0,
            activity_ok(act@, w as nat),
            w * 64 <= u32::MAX,
            used@.len() == HALF,
            distinct_order(order@),
            forall|v: int| 0 <= v < HALF ==> (#[trigger] used@[v] <==> order@.contains(v as usize)),
            used_count(used@, HALF as nat) == order@.len(),
            order@ == greedy_order(act@, w as nat, order@.len()),
        decreases HALF - order@.len(),
    {
        let ghost start = order@.len();
        let seed = pick_seed(act, &used, w, Ghost(order@));
        proof {
            lemma_used_count_set(used@, seed as int, HALF as nat);
            lemma_push_taken(used@, order@, seed);
        }
        used.set(seed, true);
        order.push(seed);
        let mut block: [usize; 4] = [seed; 4];
        let mut slot: usize = 1;
        while slot < 4
            invariant
                1 <= slot <= 4,
                order@.len() == start + slot,
                start % 4 == 0,
                order@.len() <= HALF,
                order@.len() + 4 - slot <= HALF,
                activity_ok(act@, w as nat),
                w * 64 <= u32::MAX,
                used@.len() == HALF,
                distinct_order(order@),
                forall|v: int| 0 <= v < HALF ==> (#[trigger] used@[v] <==> order@.contains(v as usize)),
                used_count(used@, HALF as nat) == order@.len(),
                forall|j: int| 0 <= j < 4 ==> #[trigger] block[j] < HALF,
                forall|j: int| 0 <= j < slot ==> #[trigger] block[j] == order@[start + j],
                order@ == greedy_order(act@, w as nat, order@.len()),
            decreases 4 - slot,
        {
            proof {
                assert(block@.subrange(0, slot as int) =~= order@.subrange(order@.len() - order@.len() % 4, order@.len() as int));
            }
            let c = pick_candidate(act, &used, &block, slot, w, Ghost(order@));
            proof {
                lemma_used_count_set(used@, c as int, HALF as nat);
                lemma_push_taken(used@, order@, c);
            }
            used.set(c, true);
            order.push(c);
            block[slot] = c;
            slot += 1;
        }
    }
    order
}

/// Taking neuron `v`: the flags and the order stay in step, and no neuron is taken twice.
proof fn lemma_push_taken(used: Seq<bool>, order: Seq<usize>, v: usize)
    requires
        used.len() == HALF,
        v < HALF,
        !used[v as int],
        distinct_order(order),
        forall|x: int| 0 <= x < HALF ==> (#[trigger] used[x] <==> order.contains(x as usize)),
    ensures
        distinct_order(order.push(v)),
        forall|x: int| 0 <= x < HALF ==> (#[trigger] used.update(v as int, true)[x] <==> order.push(v).contains(x as usize)),
{
    assert(!order.contains(v));
    assert forall|i: int, j: int| 0 <= i < j < order.push(v).len() implies #[trigger] order.push(v)[i] != #[trigger] order.push(v)[j] by {
        if j == order.len() {
            assert(order[i] != v) by {
                if order[i] == v {
                    assert(order.contains(v));
                }
            }
        }
    }
    assert forall|x: int| 0 <= x < HALF implies (#[trigger] used.update(v as int, true)[x] <==> order.push(v).contains(x as usize)) by {
        if order.push(v).contains(x as usize) {
            let k = choose|k: int| 0 <= k < order.push(v).len() && order.push(v)[k] == x as usize;
            if k < order.len() {
                assert(order.contains(x as usize));
            }
        }
        if order.contains(x as usize) {
            let k = choose|k: int| 0 <= k < order.len() && order[k] == x as usize;
            assert(order.push(v)[k] == x as usize);
        }
        if x == v as int {
            assert(order.push(v)[order.len() as int] == v);
        }
    }
}

proof fn lemma_none_used(used: Seq<bool>, n: nat)
    requires
        n <= used.len(),
        forall|k: int| 0 <= k < n ==> !#[trigger] used[k],
    ensures
        used_count(used, n) == 0,
    decreases n,
{
    if n > 0 {
        lemma_none_used(used, (n - 1) as nat);
    }
}

// ---------------------------------------------------------------------------------------------
// exchanges between blocks

proof fn lemma_total_swap(act: Seq<Vec<u64>>, old: Seq<[usize; 4]>, new: Seq<[usize; 4]>, a: int, b: int, w: nat, n: nat)
    requires
        old.len() == new.len(),
        n <= old.len(),
        0 <= a < b < old.len(),
        forall|k: int| 0 <= k < old.len() && k != a && k != b ==> #[trigger] new[k] == old[k],
    ensures
        total_score(act, new, w, n) + (if a < n { block_score(act, old[a], w) } else { 0 }) + (if b < n {
            block_score(act, old[b], w)
        } else {
            0
        }) == total_score(act, old, w, n) + (if a < n { block_score(act, new[a], w) } else { 0 }) + (if b < n {
            block_score(act, new[b], w)
        } else {
            0
        }),
    decreases n,
{
    if n > 0 {
        lemma_total_swap(act, old, new, a, b, w, (n - 1) as nat);
    }
}

proof fn lemma_swap_distinct(blocks: Seq<[usize; 4]>, a: int, ia: int, b: int, ib: int)
    requires
        distinct_blocks(blocks),
        0 <= a < b < blocks.len(),
        0 <= ia < 4,
        0 <= ib < 4,
    ensures
        distinct_blocks(swapped(blocks, a, ia, b, ib)),
        swapped(blocks, a, ia, b, ib).len() == blocks.len(),
{
    let s = swapped(blocks, a, ia, b, ib);
    // the neuron that lands in each place, as a place of the old blocks
    let src_a = |p: int, i: int| if p == a && i == ia { b } else if p == b && i == ib { a } else { p };
    let src_i = |p: int, i: int| if p == a && i == ia { ib } else if p == b && i == ib { ia } else { i };
    assert forall|p: int, i: int| 0 <= p < s.len() && 0 <= i < 4 implies #[trigger] s[p][i] == blocks[src_a(p, i)][src_i(p, i)] by {
        if p == b {
            assert(s[p] == set4(blocks[b], ib, blocks[a][ia]));
        } else if p == a {
            assert(s[p] == set4(blocks[a], ia, blocks[b][ib]));
        } else {
            assert(s[p] == blocks[p]);
        }
    }
    assert forall|p: int, i: int| 0 <= p < s.len() && 0 <= i < 4 implies (#[trigger] s[p][i]) < HALF by {
        assert(s[p][i] == blocks[src_a(p, i)][src_i(p, i)]);
    }
    assert forall|p: int, i: int, q: int, j: int|
        0 <= p < s.len() && 0 <= i < 4 && 0 <= q < s.len() && 0 <= j < 4 && (p != q || i != j) implies #[trigger] s[p][i]
            != #[trigger] s[q][j] by {
        assert(s[p][i] == blocks[src_a(p, i)][src_i(p, i)]);
        assert(s[q][j] == blocks[src_a(q, j)][src_i(q, j)]);
    }
}

/// The blocks of the filled order, four neurons each.
fn blocks_of(order: &Vec<usize>) -> (blocks: Vec<[usize; 4]>)
    requires
        order@.len() == HALF,
        distinct_order(order@),
    ensures
        blocks@.len() == BLOCKS,
        distinct_blocks(blocks@),
        forall|a: int, i: int| 0 <= a < BLOCKS && 0 <= i < 4 ==> #[trigger] blocks@[a][i] == order@[4 * a + i],
{
    let mut blocks: Vec<[usize; 4]> = Vec::new();
    let mut a: usize = 0;
    while a < BLOCKS
        invariant
            a <= BLOCKS,
            order@.len() == HALF,
            blocks@.len() == a,
            forall|p: int, i: int| 0 <= p < a && 0 <= i < 4 ==> #[trigger] blocks@[p][i] == order@[4 * p + i],
        decreases BLOCKS - a,
    {
        blocks.push([order[4 * a], order[4 * a + 1], order[4 * a + 2], order[4 * a + 3]]);
        a += 1;
    }
    assert forall|p: int, i: int| 0 <= p < blocks@.len() && 0 <= i < 4 implies (#[trigger] blocks@[p][i]) < HALF by {
        assert(blocks@[p][i] == order@[4 * p + i]);
    }
    assert forall|p: int, i: int, q: int, j: int|
        0 <= p < blocks@.len() && 0 <= i < 4 && 0 <= q < blocks@.len() && 0 <= j < 4 && (p != q || i != j) implies #[trigger] blocks@[p][i]
            != #[trigger] blocks@[q][j] by {
        assert(blocks@[p][i] == order@[4 * p + i]);
        assert(blocks@[q][j] == order@[4 * q + j]);
        if 4 * p + i < 4 * q + j {
            assert(order@[4 * p + i] != order@[4 * q + j]);
        } else {
            assert(order@[4 * q + j] != order@[4 * p + i]);
        }
    }
    blocks
}

/// The blocks of the greedy filling, four neurons each in the order taken.
pub open spec fn greedy_blocks(act: Seq<Vec<u64>>, w: nat) -> Seq<[usize; 4]> {
    let g = greedy_order(act, w, HALF as nat);
    Seq::new(BLOCKS as nat, |a: int| [g[4 * a], g[4 * a + 1], g[4 * a + 2], g[4 * a + 3]])
}

/// The exchanges between blocks `a` and `b` (each neuron of `a` against each of `b`) do not
/// lower their cost.
pub open spec fn pair_settled(act: Seq<Vec<u64>>, blocks: Seq<[usize; 4]>, w: nat, a: int, b: int) -> bool {
    forall|ia: int, ib: int| 0 <= ia < 4 && 0 <= ib < 4 ==> block_score(act, #[trigger] swapped(blocks, a, ia, b, ib)[a], w)
        + block_score(act, swapped(blocks, a, ia, b, ib)[b], w) >= block_score(act, blocks[a], w) + block_score(act, blocks[b], w)
}

/// Tries the exchanges between blocks `a` and `b` in order and makes the first that lowers
/// their cost; returns whether it made one.
fn try_pair(act: &Vec<Vec<u64>>, blocks: &mut Vec<[usize; 4]>, a: usize, b: usize, w: usize) -> (found: bool)
    requires
        activity_ok(act@, w as nat),
        w * 64 <= u32::MAX,
        old(blocks)@.len() == BLOCKS,
        distinct_blocks(old(blocks)@),
        a < b < BLOCKS,
    ensures
        final(blocks)@.len() == BLOCKS,
        distinct_blocks(final(blocks)@),
        !found ==> final(blocks)@ == old(blocks)@ && pair_settled(act@, old(blocks)@, w as nat, a as int, b as int),
        found ==> total_score(act@, final(blocks)@, w as nat, BLOCKS as nat) < total_score(act@, old(blocks)@, w as nat, BLOCKS as nat),
{
    let ghost before = blocks@;
    let ba = blocks[a];
    let bb = blocks[b];
    proof {
        assert forall|i: int| 0 <= i < 4 implies #[trigger] ba[i] < HALF && bb[i] < HALF by {
            assert(ba[i] == before[a as int][i]);
            assert(bb[i] == before[b as int][i]);
        }
    }
    let old_score = block_cost(act, &ba, w) + block_cost(act, &bb, w);
    let mut ia: usize = 0;
    while ia < 4
        invariant
            ia <= 4,
            activity_ok(act@, w as nat),
            w * 64 <= u32::MAX,
            a < b < BLOCKS,
            blocks@ == before,
            before == old(blocks)@,
            before.len() == BLOCKS,
            distinct_blocks(before),
            ba == before[a as int],
            bb == before[b as int],
            forall|i: int| 0 <= i < 4 ==> #[trigger] ba[i] < HALF && bb[i] < HALF,
            old_score == block_score(act@, ba, w as nat) + block_score(act@, bb, w as nat),
            forall|x: int, y: int| 0 <= x < ia && 0 <= y < 4 ==> block_score(act@, #[trigger] swapped(before, a as int, x, b as int, y)[a as int], w as nat)
                + block_score(act@, swapped(before, a as int, x, b as int, y)[b as int], w as nat) >= old_score,
        decreases 4 - ia,
    {
        let mut ib: usize = 0;
        while ib < 4
            invariant
                ia < 4,
                ib <= 4,
                activity_ok(act@, w as nat),
                w * 64 <= u32::MAX,
                a < b < BLOCKS,
                blocks@ == before,
                before == old(blocks)@,
                before.len() == BLOCKS,
                distinct_blocks(before),
                ba == before[a as int],
                bb == before[b as int],
                forall|i: int| 0 <= i < 4 ==> #[trigger] ba[i] < HALF && bb[i] < HALF,
                old_score == block_score(act@, ba, w as nat) + block_score(act@, bb, w as nat),
                forall|x: int, y: int| 0 <= x < ia && 0 <= y < 4 ==> block_score(act@, #[trigger] swapped(before, a as int, x, b as int, y)[a as int], w as nat)
                    + block_score(act@, swapped(before, a as int, x, b as int, y)[b as int], w as nat) >= old_score,
                forall|y: int| 0 <= y < ib ==> block_score(act@, #[trigger] swapped(before, a as int, ia as int, b as int, y)[a as int], w as nat)
                    + block_score(act@, swapped(before, a as int, ia as int, b as int, y)[b as int], w as nat) >= old_score,
            decreases 4 - ib,
        {
            let mut na = ba;
            let mut nb = bb;
            na[ia] = bb[ib];
            nb[ib] = ba[ia];
            let ghost sw = swapped(before, a as int, ia as int, b as int, ib as int);
            proof {
                assert(na =~= set4(ba, ia as int, bb[ib as int]));
                assert(nb =~= set4(bb, ib as int, ba[ia as int]));
                assert(sw[a as int] == na);
                assert(sw[b as int] == nb);
            }
            let new_score = block_cost(act, &na, w) + block_cost(act, &nb, w);
            if new_score < old_score {
                proof {
                    lemma_swap_distinct(before, a as int, ia as int, b as int, ib as int);
                    lemma_total_swap(act@, before, sw, a as int, b as int, w as nat, BLOCKS as nat);
                    assert(block_score(act@, sw[a as int], w as nat) + block_score(act@, sw[b as int], w as nat) == new_score);
                    assert(block_score(act@, before[a as int], w as nat) + block_score(act@, before[b as int], w as nat) == old_score);
                    assert(total_score(act@, sw, w as nat, BLOCKS as nat) < total_score(act@, before, w as nat, BLOCKS as nat));
                }
                blocks.set(a, na);
                blocks.set(b, nb);
                assert(blocks@ =~= sw);
                return true;
            }
            ib += 1;
        }
        ia += 1;
    }
    false
}

/// One pass over the pairs of blocks: for each block `a`, the blocks after it are tried in
/// order until an exchange with one of them lowers the cost. Returns whether any did.
fn improve_pass(act: &Vec<Vec<u64>>, blocks: &mut Vec<[usize; 4]>, w: usize) -> (improved: bool)
    requires
        activity_ok(act@, w as nat),
        w * 64 <= u32::MAX,
        old(blocks)@.len() == BLOCKS,
        distinct_blocks(old(blocks)@),
    ensures
        final(blocks)@.len() == BLOCKS,
        distinct_blocks(final(blocks)@),
        !improved ==> final(blocks)@ == old(blocks)@ && local_optimum(act@, old(blocks)@, w as nat),
        improved ==> total_score(act@, final(blocks)@, w as nat, BLOCKS as nat) < total_score(act@, old(blocks)@, w as nat, BLOCKS as nat),
{
    let ghost start = blocks@;
    let mut improved = false;
    let mut a: usize = 0;
    while a < BLOCKS
        invariant
            a <= BLOCKS,
            activity_ok(act@, w as nat),
            w * 64 <= u32::MAX,
            blocks@.len() == BLOCKS,
            distinct_blocks(blocks@),
            start.len() == BLOCKS,
            !improved ==> blocks@ == start,
            !improved ==> forall|p: int, q: int| 0 <= p < a && p < q < BLOCKS ==> #[trigger] pair_settled(act@, start, w as nat, p, q),
            improved ==> total_score(act@, blocks@, w as nat, BLOCKS as nat) < total_score(act@, start, w as nat, BLOCKS as nat),
        decreases BLOCKS - a,
    {
        let mut b: usize = a + 1;
        let mut found = false;
        while b < BLOCKS && !found
            invariant
                a < BLOCKS,
                a < b <= BLOCKS,
                activity_ok(act@, w as nat),
                w * 64 <= u32::MAX,
                blocks@.len() == BLOCKS,
                distinct_blocks(blocks@),
                start.len() == BLOCKS,
                found ==> improved,
                !improved ==> blocks@ == start,
                !improved ==> forall|p: int, q: int| 0 <= p < a && p < q < BLOCKS ==> #[trigger] pair_settled(act@, start, w as nat, p, q),
                !improved ==> forall|q: int| a < q < b ==> #[trigger] pair_settled(act@, start, w as nat, a as int, q),
                improved ==> total_score(act@, blocks@, w as nat, BLOCKS as nat) < total_score(act@, start, w as nat, BLOCKS as nat),
            decreases BLOCKS - b,
        {
            if try_pair(act, blocks, a, b, w) {
                found = true;
                improved = true;
            }
            b += 1;
        }
        proof {
            if !improved {
                assert forall|p: int, q: int| 0 <= p < a + 1 && p < q < BLOCKS implies #[trigger] pair_settled(act@, start, w as nat, p, q) by {
                    if p < a {
                    } else {
                        assert(pair_settled(act@, start, w as nat, a as int, q));
                    }
                }
            }
        }
        a += 1;
    }
    proof {
        if !improved {
            assert forall|p: int, q: int, ia: int, ib: int|
                0 <= p < q < start.len() && 0 <= ia < 4 && 0 <= ib < 4 implies block_score(act@, #[trigger] swapped(start, p, ia, q, ib)[p], w as nat)
                    + block_score(act@, swapped(start, p, ia, q, ib)[q], w as nat) >= block_score(act@, start[p], w as nat)
                    + block_score(act@, start[q], w as nat) by {
                assert(pair_settled(act@, start, w as nat, p, q));
            }
        }
    }
    improved
}

/// An ordering of the hidden neurons that packs neurons active in the same positions into
/// blocks of four: the first half is filled greedily (`greedy_order`: a seed, the most active
/// neuron left, then the neuron whose union with the block is active least often), then
/// exchanges between blocks that lower the total cost are made until none does; the second
/// half stays in place. `activity[i]` is the signature of neuron `i` of the first half, `w`
/// words each.
pub fn co_occurrence_mapping(activity: &Vec<Vec<u64>>, w: usize) -> (mapping: [usize; 768])
    requires
        activity_ok(activity@, w as nat),
        w * 64 <= u32::MAX,
    ensures
        exists|blocks: Seq<[usize; 4]>| {
            &&& blocks.len() == BLOCKS
            &&& distinct_blocks(blocks)
            &&& local_optimum(activity@, blocks, w as nat)
            &&& total_score(activity@, blocks, w as nat, BLOCKS as nat) <= total_score(
                activity@,
                greedy_blocks(activity@, w as nat),
                w as nat,
                BLOCKS as nat,
            )
            &&& #[trigger] mapping_of(blocks, mapping)
        },
{
    let order = fill_blocks(activity, w);
    let mut blocks = blocks_of(&order);
    let ghost greedy = greedy_blocks(activity@, w as nat);
    proof {
        assert forall|a: int| 0 <= a < BLOCKS implies #[trigger] blocks@[a] == greedy[a] by {
            assert(blocks@[a] =~= greedy[a]);
        }
        assert(blocks@ =~= greedy);
    }
    loop
        invariant
            activity_ok(activity@, w as nat),
            w * 64 <= u32::MAX,
            blocks@.len() == BLOCKS,
            distinct_blocks(blocks@),
            greedy == greedy_blocks(activity@, w as nat),
            total_score(activity@, blocks@, w as nat, BLOCKS as nat) <= total_score(activity@, greedy, w as nat, BLOCKS as nat),
        ensures
            blocks@.len() == BLOCKS,
            distinct_blocks(blocks@),
            local_optimum(activity@, blocks@, w as nat),
            total_score(activity@, blocks@, w as nat, BLOCKS as nat) <= total_score(activity@, greedy, w as nat, BLOCKS as nat),
        decreases total_score(activity@, blocks@, w as nat, BLOCKS as nat),
    {
        let improved = improve_pass(activity, &mut blocks, w);
        if !improved {
            break;
        }
    }
    let mut mapping = [0usize; 768];
    let mut i: usize = 0;
    while i < 768
        invariant
            i <= 768,
            blocks@.len() == BLOCKS,
            forall|k: int| 0 <= k < i && k < HALF ==> #[trigger] mapping[k] == blocks@[k / 4][k % 4],
            forall|k: int| HALF <= k < i ==> #[trigger] mapping[k] == k,
        decreases 768 - i,
    {
        if i < HALF {
            mapping[i] = blocks[i / 4][i % 4];
        } else {
            mapping[i] = i;
        }
        i += 1;
    }
    assert(mapping_of(blocks@, mapping));
    mapping
}

/// Records one sampled position in the signatures: every neuron of the first half that `ft`
/// activates gets bit `hash % 64` of word `sample / 32` of its signature set.
pub fn record_activity(activity: &mut Vec<Vec<u64>>, ft: &Aligned<u8, 768>, hash: u64, sample: usize)
    requires
        old(activity)@.len() == HALF,
        forall|i: int| 0 <= i < HALF ==> sample / 32 < (#[trigger] old(activity)@[i])@.len(),
    ensures
        final(activity)@.len() == HALF,
        forall|i: int| 0 <= i < HALF ==> (#[trigger] final(activity)@[i])@ == (if ft.0[i] > 0 {
            old(activity)@[i]@.update(sample as int / 32, old(activity)@[i]@[sample as int / 32] | (1u64 << (hash % 64)))
        } else {
            old(activity)@[i]@
        }),
{
    let word = sample / 32;
    let bit = 1u64 << (hash % 64);
    let mut i: usize = 0;
    while i < HALF
        invariant
            i <= HALF,
            word == sample / 32,
            bit == 1u64 << (hash % 64),
            activity@.len() == HALF,
            forall|k: int| 0 <= k < HALF ==> word < (#[trigger] old(activity)@[k])@.len(),
            forall|k: int| i <= k < HALF ==> #[trigger] activity@[k] == old(activity)@[k],
            forall|k: int| 0 <= k < i ==> (#[trigger] activity@[k])@ == (if ft.0[k] > 0 {
                old(activity)@[k]@.update(sample as int / 32, old(activity)@[k]@[sample as int / 32] | (1u64 << (hash % 64)))
            } else {
                old(activity)@[k]@
            }),
        decreases HALF - i,
    {
        if ft.0[i] > 0 {
            let mut row: Vec<u64> = Vec::new();
            activity.set_and_swap(i, &mut row);
            let v = row[word] | bit;
            row.set(word, v);
            activity.set_and_swap(i, &mut row);
        }
        i += 1;
    }
}

} // verus!
