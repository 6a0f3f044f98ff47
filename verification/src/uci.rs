//! Limits a search runs under, and how the words of a `go` command set them.

use vstd::prelude::*;
use crate::param::{MAX_DEPTH, MAX_NODES, MAX_TIME};

verus! {

/// Limits of one search: depth, nodes and time (optimal and hard, in milliseconds).
#[derive(Clone, Copy, Debug)]
pub struct SearchLimits {
    pub max_depths: i8,
    pub max_nodes: i64,
    pub max_time: u128,
    pub opt_time: u128,
}

impl SearchLimits {
    /// No limits.
    pub fn new() -> (r: Self)
        ensures
            r.max_depths == MAX_DEPTH,
            r.max_nodes == MAX_NODES,
            r.max_time == MAX_TIME,
            r.opt_time == MAX_TIME,
    {
        Self { max_depths: MAX_DEPTH, max_nodes: MAX_NODES, max_time: MAX_TIME, opt_time: MAX_TIME }
    }
}

// ---------------------------------------------------------------------------------------------
// numbers

/// Every byte is an ASCII digit.
pub open spec fn all_digits(s: Seq<u8>) -> bool {
    forall|i: int| 0 <= i < s.len() ==> 48 <= #[trigger] s[i] <= 57
}

/// The decimal value of a string of digits.
pub open spec fn digits_value(s: Seq<u8>) -> int
    decreases s.len(),
{
    if s.len() == 0 {
        0
    } else {
        digits_value(s.drop_last()) * 10 + (s.last() - 48)
    }
}

/// A number without sign: an optional `+` and at least one digit, worth at most `max`.
pub open spec fn parse_unsigned(s: Seq<u8>, max: int) -> Option<int> {
    let body = if s.len() > 0 && s[0] == 43 { s.subrange(1, s.len() as int) } else { s };
    if body.len() > 0 && all_digits(body) && digits_value(body) <= max {
        Some(digits_value(body))
    } else {
        None
    }
}

/// A number with an optional sign (`-` or `+`) in `[min, max]`.
pub open spec fn parse_signed(s: Seq<u8>, min: int, max: int) -> Option<int> {
    if s.len() > 0 && s[0] == 45 {
        let body = s.subrange(1, s.len() as int);
        if body.len() > 0 && all_digits(body) && -digits_value(body) >= min {
            Some(-digits_value(body))
        } else {
            None
        }
    } else {
        parse_unsigned(s, max)
    }
}

proof fn lemma_digits_nonneg(s: Seq<u8>)
    requires
        all_digits(s),
    ensures
        digits_value(s) >= 0,
    decreases s.len(),
{
    if s.len() > 0 {
        lemma_digits_nonneg(s.drop_last());
    }
}

/// A longer string of digits is worth at least as much as its prefix.
proof fn lemma_digits_prefix(s: Seq<u8>, k: int)
    requires
        all_digits(s),
        0 <= k <= s.len(),
    ensures
        digits_value(s) >= digits_value(s.subrange(0, k)),
    decreases s.len(),
{
    if k < s.len() {
        let t = s.drop_last();
        assert(t.subrange(0, k) =~= s.subrange(0, k));
        lemma_digits_prefix(t, k);
        lemma_digits_nonneg(t);
    } else {
        assert(s.subrange(0, k) =~= s);
    }
}

/// The value of the digits of `b` from `start` on, when they are all digits and the value
/// is at most `max`.
fn parse_digits(b: &Vec<u8>, start: usize, max: u128) -> (r: Option<u128>)
    requires
        start <= b@.len(),
        max >= 9,
    ensures
        r matches Some(v) ==> v <= max,
        ({
            let body = b@.subrange(start as int, b@.len() as int);
            let ok = body.len() > 0 && all_digits(body) && digits_value(body) <= max;
            match r {
                Some(x) => ok && x == digits_value(body),
                None => !ok,
            }
        }),
{
    let ghost body = b@.subrange(start as int, b@.len() as int);
    if start == b.len() {
        return None;
    }
    let mut v: u128 = 0;
    let mut i: usize = start;
    while i < b.len()
        invariant
            start <= i <= b@.len(),
            body == b@.subrange(start as int, b@.len() as int),
            all_digits(b@.subrange(start as int, i as int)),
            v == digits_value(b@.subrange(start as int, i as int)),
            v <= max,
            max >= 9,
        decreases b@.len() - i,
    {
        let c = b[i];
        if c < 48 || c > 57 {
            proof {
                assert(body[i - start] == c);
            }
            return None;
        }
        let d = (c - 48) as u128;
        let ghost next = b@.subrange(start as int, i + 1);
        proof {
            assert(next.drop_last() =~= b@.subrange(start as int, i as int));
            assert(next.last() == c);
            assert(all_digits(next));
        }
        if v > (max - d) / 10 {
            proof {
                assert(v * 10 + d > max) by (nonlinear_arith)
                    requires v > (max - d) / 10, d <= max || d > max, d <= 9;
                if all_digits(body) {
                    assert(body.subrange(0, i + 1 - start) =~= next);
                    lemma_digits_prefix(body, i + 1 - start);
                }
            }
            return None;
        }
        assert(v * 10 + d <= max) by (nonlinear_arith)
            requires v <= (max - d) / 10, d <= 9, d <= max;
        v = v * 10 + d;
        i += 1;
    }
    proof {
        assert(b@.subrange(start as int, i as int) =~= body);
    }
    Some(v)
}

/// The number `word` writes, when it is one that fits a `u128`.
pub fn parse_u128(word: &Vec<u8>) -> (r: Option<u128>)
    ensures
        match r {
            Some(x) => parse_unsigned(word@, u128::MAX as int) == Some(x as int),
            None => parse_unsigned(word@, u128::MAX as int) is None,
        },
{
    let start: usize = if word.len() > 0 && word[0] == 43 { 1 } else { 0 };
    proof {
        if start == 0 {
            assert(word@.subrange(0, word@.len() as int) =~= word@);
        }
    }
    parse_digits(word, start, u128::MAX)
}

/// The number `word` writes, when it is one that fits an `i64`.
pub fn parse_i64(word: &Vec<u8>) -> (r: Option<i64>)
    ensures
        match r {
            Some(x) => parse_signed(word@, i64::MIN as int, i64::MAX as int) == Some(x as int),
            None => parse_signed(word@, i64::MIN as int, i64::MAX as int) is None,
        },
{
    if word.len() > 0 && word[0] == 45 {
        match parse_digits(word, 1, 0x8000_0000_0000_0000u128) {
            Some(v) => {
                if v == 0x8000_0000_0000_0000u128 {
                    Some(i64::MIN)
                } else {
                    Some(-(v as i64))
                }
            },
            None => None,
        }
    } else {
        let start: usize = if word.len() > 0 && word[0] == 43 { 1 } else { 0 };
        proof {
            if start == 0 {
                assert(word@.subrange(0, word@.len() as int) =~= word@);
            }
        }
        match parse_digits(word, start, 0x7fff_ffff_ffff_ffffu128) {
            Some(v) => Some(v as i64),
            None => None,
        }
    }
}

/// The number `word` writes, when it is one that fits an `i8`.
pub fn parse_i8(word: &Vec<u8>) -> (r: Option<i8>)
    ensures
        match r {
            Some(x) => parse_signed(word@, i8::MIN as int, i8::MAX as int) == Some(x as int),
            None => parse_signed(word@, i8::MIN as int, i8::MAX as int) is None,
        },
{
    if word.len() > 0 && word[0] == 45 {
        match parse_digits(word, 1, 128) {
            Some(v) => {
                if v == 128 {
                    Some(i8::MIN)
                } else {
                    Some(-(v as i8))
                }
            },
            None => None,
        }
    } else {
        let start: usize = if word.len() > 0 && word[0] == 43 { 1 } else { 0 };
        proof {
            if start == 0 {
                assert(word@.subrange(0, word@.len() as int) =~= word@);
            }
        }
        match parse_digits(word, start, 127) {
            Some(v) => Some(v as i8),
            None => None,
        }
    }
}

// ---------------------------------------------------------------------------------------------
// the `go` command

/// `depth`
pub const WORD_DEPTH: [u8; 5] = [100, 101, 112, 116, 104];
/// `nodes`
pub const WORD_NODES: [u8; 5] = [110, 111, 100, 101, 115];
/// `movetime`
pub const WORD_MOVETIME: [u8; 8] = [109, 111, 118, 101, 116, 105, 109, 101];
/// `wtime`
pub const WORD_WTIME: [u8; 5] = [119, 116, 105, 109, 101];
/// `winc`
pub const WORD_WINC: [u8; 4] = [119, 105, 110, 99];
/// `btime`
pub const WORD_BTIME: [u8; 5] = [98, 116, 105, 109, 101];
/// `binc`
pub const WORD_BINC: [u8; 4] = [98, 105, 110, 99];

/// The options of `go`, and every other word.
#[derive(Clone, Copy, Debug, PartialEq, Eq, Structural)]
pub enum GoKey {
    Depth,
    Nodes,
    Movetime,
    Wtime,
    Winc,
    Btime,
    Binc,
    Other,
}

pub open spec fn go_key_spec(w: Seq<u8>) -> GoKey {
    if w == WORD_DEPTH@ {
        GoKey::Depth
    } else if w == WORD_NODES@ {
        GoKey::Nodes
    } else if w == WORD_MOVETIME@ {
        GoKey::Movetime
    } else if w == WORD_WTIME@ {
        GoKey::Wtime
    } else if w == WORD_WINC@ {
        GoKey::Winc
    } else if w == WORD_BTIME@ {
        GoKey::Btime
    } else if w == WORD_BINC@ {
        GoKey::Binc
    } else {
        GoKey::Other
    }
}

fn word_is(w: &Vec<u8>, k: &[u8]) -> (r: bool)
    ensures
        r == (w@ == k@),
{
    if w.len() != k.len() {
        return false;
    }
    let mut i: usize = 0;
    while i < w.len()
        invariant
            i <= w@.len(),
            w@.len() == k@.len(),
            forall|j: int| 0 <= j < i ==> w@[j] == k@[j],
        decreases w@.len() - i,
    {
        if w[i] != k[i] {
            return false;
        }
        i += 1;
    }
    assert(w@ =~= k@);
    true
}

/// Which option of `go` the word `w` names.
pub fn go_key(w: &Vec<u8>) -> (r: GoKey)
    ensures
        r == go_key_spec(w@),
{
    if word_is(w, &WORD_DEPTH) {
        GoKey::Depth
    } else if word_is(w, &WORD_NODES) {
        GoKey::Nodes
    } else if word_is(w, &WORD_MOVETIME) {
        GoKey::Movetime
    } else if word_is(w, &WORD_WTIME) {
        GoKey::Wtime
    } else if word_is(w, &WORD_WINC) {
        GoKey::Winc
    } else if word_is(w, &WORD_BTIME) {
        GoKey::Btime
    } else if word_is(w, &WORD_BINC) {
        GoKey::Binc
    } else {
        GoKey::Other
    }
}

/// What the words of `go` have set so far.
#[derive(Clone, Copy, Debug)]
pub struct GoState {
    pub limits: SearchLimits,
    /// Whether a clock (`wtime`, `winc`, `btime`, `binc`) was given.
    pub competitive: bool,
    pub wtime: u128,
    pub winc: u128,
    pub btime: u128,
    pub binc: u128,
}

/// The state before any word is read: no limits, no clock.
pub open spec fn go_start() -> GoState {
    GoState {
        limits: SearchLimits { max_depths: MAX_DEPTH, max_nodes: MAX_NODES, max_time: MAX_TIME, opt_time: MAX_TIME },
        competitive: false,
        wtime: 0,
        winc: 0,
        btime: 0,
        binc: 0,
    }
}

/// The option `k` set to the number `x`.
pub open spec fn go_set(st: GoState, k: GoKey, x: int) -> GoState {
    match k {
        GoKey::Depth => GoState { limits: SearchLimits { max_depths: x as i8, ..st.limits }, ..st },
        GoKey::Nodes => GoState { limits: SearchLimits { max_nodes: x as i64, ..st.limits }, ..st },
        GoKey::Movetime => GoState { limits: SearchLimits { opt_time: x as u128, max_time: x as u128, ..st.limits }, ..st },
        GoKey::Wtime => GoState { competitive: true, wtime: x as u128, ..st },
        GoKey::Winc => GoState { competitive: true, winc: x as u128, ..st },
        GoKey::Btime => GoState { competitive: true, btime: x as u128, ..st },
        GoKey::Binc => GoState { competitive: true, binc: x as u128, ..st },
        GoKey::Other => st,
    }
}

/// The number the value of option `k` must be: a depth fits an `i8`, a node count an
/// `i64`, a time a `u128`.
pub open spec fn go_value(k: GoKey, w: Seq<u8>) -> Option<int> {
    match k {
        GoKey::Depth => parse_signed(w, i8::MIN as int, i8::MAX as int),
        GoKey::Nodes => parse_signed(w, i64::MIN as int, i64::MAX as int),
        _ => parse_unsigned(w, u128::MAX as int),
    }
}

/// Reading the words of `go` from `i` on: an option takes the next word as its value; any
/// other word is skipped and noted. `None` when an option has no value or its value is not
/// a number of its type.
pub open spec fn go_from(words: Seq<Vec<u8>>, i: nat, st: GoState, skipped: Seq<usize>) -> Option<(GoState, Seq<usize>)>
    decreases words.len() - i,
{
    if i >= words.len() {
        Some((st, skipped))
    } else {
        let k = go_key_spec(words[i as int]@);
        if k == GoKey::Other {
            go_from(words, i + 1, st, skipped.push(i as usize))
        } else if i + 1 >= words.len() {
            None
        } else {
            match go_value(k, words[i + 1int]@) {
                Some(x) => go_from(words, i + 2, go_set(st, k, x), skipped),
                None => None,
            }
        }
    }
}

/// The limits of a `go` command whose words after `go` are `words`, with the indices of the
/// words skipped. With a clock, the side to move's time `t` and increment `inc` set the
/// optimal time to `max(t / 20 + inc / 2, 10)` and the hard limit to
/// `max(t * 8 / 10, optimal)`; `None` also when `t * 8` overflows.
pub open spec fn go_spec(words: Seq<Vec<u8>>, white_to_move: bool) -> Option<(SearchLimits, Seq<usize>)> {
    match go_from(words, 0, go_start(), Seq::empty()) {
        None => None,
        Some((st, skipped)) => if !st.competitive {
            Some((st.limits, skipped))
        } else {
            let t = if white_to_move { st.wtime } else { st.btime };
            let inc = if white_to_move { st.winc } else { st.binc };
            if t * 8 > u128::MAX {
                None
            } else {
                let opt = if t / 20 + inc / 2 > 10 { t / 20 + inc / 2 } else { 10 };
                let max = if t * 8 / 10 > opt { t * 8 / 10 } else { opt };
                Some((SearchLimits { opt_time: opt as u128, max_time: max as u128, ..st.limits }, skipped))
            }
        },
    }
}

/// Reads the words after `go` into search limits, with the indices of the words it skipped.
pub fn parse_go(words: &Vec<Vec<u8>>, white_to_move: bool) -> (r: Option<(SearchLimits, Vec<usize>)>)
    ensures
        match r {
            Some((lim, sk)) => go_spec(words@, white_to_move) == Some((lim, sk@)),
            None => go_spec(words@, white_to_move) is None,
        },
{
    let mut st = GoState {
        limits: SearchLimits::new(),
        competitive: false,
        wtime: 0,
        winc: 0,
        btime: 0,
        binc: 0,
    };
    let mut skipped: Vec<usize> = Vec::new();
    let mut i: usize = 0;
    while i < words.len()
        invariant
            i <= words@.len(),
            go_from(words@, 0, go_start(), Seq::empty()) == go_from(words@, i as nat, st, skipped@),
        decreases words@.len() - i,
    {
        let k = go_key(&words[i]);
        match k {
            GoKey::Other => {
                skipped.push(i);
                i += 1;
            },
            _ => {
                if i + 1 >= words.len() {
                    return None;
                }
                let w = &words[i + 1];
                match k {
                    GoKey::Depth => match parse_i8(w) {
                        Some(x) => { st.limits.max_depths = x; },
                        None => { return None; },
                    },
                    GoKey::Nodes => match parse_i64(w) {
                        Some(x) => { st.limits.max_nodes = x; },
                        None => { return None; },
                    },
                    _ => match parse_u128(w) {
                        Some(x) => {
                            match k {
                                GoKey::Movetime => {
                                    st.limits.opt_time = x;
                                    st.limits.max_time = x;
                                },
                                GoKey::Wtime => {
                                    st.competitive = true;
                                    st.wtime = x;
                                },
                                GoKey::Winc => {
                                    st.competitive = true;
                                    st.winc = x;
                                },
                                GoKey::Btime => {
                                    st.competitive = true;
                                    st.btime = x;
                                },
                                _ => {
                                    st.competitive = true;
                                    st.binc = x;
                                },
                            }
                        },
                        None => { return None; },
                    },
                }
                i += 2;
            },
        }
    }
    if st.competitive {
        let t = if white_to_move { st.wtime } else { st.btime };
        let inc = if white_to_move { st.winc } else { st.binc };
        if t > u128::MAX / 8 {
            return None;
        }
        let base = t / 20 + inc / 2;
        let opt = if base > 10 { base } else { 10 };
        let scaled = t * 8 / 10;
        let max = if scaled > opt { scaled } else { opt };
        st.limits.opt_time = opt;
        st.limits.max_time = max;
    }
    Some((st.limits, skipped))
}

} // verus!
