//! The transposition table: entries that remember search results by position key.

use vstd::prelude::*;
use crate::chess::{Move, NULL_MOVE_BITS, move_on_board, move_bits_spec, piece_of_index, Piece};
use crate::param::{UNINIT_DEPTH, VALUE_CHECKMATE, VALUE_NONE, is_valid};

verus! {

pub const AGE_SIZE: u8 = 5;
/// Ages count modulo this.
pub const MAX_AGE: u8 = 32;
pub const FLAG_NONE: u8 = 0;
/// The stored score is an upper bound.
pub const FLAG_ALPHA: u8 = 1;
/// The stored score is a lower bound.
pub const FLAG_BETA: u8 = 2;
/// The stored score is exact.
pub const FLAG_EXACT: u8 = 3;

/// Whether a score with bound kind `flag` settles the window `[alpha, beta]`.
pub open spec fn can_use_spec(value: int, flag: int, alpha: int, beta: int) -> bool {
    if flag == FLAG_EXACT {
        true
    } else if flag == FLAG_ALPHA {
        value <= alpha
    } else if flag == FLAG_BETA {
        value >= beta
    } else {
        false
    }
}

/// Can `value`, a bound of kind `flag`, be used as the result for the window `[alpha, beta]`.
pub fn get_can_use(value: i16, flag: u8, alpha: i16, beta: i16) -> (r: bool)
    ensures
        r == can_use_spec(value as int, flag as int, alpha as int, beta as int),
{
    if flag == FLAG_EXACT {
        return true;
    }
    if flag == FLAG_ALPHA {
        return value <= alpha;
    }
    if flag == FLAG_BETA {
        return value >= beta;
    }
    false
}

fn key_matches(key: u64, hash: u64) -> (r: bool)
    ensures
        r == (key == hash),
{
    key == hash
}

pub const NUM_ENTRIES: usize = 4;

/// What a probe of the table finds.
pub struct EntryValue {
    pub hit: bool,
    pub can_use: bool,
    pub pv: Move,
    pub depth: i8,
    pub static_score: i16,
    pub score: i16,
    pub is_pv: bool,
    pub flag: u8,
}

/// One slot of the table.
#[derive(Clone, Copy)]
pub struct Entry {
    hash: u64,
    pv: u16,
    depth: i8,
    static_score: i16,
    score: i16,
    // pv_node|flag|age
    mask: u8,
}

/// Score as stored: mate scores are made relative to the node (distance from it).
pub open spec fn score_to_tt(score: int, ply: int) -> int {
    if score > VALUE_CHECKMATE {
        score + ply
    } else if score < -VALUE_CHECKMATE {
        score - ply
    } else {
        score
    }
}

/// Score as read back: mate scores are made relative to the root again.
pub open spec fn score_from_tt(score: int, ply: int) -> int {
    if score > VALUE_CHECKMATE {
        score - ply
    } else if score < -VALUE_CHECKMATE {
        score + ply
    } else {
        score
    }
}

pub open spec fn mask_flag(mask: u8) -> u8 {
    (mask >> 5u8) & 3
}

pub open spec fn mask_age(mask: u8) -> u8 {
    mask & 31
}

pub open spec fn mask_pv(mask: u8) -> bool {
    (mask >> 7u8) == 1
}

/// The fields of a mask stay in their ranges; the empty mask holds none.
proof fn lemma_mask_fields(m: u8)
    ensures
        (m >> 5u8) & 3 <= 3,
        m & 31 < 32,
        mask_flag(0) == 0 && mask_age(0) == 0 && !mask_pv(0),
{
    assert((m >> 5u8) & 3 <= 3 && m & 31 < 32 && ((0u8 >> 5u8) & 3) == 0 && (0u8 & 31) == 0 && (0u8 >> 7u8) != 1)
        by (bit_vector);
}

pub open spec fn make_mask(flag: u8, age: u8, pv: bool) -> u8 {
    age | (flag << 5u8) | ((if pv { 1u8 } else { 0u8 }) << 7u8)
}

/// The move encoded by stored bits (6 in the promotion field for none).
pub open spec fn decode_move(bits: u16) -> Move {
    Move {
        from: (bits % 64) as u8,
        to: ((bits / 64) % 64) as u8,
        promotion: if bits / 4096 < 6 {
            Some(piece_of_index((bits / 4096) as int))
        } else {
            None
        },
    }
}

/// Whether an entry read back for `key` reports the position as found.
pub closed spec fn entry_hit(e: Entry, key: u64) -> bool {
    key == e.hash && e.depth != UNINIT_DEPTH
}

/// Whether `Entry::set` overwrites an entry (otherwise only the move may change).
pub closed spec fn replaces(e: Entry, key: u64, depth: int, flag: int, is_pv: bool, age: int) -> bool {
    flag == FLAG_EXACT || key != e.hash || depth + 4 + 2 * (if is_pv { 1int } else { 0 }) > e.depth
        || (MAX_AGE + age - mask_age(e.mask)) % (MAX_AGE as int) >= 1
}

impl Entry {
    /// Stored fields, as seen from outside.
    pub closed spec fn hash_spec(&self) -> u64 { self.hash }
    pub closed spec fn pv_spec(&self) -> u16 { self.pv }
    pub closed spec fn depth_spec(&self) -> i8 { self.depth }
    pub closed spec fn static_spec(&self) -> i16 { self.static_score }
    pub closed spec fn score_spec(&self) -> i16 { self.score }
    pub closed spec fn flag_spec(&self) -> u8 { mask_flag(self.mask) }
    pub closed spec fn age_spec(&self) -> u8 { mask_age(self.mask) }
    pub closed spec fn is_pv_spec(&self) -> bool { mask_pv(self.mask) }

    /// A stored move always decodes to a move on the board.
    pub closed spec fn wf(&self) -> bool {
        self.pv / 4096 <= 6
    }

    /// What `get` returns for these arguments: on a hit, the stored fields with the mate
    /// distance brought back to the root; otherwise the empty value.
    pub open spec fn get_spec(&self, key: u64, ply: int, depth: int, alpha: int, beta: int) -> EntryValue {
        if key == self.hash_spec() && self.depth_spec() != UNINIT_DEPTH {
            let adjusted = if self.score_spec() != VALUE_NONE {
                score_from_tt(self.score_spec() as int, ply)
            } else {
                VALUE_NONE as int
            };
            EntryValue {
                hit: true,
                can_use: self.score_spec() != VALUE_NONE && self.depth_spec() >= depth && can_use_spec(
                    adjusted,
                    self.flag_spec() as int,
                    alpha,
                    beta,
                ),
                pv: decode_move(self.pv_spec()),
                depth: self.depth_spec(),
                static_score: self.static_spec(),
                score: adjusted as i16,
                is_pv: self.is_pv_spec(),
                flag: self.flag_spec(),
            }
        } else {
            EntryValue {
                hit: false,
                can_use: false,
                pv: Move { from: 0, to: 0, promotion: None },
                depth: UNINIT_DEPTH,
                static_score: VALUE_NONE,
                score: VALUE_NONE,
                is_pv: false,
                flag: FLAG_NONE,
            }
        }
    }

    /// The entry `set` leaves behind.
    pub closed spec fn set_spec(
        &self,
        key: u64,
        pv: Move,
        ply: int,
        depth: i8,
        flag: u8,
        score: i16,
        static_score: i16,
        is_pv: bool,
        age: u8,
    ) -> Entry {
        let pv_bits: u16 = if move_bits_spec(pv) != NULL_MOVE_BITS || key != self.hash {
            move_bits_spec(pv) as u16
        } else {
            self.pv
        };
        if replaces(*self, key, depth as int, flag as int, is_pv, age as int) {
            Entry {
                hash: key,
                pv: pv_bits,
                depth,
                static_score,
                score: if score != VALUE_NONE {
                    score_to_tt(score as int, ply) as i16
                } else {
                    score
                },
                mask: make_mask(flag, age, is_pv),
            }
        } else {
            Entry { pv: pv_bits, ..*self }
        }
    }

    /// The empty entry.
    pub closed spec fn new_spec() -> Entry {
        Entry {
            hash: 1,
            pv: NULL_MOVE_BITS,
            depth: UNINIT_DEPTH,
            static_score: VALUE_NONE,
            score: VALUE_NONE,
            mask: 0,
        }
    }

    pub fn new() -> (r: Self)
        ensures
            r == Self::new_spec(),
            r.wf(),
            r.hash_spec() == 1,
            r.pv_spec() == NULL_MOVE_BITS,
            r.depth_spec() == UNINIT_DEPTH,
            r.static_spec() == VALUE_NONE,
            r.score_spec() == VALUE_NONE,
            r.flag_spec() == FLAG_NONE,
            r.age_spec() == 0,
            !r.is_pv_spec(),
    {
        let r = Self {
            hash: 1,
            pv: NULL_MOVE_BITS,
            depth: UNINIT_DEPTH,
            static_score: VALUE_NONE,
            score: VALUE_NONE,
            mask: 0,
        };
        proof { lemma_mask_fields(0); }
        r
    }

    fn get_flag(&self) -> (r: u8)
        ensures
            r == mask_flag(self.mask),
            r <= 3,
    {
        proof { lemma_mask_fields(self.mask); }
        (self.mask >> 5) & 3
    }

    fn get_age(&self) -> (r: u8)
        ensures
            r == mask_age(self.mask),
            r < 32,
    {
        proof { lemma_mask_fields(self.mask); }
        self.mask & 31
    }

    fn get_pv(&self) -> (r: bool)
        ensures
            r == mask_pv(self.mask),
    {
        (self.mask >> 7) == 1
    }

    fn set_mask(&mut self, flag: u8, age: u8, pv: bool)
        ensures
            final(self).mask == make_mask(flag, age, pv),
            final(self).hash == old(self).hash,
            final(self).pv == old(self).pv,
            final(self).depth == old(self).depth,
            final(self).score == old(self).score,
            final(self).static_score == old(self).static_score,
    {
        let p: u8 = if pv { 1 } else { 0 };
        self.mask = age | (flag << 5) | (p << 7);
    }

    /// Reads the entry for `key` at distance `ply` from the root: mate scores are brought back
    /// to root distance, and `can_use` tells whether the stored bound settles
    /// `[alpha, beta]` at `depth`.
    pub fn get(&self, key: u64, ply: i8, depth: i8, alpha: i16, beta: i16) -> (r: EntryValue)
        requires
            self.wf(),
            self.hash_spec() == key && self.depth_spec() != UNINIT_DEPTH && self.score_spec() != VALUE_NONE
                && self.score_spec() > VALUE_CHECKMATE ==> self.score_spec() - ply <= i16::MAX,
            self.hash_spec() == key && self.depth_spec() != UNINIT_DEPTH && self.score_spec() < -VALUE_CHECKMATE
                ==> self.score_spec() + ply >= i16::MIN,
        ensures
            r == self.get_spec(key, ply as int, depth as int, alpha as int, beta as int),
    {
        if key_matches(key, self.hash) && self.depth != UNINIT_DEPTH {
            let mut adjusted_score = VALUE_NONE;
            let mut can_use = false;
            if is_valid(self.score) {
                adjusted_score = self.score;
                if adjusted_score > VALUE_CHECKMATE {
                    adjusted_score -= ply as i16;
                } else if adjusted_score < -VALUE_CHECKMATE {
                    adjusted_score += ply as i16;
                }
                if self.depth >= depth {
                    let flag = self.get_flag();
                    can_use = get_can_use(adjusted_score, flag, alpha, beta);
                }
            }
            return EntryValue {
                hit: true,
                can_use,
                pv: Move::from_bits(self.pv),
                depth: self.depth,
                static_score: self.static_score,
                score: adjusted_score,
                is_pv: self.get_pv(),
                flag: self.get_flag(),
            };
        }
        EntryValue {
            hit: false,
            can_use: false,
            pv: Move::null(),
            depth: UNINIT_DEPTH,
            static_score: VALUE_NONE,
            score: VALUE_NONE,
            is_pv: false,
            flag: FLAG_NONE,
        }
    }

    /// Stores a search result. The move is kept unless a real move is given or the key
    /// changes; the rest is overwritten for exact results, a new key, a search deep enough
    /// (depth + 4, + 2 more at pv nodes, beyond the stored depth) or an entry from an older
    /// search. Mate scores are stored relative to this node.
    pub fn set(
        &mut self,
        key: u64,
        pv: Move,
        ply: i8,
        depth: i8,
        flag: u8,
        score: i16,
        static_score: i16,
        is_pv: bool,
        age: u8,
    )
        requires
            old(self).wf(),
            move_on_board(pv),
            age <= 223,
            depth + 4 + 2 <= i8::MAX,
            score != VALUE_NONE && score > VALUE_CHECKMATE ==> score + ply <= i16::MAX,
            score != VALUE_NONE && score < -VALUE_CHECKMATE ==> score - ply >= i16::MIN,
        ensures
            final(self).wf(),
            *final(self) == old(self).set_spec(key, pv, ply as int, depth, flag, score, static_score, is_pv, age),
            final(self).pv_spec() == (if move_bits_spec(pv) != NULL_MOVE_BITS || key
                != old(self).hash_spec() {
                move_bits_spec(pv) as u16
            } else {
                old(self).pv_spec()
            }),
            replaces(*old(self), key, depth as int, flag as int, is_pv, age as int) ==> {
                &&& final(self).hash_spec() == key
                &&& final(self).depth_spec() == depth
                &&& final(self).static_spec() == static_score
                &&& final(self).score_spec() == (if score != VALUE_NONE {
                    score_to_tt(score as int, ply as int)
                } else {
                    score as int
                })
                &&& final(self).flag_spec() == mask_flag(make_mask(flag, age, is_pv))
                &&& final(self).age_spec() == mask_age(make_mask(flag, age, is_pv))
                &&& final(self).is_pv_spec() == mask_pv(make_mask(flag, age, is_pv))
            },
            !replaces(*old(self), key, depth as int, flag as int, is_pv, age as int) ==> {
                &&& final(self).hash_spec() == old(self).hash_spec()
                &&& final(self).depth_spec() == old(self).depth_spec()
                &&& final(self).static_spec() == old(self).static_spec()
                &&& final(self).score_spec() == old(self).score_spec()
                &&& final(self).flag_spec() == old(self).flag_spec()
                &&& final(self).age_spec() == old(self).age_spec()
                &&& final(self).is_pv_spec() == old(self).is_pv_spec()
            },
    {
        if pv.to_bits() != NULL_MOVE_BITS || !key_matches(key, self.hash) {
            self.pv = pv.to_bits();
        }
        let age_diff = (MAX_AGE + age - self.get_age()) % MAX_AGE;
        let pv_bonus: i8 = if is_pv { 2 } else { 0 };
        if flag == FLAG_EXACT || !key_matches(key, self.hash) || depth + 4 + pv_bonus > self.depth
            || age_diff >= 1 {
            self.hash = key;
            self.depth = depth;
            self.static_score = static_score;
            self.score = score;
            if is_valid(score) {
                self.score = if score > VALUE_CHECKMATE {
                    score + ply as i16
                } else if score < -VALUE_CHECKMATE {
                    score - ply as i16
                } else {
                    score
                };
            }
            self.set_mask(flag, age, is_pv);
        }
    }

    fn clear(&mut self)
        ensures
            *final(self) == Self::new_spec(),
            final(self).wf(),
            final(self).hash_spec() == 1,
            final(self).depth_spec() == UNINIT_DEPTH,
            final(self).pv_spec() == NULL_MOVE_BITS,
            final(self).static_spec() == VALUE_NONE,
            final(self).score_spec() == VALUE_NONE,
            final(self).flag_spec() == FLAG_NONE,
            final(self).age_spec() == 0,
            !final(self).is_pv_spec(),
    {
        self.hash = 1;
        self.depth = UNINIT_DEPTH;
        self.pv = NULL_MOVE_BITS;
        self.static_score = VALUE_NONE;
        self.score = VALUE_NONE;
        self.mask = 0;
        proof { lemma_mask_fields(0); }
    }
}

/// Replacement priority of an entry: deeper and younger entries are worth more.
pub open spec fn slot_score(e: Entry, age: int) -> int {
    e.depth_spec() - ((MAX_AGE + age - e.age_spec()) % (MAX_AGE as int))
}

/// The first of the four slots whose key matches.
pub open spec fn first_match(values: [Entry; 4], key: u64) -> Option<int> {
    if values[0].hash_spec() == key {
        Some(0)
    } else if values[1].hash_spec() == key {
        Some(1)
    } else if values[2].hash_spec() == key {
        Some(2)
    } else if values[3].hash_spec() == key {
        Some(3)
    } else {
        None
    }
}

/// The first slot of least replacement priority.
pub open spec fn least_valuable(values: [Entry; 4], age: int) -> int {
    let b1: int = if slot_score(values[1], age) < slot_score(values[0], age) { 1 } else { 0 };
    let b2: int = if slot_score(values[2], age) < slot_score(values[b1], age) { 2 } else { b1 };
    if slot_score(values[3], age) < slot_score(values[b2], age) { 3 } else { b2 }
}

/// The slot a probe for `key` lands on: the entry holding the key, or else the one to replace.
pub open spec fn probe_slot(values: [Entry; 4], key: u64, age: int) -> int {
    match first_match(values, key) {
        Some(i) => i,
        None => least_valuable(values, age),
    }
}

/// A cluster of entries that share one table index.
#[derive(Clone, Copy)]
pub struct Bucket {
    pub values: [Entry; 4],
}

impl Bucket {
    pub open spec fn wf(&self) -> bool {
        forall|i: int| 0 <= i < 4 ==> #[trigger] self.values[i].wf()
    }

    pub fn new() -> (r: Self)
        ensures
            r.wf(),
            forall|i: int| 0 <= i < 4 ==> #[trigger] r.values[i] == Entry::new_spec(),
    {
        let e = Entry::new();
        Self { values: [e, e, e, e] }
    }

    fn slot_score_exec(e: &Entry, age: u8) -> (r: i16)
        requires
            age <= 223,
        ensures
            r == slot_score(*e, age as int),
    {
        let a = e.get_age();
        let diff = (MAX_AGE + age - a) % MAX_AGE;
        e.depth as i16 - diff as i16
    }

    /// Index of the slot a probe for `key` uses.
    pub fn slot(&self, key: u64, age: u8) -> (r: usize)
        requires
            age <= 223,
        ensures
            r < 4,
            r == probe_slot(self.values, key, age as int),
    {
        let mut i: usize = 0;
        while i < 4
            invariant
                i <= 4,
                forall|j: int| 0 <= j < i ==> self.values[j].hash_spec() != key,
            decreases 4 - i,
        {
            if key_matches(key, self.values[i].hash) {
                return i;
            }
            i += 1;
        }
        let mut best_slot: usize = 0;
        let mut i: usize = 1;
        while i < 4
            invariant
                1 <= i <= 4,
                best_slot < i,
                age <= 223,
                best_slot == (if i == 1 { 0int } else if i == 2 { (if slot_score(self.values[1], age as int) < slot_score(self.values[0], age as int) { 1int } else { 0int }) } else if i == 3 {
                    let b1: int = if slot_score(self.values[1], age as int) < slot_score(self.values[0], age as int) { 1 } else { 0 };
                    if slot_score(self.values[2], age as int) < slot_score(self.values[b1], age as int) { 2 } else { b1 }
                } else { least_valuable(self.values, age as int) }),
            decreases 4 - i,
        {
            if Self::slot_score_exec(&self.values[i], age) < Self::slot_score_exec(&self.values[best_slot], age) {
                best_slot = i;
            }
            i += 1;
        }
        best_slot
    }

    /// Returns (reader, writer) for `key`: a copy of the slot and the slot itself.
    pub fn get(&mut self, key: u64, age: u8) -> (r: (Entry, &mut Entry))
        requires
            age <= 223,
        ensures
            r.0 == old(self).values[probe_slot(old(self).values, key, age as int)],
            *r.1 == old(self).values[probe_slot(old(self).values, key, age as int)],
            final(self).values@ == old(self).values@.update(
                probe_slot(old(self).values, key, age as int),
                *final(r.1),
            ),
    {
        let i = self.slot(key, age);
        let reader = self.values[i];
        (reader, &mut self.values[i])
    }

    fn clear(&mut self)
        ensures
            final(self).wf(),
            forall|i: int| 0 <= i < 4 ==> #[trigger] final(self).values[i] == Entry::new_spec(),
    {
        let mut i: usize = 0;
        while i < 4
            invariant
                i <= 4,
                forall|j: int| 0 <= j < i ==> #[trigger] self.values[j] == Entry::new_spec(),
            decreases 4 - i,
        {
            self.values[i].clear();
            i += 1;
        }
    }
}

/// Size of one bucket in bytes.
pub const BUCKET_BYTES: usize = 64;

/// Number of buckets a table of `mb` megabytes holds (at least one).
pub open spec fn table_size(mb: int) -> int {
    let n = mb * 1024 * 1024 / (BUCKET_BYTES as int);
    if n < 1 { 1 } else { n }
}

/// The bucket a key maps to: the high 64 bits of `key * size`, which spreads keys evenly.
pub open spec fn bucket_index(key: u64, size: int) -> int {
    (key as int * size) / 0x1_0000_0000_0000_0000int
}

/// The transposition table: a power-free array of buckets indexed by the key's high bits,
/// and the age of the current search.
pub struct Table {
    buckets: Vec<Bucket>,
    size: usize,
    age: u8,
}

impl Table {
    pub closed spec fn wf(&self) -> bool {
        &&& self.buckets@.len() == self.size
        &&& self.size >= 1
        &&& self.age < MAX_AGE
        &&& forall|i: int| 0 <= i < self.size ==> #[trigger] self.buckets@[i].wf()
    }

    pub closed spec fn size_spec(&self) -> int {
        self.size as int
    }

    pub closed spec fn age_spec(&self) -> u8 {
        self.age
    }

    /// Contents of the table, bucket by bucket.
    pub closed spec fn view(&self) -> Seq<Bucket> {
        self.buckets@
    }

    fn empty_buckets(size: usize) -> (r: Vec<Bucket>)
        ensures
            r@.len() == size,
            forall|i: int| 0 <= i < size ==> #[trigger] r@[i].wf() && (forall|j: int|
                0 <= j < 4 ==> #[trigger] r@[i].values[j] == Entry::new_spec()),
    {
        let mut v: Vec<Bucket> = Vec::new();
        let mut i: usize = 0;
        while i < size
            invariant
                i <= size,
                v@.len() == i,
                forall|k: int| 0 <= k < i ==> #[trigger] v@[k].wf() && (forall|j: int|
                    0 <= j < 4 ==> #[trigger] v@[k].values[j] == Entry::new_spec()),
            decreases size - i,
        {
            v.push(Bucket::new());
            i += 1;
        }
        v
    }

    /// A table of `size_in_mbytes` megabytes, every entry empty, at age 0.
    pub fn new(size_in_mbytes: usize) -> (r: Self)
        requires
            size_in_mbytes * 1024 * 1024 <= usize::MAX,
        ensures
            r.wf(),
            r.size_spec() == table_size(size_in_mbytes as int),
            r.age_spec() == 0,
            forall|i: int, j: int| 0 <= i < r.size_spec() && 0 <= j < 4 ==> #[trigger] r@[i].values[j]
                == Entry::new_spec(),
    {
        let n = size_in_mbytes * 1024 * 1024 / BUCKET_BYTES;
        let size = if n < 1 { 1 } else { n };
        let buckets = Self::empty_buckets(size);
        let r = Self { buckets, size, age: 0 };
        assert forall|i: int, j: int| 0 <= i < r.size_spec() && 0 <= j < 4 implies #[trigger] r@[i].values[j]
            == Entry::new_spec() by {
            assert(r@[i].wf());
        }
        r
    }

    /// Empties every entry and resets the age.
    pub fn clear(&mut self)
        requires
            old(self).wf(),
        ensures
            final(self).wf(),
            final(self).size_spec() == old(self).size_spec(),
            final(self).age_spec() == 0,
            forall|i: int, j: int| 0 <= i < final(self).size_spec() && 0 <= j < 4 ==> #[trigger] final(self)@[i].values[j]
                == Entry::new_spec(),
    {
        self.age = 0;
        let mut i: usize = 0;
        while i < self.size
            invariant
                i <= self.size,
                self.size == old(self).size_spec(),
                self.buckets@.len() == self.size,
                self.size >= 1,
                self.age == 0,
                forall|k: int| 0 <= k < self.size ==> #[trigger] self.buckets@[k].wf(),
                forall|k: int, j: int| 0 <= k < i && 0 <= j < 4 ==> #[trigger] self.buckets@[k].values[j]
                    == Entry::new_spec(),
            decreases self.size - i,
        {
            let mut b = self.buckets[i];
            b.clear();
            self.buckets.set(i, b);
            i += 1;
        }
    }

    /// Starts a new search: the age advances modulo `MAX_AGE`.
    pub fn next_search(&mut self)
        requires
            old(self).wf(),
        ensures
            final(self).wf(),
            final(self)@ == old(self)@,
            final(self).size_spec() == old(self).size_spec(),
            final(self).age_spec() == (old(self).age_spec() + 1) % (MAX_AGE as int),
    {
        self.age = (self.age + 1) % MAX_AGE;
    }

    /// The bucket index of `key`.
    pub fn index(&self, key: u64) -> (r: usize)
        requires
            self.wf(),
        ensures
            r == bucket_index(key, self.size_spec()),
            r < self.size_spec(),
    {
        proof {
            assert((key as int) * (self.size as int) <= u64::MAX as int * usize::MAX as int) by (nonlinear_arith)
                requires 0 <= key <= u64::MAX, 0 <= self.size <= usize::MAX;
        }
        let p: u128 = key as u128 * self.size as u128;
        let r = (p >> 64u128) as usize;
        proof {
            assert(p >> 64u128 == p / 0x1_0000_0000_0000_0000u128) by (bit_vector);
            let s = self.size as int;
            let k = key as int;
            assert(k * s < 0x1_0000_0000_0000_0000int * s) by (nonlinear_arith)
                requires 0 <= k < 0x1_0000_0000_0000_0000int, s >= 1;
            assert((k * s) / 0x1_0000_0000_0000_0000int < s) by (nonlinear_arith)
                requires 0 <= k * s < 0x1_0000_0000_0000_0000int * s, s >= 1;
        }
        r
    }

    /// Returns (reader, writer) for `key`: a copy of the slot it lands on and the slot itself.
    pub fn get(&mut self, key: u64) -> (r: (Entry, &mut Entry))
        requires
            old(self).wf(),
        ensures
            ({
                let b = bucket_index(key, old(self).size_spec());
                let s = probe_slot(old(self)@[b].values, key, old(self).age_spec() as int);
                &&& r.0 == old(self)@[b].values[s]
                &&& *r.1 == old(self)@[b].values[s]
                &&& final(self).size_spec() == old(self).size_spec()
                &&& final(self).age_spec() == old(self).age_spec()
                &&& final(self)@.len() == old(self)@.len()
                &&& forall|i: int| 0 <= i < old(self)@.len() && i != b ==> #[trigger] final(self)@[i] == old(self)@[i]
                &&& final(self)@[b].values@ == old(self)@[b].values@.update(s, *final(r.1))
            }),
    {
        let index = self.index(key);
        let age = self.age;
        let bucket: &mut Bucket = &mut self.buckets[index];
        bucket.get(key, age)
    }

    /// A hint that `key` will be probed soon; it has no effect on the table's contents.
    pub fn prefetch(&self, key: u64) {
    }

    pub fn get_age(&self) -> (r: u8)
        ensures
            r == self.age_spec(),
    {
        self.age
    }

    /// Replaces the table by an empty one of `size_in_mbytes` megabytes.
    pub fn resize(&mut self, size_in_mbytes: usize)
        requires
            size_in_mbytes * 1024 * 1024 <= usize::MAX,
        ensures
            final(self).wf(),
            final(self).size_spec() == table_size(size_in_mbytes as int),
            final(self).age_spec() == 0,
            forall|i: int, j: int| 0 <= i < final(self).size_spec() && 0 <= j < 4 ==> #[trigger] final(self)@[i].values[j]
                == Entry::new_spec(),
    {
        *self = Self::new(size_in_mbytes);
    }

    /// Per mille of the first 100 buckets' entries written in the current search.
    pub fn hashfull(&self) -> (r: i64)
        requires
            self.wf(),
            self.size_spec() >= 100,
        ensures
            r == used_count(self@, self.age_spec(), 400) * 10 / 4,
    {
        let mut count: i64 = 0;
        let mut i: usize = 0;
        while i < 100
            invariant
                i <= 100,
                self.wf(),
                self.size_spec() >= 100,
                count == used_count(self@, self.age_spec(), (i * 4) as nat),
                0 <= count <= i * 4,
            decreases 100 - i,
        {
            let mut j: usize = 0;
            while j < NUM_ENTRIES
                invariant
                    i < 100,
                    j <= 4,
                    self.wf(),
                    self.size_spec() >= 100,
                    count == used_count(self@, self.age_spec(), (i * 4 + j) as nat),
                    0 <= count <= i * 4 + j,
                decreases 4 - j,
            {
                let entry = &self.buckets[i].values[j];
                if entry.get_age() == self.age && entry.depth > UNINIT_DEPTH {
                    count += 1;
                }
                j += 1;
            }
            i += 1;
        }
        assert(count <= 400);
        count * 10 / NUM_ENTRIES as i64
    }
}

/// Whether an entry was written in the search of age `age`.
pub open spec fn entry_used(e: Entry, age: u8) -> bool {
    e.age_spec() == age && e.depth_spec() > UNINIT_DEPTH
}

/// Number of used entries among the first `n` entries, in bucket order.
pub open spec fn used_count(buckets: Seq<Bucket>, age: u8, n: nat) -> int
    decreases n,
{
    if n == 0 {
        0
    } else {
        let k = (n - 1) as int;
        used_count(buckets, age, (n - 1) as nat) + (if entry_used(buckets[k / 4].values[k % 4], age) {
            1int
        } else {
            0int
        })
    }
}

/// Reading an entry right after it was overwritten gives back what was written: the move
/// (when a real one was given or the key changed), depth, evaluation, bound kind, pv flag and
/// the score, whose mate distance is converted to the node on writing and back to the root on
/// reading; `can_use` holds when the stored depth reaches the probe depth and that score
/// settles the window.
pub proof fn lemma_entry_write_then_read(
    e: Entry,
    key: u64,
    pv: Move,
    ply: i8,
    depth: i8,
    flag: u8,
    score: i16,
    static_score: i16,
    is_pv: bool,
    age: u8,
    probe_depth: i8,
    alpha: i16,
    beta: i16,
)
    requires
        e.wf(),
        move_on_board(pv),
        replaces(e, key, depth as int, flag as int, is_pv, age as int),
        depth != UNINIT_DEPTH,
        0 <= ply,
        flag <= 3,
        age < 32,
        score != VALUE_NONE,
        i16::MIN <= score_to_tt(score as int, ply as int) <= i16::MAX,
        score_to_tt(score as int, ply as int) != VALUE_NONE,
    ensures
        ({
            let r = e.set_spec(key, pv, ply as int, depth, flag, score, static_score, is_pv, age).get_spec(
                key,
                ply as int,
                probe_depth as int,
                alpha as int,
                beta as int,
            );
            &&& r.hit
            &&& r.score == score
            &&& r.depth == depth
            &&& r.static_score == static_score
            &&& r.flag == flag
            &&& r.is_pv == is_pv
            &&& r.can_use == (depth >= probe_depth && can_use_spec(score as int, flag as int, alpha as int, beta as int))
            &&& (move_bits_spec(pv) != NULL_MOVE_BITS || key != e.hash_spec()) ==> r.pv == pv
        }),
{
    let p: u8 = if is_pv { 1 } else { 0 };
    assert(flag <= 3 && age < 32 && p <= 1 ==> ((age | (flag << 5u8) | (p << 7u8)) >> 5u8) & 3 == flag
        && (age | (flag << 5u8) | (p << 7u8)) & 31 == age
        && (((age | (flag << 5u8) | (p << 7u8)) >> 7u8) == 1) == (p == 1)) by (bit_vector);
    let bits = move_bits_spec(pv);
    assert(bits % 64 == pv.from);
    assert((bits / 64) % 64 == pv.to);
}

/// A store under a key the entry does not hold always takes the slot, whatever the depths,
/// bounds and ages: reading that key back at the same ply finds the stored move, depth,
/// evaluation, bound kind, pv flag and score.
pub proof fn lemma_new_key_takes_the_slot(
    e: Entry,
    key: u64,
    pv: Move,
    ply: i8,
    depth: i8,
    flag: u8,
    score: i16,
    static_score: i16,
    is_pv: bool,
    age: u8,
    probe_depth: i8,
    alpha: i16,
    beta: i16,
)
    requires
        e.wf(),
        key != e.hash_spec(),
        move_on_board(pv),
        depth != UNINIT_DEPTH,
        0 <= ply,
        flag <= 3,
        age < 32,
        score != VALUE_NONE,
        i16::MIN <= score_to_tt(score as int, ply as int) <= i16::MAX,
        score_to_tt(score as int, ply as int) != VALUE_NONE,
    ensures
        ({
            let r = e.set_spec(key, pv, ply as int, depth, flag, score, static_score, is_pv, age).get_spec(
                key,
                ply as int,
                probe_depth as int,
                alpha as int,
                beta as int,
            );
            &&& r.hit
            &&& r.score == score
            &&& r.depth == depth
            &&& r.static_score == static_score
            &&& r.flag == flag
            &&& r.is_pv == is_pv
            &&& r.pv == pv
        }),
{
    lemma_entry_write_then_read(e, key, pv, ply, depth, flag, score, static_score, is_pv, age, probe_depth, alpha, beta);
}

/// When a store replaces an entry: a store of an exact bound, under another key, deep enough
/// (depth + 4, + 2 more for a pv node, beyond the stored depth) or from another search (age)
/// overwrites the key, depth, evaluation and score; any other store, under the same key,
/// leaves them as they were.
pub proof fn lemma_when_a_store_replaces(
    e: Entry,
    key: u64,
    pv: Move,
    ply: i8,
    depth: i8,
    flag: u8,
    score: i16,
    static_score: i16,
    is_pv: bool,
    age: u8,
)
    requires
        age < 32,
    ensures
        ({
            let n = e.set_spec(key, pv, ply as int, depth, flag, score, static_score, is_pv, age);
            let takes = flag == FLAG_EXACT || key != e.hash_spec()
                || depth + 4 + (if is_pv { 2int } else { 0 }) > e.depth_spec() || age != e.age_spec();
            &&& takes ==> n.hash_spec() == key && n.depth_spec() == depth && n.static_spec() == static_score
            &&& !takes ==> n.hash_spec() == e.hash_spec() && n.depth_spec() == e.depth_spec()
                && n.static_spec() == e.static_spec() && n.score_spec() == e.score_spec()
                && n.flag_spec() == e.flag_spec() && n.age_spec() == e.age_spec()
        }),
{
    let a = mask_age(e.mask) as int;
    lemma_mask_fields(e.mask);
    assert(0 <= a < 32);
    assert(((MAX_AGE as int) + age - a) % (MAX_AGE as int) >= 1 <==> age as int != a);
}

} // verus!
