//! Upcoming-repetition detection: a cuckoo table of the Zobrist keys of every reversible
//! piece move, and the check whether the side to move can return to a position on the stack.

use vstd::prelude::*;
use crate::chess::{Color, Piece, Move, bb_has, sq_bb, null_move_spec, move_on_board};
use crate::position::Position;
use crate::stack::KeyStack;
use crate::zobrist::{zkey, zobrist_pst, BLACK_TO_MOVE_KEY};
use crate::attacks::{
    knight_attacks, king_attacks, bishop_attacks, rook_attacks, between_rays, get_knight_moves,
    get_king_moves, get_bishop_moves, get_rook_moves, get_between_rays,
};

verus! {

/// Number of slots of the table.
pub const CUCKOO_SIZE: usize = 8192;

/// Number of reversible piece moves: each piece kind but pawns, each color, each pair of
/// squares it can move between on an empty board.
pub const CUCKOO_MOVES: usize = 3668;

pub open spec fn h1_spec(key: u64) -> int {
    (key & 0x1fff) as int
}

pub open spec fn h2_spec(key: u64) -> int {
    ((key >> 16) & 0x1fff) as int
}

/// Both slots of a key lie in the table.
proof fn lemma_slots(key: u64)
    ensures
        key & 0x1fff < 8192,
        (key >> 16) & 0x1fff < 8192,
{
    assert(key & 0x1fff < 8192 && (key >> 16) & 0x1fff < 8192) by (bit_vector);
}

/// First slot of a key: its low 13 bits.
pub fn h1(key: u64) -> (r: usize)
    ensures
        r == h1_spec(key),
        r < 8192,
{
    proof { lemma_slots(key); }
    (key & 0x1fff) as usize
}

/// Second slot of a key: bits 16 to 28.
pub fn h2(key: u64) -> (r: usize)
    ensures
        r == h2_spec(key),
        r < 8192,
{
    proof { lemma_slots(key); }
    ((key >> 16) & 0x1fff) as usize
}

/// The squares a piece reaches in one move from `sq` on an empty board.
pub open spec fn empty_board_moves(piece: Piece, sq: u8) -> u64 {
    match piece {
        Piece::Knight => knight_attacks(sq),
        Piece::Bishop => bishop_attacks(sq, 0),
        Piece::Rook => rook_attacks(sq, 0),
        Piece::Queen => bishop_attacks(sq, 0) | rook_attacks(sq, 0),
        Piece::King => king_attacks(sq),
        Piece::Pawn => 0,
    }
}

/// The change of the position's key when `color`'s `piece` moves between `s1` and `s2`.
pub open spec fn move_key(color: Color, piece: Piece, s1: int, s2: int) -> u64 {
    zkey(color, piece, s1) ^ zkey(color, piece, s2) ^ BLACK_TO_MOVE_KEY
}

/// Keys of reversible moves, and the moves, in two parallel tables.
pub struct Cuckoo {
    pub keys: Vec<u64>,
    pub moves: Vec<Move>,
}

/// The table holds move `m` under `key`, in one of the key's two slots.
pub open spec fn holds(c: Cuckoo, key: u64, m: Move) -> bool {
    exists|k: int| 0 <= k < CUCKOO_SIZE && (k == h1_spec(key) || k == h2_spec(key)) && #[trigger] c.keys@[k] == key
        && c.moves@[k] == m
}

/// The piece kinds the table is built for, in order.
pub open spec fn table_piece(pi: int) -> Piece {
    if pi == 0 {
        Piece::Knight
    } else if pi == 1 {
        Piece::Bishop
    } else if pi == 2 {
        Piece::Rook
    } else if pi == 3 {
        Piece::Queen
    } else {
        Piece::King
    }
}

pub open spec fn table_color(ci: int) -> Color {
    if ci == 0 { Color::White } else { Color::Black }
}

/// A reversible move: a piece that is not a pawn between two squares one move apart on an
/// empty board, the lower square first.
pub open spec fn reversible(piece: Piece, s1: int, s2: int) -> bool {
    0 <= s1 < s2 < 64 && bb_has(empty_board_moves(piece, s1 as u8), s2)
}

/// Reversible moves of `piece` from `s1` to a square below `n`.
pub open spec fn row_count(piece: Piece, s1: int, n: nat) -> nat
    decreases n,
{
    if n == 0 {
        0
    } else {
        row_count(piece, s1, (n - 1) as nat) + (if reversible(piece, s1, n - 1) { 1nat } else { 0nat })
    }
}

/// Reversible moves of `piece` from a square below `k`.
pub open spec fn piece_count(piece: Piece, k: nat) -> nat
    decreases k,
{
    if k == 0 {
        0
    } else {
        piece_count(piece, (k - 1) as nat) + row_count(piece, k - 1, 64)
    }
}

/// Reversible moves, of either color, of the first `pi` piece kinds of the table.
pub open spec fn table_count(pi: nat) -> nat
    decreases pi,
{
    if pi == 0 {
        0
    } else {
        table_count((pi - 1) as nat) + 2 * piece_count(table_piece(pi - 1), 64)
    }
}

proof fn lemma_row_count_start(piece: Piece, s1: int, n: nat)
    requires
        n <= s1 + 1,
    ensures
        row_count(piece, s1, n) == 0,
    decreases n,
{
    if n > 0 {
        lemma_row_count_start(piece, s1, (n - 1) as nat);
    }
}

/// The entry of the move of `color`'s `piece` between `s1` and `s2`.
pub open spec fn entry_move(s1: int, s2: int) -> Move {
    Move { from: s1 as u8, to: s2 as u8, promotion: None }
}

/// `(p, c, a, b)` comes before `(pi, ci, s1, s2)` in the order the table is built.
pub open spec fn built_before(p: int, c: int, a: int, b: int, pi: int, ci: int, s1: int, s2: int) -> bool {
    p < pi || (p == pi && (c < ci || (c == ci && (a < s1 || (a == s1 && b < s2)))))
}

/// The table holds every reversible move of either color, under the change of key it makes.
pub open spec fn holds_every_reversible_move(c: Cuckoo) -> bool {
    forall|p: int, col: int, a: int, b: int|
        0 <= p < 5 && 0 <= col < 2 && reversible(table_piece(p), a, b) ==> #[trigger] holds(
            c,
            move_key(table_color(col), table_piece(p), a, b),
            entry_move(a, b),
        )
}

/// Every reversible move built before `(pi, ci, s1, s2)` is held.
pub open spec fn holds_before(c: Cuckoo, pi: int, ci: int, s1: int, s2: int) -> bool {
    forall|p: int, col: int, a: int, b: int|
        0 <= p < 5 && 0 <= col < 2 && #[trigger] built_before(p, col, a, b, pi, ci, s1, s2) && reversible(table_piece(p), a, b)
            ==> holds(c, move_key(table_color(col), table_piece(p), a, b), entry_move(a, b))
}

impl Cuckoo {
    /// Table sizes, and every move stored in one of its key's two slots.
    pub open spec fn wf(&self) -> bool {
        &&& self.keys@.len() == CUCKOO_SIZE
        &&& self.moves@.len() == CUCKOO_SIZE
        &&& forall|k: int| 0 <= k < CUCKOO_SIZE && #[trigger] self.moves@[k] != null_move_spec()
            ==> k == h1_spec(self.keys@[k]) || k == h2_spec(self.keys@[k])
        &&& forall|k: int| 0 <= k < CUCKOO_SIZE ==> move_on_board(#[trigger] self.moves@[k])
    }

    /// Stores a move under its key, moving the entry in the way to its other slot, and so on.
    /// Gives up (`false`) after as many steps as the table has slots.
    fn insert(&mut self, new_key: u64, new_m: Move) -> (ok: bool)
        requires
            old(self).wf(),
            move_on_board(new_m),
            new_m != null_move_spec(),
        ensures
            final(self).wf(),
            ok ==> holds(*final(self), new_key, new_m),
            ok ==> forall|k2: u64, m2: Move| #[trigger] holds(*old(self), k2, m2) && m2 != null_move_spec() ==> holds(*final(self), k2, m2),
    {
        let ghost k0 = new_key;
        let ghost m0 = new_m;
        let mut key = new_key;
        let mut m = new_m;
        let mut slot = h1(key);
        let mut steps: usize = 0;
        loop
            invariant
                self.wf(),
                slot < CUCKOO_SIZE,
                slot == h1_spec(key) || slot == h2_spec(key),
                move_on_board(m),
                m != null_move_spec(),
                steps <= CUCKOO_SIZE,
                k0 == new_key,
                m0 == new_m,
                m0 != null_move_spec(),
                holds(*self, k0, m0) || (key == k0 && m == m0),
                forall|k2: u64, m2: Move| #[trigger] holds(*old(self), k2, m2) ==> holds(*self, k2, m2) || (key == k2 && m == m2),
            decreases CUCKOO_SIZE - steps,
        {
            let ghost prev = *self;
            let ghost hand_key = key;
            let ghost hand_m = m;
            let tmp_key = self.keys[slot];
            let tmp_m = self.moves[slot];
            self.keys.set(slot, key);
            self.moves.set(slot, m);
            key = tmp_key;
            m = tmp_m;
            proof {
                assert(self.keys@[slot as int] == hand_key && self.moves@[slot as int] == hand_m);
                assert(holds(*self, hand_key, hand_m));
                assert forall|k2: u64, m2: Move| holds(prev, k2, m2) implies #[trigger] holds(*self, k2, m2) || (key == k2 && m == m2) by {
                    let k = choose|k: int| 0 <= k < CUCKOO_SIZE && (k == h1_spec(k2) || k == h2_spec(k2)) && #[trigger] prev.keys@[k] == k2
                        && prev.moves@[k] == m2;
                    if k != slot {
                        assert(self.keys@[k] == k2);
                    }
                }
                assert forall|k2: u64, m2: Move| #[trigger] holds(*old(self), k2, m2) implies holds(*self, k2, m2) || (key == k2 && m == m2) by {
                    if holds(prev, k2, m2) {
                        assert(holds(prev, k2, m2));
                    }
                }
                if holds(prev, k0, m0) {
                    assert(holds(prev, k0, m0));
                }
            }
            if m.is_null() {
                proof {
                    assert(m == null_move_spec());
                    assert(m0 != null_move_spec());
                    assert(holds(*self, k0, m0) || (key == k0 && m == m0));
                    assert(holds(*self, k0, m0));
                    assert forall|k2: u64, m2: Move| #[trigger] holds(*old(self), k2, m2) && m2 != null_move_spec() implies holds(*self, k2, m2) by {
                        assert(holds(*self, k2, m2) || (key == k2 && m == m2));
                    }
                }
                return true;
            }
            slot = if slot == h1(key) { h2(key) } else { h1(key) };
            if steps == CUCKOO_SIZE {
                return false;
            }
            steps += 1;
        }
    }

    /// Builds the table of every reversible move: knights, bishops, rooks, queens and kings of
    /// either color, moving between two squares one move apart on an empty board. `None` when
    /// a chain of displacements runs too long or the number of moves is not `CUCKOO_MOVES`.
    pub fn init() -> (r: Option<Cuckoo>)
        ensures
            r matches Some(c) ==> c.wf() && holds_every_reversible_move(c),
            r is Some ==> table_count(5) == CUCKOO_MOVES,
    {
        let mut table = Cuckoo { keys: Vec::new(), moves: Vec::new() };
        let mut k: usize = 0;
        while k < CUCKOO_SIZE
            invariant
                k <= CUCKOO_SIZE,
                table.keys@.len() == k,
                table.moves@.len() == k,
                forall|j: int| 0 <= j < k ==> #[trigger] table.moves@[j] == null_move_spec(),
            decreases CUCKOO_SIZE - k,
        {
            table.keys.push(0);
            table.moves.push(Move::null());
            k += 1;
        }
        let pieces = [Piece::Knight, Piece::Bishop, Piece::Rook, Piece::Queen, Piece::King];
        let colors = [Color::White, Color::Black];
        let mut count: usize = 0;
        let mut ok = true;
        let mut pi: usize = 0;
        while pi < 5
            invariant
                table.wf(),
                pi <= 5,
                count <= pi * 2 * 64 * 64,
                count == table_count(pi as nat),
                pieces == [Piece::Knight, Piece::Bishop, Piece::Rook, Piece::Queen, Piece::King],
                colors == [Color::White, Color::Black],
                ok ==> holds_before(table, pi as int, 0, 0, 0),
            decreases 5 - pi,
        {
            let piece = pieces[pi];
            let mut ci: usize = 0;
            while ci < 2
                invariant
                    table.wf(),
                    pi < 5,
                    ci <= 2,
                    count <= pi * 2 * 64 * 64 + ci * 64 * 64,
                    count == table_count(pi as nat) + ci * piece_count(piece, 64),
                    piece == table_piece(pi as int),
                    colors == [Color::White, Color::Black],
                    ok ==> holds_before(table, pi as int, ci as int, 0, 0),
                decreases 2 - ci,
            {
                let color = colors[ci];
                let mut s1: u8 = 0;
                while s1 < 64
                    invariant
                        table.wf(),
                        pi < 5,
                        ci < 2,
                        s1 <= 64,
                        count <= pi * 2 * 64 * 64 + ci * 64 * 64 + s1 * 64,
                        count == table_count(pi as nat) + ci * piece_count(piece, 64) + piece_count(piece, s1 as nat),
                        piece == table_piece(pi as int),
                        color == table_color(ci as int),
                        ok ==> holds_before(table, pi as int, ci as int, s1 as int, 0),
                    decreases 64 - s1,
                {
                    let attacks = match piece {
                        Piece::Knight => get_knight_moves(s1),
                        Piece::Bishop => get_bishop_moves(s1, 0),
                        Piece::Rook => get_rook_moves(s1, 0),
                        Piece::Queen => get_bishop_moves(s1, 0) | get_rook_moves(s1, 0),
                        Piece::King => get_king_moves(s1),
                        Piece::Pawn => 0,
                    };
                    assert(attacks == empty_board_moves(piece, s1));
                    proof {
                        if ok {
                            assert forall|p: int, col: int, a: int, b: int|
                                0 <= p < 5 && 0 <= col < 2 && #[trigger] built_before(p, col, a, b, pi as int, ci as int, s1 as int, s1 + 1)
                                    && reversible(table_piece(p), a, b) implies holds(table, move_key(table_color(col), table_piece(p), a, b),
                                    entry_move(a, b)) by {
                                assert(built_before(p, col, a, b, pi as int, ci as int, s1 as int, 0));
                            }
                        }
                    }
                    proof { lemma_row_count_start(piece, s1 as int, (s1 + 1) as nat); }
                    let mut s2: u8 = s1 + 1;
                    while s2 < 64
                        invariant
                            table.wf(),
                            pi < 5,
                            ci < 2,
                            s1 < 64,
                            s1 < s2 <= 64,
                            count <= pi * 2 * 64 * 64 + ci * 64 * 64 + s1 * 64 + s2,
                            count == table_count(pi as nat) + ci * piece_count(piece, 64) + piece_count(piece, s1 as nat)
                                + row_count(piece, s1 as int, s2 as nat),
                            piece == table_piece(pi as int),
                            color == table_color(ci as int),
                            attacks == empty_board_moves(piece, s1),
                            ok ==> holds_before(table, pi as int, ci as int, s1 as int, s2 as int),
                        decreases 64 - s2,
                    {
                        let ghost prev = table;
                        if attacks & (1u64 << s2) != 0 {
                            let m = Move { from: s1, to: s2, promotion: None };
                            let key = zobrist_pst(color, piece, s1) ^ zobrist_pst(color, piece, s2) ^ BLACK_TO_MOVE_KEY;
                            assert(key == move_key(color, piece, s1 as int, s2 as int));
                            let inserted = table.insert(key, m);
                            if !inserted {
                                ok = false;
                            }
                            proof {
                                if ok {
                                    assert forall|p: int, col: int, a: int, b: int|
                                        0 <= p < 5 && 0 <= col < 2 && #[trigger] built_before(p, col, a, b, pi as int, ci as int, s1 as int, s2 + 1)
                                            && reversible(table_piece(p), a, b) implies holds(table, move_key(table_color(col), table_piece(p), a, b),
                                            entry_move(a, b)) by {
                                        if built_before(p, col, a, b, pi as int, ci as int, s1 as int, s2 as int) {
                                            assert(holds(prev, move_key(table_color(col), table_piece(p), a, b), entry_move(a, b)));
                                        } else {
                                            assert(p == pi && col == ci && a == s1 && b == s2);
                                            assert(entry_move(a, b) == m);
                                        }
                                    }
                                }
                            }
                            count += 1;
                        } else {
                            proof {
                                if ok {
                                    assert forall|p: int, col: int, a: int, b: int|
                                        0 <= p < 5 && 0 <= col < 2 && #[trigger] built_before(p, col, a, b, pi as int, ci as int, s1 as int, s2 + 1)
                                            && reversible(table_piece(p), a, b) implies holds(table, move_key(table_color(col), table_piece(p), a, b),
                                            entry_move(a, b)) by {
                                        if built_before(p, col, a, b, pi as int, ci as int, s1 as int, s2 as int) {
                                        } else {
                                            assert(p == pi && col == ci && a == s1 && b == s2);
                                        }
                                    }
                                }
                            }
                        }
                        s2 += 1;
                    }
                    proof {
                        if ok {
                            assert forall|p: int, col: int, a: int, b: int|
                                0 <= p < 5 && 0 <= col < 2 && #[trigger] built_before(p, col, a, b, pi as int, ci as int, s1 + 1, 0)
                                    && reversible(table_piece(p), a, b) implies holds(table, move_key(table_color(col), table_piece(p), a, b),
                                    entry_move(a, b)) by {
                                assert(built_before(p, col, a, b, pi as int, ci as int, s1 as int, 64));
                            }
                        }
                    }
                    s1 += 1;
                }
                proof {
                    assert(ci * piece_count(piece, 64) + piece_count(piece, 64) == (ci + 1) * piece_count(piece, 64))
                        by (nonlinear_arith);
                    if ok {
                        assert forall|p: int, col: int, a: int, b: int|
                            0 <= p < 5 && 0 <= col < 2 && #[trigger] built_before(p, col, a, b, pi as int, ci + 1, 0, 0)
                                && reversible(table_piece(p), a, b) implies holds(table, move_key(table_color(col), table_piece(p), a, b),
                                entry_move(a, b)) by {
                            assert(built_before(p, col, a, b, pi as int, ci as int, 64, 0));
                        }
                    }
                }
                ci += 1;
            }
            proof {
                if ok {
                    assert forall|p: int, col: int, a: int, b: int|
                        0 <= p < 5 && 0 <= col < 2 && #[trigger] built_before(p, col, a, b, pi + 1, 0, 0, 0)
                            && reversible(table_piece(p), a, b) implies holds(table, move_key(table_color(col), table_piece(p), a, b),
                            entry_move(a, b)) by {
                        assert(built_before(p, col, a, b, pi as int, 2, 0, 0));
                    }
                }
            }
            pi += 1;
        }
        if ok && count == CUCKOO_MOVES {
            proof {
                assert forall|p: int, col: int, a: int, b: int|
                    0 <= p < 5 && 0 <= col < 2 && reversible(table_piece(p), a, b) implies #[trigger] holds(
                        table,
                        move_key(table_color(col), table_piece(p), a, b),
                        entry_move(a, b),
                    ) by {
                    assert(built_before(p, col, a, b, 5, 0, 0, 0));
                }
            }
            Some(table)
        } else {
            None
        }
    }
}

// ---------------------------------------------------------------------------------------------
// upcoming repetitions

/// The slot where the table keeps `key`, if it does.
pub open spec fn find_slot(c: Cuckoo, key: u64) -> int {
    if c.keys@[h1_spec(key)] == key {
        h1_spec(key)
    } else if c.keys@[h2_spec(key)] == key {
        h2_spec(key)
    } else {
        -1
    }
}

/// Whether the position `i` plies back (`i` odd) can be reached again by one reversible move
/// of the side to move, and counts: within the search line (`ply > i`), or repeated itself
/// further back on the stack.
pub open spec fn upcoming_at(c: Cuckoo, pos: Position, keys: [u64; 174], head: int, ply: i8, max_dist: int, i: int) -> bool {
    let mk = pos.correct_hash_spec() ^ keys[head - i];
    let slot = find_slot(c, mk);
    if slot < 0 {
        false
    } else {
        let m = c.moves@[slot];
        let stm = Some(pos.side_to_move);
        let from_to: Option<(u8, u8)> = if pos.color_on_spec(m.from as int) == stm {
            Some((m.from, m.to))
        } else if pos.color_on_spec(m.to as int) == stm {
            Some((m.to, m.from))
        } else {
            None
        };
        match from_to {
            None => false,
            Some((from, to)) => {
                &&& (between_rays(from, to) | sq_bb(to as int)) & pos.occupied_spec() == 0
                &&& (ply > (i as i8) || exists|j: int| i + 4 <= j <= max_dist && (j - i) % 2 == 0 && #[trigger] keys[head - j] == keys[head - i])
            }
        }
    }
}

/// How far back the stack counts: the fifty-move counter, at most the stack's height.
pub open spec fn rep_dist(pos: Position, stack: KeyStack) -> int {
    if (pos.halfmove_clock as int) < stack.head { pos.halfmove_clock as int } else { stack.head as int }
}

/// Whether the key `i` plies back repeats further back, at an even distance of at least four.
fn repeats_further(stack: &KeyStack, i: usize, max_dist: usize) -> (r: bool)
    requires
        stack.wf(),
        3 <= i <= max_dist <= stack.head,
    ensures
        r == (exists|j: int| i + 4 <= j <= max_dist && (j - i) % 2 == 0
            && #[trigger] stack.keys[stack.head - j] == stack.keys[stack.head - i]),
{
    let head = stack.head;
    let mut j = i + 4;
    while j <= max_dist
        invariant
            i + 4 <= j,
            (j - i) % 2 == 0,
            3 <= i <= max_dist,
            max_dist <= head,
            head == stack.head,
            head <= 174,
            forall|k: int| i + 4 <= k < j && (k - i) % 2 == 0 ==> #[trigger] stack.keys[head - k] != stack.keys[head - i],
        decreases max_dist + 2 - j,
    {
        if stack.keys[head - j] == stack.keys[head - i] {
            return true;
        }
        j += 2;
    }
    false
}

/// `upcoming_at` for one distance `i`.
fn upcoming_check(pos: &Position, stack: &KeyStack, ply: i8, table: &Cuckoo, i: usize, max_dist: usize, pos_hash: u64, occ: u64) -> (r: bool)
    requires
        pos.wf(),
        stack.wf(),
        table.wf(),
        3 <= i <= max_dist,
        max_dist as int == rep_dist(*pos, *stack),
        pos_hash == pos.correct_hash_spec(),
        occ == pos.occupied_spec(),
    ensures
        r == upcoming_at(*table, *pos, stack.keys, stack.head as int, ply, max_dist as int, i as int),
{
    let head = stack.head;
    let mk = pos_hash ^ stack.keys[head - i];
    let mut slot = h1(mk);
    if table.keys[slot] != mk {
        slot = h2(mk);
    }
    if table.keys[slot] != mk {
        return false;
    }
    let m = table.moves[slot];
    let stm = pos.side_to_move;
    assert(find_slot(*table, mk) == slot);
    assert(move_on_board(table.moves@[slot as int]));
    let from_to: Option<(u8, u8)> = if pos.color_on(m.from) == Some(stm) {
        Some((m.from, m.to))
    } else if pos.color_on(m.to) == Some(stm) {
        Some((m.to, m.from))
    } else {
        None
    };
    match from_to {
        Some((from, to)) => {
            if (get_between_rays(from, to) | (1u64 << to)) & occ != 0 {
                return false;
            }
            if ply > (i as i8) {
                return true;
            }
            repeats_further(stack, i, max_dist)
        },
        None => false,
    }
}

/// Whether the side to move can reach, by one reversible move, a position that would count as
/// a repetition: the test walks the positions an odd number of plies back, within reach of
/// the fifty-move counter, looking for one whose key differs from the current one by the key
/// of a reversible move the side to move can make now.
pub fn is_upcoming_rep(pos: &Position, stack: &KeyStack, ply: i8, table: &Cuckoo) -> (r: bool)
    requires
        pos.wf(),
        stack.wf(),
        table.wf(),
    ensures
        r == (exists|i: int| 3 <= i <= rep_dist(*pos, *stack) && (i - 3) % 2 == 0
            && #[trigger] upcoming_at(*table, *pos, stack.keys, stack.head as int, ply, rep_dist(*pos, *stack), i)),
{
    let occ = pos.occupied();
    let max_dist: usize = if (pos.halfmove_clock as usize) < stack.head { pos.halfmove_clock as usize } else { stack.head };
    let pos_hash = pos.correct_hash();
    let ghost md = max_dist as int;
    let mut i: usize = 3;
    while i <= max_dist
        invariant
            3 <= i,
            (i - 3) % 2 == 0,
            max_dist <= stack.head,
            md == max_dist,
            md == rep_dist(*pos, *stack),
            occ == pos.occupied_spec(),
            pos_hash == pos.correct_hash_spec(),
            table.wf(),
            pos.wf(),
            stack.wf(),
            forall|j: int| 3 <= j < i && (j - 3) % 2 == 0 ==> !#[trigger] upcoming_at(*table, *pos, stack.keys, stack.head as int, ply, md, j),
        decreases max_dist + 2 - i,
    {
        if upcoming_check(pos, stack, ply, table, i, max_dist, pos_hash, occ) {
            return true;
        }
        i += 2;
    }
    false
}

proof fn lemma_path_bits(between: u64, to: u64, c0: u64, c1: u64)
    ensures
        ((between | (1u64 << to)) & (c0 | c1) == 0) == (between & (c0 | c1) == 0 && (c0 | c1) & (1u64 << to) == 0),
        ((c0 | c1) & (1u64 << to) == 0) == (c0 & (1u64 << to) == 0 && c1 & (1u64 << to) == 0),
{
    assert(((between | (1u64 << to)) & (c0 | c1) == 0) == (between & (c0 | c1) == 0 && (c0 | c1) & (1u64 << to) == 0)
        && ((c0 | c1) & (1u64 << to) == 0) == (c0 & (1u64 << to) == 0 && c1 & (1u64 << to) == 0)) by (bit_vector);
}

/// Upcoming repetitions do not depend on which way round the table stores a move. When the
/// key `i` plies back (inside the search line) differs from the current key by the key of a
/// stored move between two squares, the side to move has a piece on either of them, the other
/// one is empty and nothing stands between them, the piece can go back and an upcoming
/// repetition is reported.
pub proof fn lemma_upcoming_either_way(table: Cuckoo, pos: Position, stack: KeyStack, ply: i8, i: int)
    requires
        table.wf(),
        pos.wf(),
        stack.wf(),
        3 <= i <= rep_dist(pos, stack),
        (i - 3) % 2 == 0,
        ply as int > i,
        ({
            let key = pos.correct_hash_spec() ^ stack.keys[stack.head - i];
            let slot = find_slot(table, key);
            let m = table.moves@[slot];
            let occ = pos.occupied_spec();
            let stm = Some(pos.side_to_move);
            &&& slot >= 0
            &&& (pos.color_on_spec(m.from as int) == stm && !bb_has(occ, m.to as int))
                || (pos.color_on_spec(m.to as int) == stm && !bb_has(occ, m.from as int))
            &&& between_rays(m.from, m.to) & occ == 0
            &&& between_rays(m.to, m.from) & occ == 0
        }),
    ensures
        exists|j: int| 3 <= j <= rep_dist(pos, stack) && (j - 3) % 2 == 0
            && #[trigger] upcoming_at(table, pos, stack.keys, stack.head as int, ply, rep_dist(pos, stack), j),
{
    let key = pos.correct_hash_spec() ^ stack.keys[stack.head - i];
    let slot = find_slot(table, key);
    let m = table.moves@[slot];
    let occ = pos.occupied_spec();
    lemma_slots(key);
    assert(0 <= slot < CUCKOO_SIZE);
    assert(move_on_board(table.moves@[slot]));
    lemma_path_bits(between_rays(m.from, m.to), m.to as u64, pos.colors[0], pos.colors[1]);
    lemma_path_bits(between_rays(m.to, m.from), m.from as u64, pos.colors[0], pos.colors[1]);
    assert(i < 127);
    assert(ply > (i as i8));
    let stm = Some(pos.side_to_move);
    let from_to: Option<(u8, u8)> = if pos.color_on_spec(m.from as int) == stm {
        Some((m.from, m.to))
    } else if pos.color_on_spec(m.to as int) == stm {
        Some((m.to, m.from))
    } else {
        None
    };
    match from_to {
        Some((f, t)) => {
            assert((between_rays(f, t) | sq_bb(t as int)) & occ == 0);
        },
        None => {},
    }
    assert(upcoming_at(table, pos, stack.keys, stack.head as int, ply, rep_dist(pos, stack), i));
}

/// Only a move the side to move can make now counts: when an upcoming repetition is found
/// `i` plies back, the table holds a move under the difference of the two keys, a piece of
/// the side to move stands on one of its squares, the other square and the squares between
/// are empty, and the position lies inside the search line or repeats further back.
pub proof fn lemma_upcoming_needs_a_move(table: Cuckoo, pos: Position, stack: KeyStack, ply: i8, i: int)
    requires
        table.wf(),
        pos.wf(),
        stack.wf(),
        3 <= i <= rep_dist(pos, stack),
        upcoming_at(table, pos, stack.keys, stack.head as int, ply, rep_dist(pos, stack), i),
    ensures
        ({
            let key = pos.correct_hash_spec() ^ stack.keys[stack.head - i];
            let slot = find_slot(table, key);
            let m = table.moves@[slot];
            let occ = pos.occupied_spec();
            let stm = Some(pos.side_to_move);
            &&& 0 <= slot < CUCKOO_SIZE
            &&& table.keys@[slot] == key
            &&& (pos.color_on_spec(m.from as int) == stm && !bb_has(occ, m.to as int) && between_rays(m.from, m.to) & occ == 0)
                || (pos.color_on_spec(m.to as int) == stm && !bb_has(occ, m.from as int) && between_rays(m.to, m.from) & occ == 0)
            &&& (ply > (i as i8) || exists|j: int| i + 4 <= j <= rep_dist(pos, stack) && (j - i) % 2 == 0
                && #[trigger] stack.keys[stack.head - j] == stack.keys[stack.head - i])
        }),
{
    let key = pos.correct_hash_spec() ^ stack.keys[stack.head - i];
    let slot = find_slot(table, key);
    let m = table.moves@[slot];
    lemma_slots(key);
    lemma_path_bits(between_rays(m.from, m.to), m.to as u64, pos.colors[0], pos.colors[1]);
    lemma_path_bits(between_rays(m.to, m.from), m.from as u64, pos.colors[0], pos.colors[1]);
}

} // verus!
