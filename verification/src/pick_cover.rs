//! The move picker lists every legal move: its captures and quiet moves, taken together,
//! are the moves the generator reports for the whole position.

use vstd::prelude::*;
use vstd::multiset::Multiset;
use crate::chess::{Color, Piece, Move, bb_has, rank_of};
use crate::position::Position;
use crate::movegen::{PieceMoves, fan, entry_moves, report_moves, generator_promos, entries_in, full_report_ok,
    mailbox_spec, pawn_step, report_of, legal_moves_spec, capped, report_split, split_ok};
use crate::movepick::{gen_entry, gen_list, gen_report, capture_promos, quiet_promos, capture_targets, promotion_pawns,
    promotion_rank, opp_of, capture_moves, quiet_moves, caps_listed, quiets_listed, pv_once, reports_ok, Movepick};
use crate::chess::{piece_of_index, color_index};
use crate::position::{piece_at, color_at};

verus! {

/// Bits of an intersection, of a complement and of the two promotion ranks.
proof fn lemma_mask_bits(a: u64, b: u64, c: u64, s: int)
    requires
        0 <= s < 64,
    ensures
        bb_has(a & b, s) == (bb_has(a, s) && bb_has(b, s)),
        bb_has(a & !b, s) == (bb_has(a, s) && !bb_has(b, s)),
        bb_has(!b, s) == !bb_has(b, s),
        bb_has(a & b & c, s) == (bb_has(a, s) && bb_has(b, s) && bb_has(c, s)),
{
    let u = s as u64;
    assert(u < 64 ==> (((a & b) & (1u64 << u) != 0) == ((a & (1u64 << u) != 0) && (b & (1u64 << u) != 0)))
        && (((a & !b) & (1u64 << u) != 0) == ((a & (1u64 << u) != 0) && !(b & (1u64 << u) != 0)))
        && ((!b & (1u64 << u) != 0) == !(b & (1u64 << u) != 0))
        && (((a & b & c) & (1u64 << u) != 0) == ((a & (1u64 << u) != 0) && (b & (1u64 << u) != 0)
        && (c & (1u64 << u) != 0)))) by (bit_vector);
}

/// The squares of the two promotion-start ranks.
proof fn lemma_rank_bits(s: int)
    requires
        0 <= s < 64,
    ensures
        bb_has(0x00FF_0000_0000_0000u64, s) == (rank_of(s) == 6),
        bb_has(0xFF00u64, s) == (rank_of(s) == 1),
{
    let u = s as u64;
    assert(u < 64 ==> ((0x00FF_0000_0000_0000u64 & (1u64 << u) != 0) == (u / 8 == 6))
        && ((0xFF00u64 & (1u64 << u) != 0) == (u / 8 == 1))) by (bit_vector);
}

/// Splitting a fan's targets by a mask splits its moves.
proof fn lemma_fan_split(from: u8, bb: u64, m: u64, n: nat, promos: Seq<Option<Piece>>)
    requires
        n <= 64,
    ensures
        (fan(from, bb & m, n, promos) + fan(from, bb & !m, n, promos)).to_multiset()
            == fan(from, bb, n, promos).to_multiset(),
    decreases n,
{
    broadcast use vstd::multiset::group_multiset_axioms;
    broadcast use vstd::seq_lib::lemma_multiset_commutative;
    if n > 0 {
        let k = (n - 1) as nat;
        lemma_fan_split(from, bb, m, k, promos);
        lemma_mask_bits(bb, m, 0, k as int);
        let a = fan(from, bb & m, k, promos);
        let b = fan(from, bb & !m, k, promos);
        let f = fan(from, bb, k, promos);
        let g = promos.map_values(|p: Option<Piece>| Move { from, to: k as u8, promotion: p });
        let e = Seq::<Move>::empty();
        if bb_has(bb, k as int) {
            if bb_has(m, k as int) {
                assert(fan(from, bb & m, n, promos) == a + g);
                assert(fan(from, bb & !m, n, promos) == b + e);
            } else {
                assert(fan(from, bb & m, n, promos) == a + e);
                assert(fan(from, bb & !m, n, promos) == b + g);
            }
            assert(fan(from, bb, n, promos) == f + g);
        } else {
            assert(fan(from, bb & m, n, promos) == a + e);
            assert(fan(from, bb & !m, n, promos) == b + e);
            assert(fan(from, bb, n, promos) == f + e);
        }
        vstd::seq_lib::to_multiset_len(e);
        vstd::multiset::lemma_multiset_empty_len(e.to_multiset());
        assert((fan(from, bb & m, n, promos) + fan(from, bb & !m, n, promos)).to_multiset()
            =~= fan(from, bb, n, promos).to_multiset());
    }
}

/// A fan over two promotion lists is the two fans together.
proof fn lemma_fan_concat(from: u8, bb: u64, n: nat, p1: Seq<Option<Piece>>, p2: Seq<Option<Piece>>)
    ensures
        (fan(from, bb, n, p1) + fan(from, bb, n, p2)).to_multiset() == fan(from, bb, n, p1 + p2).to_multiset(),
    decreases n,
{
    broadcast use vstd::multiset::group_multiset_axioms;
    broadcast use vstd::seq_lib::lemma_multiset_commutative;
    if n > 0 {
        let k = (n - 1) as nat;
        lemma_fan_concat(from, bb, k, p1, p2);
        let mv = |p: Option<Piece>| Move { from, to: k as u8, promotion: p };
        assert((p1 + p2).map_values(mv) =~= p1.map_values(mv) + p2.map_values(mv));
        vstd::seq_lib::to_multiset_len(Seq::<Move>::empty());
        vstd::multiset::lemma_multiset_empty_len(Seq::<Move>::empty().to_multiset());
        assert((fan(from, bb, n, p1) + fan(from, bb, n, p2)).to_multiset() =~= fan(from, bb, n, p1 + p2).to_multiset());
    }
}

/// Whether target `t` of entry `e` is a pawn reaching the first or last rank.
pub open spec fn promotes(e: PieceMoves, t: int) -> bool {
    e.0 == 0 && (rank_of(t) == 0 || rank_of(t) == 7)
}

/// An entry whose targets all promote, or none of them, stands for one fan of moves.
proof fn lemma_entry_fan(e: PieceMoves, n: nat, promo: bool)
    requires
        n <= 64,
        forall|t: int| 0 <= t < n && #[trigger] bb_has(e.2, t) ==> promotes(e, t) == promo,
    ensures
        entry_moves(e, n) == fan(e.1, e.2, n, if promo { generator_promos() } else { seq![None] }),
    decreases n,
{
    if n > 0 {
        let k = (n - 1) as nat;
        lemma_entry_fan(e, k, promo);
        let t = k as int;
        if bb_has(e.2, t) {
            if promo {
                assert(entry_moves(e, n) =~= fan(e.1, e.2, n, generator_promos()));
            } else {
                assert(seq![None::<Piece>].map_values(|p: Option<Piece>| Move { from: e.1, to: k as u8, promotion: p })
                    =~= seq![Move { from: e.1, to: t as u8, promotion: None }]);
                assert(entry_moves(e, n) =~= fan(e.1, e.2, n, seq![None]));
            }
        } else {
            assert(entry_moves(e, n) =~= fan(e.1, e.2, n, if promo { generator_promos() } else { seq![None] }));
        }
    }
}

/// The four promotions in the picker's order and in the generator's order give the same moves.
proof fn lemma_fan_promos(from: u8, bb: u64)
    ensures
        fan(from, bb, 64, capture_promos()).to_multiset() == fan(from, bb, 64, generator_promos()).to_multiset(),
{
    broadcast use vstd::multiset::group_multiset_axioms;
    let q = seq![Some(Piece::Queen)];
    let r = seq![Some(Piece::Rook)];
    let kn = seq![Some(Piece::Knight)];
    let b = seq![Some(Piece::Bishop)];
    assert(capture_promos() =~= q + (r + (kn + b)));
    assert(generator_promos() =~= kn + (b + (r + q)));
    lemma_fan_concat(from, bb, 64, q, r + (kn + b));
    lemma_fan_concat(from, bb, 64, r, kn + b);
    lemma_fan_concat(from, bb, 64, kn, b);
    lemma_fan_concat(from, bb, 64, kn, b + (r + q));
    lemma_fan_concat(from, bb, 64, b, r + q);
    lemma_fan_concat(from, bb, 64, r, q);
    vstd::seq_lib::lemma_multiset_commutative(fan(from, bb, 64, q), fan(from, bb, 64, r + (kn + b)));
    vstd::seq_lib::lemma_multiset_commutative(fan(from, bb, 64, r), fan(from, bb, 64, kn + b));
    vstd::seq_lib::lemma_multiset_commutative(fan(from, bb, 64, kn), fan(from, bb, 64, b));
    vstd::seq_lib::lemma_multiset_commutative(fan(from, bb, 64, kn), fan(from, bb, 64, b + (r + q)));
    vstd::seq_lib::lemma_multiset_commutative(fan(from, bb, 64, b), fan(from, bb, 64, r + q));
    vstd::seq_lib::lemma_multiset_commutative(fan(from, bb, 64, r), fan(from, bb, 64, q));
    assert(fan(from, bb, 64, capture_promos()).to_multiset() =~= fan(from, bb, 64, generator_promos()).to_multiset());
}

/// What an entry stands for, split the picker's way: for a promoting pawn its captures
/// (every promotion) and queen steps, then its under-promotions by a step; for any other
/// piece its captures, then its quiet moves.
proof fn lemma_entry_pick(e: PieceMoves, promoting: bool, opp: u64, ep: Option<int>)
    requires
        forall|t: int| 0 <= t < 64 && #[trigger] bb_has(e.2, t) ==> promotes(e, t) == promoting,
    ensures
        promoting ==> (gen_entry(e, 0, opp, ep) + gen_entry(e, 2, opp, ep)).to_multiset() == entry_moves(e, 64).to_multiset(),
        !promoting ==> (gen_entry(e, 1, opp, ep) + gen_entry(e, 3, opp, ep)).to_multiset() == entry_moves(e, 64).to_multiset(),
{
    broadcast use vstd::multiset::group_multiset_axioms;
    broadcast use vstd::seq_lib::lemma_multiset_commutative;
    lemma_entry_fan(e, 64, promoting);
    if promoting {
        let q = seq![Some(Piece::Queen)];
        assert(q + quiet_promos() =~= capture_promos());
        lemma_fan_concat(e.1, e.2 & !opp, 64, q, quiet_promos());
        lemma_fan_split(e.1, e.2, opp, 64, capture_promos());
        lemma_fan_promos(e.1, e.2);
        assert((gen_entry(e, 0, opp, ep) + gen_entry(e, 2, opp, ep)).to_multiset()
            =~= (fan(e.1, e.2 & opp, 64, capture_promos()) + fan(e.1, e.2 & !opp, 64, capture_promos())).to_multiset());
    } else {
        let c = capture_targets(e, opp, ep);
        lemma_fan_split(e.1, e.2, c, 64, seq![None]);
    }
}

/// Every target of an entry promotes exactly when the entry's square is on `pp`.
pub open spec fn entry_split_ok(e: PieceMoves, pp: u64) -> bool {
    &&& e.1 < 64
    &&& forall|t: int| 0 <= t < 64 && #[trigger] bb_has(e.2, t) ==> promotes(e, t) == bb_has(pp, e.1 as int)
}

/// The picker's four lists of a report, as one multiset.
pub open spec fn picked(f: Seq<PieceMoves>, pp: u64, opp: u64, ep: Option<int>) -> Multiset<Move> {
    gen_list(entries_in(f, pp), 0, opp, ep).to_multiset()
        .add(gen_list(entries_in(f, !pp), 1, opp, ep).to_multiset())
        .add(gen_list(entries_in(f, pp), 2, opp, ep).to_multiset())
        .add(gen_list(entries_in(f, !pp), 3, opp, ep).to_multiset())
}

proof fn lemma_gen_list_push(s: Seq<PieceMoves>, e: PieceMoves, kind: int, opp: u64, ep: Option<int>)
    ensures
        gen_list(s.push(e), kind, opp, ep) == gen_list(s, kind, opp, ep) + gen_entry(e, kind, opp, ep),
{
    assert(s.push(e).drop_last() =~= s);
}

/// Split by the promoting pawns, a report's entries give the picker's lists, and together
/// those are every move the report stands for.
proof fn lemma_picked(f: Seq<PieceMoves>, pp: u64, opp: u64, ep: Option<int>)
    requires
        forall|i: int| 0 <= i < f.len() ==> entry_split_ok(#[trigger] f[i], pp),
    ensures
        picked(f, pp, opp, ep) == report_moves(f).to_multiset(),
    decreases f.len(),
{
    broadcast use vstd::multiset::group_multiset_axioms;
    broadcast use vstd::seq_lib::lemma_multiset_commutative;
    if f.len() == 0 {
        let e = Seq::<Move>::empty();
        vstd::seq_lib::to_multiset_len(e);
        vstd::multiset::lemma_multiset_empty_len(e.to_multiset());
        assert(entries_in(f, pp) == Seq::<PieceMoves>::empty());
        assert(entries_in(f, !pp) == Seq::<PieceMoves>::empty());
        assert(picked(f, pp, opp, ep) =~= Multiset::empty());
    } else {
        let g = f.drop_last();
        let e = f.last();
        assert forall|i: int| 0 <= i < g.len() implies entry_split_ok(#[trigger] g[i], pp) by {
            assert(g[i] == f[i]);
        }
        lemma_picked(g, pp, opp, ep);
        assert(entry_split_ok(f[f.len() - 1], pp));
        lemma_mask_bits(0, pp, 0, e.1 as int);
        lemma_entry_pick(e, bb_has(pp, e.1 as int), opp, ep);
        lemma_gen_list_push(entries_in(g, pp), e, 0, opp, ep);
        lemma_gen_list_push(entries_in(g, pp), e, 2, opp, ep);
        lemma_gen_list_push(entries_in(g, !pp), e, 1, opp, ep);
        lemma_gen_list_push(entries_in(g, !pp), e, 3, opp, ep);
        assert(report_moves(f) == report_moves(g) + entry_moves(e, 64));
        assert(picked(f, pp, opp, ep) =~= report_moves(f).to_multiset());
    }
}

/// In a full report of a position, the entries on the promoting pawns' squares are exactly
/// those whose targets promote: a pawn steps one rank ahead (two from its starting rank), so
/// it reaches the last rank only from the one before it.
proof fn lemma_split_geometry(pos: Position, f: Seq<PieceMoves>)
    requires
        full_report_ok(f, mailbox_spec(pos), pos.side_to_move),
    ensures
        forall|i: int| 0 <= i < f.len() ==> entry_split_ok(#[trigger] f[i], promotion_pawns(pos)),
{
    let us = pos.side_to_move;
    let ci = color_index(us);
    let pp = promotion_pawns(pos);
    assert forall|i: int| 0 <= i < f.len() implies entry_split_ok(#[trigger] f[i], pp) by {
        let e = f[i];
        let s = e.1 as int;
        assert(e.0 < 6 && e.1 < 64);
        assert(mailbox_spec(pos)[s] == Some((piece_of_index(e.0 as int), us)));
        lemma_mask_bits(pos.colors[ci], pos.pieces[0], promotion_rank(us), s);
        lemma_rank_bits(s);
        assert(pp == pos.colors[ci] & pos.pieces[0] & promotion_rank(us));
        assert forall|t: int| 0 <= t < 64 && #[trigger] bb_has(e.2, t) implies promotes(e, t) == bb_has(pp, s) by {
            if e.0 == 0 {
                assert(pawn_step(s, t, us));
                assert(piece_at(pos.pieces, s) == Some(Piece::Pawn));
                assert(bb_has(pos.pieces[0], s));
                assert(color_at(pos.colors, s) == Some(us));
                assert(bb_has(pos.colors[ci], s));
            } else {
                if bb_has(pp, s) {
                    assert(bb_has(pos.pieces[0], s));
                    assert(piece_at(pos.pieces, s) == Some(Piece::Pawn));
                    assert(false);
                }
            }
        }
    }
}

/// Whether the position's legal moves fit the move list (a chess position has at most 218).
pub open spec fn legal_moves_fit(pos: Position) -> bool {
    report_of(pos, 0xffff_ffff_ffff_ffffu64) matches Some(f) ==> report_moves(f).len() <= 218
}

/// A multiset with one value's copies dropped is no larger.
proof fn lemma_update_len(m: Multiset<Move>, v: Move)
    ensures
        m.update(v, 0).len() <= m.len(),
{
    broadcast use vstd::multiset::group_multiset_axioms;
    broadcast use vstd::multiset::lemma_update_same;
    broadcast use vstd::multiset::lemma_update_different;
    let d = Multiset::<Move>::empty().update(v, m.count(v));
    let u = m.update(v, 0);
    assert forall|x: Move| #[trigger] m.count(x) == u.add(d).count(x) by {
        if x != v {
            assert(u.count(x) == m.count(x));
            assert(d.count(x) == 0);
        } else {
            assert(u.count(x) == 0);
            assert(d.count(x) == m.count(v));
        }
    }
    assert(m =~= u.add(d));
}

/// The picker's listed captures and quiet moves together are the position's legal moves,
/// the hash move left out.
pub proof fn lemma_listed_are_legal(pos: Position, pv: Move)
    requires
        reports_ok(pos),
        legal_moves_fit(pos),
    ensures
        caps_listed(pos, pv).add(quiets_listed(pos, pv)) == legal_moves_spec(pos).to_multiset().update(pv, 0),
{
    broadcast use vstd::multiset::group_multiset_axioms;
    broadcast use vstd::multiset::lemma_update_same;
    broadcast use vstd::multiset::lemma_update_different;
    broadcast use vstd::seq_lib::lemma_multiset_commutative;
    broadcast use vstd::seq_lib::group_to_multiset_ensures;
    let pp = promotion_pawns(pos);
    let opp = opp_of(pos);
    let ep = pos.ep_square_spec();
    let caps = capture_moves(pos);
    let quiets = quiet_moves(pos);
    match report_of(pos, 0xffff_ffff_ffff_ffffu64) {
        None => {
            assert(report_of(pos, pp) is None);
            assert(report_of(pos, !pp) is None);
            assert(caps =~= Seq::<Move>::empty());
            assert(quiets =~= Seq::<Move>::empty());
            assert(legal_moves_spec(pos) =~= Seq::<Move>::empty());
            vstd::seq_lib::to_multiset_len(Seq::<Move>::empty());
            vstd::multiset::lemma_multiset_empty_len(Seq::<Move>::empty().to_multiset());
            assert(capped(caps, 218) =~= Seq::<Move>::empty());
            assert(capped(quiets, (218 - caps_listed(pos, pv).len()) as nat) =~= Seq::<Move>::empty());
            assert(caps_listed(pos, pv).add(quiets_listed(pos, pv)) =~= legal_moves_spec(pos).to_multiset().update(pv, 0));
        },
        Some(f) => {
            assert(report_of(pos, pp) == Some(entries_in(f, pp)));
            assert(report_of(pos, !pp) == Some(entries_in(f, !pp)));
            lemma_split_geometry(pos, f);
            lemma_picked(f, pp, opp, ep);
            assert(caps == gen_list(entries_in(f, pp), 0, opp, ep) + gen_list(entries_in(f, !pp), 1, opp, ep));
            assert(quiets == gen_list(entries_in(f, pp), 2, opp, ep) + gen_list(entries_in(f, !pp), 3, opp, ep));
            assert(caps.to_multiset().add(quiets.to_multiset()) =~= report_moves(f).to_multiset());
            vstd::seq_lib::to_multiset_len(caps);
            vstd::seq_lib::to_multiset_len(quiets);
            vstd::seq_lib::to_multiset_len(report_moves(f));
            assert(caps.to_multiset().add(quiets.to_multiset()).len() == caps.len() + quiets.len());
            assert(caps.len() + quiets.len() == report_moves(f).len());
            assert(capped(caps, 218) == caps);
            lemma_update_len(caps.to_multiset(), pv);
            assert(capped(quiets, (218 - caps_listed(pos, pv).len()) as nat) == quiets);
            assert(legal_moves_spec(pos) == report_moves(f));
            assert(caps_listed(pos, pv).add(quiets_listed(pos, pv)) =~= legal_moves_spec(pos).to_multiset().update(pv, 0));
        },
    }
}

/// A move the picker counts among the captures: onto an opponent's piece, a pawn onto the en
/// passant square, or a promotion to a queen.
pub open spec fn noisy(pos: Position, m: Move) -> bool {
    ||| bb_has(opp_of(pos), m.to as int)
    ||| (pos.piece_on_spec(m.from as int) == Some(Piece::Pawn) && pos.ep_square_spec() == Some(m.to as int))
    ||| m.promotion == Some(Piece::Queen)
}

/// The moves of a multiset that `noisy` picks.
pub open spec fn noisy_part(pos: Position, ms: Multiset<Move>) -> Multiset<Move> {
    ms.filter(|m: Move| noisy(pos, m))
}

/// A move of a fan leaves its square for a target of the fan with one of its promotions.
proof fn lemma_fan_member(from: u8, bb: u64, n: nat, promos: Seq<Option<Piece>>, m: Move)
    requires
        n <= 64,
        fan(from, bb, n, promos).contains(m),
    ensures
        m.from == from,
        (m.to as int) < n,
        bb_has(bb, m.to as int),
        promos.contains(m.promotion),
    decreases n,
{
    let k = (n - 1) as nat;
    let a = fan(from, bb, k, promos);
    let g = promos.map_values(|p: Option<Piece>| Move { from, to: k as u8, promotion: p });
    let i = choose|i: int| 0 <= i < fan(from, bb, n, promos).len() && fan(from, bb, n, promos)[i] == m;
    if bb_has(bb, k as int) {
        assert(fan(from, bb, n, promos) == a + g);
    } else {
        assert(fan(from, bb, n, promos) == a + Seq::<Move>::empty());
    }
    if i < a.len() {
        assert(a[i] == m);
        lemma_fan_member(from, bb, k, promos, m);
    } else {
        assert(bb_has(bb, k as int));
        assert(g[i - a.len()] == m);
        assert(promos[i - a.len()] == m.promotion);
        assert(m.to == k as u8);
        assert(m.to as int == k);
    }
}

/// A move of the picker's list of a report comes from one of its entries.
proof fn lemma_gen_list_member(es: Seq<PieceMoves>, kind: int, opp: u64, ep: Option<int>, m: Move)
    requires
        gen_list(es, kind, opp, ep).contains(m),
    ensures
        exists|i: int| 0 <= i < es.len() && #[trigger] gen_entry(es[i], kind, opp, ep).contains(m),
    decreases es.len(),
{
    let g = es.drop_last();
    let e = es.last();
    let a = gen_list(g, kind, opp, ep);
    let b = gen_entry(e, kind, opp, ep);
    assert(gen_list(es, kind, opp, ep) == a + b);
    let i = choose|i: int| 0 <= i < (a + b).len() && (a + b)[i] == m;
    if i < a.len() {
        assert(a[i] == m);
        lemma_gen_list_member(g, kind, opp, ep, m);
        let j = choose|j: int| 0 <= j < g.len() && #[trigger] gen_entry(g[j], kind, opp, ep).contains(m);
        assert(es[j] == g[j]);
    } else {
        assert(b[i - a.len()] == m);
        assert(gen_entry(es[es.len() - 1], kind, opp, ep).contains(m));
    }
}

/// An entry of a report's part on a mask is an entry of the report on the mask.
proof fn lemma_entries_in_member(f: Seq<PieceMoves>, mask: u64, i: int)
    requires
        0 <= i < entries_in(f, mask).len(),
    ensures
        exists|j: int| 0 <= j < f.len() && #[trigger] f[j] == entries_in(f, mask)[i],
        bb_has(mask, entries_in(f, mask)[i].1 as int),
    decreases f.len(),
{
    let g = f.drop_last();
    let rest = entries_in(g, mask);
    if i < rest.len() {
        if bb_has(mask, f.last().1 as int) {
            assert(entries_in(f, mask)[i] == rest[i]);
        }
        lemma_entries_in_member(g, mask, i);
        let j = choose|j: int| 0 <= j < g.len() && #[trigger] g[j] == rest[i];
        assert(f[j] == g[j]);
    } else {
        assert(entries_in(f, mask)[i] == f.last());
        assert(f[f.len() - 1] == f.last());
    }
}

/// A square set with one more square added.
proof fn lemma_or_square(a: u64, x: int, s: int)
    requires
        0 <= x < 64,
        0 <= s < 64,
    ensures
        bb_has(a | crate::chess::sq_bb(x), s) == (bb_has(a, s) || s == x),
{
    let u = s as u64;
    let v = x as u64;
    assert(u < 64 && v < 64 ==> (((a | (1u64 << v)) & (1u64 << u) != 0) == ((a & (1u64 << u) != 0) || u == v)))
        by (bit_vector);
}

/// What one entry gives the picker's list of kind `kind` is a capture exactly when the kind
/// is one of the capture kinds (0 or 1).
#[verifier::spinoff_prover]
proof fn lemma_entry_classify(pos: Position, e: PieceMoves, kind: int, m: Move)
    requires
        pos.wf(),
        0 <= kind < 4,
        e.0 < 6,
        e.1 < 64,
        mailbox_spec(pos)[e.1 as int] == Some((piece_of_index(e.0 as int), pos.side_to_move)),
        entry_split_ok(e, promotion_pawns(pos)),
        bb_has(promotion_pawns(pos), e.1 as int) == (kind == 0 || kind == 2),
        gen_entry(e, kind, opp_of(pos), pos.ep_square_spec()).contains(m),
    ensures
        noisy(pos, m) == (kind < 2),
{
    let opp = opp_of(pos);
    let ep = pos.ep_square_spec();
    let c = capture_targets(e, opp, ep);
    assert((pos.piece_on_spec(e.1 as int) == Some(Piece::Pawn)) == (e.0 == 0));
    if kind == 0 {
        let a = fan(e.1, e.2 & opp, 64, capture_promos());
        let b = fan(e.1, e.2 & !opp, 64, seq![Some(Piece::Queen)]);
        assert(gen_entry(e, kind, opp, ep) == a + b);
        let k = choose|k: int| 0 <= k < (a + b).len() && (a + b)[k] == m;
        if k < a.len() {
            assert(a[k] == m);
            lemma_fan_member(e.1, e.2 & opp, 64, capture_promos(), m);
            lemma_mask_bits(e.2, opp, 0, m.to as int);
        } else {
            assert(b[k - a.len()] == m);
            lemma_fan_member(e.1, e.2 & !opp, 64, seq![Some(Piece::Queen)], m);
        }
    } else if kind == 1 {
        lemma_fan_member(e.1, e.2 & c, 64, seq![None], m);
        lemma_mask_bits(e.2, c, 0, m.to as int);
        if e.0 == 0 && ep is Some {
            lemma_or_square(opp, ep.unwrap(), m.to as int);
        }
    } else if kind == 2 {
        lemma_fan_member(e.1, e.2 & !opp, 64, quiet_promos(), m);
        lemma_mask_bits(e.2, opp, 0, m.to as int);
        assert(promotes(e, m.to as int));
        assert(m.promotion != Some(Piece::Queen));
    } else {
        lemma_fan_member(e.1, e.2 & !c, 64, seq![None], m);
        lemma_mask_bits(e.2, c, 0, m.to as int);
        if e.0 == 0 && ep is Some {
            lemma_or_square(opp, ep.unwrap(), m.to as int);
        }
    }
}

/// What the picker's list of kind `kind` holds of the entries on `mask` is a capture exactly
/// when the kind is a capture kind.
#[verifier::spinoff_prover]
proof fn lemma_list_classify(pos: Position, f: Seq<PieceMoves>, mask: u64, kind: int, m: Move)
    requires
        pos.wf(),
        0 <= kind < 4,
        full_report_ok(f, mailbox_spec(pos), pos.side_to_move),
        mask == (if kind == 0 || kind == 2 { promotion_pawns(pos) } else { !promotion_pawns(pos) }),
        gen_list(entries_in(f, mask), kind, opp_of(pos), pos.ep_square_spec()).contains(m),
    ensures
        noisy(pos, m) == (kind < 2),
{
    let es = entries_in(f, mask);
    lemma_split_geometry(pos, f);
    lemma_gen_list_member(es, kind, opp_of(pos), pos.ep_square_spec(), m);
    let i = choose|i: int| 0 <= i < es.len() && #[trigger] gen_entry(es[i], kind, opp_of(pos), pos.ep_square_spec()).contains(m);
    lemma_entries_in_member(f, mask, i);
    let e = es[i];
    let j = choose|j: int| 0 <= j < f.len() && #[trigger] f[j] == e;
    assert(entry_split_ok(f[j], promotion_pawns(pos)));
    assert(f[j].0 < 6 && f[j].1 < 64);
    lemma_mask_bits(0, promotion_pawns(pos), 0, e.1 as int);
    lemma_entry_classify(pos, e, kind, m);
}

/// The picker's captures are the moves `noisy` picks, and its quiet moves are not.
proof fn lemma_classify(pos: Position, f: Seq<PieceMoves>, m: Move)
    requires
        pos.wf(),
        reports_ok(pos),
        report_of(pos, 0xffff_ffff_ffff_ffffu64) == Some(f),
    ensures
        capture_moves(pos).contains(m) ==> noisy(pos, m),
        quiet_moves(pos).contains(m) ==> !noisy(pos, m),
{
    let pp = promotion_pawns(pos);
    let opp = opp_of(pos);
    let ep = pos.ep_square_spec();
    assert(report_of(pos, pp) == Some(entries_in(f, pp)));
    assert(report_of(pos, !pp) == Some(entries_in(f, !pp)));
    assert(full_report_ok(f, mailbox_spec(pos), pos.side_to_move));
    let g0 = gen_list(entries_in(f, pp), 0, opp, ep);
    let g1 = gen_list(entries_in(f, !pp), 1, opp, ep);
    let g2 = gen_list(entries_in(f, pp), 2, opp, ep);
    let g3 = gen_list(entries_in(f, !pp), 3, opp, ep);
    assert(capture_moves(pos) == g0 + g1);
    assert(quiet_moves(pos) == g2 + g3);
    if capture_moves(pos).contains(m) {
        let i = choose|i: int| 0 <= i < (g0 + g1).len() && (g0 + g1)[i] == m;
        if i < g0.len() {
            assert(g0[i] == m);
            lemma_list_classify(pos, f, pp, 0, m);
        } else {
            assert(g1[i - g0.len()] == m);
            lemma_list_classify(pos, f, !pp, 1, m);
        }
    }
    if quiet_moves(pos).contains(m) {
        let i = choose|i: int| 0 <= i < (g2 + g3).len() && (g2 + g3)[i] == m;
        if i < g2.len() {
            assert(g2[i] == m);
            lemma_list_classify(pos, f, pp, 2, m);
        } else {
            assert(g3[i - g2.len()] == m);
            lemma_list_classify(pos, f, !pp, 3, m);
        }
    }
}

/// With the legal moves fitting the list, the picker's listed captures are the legal moves
/// that `noisy` picks, the hash move left out.
pub proof fn lemma_listed_captures_are_noisy(pos: Position, pv: Move)
    requires
        pos.wf(),
        reports_ok(pos),
        legal_moves_fit(pos),
    ensures
        caps_listed(pos, pv) == noisy_part(pos, legal_moves_spec(pos).to_multiset()).update(pv, 0),
{
    broadcast use vstd::multiset::group_multiset_axioms;
    broadcast use vstd::multiset::lemma_update_same;
    broadcast use vstd::multiset::lemma_update_different;
    broadcast use vstd::seq_lib::lemma_multiset_commutative;
    broadcast use vstd::seq_lib::group_to_multiset_ensures;
    let pp = promotion_pawns(pos);
    let opp = opp_of(pos);
    let ep = pos.ep_square_spec();
    let caps = capture_moves(pos);
    let quiets = quiet_moves(pos);
    let nf = |m: Move| noisy(pos, m);
    assert(noisy_part(pos, legal_moves_spec(pos).to_multiset()) == legal_moves_spec(pos).to_multiset().filter(nf));
    match report_of(pos, 0xffff_ffff_ffff_ffffu64) {
        None => {
            assert(report_of(pos, pp) is None);
            assert(report_of(pos, !pp) is None);
            assert(caps =~= Seq::<Move>::empty());
            assert(legal_moves_spec(pos) =~= Seq::<Move>::empty());
            vstd::seq_lib::to_multiset_len(Seq::<Move>::empty());
            vstd::multiset::lemma_multiset_empty_len(Seq::<Move>::empty().to_multiset());
            assert(capped(caps, 218) =~= Seq::<Move>::empty());
            assert(caps_listed(pos, pv) =~= legal_moves_spec(pos).to_multiset().filter(nf).update(pv, 0));
        },
        Some(f) => {
            assert(report_of(pos, pp) == Some(entries_in(f, pp)));
            assert(report_of(pos, !pp) == Some(entries_in(f, !pp)));
            lemma_split_geometry(pos, f);
            lemma_picked(f, pp, opp, ep);
            assert(caps == gen_list(entries_in(f, pp), 0, opp, ep) + gen_list(entries_in(f, !pp), 1, opp, ep));
            assert(quiets == gen_list(entries_in(f, pp), 2, opp, ep) + gen_list(entries_in(f, !pp), 3, opp, ep));
            let total = report_moves(f).to_multiset();
            assert(caps.to_multiset().add(quiets.to_multiset()) =~= total);
            vstd::seq_lib::to_multiset_len(caps);
            vstd::seq_lib::to_multiset_len(quiets);
            vstd::seq_lib::to_multiset_len(report_moves(f));
            assert(caps.to_multiset().add(quiets.to_multiset()).len() == caps.len() + quiets.len());
            assert(capped(caps, 218) == caps);
            assert(legal_moves_spec(pos) == report_moves(f));
            assert forall|v: Move| #[trigger] caps.to_multiset().count(v) == total.filter(nf).count(v) by {
                lemma_classify(pos, f, v);
                if nf(v) {
                    assert(!quiets.contains(v));
                    assert(quiets.to_multiset().count(v) == 0);
                } else {
                    assert(!caps.contains(v));
                }
            }
            assert(caps.to_multiset() =~= total.filter(nf));
            assert(caps_listed(pos, pv) =~= legal_moves_spec(pos).to_multiset().filter(nf).update(pv, 0));
        },
    }
}

} // verus!
