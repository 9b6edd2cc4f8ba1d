use vstd::prelude::*;
use super::bb::bb_has;
use super::board::{
    BoardModel, can_make, can_unmake, castle_rook, en_passant_victim, made,
    unmade, bit, castle_mask_from, castle_mask_to, well_formed,
};
use super::hash::HashTables;
use super::misc::player_index;
use super::piece::{SquareContent, content_index, content_of_index};
use crate::chess_core::mov::{
    Move, move_from, move_to, move_ty, NULL, TYPE_CASTLE, TYPE_EN_PASSANT, TYPE_NORMAL,
    TYPE_PROMOTION,
};

verus! {

/// The conditions under which undoing a move gives back exactly the board it was made on:
/// the move leaves its square, a castle finds its rook in the corner and the rook's
/// target empty, and an en passant capture lands on an empty square next to the pawn
/// it takes.
pub open spec fn restorable(b: BoardModel, m: Move) -> bool {
    let f = move_from(m@);
    let t = move_to(m@);
    let ty = move_ty(m@);
    m@ != NULL ==> {
        &&& f != t
        &&& (ty == TYPE_CASTLE ==> {
            let (rf, rt, rp, rm) = castle_rook(t);
            &&& b.squares[rf] == content_of_index(rp)
            &&& b.squares[rt] == SquareContent::Empty
            &&& f != rf
            &&& f != rt
        })
        &&& (ty == TYPE_EN_PASSANT ==> {
            let (vs, vp) = en_passant_victim(b.state.player, t);
            &&& b.squares[t] == SquareContent::Empty
            &&& b.squares[vs] == content_of_index(vp)
            &&& f != vs
        })
    }
}

/// Toggling bits twice gives back what was toggled, in whatever order the toggles come.
proof fn bv_toggles(x: u64, a: u64, c: u64, d: u64, e: u64)
    ensures
        (x ^ a) ^ a == x,
        ((x ^ a) ^ c) ^ a == x ^ c,
        ((x ^ a) ^ c) ^ c ^ a == x,
        (x ^ (a | c)) ^ (c | a) == x,
        (((x ^ (a | c)) ^ (d | e)) ^ (a | c)) ^ (e | d) == x,
{
    assert((x ^ a) ^ a == x && ((x ^ a) ^ c) ^ a == x ^ c && ((x ^ a) ^ c) ^ c ^ a == x && (x ^ (a | c)) ^ (c
        | a) == x && (((x ^ (a | c)) ^ (d | e)) ^ (a | c)) ^ (e | d) == x) by (bit_vector);
}

proof fn bv_toggle_twice(x: u64, a: u64)
    ensures
        (x ^ a) ^ a == x,
{
    bv_toggles(x, a, 0, 0, 0);
}

proof fn bv_toggle_commute(x: u64, a: u64, c: u64)
    ensures
        ((x ^ a) ^ c) ^ a == x ^ c,
        ((x ^ a) ^ c) ^ c ^ a == x,
{
    bv_toggles(x, a, c, 0, 0);
}

proof fn bv_clear_set(x: u64, t: u64)
    requires
        t < 64,
        (x >> t) & 1 == 1,
    ensures
        (x & !(1u64 << t)) | (1u64 << t) == x,
{
    assert((x & !(1u64 << t)) | (1u64 << t) == x) by (bit_vector)
        requires
            t < 64,
            (x >> t) & 1 == 1,
    ;
}

proof fn bv_normal_same(x: u64, f: u64, t: u64)
    requires
        f < 64,
        t < 64,
        f != t,
        (x >> f) & 1 == 1,
        (x >> t) & 1 == 1,
    ensures
        (((x ^ ((1u64 << f) | (1u64 << t))) & !(1u64 << t)) ^ ((1u64 << f) | (1u64 << t))) | (1u64
            << t) == x,
{
    assert((((x ^ ((1u64 << f) | (1u64 << t))) & !(1u64 << t)) ^ ((1u64 << f) | (1u64 << t))) | (
    1u64 << t) == x) by (bit_vector)
        requires
            f < 64,
            t < 64,
            f != t,
            (x >> f) & 1 == 1,
            (x >> t) & 1 == 1,
    ;
}

proof fn bv_promote_target(x: u64, f: u64, t: u64)
    requires
        f < 64,
        t < 64,
        f != t,
        (x >> f) & 1 != 1,
        (x >> t) & 1 != 1,
    ensures
        (((x | (1u64 << t)) ^ ((1u64 << f) | (1u64 << t))) & !(1u64 << f)) == x,
{
    assert((((x | (1u64 << t)) ^ ((1u64 << f) | (1u64 << t))) & !(1u64 << f)) == x) by (bit_vector)
        requires
            f < 64,
            t < 64,
            f != t,
            (x >> f) & 1 != 1,
            (x >> t) & 1 != 1,
    ;
}

proof fn bv_promote_target_taken(x: u64, f: u64, t: u64)
    requires
        f < 64,
        t < 64,
        f != t,
        (x >> f) & 1 != 1,
        (x >> t) & 1 == 1,
    ensures
        (((((x & !(1u64 << t)) | (1u64 << t)) ^ ((1u64 << f) | (1u64 << t))) | (1u64 << t)) & !(1u64
            << f)) == x,
{
    assert((((((x & !(1u64 << t)) | (1u64 << t)) ^ ((1u64 << f) | (1u64 << t))) | (1u64 << t)) & !(
    1u64 << f)) == x) by (bit_vector)
        requires
            f < 64,
            t < 64,
            f != t,
            (x >> f) & 1 != 1,
            (x >> t) & 1 == 1,
    ;
}

proof fn bv_promote_pawn(x: u64, f: u64, t: u64)
    requires
        f < 64,
        t < 64,
        f != t,
        (x >> f) & 1 == 1,
        (x >> t) & 1 != 1,
    ensures
        ((x ^ ((1u64 << f) | (1u64 << t))) & !(1u64 << t)) | (1u64 << f) == x,
{
    assert(((x ^ ((1u64 << f) | (1u64 << t))) & !(1u64 << t)) | (1u64 << f) == x) by (bit_vector)
        requires
            f < 64,
            t < 64,
            f != t,
            (x >> f) & 1 == 1,
            (x >> t) & 1 != 1,
    ;
}

proof fn bv_promote_pawn_taken(x: u64, f: u64, t: u64)
    requires
        f < 64,
        t < 64,
        f != t,
        (x >> f) & 1 == 1,
        (x >> t) & 1 == 1,
    ensures
        (((((x ^ ((1u64 << f) | (1u64 << t))) & !(1u64 << t)) & !(1u64 << t)) | (1u64 << t)) | (1u64
            << f)) == x,
{
    assert((((((x ^ ((1u64 << f) | (1u64 << t))) & !(1u64 << t)) & !(1u64 << t)) | (1u64 << t)) | (
    1u64 << f)) == x) by (bit_vector)
        requires
            f < 64,
            t < 64,
            f != t,
            (x >> f) & 1 == 1,
            (x >> t) & 1 == 1,
    ;
}

proof fn bv_en_passant_same(x: u64, f: u64, t: u64, v: u64)
    requires
        f < 64,
        t < 64,
        v < 64,
        f != t,
        f != v,
        t != v,
        (x >> v) & 1 == 1,
    ensures
        ((((x ^ ((1u64 << f) | (1u64 << t))) & !(1u64 << v)) ^ ((1u64 << f) | (1u64 << t))) | (1u64
            << v)) == x,
{
    assert(((((x ^ ((1u64 << f) | (1u64 << t))) & !(1u64 << v)) ^ ((1u64 << f) | (1u64 << t))) | (
    1u64 << v)) == x) by (bit_vector)
        requires
            f < 64,
            t < 64,
            v < 64,
            f != t,
            f != v,
            t != v,
            (x >> v) & 1 == 1,
    ;
}

proof fn bv_hash_cancel(h: u64, a: u64, b: u64, c: u64, d: u64, e: u64, g: u64, i: u64, j: u64)
    ensures
        h ^ a ^ b ^ c ^ d ^ e ^ g ^ i ^ j ^ a ^ b ^ c ^ d ^ e ^ g ^ i ^ j == h,
{
    assert(h ^ a ^ b ^ c ^ d ^ e ^ g ^ i ^ j ^ a ^ b ^ c ^ d ^ e ^ g ^ i ^ j == h) by (bit_vector);
}

proof fn bv_normal_hash(
    h: u64,
    tk: u64,
    a: u64,
    b: u64,
    e0: u64,
    e8: u64,
    e1: u64,
    x: u64,
    c0: u64,
    c1: u64,
    taken: bool,
    double: bool,
)
    ensures
        ({
            let h1 = h ^ tk ^ a ^ b ^ e0 ^ e8;
            let h2 = if taken { h1 ^ x } else { h1 };
            let h3 = if double { h2 ^ e8 ^ e1 } else { h2 };
            let hm = h3 ^ c0 ^ c1;
            let epk = if double { e1 } else { e8 };
            let hu1 = hm ^ tk ^ a ^ b ^ c1 ^ c0 ^ epk ^ e0;
            (if taken { hu1 ^ x } else { hu1 }) == h
        }),
{
    assert({
        let h1 = h ^ tk ^ a ^ b ^ e0 ^ e8;
        let h2 = if taken { h1 ^ x } else { h1 };
        let h3 = if double { h2 ^ e8 ^ e1 } else { h2 };
        let hm = h3 ^ c0 ^ c1;
        let epk = if double { e1 } else { e8 };
        let hu1 = hm ^ tk ^ a ^ b ^ c1 ^ c0 ^ epk ^ e0;
        (if taken { hu1 ^ x } else { hu1 }) == h
    }) by (bit_vector);
}

proof fn lemma_restore_normal(b: BoardModel, k: HashTables, m: Move)
    requires
        can_make(b, m),
        well_formed(b),
        restorable(b, m),
        m@ != NULL,
        move_ty(m@) == TYPE_NORMAL,
    ensures
        can_unmake(made(b, k, m).0, made(b, k, m).1),
        unmade(made(b, k, m).0, k, made(b, k, m).1) == b,
{
    let (b1, u) = made(b, k, m);
    let f = move_from(m@);
    let t = move_to(m@);
    let pc = b.squares[f];
    let p = content_index(pc);
    let taken0 = b.squares[t];
    assert(b.squares.update(f, SquareContent::Empty)[t] == taken0);
    let taken = taken0 != SquareContent::Empty;
    let ti = content_index(taken0);
    let fu = f as u64;
    let tu = t as u64;
    let c0 = b.state.castle;
    let mask = castle_mask_to(t) | castle_mask_from(f);
    super::bb::lemma_clear_bits_small(c0, mask);
    assert(b1.squares[t] == pc);
    let b2 = unmade(b1, k, u);
    assert(b2.squares =~= b.squares);
    assert forall|q: int| 0 <= q < 12 implies b2.pieces[q] == b.pieces[q] by {
        let x = b.pieces[q].0;
        if q == p && taken && ti == p {
            assert(bb_has(x, f));
            assert(bb_has(x, t));
            bv_normal_same(x, fu, tu);
        } else if q == p {
            bv_toggle_twice(x, bit(f) | bit(t));
        } else if taken && q == ti {
            assert(bb_has(x, t));
            bv_clear_set(x, tu);
        }
    }
    assert(b2.pieces =~= b.pieces);
    let double = m@ & 0xc000 != 0;
    bv_normal_hash(
        b.hash,
        k.turn_key,
        super::board::pkey(k, p, f),
        super::board::pkey(k, p, t),
        super::board::ekey(k, b.state.en_passant as int),
        super::board::ekey(k, 8),
        super::board::ekey(k, f % 8),
        super::board::pkey(k, ti, t),
        super::board::ckey(k, c0 as int),
        super::board::ckey(k, (c0 & !mask) as int),
        taken,
        double,
    );
}


proof fn bv_toggle_pair_twice(x: u64, a: u64, c: u64)
    ensures
        (x ^ (a | c)) ^ (c | a) == x,
{
    bv_toggles(x, a, c, 0, 0);
}

proof fn bv_toggle_two_pairs(x: u64, a: u64, c: u64, d: u64, e: u64)
    ensures
        (((x ^ (a | c)) ^ (d | e)) ^ (a | c)) ^ (e | d) == x,
{
    bv_toggles(x, a, c, d, e);
}

proof fn bv_castle_hash(h: u64, tk: u64, a: u64, b: u64, e0: u64, e8: u64, c0: u64, c1: u64, r1: u64, r2: u64)
    ensures
        h ^ tk ^ a ^ b ^ e0 ^ e8 ^ c0 ^ c1 ^ r1 ^ r2 ^ tk ^ a ^ b ^ c1 ^ c0 ^ e8 ^ e0 ^ r1 ^ r2 == h,
{
    assert(h ^ tk ^ a ^ b ^ e0 ^ e8 ^ c0 ^ c1 ^ r1 ^ r2 ^ tk ^ a ^ b ^ c1 ^ c0 ^ e8 ^ e0 ^ r1 ^ r2 == h)
        by (bit_vector);
}

proof fn bv_promotion_hash(
    h: u64,
    tk: u64,
    pf: u64,
    pt: u64,
    e0: u64,
    e8: u64,
    x: u64,
    qf: u64,
    qt: u64,
    c0: u64,
    c1: u64,
    taken: bool,
)
    ensures
        ({
            let h1 = h ^ tk ^ pf ^ pt ^ e0 ^ e8;
            let h2 = if taken { h1 ^ x } else { h1 };
            let hm = h2 ^ pt ^ qt ^ c0 ^ c1;
            let hu1 = hm ^ tk ^ qf ^ qt ^ c1 ^ c0 ^ e8 ^ e0;
            let hu2 = if taken { hu1 ^ x } else { hu1 };
            hu2 ^ qf ^ pf == h
        }),
{
    assert({
        let h1 = h ^ tk ^ pf ^ pt ^ e0 ^ e8;
        let h2 = if taken { h1 ^ x } else { h1 };
        let hm = h2 ^ pt ^ qt ^ c0 ^ c1;
        let hu1 = hm ^ tk ^ qf ^ qt ^ c1 ^ c0 ^ e8 ^ e0;
        let hu2 = if taken { hu1 ^ x } else { hu1 };
        hu2 ^ qf ^ pf == h
    }) by (bit_vector);
}

proof fn bv_en_passant_hash(h: u64, tk: u64, a: u64, b: u64, e0: u64, e8: u64, x: u64, c0: u64)
    ensures
        h ^ tk ^ a ^ b ^ e0 ^ e8 ^ x ^ tk ^ a ^ b ^ c0 ^ c0 ^ e8 ^ e0 ^ x == h,
{
    assert(h ^ tk ^ a ^ b ^ e0 ^ e8 ^ x ^ tk ^ a ^ b ^ c0 ^ c0 ^ e8 ^ e0 ^ x == h) by (bit_vector);
}

proof fn lemma_restore_castle(b: BoardModel, k: HashTables, m: Move)
    requires
        can_make(b, m),
        well_formed(b),
        restorable(b, m),
        m@ != NULL,
        move_ty(m@) == TYPE_CASTLE,
    ensures
        can_unmake(made(b, k, m).0, made(b, k, m).1),
        unmade(made(b, k, m).0, k, made(b, k, m).1) == b,
{
    let (b1, u) = made(b, k, m);
    let f = move_from(m@);
    let t = move_to(m@);
    let pc = b.squares[f];
    let p = content_index(pc);
    let (rf, rt, rp, rm) = castle_rook(t);
    let c0 = b.state.castle;
    super::bb::lemma_clear_bits_small(c0, rm);
    assert(b1.squares[t] == pc);
    let b2 = unmade(b1, k, u);
    assert(b.squares.update(f, SquareContent::Empty)[t] == b.squares[t]);
    assert(b2.squares =~= b.squares);
    assert forall|q: int| 0 <= q < 12 implies b2.pieces[q] == b.pieces[q] by {
        let x = b.pieces[q].0;
        if q == p && q == rp {
            bv_toggle_two_pairs(x, bit(f), bit(t), bit(rf), bit(rt));
        } else if q == p {
            bv_toggle_twice(x, bit(f) | bit(t));
        } else if q == rp {
            bv_toggle_pair_twice(x, bit(rf), bit(rt));
        }
    }
    assert(b2.pieces =~= b.pieces);
    bv_castle_hash(
        b.hash,
        k.turn_key,
        super::board::pkey(k, p, f),
        super::board::pkey(k, p, t),
        super::board::ekey(k, b.state.en_passant as int),
        super::board::ekey(k, 8),
        super::board::ckey(k, c0 as int),
        super::board::ckey(k, (c0 & !rm) as int),
        super::board::pkey(k, rp, rf),
        super::board::pkey(k, rp, rt),
    );
}

proof fn lemma_restore_promotion(b: BoardModel, k: HashTables, m: Move)
    requires
        can_make(b, m),
        well_formed(b),
        restorable(b, m),
        m@ != NULL,
        move_ty(m@) == TYPE_PROMOTION,
    ensures
        can_unmake(made(b, k, m).0, made(b, k, m).1),
        unmade(made(b, k, m).0, k, made(b, k, m).1) == b,
{
    let (b1, u) = made(b, k, m);
    let f = move_from(m@);
    let t = move_to(m@);
    let pc = b.squares[f];
    let p = content_index(pc);
    let taken0 = b.squares[t];
    assert(b.squares.update(f, SquareContent::Empty)[t] == taken0);
    let taken = taken0 != SquareContent::Empty;
    let ti = content_index(taken0);
    let q = super::board::promote_index(crate::chess_core::mov::promotion_of(m@), b.state.player);
    let fu = f as u64;
    let tu = t as u64;
    let c0 = b.state.castle;
    super::bb::lemma_clear_bits_small(c0, castle_mask_to(t));
    assert(content_index(content_of_index(q)) == q);
    assert(b1.squares[t] == content_of_index(q));
    let b2 = unmade(b1, k, u);
    assert(content_of_index(2 + player_index(b.state.player)) == pc);
    assert(b2.squares =~= b.squares);
    assert forall|i: int| 0 <= i < 12 implies b2.pieces[i] == b.pieces[i] by {
        let x = b.pieces[i].0;
        if i == p {
            assert(bb_has(x, f));
            if taken && ti == p {
                assert(bb_has(x, t));
                bv_promote_pawn_taken(x, fu, tu);
            } else {
                assert(!bb_has(x, t));
                bv_promote_pawn(x, fu, tu);
            }
        } else if i == q {
            assert(!bb_has(x, f));
            if taken && ti == q {
                assert(bb_has(x, t));
                bv_promote_target_taken(x, fu, tu);
            } else {
                assert(!bb_has(x, t));
                bv_promote_target(x, fu, tu);
            }
        } else if taken && i == ti {
            assert(bb_has(x, t));
            bv_clear_set(x, tu);
        }
    }
    assert(b2.pieces =~= b.pieces);
    bv_promotion_hash(
        b.hash,
        k.turn_key,
        super::board::pkey(k, p, f),
        super::board::pkey(k, p, t),
        super::board::ekey(k, b.state.en_passant as int),
        super::board::ekey(k, 8),
        super::board::pkey(k, ti, t),
        super::board::pkey(k, q, f),
        super::board::pkey(k, q, t),
        super::board::ckey(k, c0 as int),
        super::board::ckey(k, (c0 & !castle_mask_to(t)) as int),
        taken,
    );
}

proof fn lemma_restore_en_passant(b: BoardModel, k: HashTables, m: Move)
    requires
        can_make(b, m),
        well_formed(b),
        restorable(b, m),
        m@ != NULL,
        move_ty(m@) == TYPE_EN_PASSANT,
    ensures
        can_unmake(made(b, k, m).0, made(b, k, m).1),
        unmade(made(b, k, m).0, k, made(b, k, m).1) == b,
{
    let (b1, u) = made(b, k, m);
    let f = move_from(m@);
    let t = move_to(m@);
    let pc = b.squares[f];
    let p = content_index(pc);
    let (vs, vp) = en_passant_victim(b.state.player, t);
    assert(b1.squares[t] == pc);
    assert(content_index(content_of_index(vp)) == vp);
    let b2 = unmade(b1, k, u);
    assert(b2.squares =~= b.squares);
    assert forall|i: int| 0 <= i < 12 implies b2.pieces[i] == b.pieces[i] by {
        let x = b.pieces[i].0;
        if i == p && i == vp {
            assert(bb_has(x, vs));
            bv_en_passant_same(x, f as u64, t as u64, vs as u64);
        } else if i == p {
            bv_toggle_twice(x, bit(f) | bit(t));
        } else if i == vp {
            assert(bb_has(x, vs));
            bv_clear_set(x, vs as u64);
        }
    }
    assert(b2.pieces =~= b.pieces);
    bv_en_passant_hash(
        b.hash,
        k.turn_key,
        super::board::pkey(k, p, f),
        super::board::pkey(k, p, t),
        super::board::ekey(k, b.state.en_passant as int),
        super::board::ekey(k, 8),
        super::board::pkey(k, vp, vs),
        super::board::ckey(k, b.state.castle as int),
    );
}

/// The kind bits of a move are those of one of the four kinds.
pub proof fn lemma_move_kinds(v: u16)
    ensures
        v & 0x3000 == 0 || v & 0x3000 == 0x1000 || v & 0x3000 == 0x2000 || v & 0x3000 == 0x3000,
{
    assert(v & 0x3000 == 0 || v & 0x3000 == 0x1000 || v & 0x3000 == 0x2000 || v & 0x3000 == 0x3000)
        by (bit_vector);
}

/// Undoing a move restores the board it was made on: bitboards, squares, extra state and
/// hash, for every move that `make_move` accepts on a well-formed board and that leaves
/// its square (a castle with its rook in the corner and the rook's target empty, an en
/// passant capture onto an empty square beside the pawn it takes).
pub proof fn lemma_unmake_restores_board(b: BoardModel, k: HashTables, m: Move)
    requires
        can_make(b, m),
        well_formed(b),
        restorable(b, m),
    ensures
        can_unmake(made(b, k, m).0, made(b, k, m).1),
        unmade(made(b, k, m).0, k, made(b, k, m).1) == b,
{
    if m@ == NULL {
        bv_toggle_twice(b.hash, k.turn_key);
        let b2 = unmade(made(b, k, m).0, k, made(b, k, m).1);
        assert(b2.state == b.state);
    } else if move_ty(m@) == TYPE_NORMAL {
        lemma_restore_normal(b, k, m);
    } else if move_ty(m@) == TYPE_CASTLE {
        lemma_restore_castle(b, k, m);
    } else if move_ty(m@) == TYPE_PROMOTION {
        lemma_restore_promotion(b, k, m);
    } else {
        lemma_move_kinds(m@);
        lemma_restore_en_passant(b, k, m);
    }
}

} // verus!
