//! What making a move keeps of a board.
use vstd::prelude::*;
use super::bb::{bb_has, lemma_disjoint, popcount, popcount_below};
use super::board::{
    BoardModel, bit, can_make, castle_mask_from, castle_mask_to, castle_rook, ckey, consistent, ekey, en_passant_victim,
    disjoint_pieces, mailbox_matches, made, pkey, position_hash, promote_index, squares_hash, valid_position,
    well_formed,
};
use super::board_laws::{lemma_move_kinds, restorable};
use super::hash::HashTables;
use super::misc::Player;
use super::piece::{SquareContent, content_index, content_of_index};
use crate::chess_core::mov::{
    Move, move_from, move_to, move_ty, promotion_of, NULL, TYPE_CASTLE, TYPE_EN_PASSANT, TYPE_NORMAL, TYPE_PROMOTION,
};
use crate::move_gen::attacks::lemma_bits;

verus! {

/// Membership in the symmetric difference of two sets, and in the set of one square.
proof fn lemma_xor_bits(x: u64, y: u64, s: int)
    requires
        0 <= s < 64,
    ensures
        forall|k: int| 0 <= k < 64 ==> (#[trigger] bb_has(x ^ y, k) <==> (bb_has(x, k) != bb_has(y, k))),
        forall|k: int| 0 <= k < 64 ==> (#[trigger] bb_has(bit(s), k) <==> k == s),
{
    let su = s as u64;
    assert(forall|k: u64|
        k < 64 ==> (((x ^ y) >> k) & 1 == 1 <==> (((x >> k) & 1 == 1) != ((y >> k) & 1 == 1))) && (su < 64 ==> (
        ((1u64 << su) >> k) & 1 == 1 <==> k == su))) by (bit_vector);
    assert forall|k: int| 0 <= k < 64 implies (#[trigger] bb_has(x ^ y, k) <==> (bb_has(x, k) != bb_has(y, k))) by {
        let ku = k as u64;
        assert(((x ^ y) >> ku) & 1 == 1 <==> (((x >> ku) & 1 == 1) != ((y >> ku) & 1 == 1)));
    }
    assert forall|k: int| 0 <= k < 64 implies (#[trigger] bb_has(bit(s), k) <==> k == s) by {
        let ku = k as u64;
        assert(((x ^ y) >> ku) & 1 == 1 <==> (((x >> ku) & 1 == 1) != ((y >> ku) & 1 == 1)));
        assert(((1u64 << su) >> ku) & 1 == 1 <==> ku == su);
    }
}

/// Membership in the set of two squares.
proof fn lemma_two_bits(f: int, t: int)
    requires
        0 <= f < 64,
        0 <= t < 64,
    ensures
        forall|k: int| 0 <= k < 64 ==> (#[trigger] bb_has(bit(f) | bit(t), k) <==> (k == f || k == t)),
{
    lemma_bits(bit(f), bit(t));
    lemma_xor_bits(0, 0, f);
    lemma_xor_bits(0, 0, t);
}

/// Whether a move keeps the bitboards and the squares in step: a normal move does not land
/// on a piece of its own kind, and a castle lands on an empty square.
pub open spec fn lands_cleanly(b: BoardModel, m: Move) -> bool {
    let f = move_from(m@);
    let t = move_to(m@);
    let ty = move_ty(m@);
    m@ != NULL ==> {
        &&& (ty == TYPE_NORMAL ==> content_index(b.squares[t]) != content_index(b.squares[f]))
        &&& (ty == TYPE_CASTLE ==> b.squares[t] == SquareContent::Empty)
    }
}

/// A normal move keeps the bitboards and the squares in step.
proof fn lemma_normal_consistent(b: BoardModel, k: HashTables, m: Move)
    requires
        can_make(b, m),
        well_formed(b),
        restorable(b, m),
        lands_cleanly(b, m),
        m@ != NULL,
        move_ty(m@) == TYPE_NORMAL,
    ensures
        consistent(made(b, k, m).0),
{
    let f = move_from(m@);
    let t = move_to(m@);
    let pc = b.squares[f];
    let p = content_index(pc);
    let taken0 = b.squares[t];
    let ti = content_index(taken0);
    let b1 = made(b, k, m).0;
    assert(b.squares.update(f, SquareContent::Empty)[t] == taken0);
    lemma_two_bits(f, t);
    lemma_xor_bits(b.pieces[p].0, bit(f) | bit(t), t);
    lemma_xor_bits(0, 0, t);
    let pcs1 = b.pieces.update(p, super::bb::BB(b.pieces[p].0 ^ (bit(f) | bit(t))));
    lemma_bits(pcs1[ti].0, bit(t));
    assert(bb_has(b.pieces[p].0, f));
    assert forall|q: int, s: int| 0 <= q < 12 && 0 <= s < 64 implies (bb_has(#[trigger] b1.pieces[q].0, s)
        <==> content_index(#[trigger] b1.squares[s]) == q) by {
        assert(bb_has(b.pieces[q].0, s) <==> content_index(b.squares[s]) == q);
        if s == t {
            assert(bb_has(b.pieces[q].0, f) <==> content_index(b.squares[f]) == q);
        }
    }
}

/// A castle keeps the bitboards and the squares in step.
proof fn lemma_castle_consistent(b: BoardModel, k: HashTables, m: Move)
    requires
        can_make(b, m),
        well_formed(b),
        restorable(b, m),
        lands_cleanly(b, m),
        m@ != NULL,
        move_ty(m@) == TYPE_CASTLE,
    ensures
        consistent(made(b, k, m).0),
{
    let f = move_from(m@);
    let t = move_to(m@);
    let pc = b.squares[f];
    let p = content_index(pc);
    let (rf, rt, rp, rm) = castle_rook(t);
    let b1 = made(b, k, m).0;
    assert(b.squares.update(f, SquareContent::Empty)[t] == SquareContent::Empty);
    assert(content_index(content_of_index(rp)) == rp);
    lemma_two_bits(f, t);
    lemma_two_bits(rf, rt);
    let pcs1 = b.pieces.update(p, super::bb::BB(b.pieces[p].0 ^ (bit(f) | bit(t))));
    lemma_xor_bits(b.pieces[p].0, bit(f) | bit(t), t);
    lemma_xor_bits(pcs1[rp].0, bit(rf) | bit(rt), t);
    assert(bb_has(b.pieces[p].0, f));
    assert(bb_has(b.pieces[rp].0, rf));
    assert forall|q: int, s: int| 0 <= q < 12 && 0 <= s < 64 implies (bb_has(#[trigger] b1.pieces[q].0, s)
        <==> content_index(#[trigger] b1.squares[s]) == q) by {
        assert(bb_has(b.pieces[q].0, s) <==> content_index(b.squares[s]) == q);
    }
}

/// A promotion keeps the bitboards and the squares in step.
proof fn lemma_promotion_consistent(b: BoardModel, k: HashTables, m: Move)
    requires
        can_make(b, m),
        well_formed(b),
        restorable(b, m),
        m@ != NULL,
        move_ty(m@) == TYPE_PROMOTION,
    ensures
        consistent(made(b, k, m).0),
{
    let f = move_from(m@);
    let t = move_to(m@);
    let pc = b.squares[f];
    let p = content_index(pc);
    let taken0 = b.squares[t];
    let ti = content_index(taken0);
    let q = promote_index(promotion_of(m@), b.state.player);
    let b1 = made(b, k, m).0;
    assert(b.squares.update(f, SquareContent::Empty)[t] == taken0);
    assert(content_index(content_of_index(q)) == q);
    lemma_two_bits(f, t);
    lemma_xor_bits(b.pieces[p].0, bit(f) | bit(t), t);
    let pcs1 = b.pieces.update(p, super::bb::BB(b.pieces[p].0 ^ (bit(f) | bit(t))));
    let pcs2 = if taken0 != SquareContent::Empty {
        pcs1.update(ti, super::bb::BB(pcs1[ti].0 & !bit(t)))
    } else {
        pcs1
    };
    let pcs3 = pcs2.update(p, super::bb::BB(pcs2[p].0 & !bit(t)));
    lemma_bits(pcs1[ti].0, bit(t));
    lemma_bits(pcs2[p].0, bit(t));
    lemma_bits(pcs3[q].0, bit(t));
    assert(bb_has(b.pieces[p].0, f));
    assert forall|r: int, s: int| 0 <= r < 12 && 0 <= s < 64 implies (bb_has(#[trigger] b1.pieces[r].0, s)
        <==> content_index(#[trigger] b1.squares[s]) == r) by {
        assert(bb_has(b.pieces[r].0, s) <==> content_index(b.squares[s]) == r);
        assert(bb_has(b.pieces[r].0, f) <==> content_index(b.squares[f]) == r);
    }
}

/// An en passant capture keeps the bitboards and the squares in step.
proof fn lemma_en_passant_consistent(b: BoardModel, k: HashTables, m: Move)
    requires
        can_make(b, m),
        well_formed(b),
        restorable(b, m),
        m@ != NULL,
        move_ty(m@) == TYPE_EN_PASSANT,
    ensures
        consistent(made(b, k, m).0),
{
    let f = move_from(m@);
    let t = move_to(m@);
    let pc = b.squares[f];
    let p = content_index(pc);
    let (vs, vp) = en_passant_victim(b.state.player, t);
    let b1 = made(b, k, m).0;
    assert(b.squares.update(f, SquareContent::Empty)[t] == SquareContent::Empty);
    assert(content_index(content_of_index(vp)) == vp);
    lemma_two_bits(f, t);
    lemma_xor_bits(b.pieces[p].0, bit(f) | bit(t), vs);
    let pcs1 = b.pieces.update(p, super::bb::BB(b.pieces[p].0 ^ (bit(f) | bit(t))));
    lemma_bits(pcs1[vp].0, bit(vs));
    assert(bb_has(b.pieces[p].0, f));
    assert(bb_has(b.pieces[vp].0, vs));
    assert forall|q: int, s: int| 0 <= q < 12 && 0 <= s < 64 implies (bb_has(#[trigger] b1.pieces[q].0, s)
        <==> content_index(#[trigger] b1.squares[s]) == q) by {
        assert(bb_has(b.pieces[q].0, s) <==> content_index(b.squares[s]) == q);
    }
}

/// Making a move keeps a board well formed, its bitboards and squares in step, for every
/// move that `make_move` accepts, that leaves its square, whose castle finds its rook and
/// lands on an empty square, whose en passant capture lands on an empty square beside the
/// pawn it takes, and whose normal move does not land on a piece of its own kind.
pub proof fn lemma_make_keeps_well_formed(b: BoardModel, k: HashTables, m: Move)
    requires
        can_make(b, m),
        well_formed(b),
        restorable(b, m),
        lands_cleanly(b, m),
    ensures
        well_formed(made(b, k, m).0),
{
    if m@ != NULL {
        let ty = move_ty(m@);
        let f = move_from(m@);
        let t = move_to(m@);
        lemma_move_kinds(m@);
        let c0 = b.state.castle;
        if ty == TYPE_NORMAL {
            lemma_normal_consistent(b, k, m);
            super::bb::lemma_clear_bits_small(c0, super::board::castle_mask_to(t) | super::board::castle_mask_from(f));
        } else if ty == TYPE_CASTLE {
            lemma_castle_consistent(b, k, m);
            super::bb::lemma_clear_bits_small(c0, castle_rook(t).3);
        } else if ty == TYPE_PROMOTION {
            lemma_promotion_consistent(b, k, m);
            super::bb::lemma_clear_bits_small(c0, super::board::castle_mask_to(t));
        } else {
            lemma_en_passant_consistent(b, k, m);
        }
    }
}

/// The hash key of a square content on a square: that of its piece there, none when empty.
pub open spec fn square_key(k: HashTables, c: SquareContent, s: int) -> u64 {
    if c != SquareContent::Empty {
        pkey(k, content_index(c), s)
    } else {
        0u64
    }
}

/// Toggling keys in another order, and toggling one twice.
proof fn bv_xor_shuffle(x: u64, a: u64, c: u64, d: u64)
    ensures
        (x ^ a) ^ a ^ c == x ^ c,
        ((x ^ a) ^ c) ^ d == ((x ^ d) ^ a) ^ c,
        x ^ 0u64 == x,
{
    assert((x ^ a) ^ a ^ c == x ^ c && ((x ^ a) ^ c) ^ d == ((x ^ d) ^ a) ^ c && x ^ 0u64 == x) by (bit_vector);
}

/// Changing a square beyond the first `n` leaves their hash as it was.
proof fn lemma_squares_hash_beyond(sq: Seq<SquareContent>, k: HashTables, n: nat, s: int, c: SquareContent)
    requires
        n <= s < sq.len(),
    ensures
        squares_hash(sq.update(s, c), k, n) == squares_hash(sq, k, n),
    decreases n,
{
    if n > 0 {
        lemma_squares_hash_beyond(sq, k, (n - 1) as nat, s, c);
    }
}

/// Changing one of the first `n` squares toggles the key of its old content and that of the
/// new one in their hash.
proof fn lemma_squares_hash_update(sq: Seq<SquareContent>, k: HashTables, n: nat, s: int, c: SquareContent)
    requires
        0 <= s < n <= sq.len(),
    ensures
        squares_hash(sq.update(s, c), k, n) == squares_hash(sq, k, n) ^ square_key(k, sq[s], s) ^ square_key(k, c, s),
    decreases n,
{
    let m = (n - 1) as nat;
    let x = squares_hash(sq, k, m);
    if m == s {
        lemma_squares_hash_beyond(sq, k, m, s, c);
        bv_xor_shuffle(x, square_key(k, sq[s], s), square_key(k, c, s), 0);
    } else {
        lemma_squares_hash_update(sq, k, m, s, c);
        bv_xor_shuffle(x, square_key(k, sq[s], s), square_key(k, c, s), square_key(k, sq[m as int], m as int));
    }
}

/// The hash a move leaves equals the hash of the position it makes, for each kind of move:
/// `i` is the initial key, `sh` the hash of the squares before, `c0`, `c1` the keys of the
/// castling rights before and after, `e0`, `e8`, `ef` the keys of the en passant states
/// before, of none, and of the file moved from, `tk` the turn key, `pf`, `pt` the keys of
/// the piece on the squares it leaves and reaches, `x` the key of the piece taken, `r1`,
/// `r2` the keys of a castling rook or of a pawn taken en passant, `qt` the key of the piece
/// promoted to.
#[verifier::rlimit(100)]
proof fn bv_made_hash(
    i: u64,
    sh: u64,
    c0: u64,
    c1: u64,
    e0: u64,
    e8: u64,
    ef: u64,
    tk: u64,
    pf: u64,
    pt: u64,
    x: u64,
    r1: u64,
    r2: u64,
    qt: u64,
    taken: bool,
    double: bool,
    black: bool,
)
    ensures
        ({
            let h = i ^ sh ^ c0 ^ e0 ^ (if black { tk } else { 0u64 });
            let turn2 = if black { 0u64 } else { tk };
            let h1 = h ^ tk ^ pf ^ pt ^ e0 ^ e8;
            let xk = if taken { x } else { 0u64 };
            &&& ((if double { (if taken { h1 ^ x } else { h1 }) ^ e8 ^ ef } else { if taken { h1 ^ x } else { h1 } })
                ^ c0 ^ c1) == i ^ (((sh ^ pf ^ 0u64) ^ xk ^ pt)) ^ c1 ^ (if double { ef } else { e8 }) ^ turn2
            &&& h1 ^ c0 ^ c1 ^ r1 ^ r2 == i ^ ((((sh ^ pf ^ 0u64) ^ 0u64 ^ pt) ^ r1 ^ 0u64) ^ 0u64 ^ r2) ^ c1 ^ e8
                ^ turn2
            &&& (if taken { h1 ^ x } else { h1 }) ^ pt ^ qt ^ c0 ^ c1 == i ^ ((((sh ^ pf ^ 0u64) ^ xk ^ pt) ^ pt
                ^ qt)) ^ c1 ^ e8 ^ turn2
            &&& h1 ^ r1 == i ^ ((((sh ^ pf ^ 0u64) ^ 0u64 ^ pt) ^ r1 ^ 0u64)) ^ c0 ^ e8 ^ turn2
            &&& h ^ tk == i ^ sh ^ c0 ^ e0 ^ turn2
        }),
{
    assert({
        let h = i ^ sh ^ c0 ^ e0 ^ (if black { tk } else { 0u64 });
        let turn2 = if black { 0u64 } else { tk };
        let h1 = h ^ tk ^ pf ^ pt ^ e0 ^ e8;
        let xk = if taken { x } else { 0u64 };
        &&& ((if double { (if taken { h1 ^ x } else { h1 }) ^ e8 ^ ef } else { if taken { h1 ^ x } else { h1 } })
            ^ c0 ^ c1) == i ^ (((sh ^ pf ^ 0u64) ^ xk ^ pt)) ^ c1 ^ (if double { ef } else { e8 }) ^ turn2
        &&& h1 ^ c0 ^ c1 ^ r1 ^ r2 == i ^ ((((sh ^ pf ^ 0u64) ^ 0u64 ^ pt) ^ r1 ^ 0u64) ^ 0u64 ^ r2) ^ c1 ^ e8
            ^ turn2
        &&& (if taken { h1 ^ x } else { h1 }) ^ pt ^ qt ^ c0 ^ c1 == i ^ ((((sh ^ pf ^ 0u64) ^ xk ^ pt) ^ pt ^ qt))
            ^ c1 ^ e8 ^ turn2
        &&& h1 ^ r1 == i ^ ((((sh ^ pf ^ 0u64) ^ 0u64 ^ pt) ^ r1 ^ 0u64)) ^ c0 ^ e8 ^ turn2
        &&& h ^ tk == i ^ sh ^ c0 ^ e0 ^ turn2
    }) by (bit_vector);
}

/// Making a move keeps the hash of a board equal to the hash of its position, for every
/// move that `make_move` accepts, that leaves its square, whose castle finds its rook and
/// lands on an empty square, and whose en passant capture lands on an empty square beside
/// the pawn it takes.
pub proof fn lemma_make_keeps_hash(b: BoardModel, k: HashTables, m: Move)
    requires
        can_make(b, m),
        well_formed(b),
        restorable(b, m),
        lands_cleanly(b, m),
        b.hash == position_hash(b, k),
    ensures
        made(b, k, m).0.hash == position_hash(made(b, k, m).0, k),
{
    let sq = b.squares;
    let st = b.state;
    let i = k.initial_key;
    let sh = squares_hash(sq, k, 64);
    let tk = k.turn_key;
    let black = st.player == Player::Black;
    let c0 = ckey(k, st.castle as int);
    let e0 = ekey(k, st.en_passant as int);
    let e8 = ekey(k, 8);
    if m@ == NULL {
        bv_made_hash(i, sh, c0, 0, e0, e8, 0, tk, 0, 0, 0, 0, 0, 0, false, false, black);
    } else {
        let f = move_from(m@);
        let t = move_to(m@);
        let ty = move_ty(m@);
        let pc = sq[f];
        let p = content_index(pc);
        let pf = pkey(k, p, f);
        let pt = pkey(k, p, t);
        let sq_a = sq.update(f, SquareContent::Empty);
        let sq1 = sq_a.update(t, pc);
        lemma_squares_hash_update(sq, k, 64, f, SquareContent::Empty);
        lemma_squares_hash_update(sq_a, k, 64, t, pc);
        assert(sq_a[t] == sq[t]);
        lemma_move_kinds(m@);
        let b1 = made(b, k, m).0;
        if ty == TYPE_NORMAL {
            let taken0 = sq[t];
            let taken = taken0 != SquareContent::Empty;
            let x = pkey(k, content_index(taken0), t);
            let double = m@ & 0xc000 != 0;
            let mask = castle_mask_to(t) | castle_mask_from(f);
            let c1 = ckey(k, (st.castle & !mask) as int);
            let ef = ekey(k, f % 8);
            assert(b1.squares == sq1);
            bv_made_hash(i, sh, c0, c1, e0, e8, ef, tk, pf, pt, x, 0, 0, 0, taken, double, black);
        } else if ty == TYPE_CASTLE {
            let (rf, rt, rp, rm) = castle_rook(t);
            let sq2 = sq1.update(rf, SquareContent::Empty);
            let sq3 = sq2.update(rt, content_of_index(rp));
            lemma_squares_hash_update(sq1, k, 64, rf, SquareContent::Empty);
            lemma_squares_hash_update(sq2, k, 64, rt, content_of_index(rp));
            assert(content_index(content_of_index(rp)) == rp);
            let r1 = pkey(k, rp, rf);
            let r2 = pkey(k, rp, rt);
            let c1 = ckey(k, (st.castle & !rm) as int);
            assert(b1.squares == sq3);
            bv_made_hash(i, sh, c0, c1, e0, e8, 0, tk, pf, pt, 0, r1, r2, 0, false, false, black);
        } else if ty == TYPE_PROMOTION {
            let taken0 = sq[t];
            let taken = taken0 != SquareContent::Empty;
            let x = pkey(k, content_index(taken0), t);
            let q = promote_index(promotion_of(m@), st.player);
            let sq2 = sq1.update(t, content_of_index(q));
            lemma_squares_hash_update(sq1, k, 64, t, content_of_index(q));
            assert(content_index(content_of_index(q)) == q);
            let qt = pkey(k, q, t);
            let c1 = ckey(k, (st.castle & !castle_mask_to(t)) as int);
            assert(b1.squares == sq2);
            bv_made_hash(i, sh, c0, c1, e0, e8, 0, tk, pf, pt, x, 0, 0, qt, taken, false, black);
        } else {
            let (vs, vp) = en_passant_victim(st.player, t);
            let sq2 = sq1.update(vs, SquareContent::Empty);
            lemma_squares_hash_update(sq1, k, 64, vs, SquareContent::Empty);
            assert(content_index(content_of_index(vp)) == vp);
            let r1 = pkey(k, vp, vs);
            assert(b1.squares == sq2);
            bv_made_hash(i, sh, c0, 0, e0, e8, 0, tk, pf, pt, 0, r1, 0, 0, false, false, black);
        }
    }
}

/// The number of the first `n` squares that hold the given content.
pub open spec fn content_count(sq: Seq<SquareContent>, c: SquareContent, n: nat) -> nat
    decreases n,
{
    if n == 0 {
        0
    } else {
        content_count(sq, c, (n - 1) as nat) + if sq[n - 1] == c { 1nat } else { 0nat }
    }
}

/// A bitboard that holds exactly the squares with a given content has as many squares as
/// there are squares with that content.
proof fn lemma_popcount_count(x: u64, sq: Seq<SquareContent>, c: SquareContent, n: nat)
    requires
        n <= 64,
        forall|s: int| 0 <= s < 64 ==> (bb_has(x, s) <==> sq[s] == c),
    ensures
        popcount_below(x, n) == content_count(sq, c, n),
    decreases n,
{
    if n > 0 {
        lemma_popcount_count(x, sq, c, (n - 1) as nat);
        assert(bb_has(x, n - 1) <==> sq[n - 1] == c);
    }
}

/// Changing a square beyond the first `n` leaves their count as it was.
proof fn lemma_count_beyond(sq: Seq<SquareContent>, c: SquareContent, n: nat, s: int, v: SquareContent)
    requires
        n <= s < sq.len(),
    ensures
        content_count(sq.update(s, v), c, n) == content_count(sq, c, n),
    decreases n,
{
    if n > 0 {
        lemma_count_beyond(sq, c, (n - 1) as nat, s, v);
    }
}

/// Changing one of the first `n` squares changes their count by what leaves and what comes.
proof fn lemma_count_update(sq: Seq<SquareContent>, c: SquareContent, n: nat, s: int, v: SquareContent)
    requires
        0 <= s < n <= sq.len(),
    ensures
        content_count(sq.update(s, v), c, n) + (if sq[s] == c { 1int } else { 0int }) == content_count(sq, c, n) + (
        if v == c { 1int } else { 0int }),
    decreases n,
{
    let m = (n - 1) as nat;
    if m == s {
        lemma_count_beyond(sq, c, m, s, v);
    } else {
        lemma_count_update(sq, c, m, s, v);
    }
}

/// The king of a colour: white for 0, black for 1.
pub open spec fn king_content(side: int) -> SquareContent {
    if side == 0 {
        SquareContent::WhiteKing
    } else {
        SquareContent::BlackKing
    }
}

/// A move keeps the number of kings of each colour.
proof fn lemma_made_kings(b: BoardModel, k: HashTables, m: Move, side: int)
    requires
        can_make(b, m),
        well_formed(b),
        restorable(b, m),
        lands_cleanly(b, m),
        0 <= side < 2,
    ensures
        content_count(made(b, k, m).0.squares, king_content(side), 64) == content_count(b.squares, king_content(side), 64),
{
    let kc = king_content(side);
    if m@ != NULL {
        let sq = b.squares;
        let f = move_from(m@);
        let t = move_to(m@);
        let ty = move_ty(m@);
        let pc = sq[f];
        let sq_a = sq.update(f, SquareContent::Empty);
        let sq1 = sq_a.update(t, pc);
        lemma_count_update(sq, kc, 64, f, SquareContent::Empty);
        lemma_count_update(sq_a, kc, 64, t, pc);
        assert(sq_a[t] == sq[t]);
        lemma_move_kinds(m@);
        let b1 = made(b, k, m).0;
        if ty == TYPE_NORMAL {
            assert(b1.squares == sq1);
        } else if ty == TYPE_CASTLE {
            let (rf, rt, rp, rm) = castle_rook(t);
            let sq2 = sq1.update(rf, SquareContent::Empty);
            lemma_count_update(sq1, kc, 64, rf, SquareContent::Empty);
            lemma_count_update(sq2, kc, 64, rt, content_of_index(rp));
            assert(b1.squares == sq2.update(rt, content_of_index(rp)));
        } else if ty == TYPE_PROMOTION {
            let q = promote_index(promotion_of(m@), b.state.player);
            lemma_count_update(sq1, kc, 64, t, content_of_index(q));
            assert(b1.squares == sq1.update(t, content_of_index(q)));
            assert(content_index(pc) == 2 + super::misc::player_index(b.state.player));
        } else {
            let (vs, vp) = en_passant_victim(b.state.player, t);
            lemma_count_update(sq1, kc, 64, vs, SquareContent::Empty);
            assert(b1.squares == sq1.update(vs, SquareContent::Empty));
        }
    }
}

/// A board whose bitboards and squares agree has no square in two bitboards, every piece of
/// the squares in its bitboard, and as many kings of a colour in its bitboard as on its
/// squares.
proof fn lemma_consistent_valid(b: BoardModel)
    requires
        consistent(b),
    ensures
        disjoint_pieces(b),
        mailbox_matches(b),
        popcount(b.pieces[0].0) == content_count(b.squares, king_content(0), 64),
        popcount(b.pieces[1].0) == content_count(b.squares, king_content(1), 64),
{
    assert forall|pa: int, pb: int| 0 <= pb < pa < 12 implies #[trigger] b.pieces[pa].0 & #[trigger] b.pieces[pb].0
        == 0 by {
        lemma_disjoint(b.pieces[pa].0, b.pieces[pb].0);
        assert forall|s: int| 0 <= s < 64 implies !(#[trigger] bb_has(b.pieces[pa].0, s) && bb_has(b.pieces[pb].0, s)) by {
            assert(bb_has(b.pieces[pa].0, s) <==> content_index(b.squares[s]) == pa);
            assert(bb_has(b.pieces[pb].0, s) <==> content_index(b.squares[s]) == pb);
        }
    }
    assert forall|s: int| 0 <= s < 64 implies if #[trigger] b.squares[s] != SquareContent::Empty {
        bb_has(b.pieces[content_index(b.squares[s])].0, s)
    } else {
        forall|p: int| 0 <= p < 12 ==> !bb_has(#[trigger] b.pieces[p].0, s)
    } by {
        let ci = content_index(b.squares[s]);
        if b.squares[s] != SquareContent::Empty {
            assert(bb_has(b.pieces[ci].0, s) <==> content_index(b.squares[s]) == ci);
        } else {
            assert forall|p: int| 0 <= p < 12 implies !bb_has(#[trigger] b.pieces[p].0, s) by {
                assert(bb_has(b.pieces[p].0, s) <==> content_index(b.squares[s]) == p);
            }
        }
    }
    assert forall|s: int| 0 <= s < 64 implies (bb_has(b.pieces[0].0, s) <==> b.squares[s] == king_content(0)) by {
        assert(bb_has(b.pieces[0].0, s) <==> content_index(b.squares[s]) == 0);
    }
    assert forall|s: int| 0 <= s < 64 implies (bb_has(b.pieces[1].0, s) <==> b.squares[s] == king_content(1)) by {
        assert(bb_has(b.pieces[1].0, s) <==> content_index(b.squares[s]) == 1);
    }
    lemma_popcount_count(b.pieces[0].0, b.squares, king_content(0), 64);
    lemma_popcount_count(b.pieces[1].0, b.squares, king_content(1), 64);
}

/// Making a move on a valid position gives a valid position: one king of each colour, no
/// square in two bitboards, squares and bitboards in step, and the hash of the position,
/// for every move that `make_move` accepts, that leaves its square, whose castle finds its
/// rook and lands on an empty square, whose en passant capture lands on an empty square
/// beside the pawn it takes, and whose normal move does not land on a piece of its own kind.
pub proof fn lemma_make_keeps_valid(b: BoardModel, k: HashTables, m: Move)
    requires
        can_make(b, m),
        well_formed(b),
        restorable(b, m),
        lands_cleanly(b, m),
        valid_position(b, k),
    ensures
        valid_position(made(b, k, m).0, k),
{
    let b1 = made(b, k, m).0;
    lemma_make_keeps_well_formed(b, k, m);
    lemma_make_keeps_hash(b, k, m);
    lemma_consistent_valid(b);
    lemma_consistent_valid(b1);
    lemma_made_kings(b, k, m, 0);
    lemma_made_kings(b, k, m, 1);
}

/// The move clock counts quiet moves: a normal move of a piece other than a pawn to an
/// empty square, after which the castling rights are as they were, adds one to it; every
/// other move but the null move sets it back to zero.
pub proof fn lemma_move_clock(b: BoardModel, k: HashTables, m: Move)
    requires
        can_make(b, m),
        m@ != NULL,
        move_from(m@) != move_to(m@),
    ensures
        ({
            let f = move_from(m@);
            let t = move_to(m@);
            let p = content_index(b.squares[f]);
            let after = made(b, k, m).0;
            let quiet = move_ty(m@) == TYPE_NORMAL && p != 2 && p != 3 && b.squares[t] == SquareContent::Empty
                && after.state.castle == b.state.castle;
            &&& quiet ==> after.state.move_clock == b.state.move_clock + 1
            &&& !quiet ==> after.state.move_clock == 0
        }),
{
    let f = move_from(m@);
    let t = move_to(m@);
    let c0 = b.state.castle;
    let mask = castle_mask_to(t) | castle_mask_from(f);
    assert(b.squares.update(f, SquareContent::Empty)[t] == b.squares[t]);
    assert(forall|c: u8, mk: u8| (c & !mk == c) <==> (mk & c == 0)) by (bit_vector);
    assert((c0 & !mask == c0) <==> (mask & c0 == 0));
}

} // verus!
