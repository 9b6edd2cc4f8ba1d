//! Which squares the pieces of a side attack.
use vstd::prelude::*;
use super::tables::{
    Tables, add_if, between_has, bishop_attack, collinear, coords, dist, dist_exec, file_of,
    knight_attack, rank_of, rook_attack,
};
use crate::chess_core::util::PieceArray;
use crate::common::bb::{BB, bb_has, lemma_empty, lemma_set_bit, popcount, popcount_below};
use crate::common::square::Square;

verus! {

/// Membership in the intersection, the union and the difference of two sets.
pub proof fn lemma_bits(x: u64, y: u64)
    ensures
        forall|k: int| 0 <= k < 64 ==> (#[trigger] bb_has(x & y, k) <==> (bb_has(x, k) && bb_has(y, k))),
        forall|k: int| 0 <= k < 64 ==> (#[trigger] bb_has(x | y, k) <==> (bb_has(x, k) || bb_has(y, k))),
        forall|k: int| 0 <= k < 64 ==> (#[trigger] bb_has(x & !y, k) <==> (bb_has(x, k) && !bb_has(y, k))),
        forall|k: int| 0 <= k < 64 ==> (#[trigger] bb_has(!y, k) <==> !bb_has(y, k)),
{
    assert(forall|k: u64|
        k < 64 ==> (((x & y) >> k) & 1 == 1 <==> ((x >> k) & 1 == 1 && (y >> k) & 1 == 1)) && (((x | y) >> k) & 1
            == 1 <==> ((x >> k) & 1 == 1 || (y >> k) & 1 == 1)) && (((x & !y) >> k) & 1 == 1 <==> ((x >> k) & 1 == 1
            && (y >> k) & 1 != 1)) && (((!y) >> k) & 1 == 1 <==> (y >> k) & 1 != 1)) by (bit_vector);
    assert forall|k: int| 0 <= k < 64 implies (bb_has(x & y, k) <==> (bb_has(x, k) && bb_has(y, k))) && (bb_has(
        x | y,
        k,
    ) <==> (bb_has(x, k) || bb_has(y, k))) && (bb_has(x & !y, k) <==> (bb_has(x, k) && !bb_has(y, k))) && (bb_has(
        !y,
        k,
    ) <==> !bb_has(y, k)) by {
        let ku = k as u64;
        assert(((x & y) >> ku) & 1 == 1 <==> ((x >> ku) & 1 == 1 && (y >> ku) & 1 == 1));
    }
}

/// Whether a pawn of white (when `white`) or of black on `s` attacks `t`: a neighbouring
/// file, one rank forward.
pub open spec fn pawn_attack(white: bool, s: int, t: int) -> bool {
    &&& dist(file_of(s), file_of(t)) == 1
    &&& rank_of(t) == if white {
        rank_of(s) + 1
    } else {
        rank_of(s) - 1
    }
}

/// Whether the piece with number `k` stands on `s`.
pub open spec fn piece_on(pieces: Seq<BB>, k: int, s: int) -> bool {
    bb_has(pieces[k].0, s)
}

/// Whether a piece of `side` (0 for white, 1 for black) other than its king, standing on
/// `s`, attacks `t` when the squares in `occ` are occupied.
pub open spec fn checker_attack(pieces: Seq<BB>, occ: u64, side: int, s: int, t: int) -> bool {
    ||| piece_on(pieces, 6 + side, s) && knight_attack(s, t)
    ||| (piece_on(pieces, 4 + side, s) || piece_on(pieces, 10 + side, s)) && bishop_attack(s, t, occ)
    ||| (piece_on(pieces, 8 + side, s) || piece_on(pieces, 10 + side, s)) && rook_attack(s, t, occ)
    ||| piece_on(pieces, 2 + side, s) && pawn_attack(side == 0, s, t)
}

/// Whether some piece of `side` other than its king attacks `t`.
pub open spec fn checked_by(pieces: Seq<BB>, occ: u64, side: int, t: int) -> bool {
    exists|s: int| 0 <= s < 64 && #[trigger] checker_attack(pieces, occ, side, s, t)
}

/// Whether `q` is the lowest square of the set `x`.
pub open spec fn lowest(x: u64, q: int) -> bool {
    0 <= q < 64 && bb_has(x, q) && forall|t: int| 0 <= t < q ==> !bb_has(x, t)
}

/// The squares a pawn of white (when `white`) or of black on `sq` attacks.
pub fn pawn_attacks(sq: Square, white: bool) -> (r: BB)
    ensures
        forall|t: int| 0 <= t < 64 ==> (bb_has(r.0, t) <==> pawn_attack(white, sq@, t)),
{
    let s = sq.get();
    let (fs, rs) = coords(s);
    let rt: i32 = if white { rs + 1 } else { rs - 1 };
    let mut m: u64 = 0;
    proof {
        lemma_empty();
    }
    if 0 <= rt && rt < 8 {
        if fs > 0 {
            m = add_if(m, (8 * rt + fs - 1) as u8, true);
        }
        if fs < 7 {
            m = add_if(m, (8 * rt + fs + 1) as u8, true);
        }
    }
    proof {
        assert forall|t: int| 0 <= t < 64 implies (bb_has(m, t) <==> pawn_attack(white, s as int, t)) by {
            if pawn_attack(white, s as int, t) {
                assert(t == 8 * rank_of(t) + file_of(t));
            }
        }
    }
    BB(m)
}

/// The set without the square `s`.
pub(crate) fn without(x: BB, s: Square) -> (r: BB)
    ensures
        forall|k: int| 0 <= k < 64 ==> (#[trigger] bb_has(r.0, k) <==> (bb_has(x.0, k) && k != s@)),
{
    let one = BB::square(s);
    proof {
        lemma_bits(x.0, one.0);
    }
    x.and(one.not())
}

/// Adds the squares of `a` to `m` when `add` holds.
fn union_if(m: u64, a: BB, add: bool) -> (r: u64)
    ensures
        forall|k: int| 0 <= k < 64 ==> (bb_has(r, k) <==> (bb_has(m, k) || (add && bb_has(a.0, k)))),
{
    if add {
        proof {
            lemma_bits(m, a.0);
        }
        m | a.0
    } else {
        m
    }
}

/// Whether the square is in the set.
pub fn contains(b: BB, sq: Square) -> (r: bool)
    ensures
        r == bb_has(b.0, sq@),
{
    let s = sq.get();
    (b.0 >> s) & 1 == 1
}

/// The squares that the piece of `side` on `sq` other than its king, if any, attacks.
pub fn square_attacks(tables: &Tables, pieces: &PieceArray<BB>, side: u8, sq: Square, occ: BB) -> (r: BB)
    requires
        side < 2,
    ensures
        forall|t: int| 0 <= t < 64 ==> (bb_has(r.0, t) <==> checker_attack(pieces.0@, occ.0, side as int, sq@, t)),
{
    let s = sq;
    let pawn = contains(pieces.get(2 + side), s);
    let bishop = contains(pieces.get(4 + side), s);
    let knight = contains(pieces.get(6 + side), s);
    let rook = contains(pieces.get(8 + side), s);
    let queen = contains(pieces.get(10 + side), s);
    let mut m: u64 = 0;
    proof {
        lemma_empty();
    }
    if knight {
        m = union_if(m, tables.knight_attacks(s), true);
    }
    if bishop || queen {
        m = union_if(m, tables.bishop_attacks(s, occ), true);
    }
    if rook || queen {
        m = union_if(m, tables.rook_attacks(s, occ), true);
    }
    if pawn {
        m = union_if(m, pawn_attacks(s, side == 0), true);
    }
    BB(m)
}

/// The squares that some piece of `side` other than its king attacks when the squares in
/// `occ` are occupied.
pub fn checked_squares(tables: &Tables, pieces: &PieceArray<BB>, side: u8, occ: BB) -> (r: BB)
    requires
        side < 2,
    ensures
        forall|t: int| 0 <= t < 64 ==> (bb_has(r.0, t) <==> checked_by(pieces.0@, occ.0, side as int, t)),
{
    let ghost ps = pieces.0@;
    let mut m: u64 = 0;
    proof {
        lemma_empty();
    }
    let u = pieces.get(2 + side).or(pieces.get(4 + side)).or(pieces.get(6 + side)).or(pieces.get(8 + side)).or(
        pieces.get(10 + side),
    );
    proof {
        let (p2, p4, p6, p8, p10) = (ps[2 + side].0, ps[4 + side].0, ps[6 + side].0, ps[8 + side].0, ps[10 + side].0);
        lemma_bits(p2, p4);
        lemma_bits(p2 | p4, p6);
        lemma_bits(p2 | p4 | p6, p8);
        lemma_bits(p2 | p4 | p6 | p8, p10);
    }
    let mut rest = u;
    let mut s: u8 = 0;
    while rest.any()
        invariant
            s <= 64,
            side < 2,
            ps == pieces.0@,
            forall|k: int| 0 <= k < 64 ==> (#[trigger] bb_has(rest.0, k) <==> (bb_has(u.0, k) && k >= s)),
            forall|a: int, t: int|
                0 <= a < 64 && #[trigger] checker_attack(ps, occ.0, side as int, a, t) ==> bb_has(u.0, a),
            forall|t: int|
                0 <= t < 64 ==> (#[trigger] bb_has(m, t) <==> exists|a: int|
                    0 <= a < s && #[trigger] checker_attack(ps, occ.0, side as int, a, t)),
        decreases 64 - s,
    {
        let sq = rest.first_piece();
        let ghost s0 = s;
        s = sq.get();
        proof {
            assert forall|t: int| 0 <= t < 64 implies (#[trigger] bb_has(m, t) <==> exists|b: int|
                0 <= b < s && #[trigger] checker_attack(ps, occ.0, side as int, b, t)) by {
                if exists|b: int| 0 <= b < s && #[trigger] checker_attack(ps, occ.0, side as int, b, t) {
                    let b = choose|b: int| 0 <= b < s && #[trigger] checker_attack(ps, occ.0, side as int, b, t);
                    if b >= s0 {
                        assert(bb_has(rest.0, b));
                    } else {
                        assert(0 <= b < s0 && checker_attack(ps, occ.0, side as int, b, t));
                    }
                }
                if bb_has(m, t) {
                    let b = choose|b: int| 0 <= b < s0 && #[trigger] checker_attack(ps, occ.0, side as int, b, t);
                    assert(0 <= b < s && checker_attack(ps, occ.0, side as int, b, t));
                }
            }
        }
        let a = square_attacks(tables, pieces, side, Square::new(s), occ);
        let ghost before = m;
        proof {
            lemma_bits(m, a.0);
        }
        m = m | a.0;
        assert forall|t: int| 0 <= t < 64 implies (#[trigger] bb_has(m, t) <==> exists|b: int|
            0 <= b < s + 1 && #[trigger] checker_attack(ps, occ.0, side as int, b, t)) by {
            if bb_has(m, t) {
                if bb_has(before, t) {
                    let b = choose|b: int| 0 <= b < s && #[trigger] checker_attack(ps, occ.0, side as int, b, t);
                    assert(0 <= b < s + 1 && checker_attack(ps, occ.0, side as int, b, t));
                } else {
                    assert(checker_attack(ps, occ.0, side as int, s as int, t));
                }
            }
            if exists|b: int| 0 <= b < s + 1 && #[trigger] checker_attack(ps, occ.0, side as int, b, t) {
                let b = choose|b: int| 0 <= b < s + 1 && #[trigger] checker_attack(ps, occ.0, side as int, b, t);
                if b < s {
                    assert(bb_has(before, t));
                } else {
                    assert(bb_has(a.0, t));
                }
            }
        }
        s = s + 1;
        rest = without(rest, sq);
    }
    proof {
        assert forall|t: int| 0 <= t < 64 implies (bb_has(m, t) <==> checked_by(ps, occ.0, side as int, t)) by {
            if checked_by(ps, occ.0, side as int, t) {
                let b = choose|b: int| 0 <= b < 64 && #[trigger] checker_attack(ps, occ.0, side as int, b, t);
                if b >= s {
                    assert(bb_has(rest.0, b));
                }
            }
        }
    }
    BB(m)
}

/// Whether `k` lies on the line through `i` and `j` does not depend on their order.
pub proof fn lemma_collinear_symmetric(i: int, j: int, k: int)
    ensures
        collinear(i, j, k) == collinear(j, i, k),
{
    let (fi, ri, fj, rj, fk, rk) = (file_of(i), rank_of(i), file_of(j), rank_of(j), file_of(k), rank_of(k));
    assert((fk - fi) * (rj - ri) - (rk - ri) * (fj - fi) == -((fk - fj) * (ri - rj) - (rk - rj) * (fi - fj)))
        by (nonlinear_arith);
}

/// The squares between two squares do not depend on their order.
pub proof fn lemma_between_symmetric(i: int, j: int)
    ensures
        forall|k: int| #[trigger] between_has(i, j, k) == between_has(j, i, k),
{
    assert forall|k: int| #[trigger] between_has(i, j, k) == between_has(j, i, k) by {
        lemma_collinear_symmetric(i, j, k);
    }
}

/// A rook or bishop on `s` attacks `t` exactly when one on `t` attacks `s`.
pub proof fn lemma_slider_symmetric(s: int, t: int, occ: u64)
    ensures
        rook_attack(s, t, occ) == rook_attack(t, s, occ),
        bishop_attack(s, t, occ) == bishop_attack(t, s, occ),
{
    lemma_between_symmetric(s, t);
}

/// A set with a square in it is not empty, and a set that is not empty has a square in it.
pub proof fn lemma_nonempty(x: u64)
    ensures
        (x != 0) <==> exists|s: int| 0 <= s < 64 && #[trigger] bb_has(x, s),
{
    lemma_empty();
    if x != 0 {
        vstd::std_specs::bits::axiom_u64_trailing_zeros(x);
        let k = vstd::std_specs::bits::u64_trailing_zeros(x);
        assert(bb_has(x, k as int));
    }
}

/// The pieces of `side` other than its king that attack the square `k`, found by looking
/// from `k` the way each kind of piece moves.
pub fn attackers_of(tables: &Tables, pieces: &PieceArray<BB>, side: u8, k: Square, occ: BB) -> (r: BB)
    requires
        side < 2,
    ensures
        forall|s: int| 0 <= s < 64 ==> (#[trigger] bb_has(r.0, s) <==> checker_attack(pieces.0@, occ.0, side as int, s, k@)),
{
    let ps = pieces;
    let bishops = ps.get(10 + side).or(ps.get(4 + side));
    let rooks = ps.get(10 + side).or(ps.get(8 + side));
    let ba = tables.bishop_attacks(k, occ);
    let ra = tables.rook_attacks(k, occ);
    let na = tables.knight_attacks(k);
    let pa = pawn_attacks(k, side != 0);
    let a1 = ba.and(bishops);
    let a2 = ra.and(rooks);
    let a3 = na.and(ps.get(6 + side));
    let a4 = pa.and(ps.get(2 + side));
    let r = a1.or(a2).or(a3).or(a4);
    proof {
        let pcs = pieces.0@;
        lemma_bits(pcs[10 + side].0, pcs[4 + side].0);
        lemma_bits(pcs[10 + side].0, pcs[8 + side].0);
        lemma_bits(ba.0, bishops.0);
        lemma_bits(ra.0, rooks.0);
        lemma_bits(na.0, pcs[6 + side].0);
        lemma_bits(pa.0, pcs[2 + side].0);
        lemma_bits(a1.0, a2.0);
        lemma_bits(a1.0 | a2.0, a3.0);
        lemma_bits(a1.0 | a2.0 | a3.0, a4.0);
        assert forall|s: int| 0 <= s < 64 implies (#[trigger] bb_has(r.0, s) <==> checker_attack(
            pcs,
            occ.0,
            side as int,
            s,
            k@,
        )) by {
            lemma_slider_symmetric(s, k@, occ.0);
        }
    }
    r
}

/// The lowest square of a set is unique, and a set that is not empty has one.
pub proof fn lemma_lowest(x: u64)
    ensures
        forall|a: int, b: int| lowest(x, a) && lowest(x, b) ==> a == b,
        x != 0 ==> lowest(x, choose|k: int| lowest(x, k)),
{
    assert forall|a: int, b: int| lowest(x, a) && lowest(x, b) implies a == b by {
        if a < b {
            assert(forall|t: int| 0 <= t < b ==> !bb_has(x, t));
            assert(!bb_has(x, a));
        } else if b < a {
            assert(forall|t: int| 0 <= t < a ==> !bb_has(x, t));
            assert(!bb_has(x, b));
        }
    }
    if x != 0 {
        vstd::std_specs::bits::axiom_u64_trailing_zeros(x);
        let k = vstd::std_specs::bits::u64_trailing_zeros(x) as int;
        assert forall|t: int| 0 <= t < k implies !bb_has(x, t) by {
            let tu = t as u64;
            assert((x >> tu) & 1u64 == 0u64);
        }
        assert(lowest(x, k));
    }
}

/// The square of the king of `side`: the lowest square of its bitboard.
pub open spec fn king_square(pieces: Seq<BB>, side: int) -> int {
    choose|k: int| lowest(pieces[side].0, k)
}

/// The set of the squares below `n` for which `p` holds.
pub open spec fn mask_below(p: spec_fn(int) -> bool, n: nat) -> u64
    decreases n,
{
    if n == 0 {
        0
    } else {
        let m = mask_below(p, (n - 1) as nat);
        if p(n - 1) {
            m | (1u64 << ((n - 1) as u64))
        } else {
            m
        }
    }
}

/// The set of the squares for which `p` holds.
pub open spec fn mask(p: spec_fn(int) -> bool) -> u64 {
    mask_below(p, 64)
}

/// A square is in the set below `n` exactly when it is below `n` and `p` holds of it.
pub proof fn lemma_mask_below(p: spec_fn(int) -> bool, n: nat)
    requires
        n <= 64,
    ensures
        forall|t: int| 0 <= t < 64 ==> (#[trigger] bb_has(mask_below(p, n), t) <==> (t < n && p(t))),
    decreases n,
{
    if n == 0 {
        lemma_empty();
    } else {
        lemma_mask_below(p, (n - 1) as nat);
        let m = mask_below(p, (n - 1) as nat);
        if p(n - 1) {
            let r = m | (1u64 << ((n - 1) as u64));
            assert(mask_below(p, n) == r);
            assert forall|t: int| 0 <= t < 64 implies (#[trigger] bb_has(mask_below(p, n), t) <==> (t < n && p(t))) by {
                lemma_set_bit(m, (n - 1) as u64, t as u64);
                assert(bb_has(r, t) <==> (bb_has(m, t) || t == n - 1));
            }
        }
    }
}

/// A square is in the set exactly when `p` holds of it.
pub proof fn lemma_mask(p: spec_fn(int) -> bool)
    ensures
        forall|t: int| 0 <= t < 64 ==> (#[trigger] bb_has(mask(p), t) <==> p(t)),
{
    lemma_mask_below(p, 64);
}

/// Two sets with the same squares have the same size.
pub proof fn lemma_popcount_same(x: u64, y: u64, n: nat)
    requires
        n <= 64,
        forall|t: int| 0 <= t < 64 ==> (bb_has(x, t) <==> bb_has(y, t)),
    ensures
        popcount_below(x, n) == popcount_below(y, n),
    decreases n,
{
    if n > 0 {
        lemma_popcount_same(x, y, (n - 1) as nat);
        assert(bb_has(x, n - 1) <==> bb_has(y, n - 1));
    }
}

/// A set of one square holds exactly its lowest square.
pub proof fn lemma_single(x: u64, a: int)
    requires
        popcount(x) == 1,
        lowest(x, a),
    ensures
        forall|t: int| 0 <= t < 64 ==> (#[trigger] bb_has(x, t) <==> t == a),
{
    assert forall|t: int| 0 <= t < 64 && bb_has(x, t) implies t == a by {
        if t != a {
            assert(t > a);
            lemma_popcount_two(x, a, t, 64);
        }
    }
}

/// A set with two different squares below `n` counts at least two below `n`.
proof fn lemma_popcount_two(x: u64, a: int, b: int, n: nat)
    requires
        0 <= a < b < n <= 64,
        bb_has(x, a),
        bb_has(x, b),
    ensures
        popcount_below(x, n) >= 2,
    decreases n,
{
    if b < n - 1 {
        lemma_popcount_two(x, a, b, (n - 1) as nat);
    } else {
        lemma_popcount_one(x, a, (n - 1) as nat);
    }
}

/// A set with a square below `n` counts at least one below `n`.
pub proof fn lemma_popcount_one(x: u64, a: int, n: nat)
    requires
        0 <= a < n <= 64,
        bb_has(x, a),
    ensures
        popcount_below(x, n) >= 1,
    decreases n,
{
    if a < n - 1 {
        lemma_popcount_one(x, a, (n - 1) as nat);
    }
}

/// The empty set counts no square.
pub proof fn lemma_popcount_zero(n: nat)
    requires
        n <= 64,
    ensures
        popcount_below(0, n) == 0,
    decreases n,
{
    lemma_empty();
    if n > 0 {
        lemma_popcount_zero((n - 1) as nat);
    }
}

} // verus!
