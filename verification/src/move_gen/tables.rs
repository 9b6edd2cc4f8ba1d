use vstd::prelude::*;
use crate::chess_core::util::BoardArray;
use crate::common::bb::{BB, bb_has, lemma_disjoint, lemma_empty, lemma_set_bit};
use crate::common::square::Square;

verus! {

/// The distance between two numbers.
pub open spec fn dist(a: int, b: int) -> int {
    if a >= b {
        a - b
    } else {
        b - a
    }
}

/// The file of a square index.
pub open spec fn file_of(s: int) -> int {
    s % 8
}

/// The rank of a square index.
pub open spec fn rank_of(s: int) -> int {
    s / 8
}

/// Whether a knight on `s` attacks `t`: one file and two ranks away, or two files and one
/// rank.
pub open spec fn knight_attack(s: int, t: int) -> bool {
    let df = dist(file_of(s), file_of(t));
    let dr = dist(rank_of(s), rank_of(t));
    (df == 1 && dr == 2) || (df == 2 && dr == 1)
}

/// Whether a king on `s` attacks `t`: a neighbouring square.
pub open spec fn king_attack(s: int, t: int) -> bool {
    s != t && dist(file_of(s), file_of(t)) <= 1 && dist(rank_of(s), rank_of(t)) <= 1
}

/// Whether two different squares share a file or a rank.
pub open spec fn orthogonal(i: int, j: int) -> bool {
    i != j && (file_of(i) == file_of(j) || rank_of(i) == rank_of(j))
}

/// Whether two different squares share a diagonal.
pub open spec fn diagonal(i: int, j: int) -> bool {
    i != j && dist(file_of(i), file_of(j)) == dist(rank_of(i), rank_of(j))
}

/// Whether two different squares share a file, a rank or a diagonal.
pub open spec fn aligned(i: int, j: int) -> bool {
    orthogonal(i, j) || diagonal(i, j)
}

/// Whether `k` lies on the straight line through `i` and `j`.
pub open spec fn collinear(i: int, j: int, k: int) -> bool {
    (file_of(k) - file_of(i)) * (rank_of(j) - rank_of(i)) == (rank_of(k) - rank_of(i)) * (file_of(j) - file_of(i))
}

/// Whether `k` is on the whole file, rank or diagonal that `i` and `j` share.
pub open spec fn line_has(i: int, j: int, k: int) -> bool {
    aligned(i, j) && collinear(i, j, k)
}

/// The smaller of two numbers.
pub open spec fn min(a: int, b: int) -> int {
    if a <= b {
        a
    } else {
        b
    }
}

/// The larger of two numbers.
pub open spec fn max(a: int, b: int) -> int {
    if a >= b {
        a
    } else {
        b
    }
}

/// Whether `k` lies strictly between `i` and `j` on the file, rank or diagonal they share.
pub open spec fn between_has(i: int, j: int, k: int) -> bool {
    &&& aligned(i, j)
    &&& collinear(i, j, k)
    &&& min(file_of(i), file_of(j)) <= file_of(k) <= max(file_of(i), file_of(j))
    &&& min(rank_of(i), rank_of(j)) <= rank_of(k) <= max(rank_of(i), rank_of(j))
    &&& k != i
    &&& k != j
}

/// Whether a rook on `s` attacks `t` when the squares in `occ` are occupied: they share a
/// file or rank and no occupied square lies between them.
pub open spec fn rook_attack(s: int, t: int, occ: u64) -> bool {
    orthogonal(s, t) && forall|k: int| 0 <= k < 64 && between_has(s, t, k) ==> !bb_has(occ, k)
}

/// Whether a bishop on `s` attacks `t` when the squares in `occ` are occupied: they share a
/// diagonal and no occupied square lies between them.
pub open spec fn bishop_attack(s: int, t: int, occ: u64) -> bool {
    diagonal(s, t) && forall|k: int| 0 <= k < 64 && between_has(s, t, k) ==> !bb_has(occ, k)
}

/// Whether a rook (when `rook`) or a bishop on `s` attacks `t`.
pub open spec fn slide(rook: bool, s: int, t: int, occ: u64) -> bool {
    if rook {
        rook_attack(s, t, occ)
    } else {
        bishop_attack(s, t, occ)
    }
}

/// Whether `k` lies beyond `s` going `df` files and `dr` ranks a step, each -1, 0 or 1.
pub open spec fn in_dir(s: int, k: int, df: int, dr: int) -> bool {
    let a = file_of(k) - file_of(s);
    let b = rank_of(k) - rank_of(s);
    &&& df == 0 ==> a == 0
    &&& dr == 0 ==> b == 0
    &&& df > 0 ==> a > 0
    &&& df < 0 ==> a < 0
    &&& dr > 0 ==> b > 0
    &&& dr < 0 ==> b < 0
    &&& df != 0 && df == dr ==> a == b
    &&& df != 0 && df == -dr ==> a == -b
}

/// Whether `k` comes before the square of file `f` and rank `r`, going `df` files and `dr`
/// ranks a step.
pub open spec fn before(k: int, f: int, r: int, df: int, dr: int) -> bool {
    &&& df > 0 ==> file_of(k) < f
    &&& df < 0 ==> file_of(k) > f
    &&& dr > 0 ==> rank_of(k) < r
    &&& dr < 0 ==> rank_of(k) > r
}

/// The tables of attacks and lines the move generator looks squares up in.
#[derive(Clone, Copy)]
pub struct Tables {
    knight: BoardArray<BB>,
    king: BoardArray<BB>,
    lines: BoardArray<BoardArray<BB>>,
    between: BoardArray<BoardArray<BB>>,
}

/// The exact file and rank arithmetic of two square indices.
pub(crate) fn coords(s: u8) -> (r: (i32, i32))
    requires
        s < 64,
    ensures
        r.0 == file_of(s as int),
        r.1 == rank_of(s as int),
{
    ((s % 8) as i32, (s / 8) as i32)
}

/// The distance between two small numbers.
pub(crate) fn dist_exec(a: i32, b: i32) -> (r: i32)
    requires
        -100 <= a <= 100,
        -100 <= b <= 100,
    ensures
        r == dist(a as int, b as int),
{
    if a >= b {
        a - b
    } else {
        b - a
    }
}

/// Whether two squares share a file, rank or diagonal.
fn aligned_exec(i: u8, j: u8) -> (r: bool)
    requires
        i < 64,
        j < 64,
    ensures
        r == aligned(i as int, j as int),
{
    let (fi, ri) = coords(i);
    let (fj, rj) = coords(j);
    i != j && (fi == fj || ri == rj || dist_exec(fi, fj) == dist_exec(ri, rj))
}

/// Whether `k` lies on the straight line through `i` and `j`.
fn collinear_exec(i: u8, j: u8, k: u8) -> (r: bool)
    requires
        i < 64,
        j < 64,
        k < 64,
    ensures
        r == collinear(i as int, j as int, k as int),
{
    let (fi, ri) = coords(i);
    let (fj, rj) = coords(j);
    let (fk, rk) = coords(k);
    assert(-7 <= fk - fi <= 7 && -7 <= rj - ri <= 7 && -7 <= rk - ri <= 7 && -7 <= fj - fi <= 7);
    assert(-49 <= (fk - fi) * (rj - ri) <= 49) by (nonlinear_arith)
        requires
            -7 <= fk - fi <= 7,
            -7 <= rj - ri <= 7,
    ;
    assert(-49 <= (rk - ri) * (fj - fi) <= 49) by (nonlinear_arith)
        requires
            -7 <= rk - ri <= 7,
            -7 <= fj - fi <= 7,
    ;
    (fk - fi) * (rj - ri) == (rk - ri) * (fj - fi)
}

/// Whether `k` lies strictly between `i` and `j` on the line they share.
fn between_exec(i: u8, j: u8, k: u8) -> (r: bool)
    requires
        i < 64,
        j < 64,
        k < 64,
    ensures
        r == between_has(i as int, j as int, k as int),
{
    let (fi, ri) = coords(i);
    let (fj, rj) = coords(j);
    let (fk, rk) = coords(k);
    let fmin = if fi <= fj { fi } else { fj };
    let fmax = if fi >= fj { fi } else { fj };
    let rmin = if ri <= rj { ri } else { rj };
    let rmax = if ri >= rj { ri } else { rj };
    aligned_exec(i, j) && collinear_exec(i, j, k) && fmin <= fk && fk <= fmax && rmin <= rk && rk <= rmax && k != i
        && k != j
}

/// The set of squares `t` for which `pred` holds, given by its bits.
spec fn mask_matches(m: u64, n: int, pred: spec_fn(int) -> bool) -> bool {
    forall|t: int| 0 <= t < n ==> (bb_has(m, t) <==> #[trigger] pred(t))
}

/// Adds square `t` to the set `m` when `add` holds.
pub(crate) fn add_if(m: u64, t: u8, add: bool) -> (r: u64)
    requires
        t < 64,
    ensures
        forall|k: int| 0 <= k < 64 ==> (bb_has(r, k) <==> (bb_has(m, k) || (add && k == t))),
{
    if add {
        let r = m | (1u64 << t);
        proof {
            assert forall|k: int| 0 <= k < 64 implies (bb_has(r, k) <==> (bb_has(m, k) || k == t)) by {
                lemma_set_bit(m, t as u64, k as u64);
            }
        }
        r
    } else {
        m
    }
}

impl Tables {
    /// Every table holds what it stands for.
    #[verifier::type_invariant]
    spec fn filled(self) -> bool {
        &&& self.knight.0@.len() == 64
        &&& self.king.0@.len() == 64
        &&& self.lines.0@.len() == 64
        &&& self.between.0@.len() == 64
        &&& forall|s: int, t: int|
            0 <= s < 64 && 0 <= t < 64 ==> (#[trigger] bb_has(self.knight.0@[s].0, t) <==> knight_attack(s, t))
        &&& forall|s: int, t: int|
            0 <= s < 64 && 0 <= t < 64 ==> (#[trigger] bb_has(self.king.0@[s].0, t) <==> king_attack(s, t))
        &&& forall|i: int| 0 <= i < 64 ==> (#[trigger] self.lines.0@[i]).0@.len() == 64
        &&& forall|i: int| 0 <= i < 64 ==> (#[trigger] self.between.0@[i]).0@.len() == 64
        &&& forall|i: int, j: int, k: int|
            0 <= i < 64 && 0 <= j < 64 && 0 <= k < 64 ==> (#[trigger] bb_has(self.lines.0@[i].0@[j].0, k)
                <==> line_has(i, j, k))
        &&& forall|i: int, j: int, k: int|
            0 <= i < 64 && 0 <= j < 64 && 0 <= k < 64 ==> (#[trigger] bb_has(self.between.0@[i].0@[j].0, k)
                <==> between_has(i, j, k))
    }

    /// The squares a knight on `s` attacks, as bits.
    pub closed spec fn knight_set(self, s: int) -> u64 {
        self.knight.0@[s].0
    }

    /// The squares a king on `s` attacks, as bits.
    pub closed spec fn king_set(self, s: int) -> u64 {
        self.king.0@[s].0
    }

    /// The squares of the line through `i` and `j`, as bits.
    pub closed spec fn line_set(self, i: int, j: int) -> u64 {
        self.lines.0@[i].0@[j].0
    }

    /// The squares between `i` and `j`, as bits.
    pub closed spec fn between_set(self, i: int, j: int) -> u64 {
        self.between.0@[i].0@[j].0
    }

    /// Whether every table holds what it stands for: the attacks of a knight and of a king
    /// from each square, the line through and the squares between each two squares.
    pub open spec fn holds_tables(self) -> bool {
        &&& forall|s: int, t: int|
            0 <= s < 64 && 0 <= t < 64 ==> (#[trigger] bb_has(self.knight_set(s), t) <==> knight_attack(s, t))
        &&& forall|s: int, t: int|
            0 <= s < 64 && 0 <= t < 64 ==> (#[trigger] bb_has(self.king_set(s), t) <==> king_attack(s, t))
        &&& forall|i: int, j: int, k: int|
            0 <= i < 64 && 0 <= j < 64 && 0 <= k < 64 ==> (#[trigger] bb_has(self.line_set(i, j), k) <==> line_has(
                i,
                j,
                k,
            ))
        &&& forall|i: int, j: int, k: int|
            0 <= i < 64 && 0 <= j < 64 && 0 <= k < 64 ==> (#[trigger] bb_has(self.between_set(i, j), k)
                <==> between_has(i, j, k))
    }

    /// The tables of knight and king attacks, of lines and of squares between two others.
    pub fn new() -> (r: Self)
        ensures
            r.holds_tables(),
    {
        let knight = Self::square_table(true);
        let king = Self::square_table(false);
        let lines = Self::pair_table(true);
        let between = Self::pair_table(false);
        let r = Tables { knight, king, lines, between };
        proof {
            use_type_invariant(&r);
        }
        r
    }

    /// For each square, the squares a knight (when `knight`) or a king on it attacks.
    fn square_table(knight: bool) -> (r: BoardArray<BB>)
        ensures
            r.0@.len() == 64,
            forall|s: int, t: int|
                0 <= s < 64 && 0 <= t < 64 ==> (#[trigger] bb_has(r.0@[s].0, t) <==> if knight {
                    knight_attack(s, t)
                } else {
                    king_attack(s, t)
                }),
    {
        let mut res = BoardArray::new(BB::empty());
        let mut s: u8 = 0;
        while s < 64
            invariant
                s <= 64,
                res.0@.len() == 64,
                forall|a: int, t: int|
                    0 <= a < s && 0 <= t < 64 ==> (#[trigger] bb_has(res.0@[a].0, t) <==> if knight {
                        knight_attack(a, t)
                    } else {
                        king_attack(a, t)
                    }),
            decreases 64 - s,
        {
            let (fs, rs) = coords(s);
            let mut m: u64 = 0;
            proof {
                lemma_empty();
            }
            let mut t: u8 = 0;
            while t < 64
                invariant
                    s < 64,
                    t <= 64,
                    fs == file_of(s as int),
                    rs == rank_of(s as int),
                    forall|k: int| 0 <= k < 64 ==> (#[trigger] bb_has(m, k) <==> (k < t && if knight {
                        knight_attack(s as int, k)
                    } else {
                        king_attack(s as int, k)
                    })),
                decreases 64 - t,
            {
                let (ft, rt) = coords(t);
                let df = dist_exec(fs, ft);
                let dr = dist_exec(rs, rt);
                let hit = if knight {
                    (df == 1 && dr == 2) || (df == 2 && dr == 1)
                } else {
                    s != t && df <= 1 && dr <= 1
                };
                m = add_if(m, t, hit);
                t = t + 1;
            }
            let ghost before = res.0@;
            res.set(Square::new(s), BB(m));
            assert forall|a: int, k: int| 0 <= a < s + 1 && 0 <= k < 64 implies (#[trigger] bb_has(res.0@[a].0, k)
                <==> if knight {
                knight_attack(a, k)
            } else {
                king_attack(a, k)
            }) by {
                if a < s {
                    assert(res.0@[a] == before[a]);
                }
            }
            s = s + 1;
        }
        res
    }

    /// For each pair of squares, the squares on their whole line (when `whole`) or strictly
    /// between them.
    fn pair_table(whole: bool) -> (r: BoardArray<BoardArray<BB>>)
        ensures
            r.0@.len() == 64,
            forall|i: int| 0 <= i < 64 ==> (#[trigger] r.0@[i]).0@.len() == 64,
            forall|i: int, j: int, k: int|
                0 <= i < 64 && 0 <= j < 64 && 0 <= k < 64 ==> (#[trigger] bb_has(r.0@[i].0@[j].0, k) <==> if whole {
                    line_has(i, j, k)
                } else {
                    between_has(i, j, k)
                }),
    {
        let mut res = BoardArray::new(BoardArray::new(BB::empty()));
        let mut i: u8 = 0;
        while i < 64
            invariant
                i <= 64,
                res.0@.len() == 64,
                forall|a: int| 0 <= a < 64 ==> (#[trigger] res.0@[a]).0@.len() == 64,
                forall|a: int, j: int, k: int|
                    0 <= a < i && 0 <= j < 64 && 0 <= k < 64 ==> (#[trigger] bb_has(res.0@[a].0@[j].0, k) <==> if whole {
                        line_has(a, j, k)
                    } else {
                        between_has(a, j, k)
                    }),
            decreases 64 - i,
        {
            let mut row = BoardArray::new(BB::empty());
            let mut j: u8 = 0;
            while j < 64
                invariant
                    i < 64,
                    j <= 64,
                    row.0@.len() == 64,
                    forall|b: int, k: int|
                        0 <= b < j && 0 <= k < 64 ==> (#[trigger] bb_has(row.0@[b].0, k) <==> if whole {
                            line_has(i as int, b, k)
                        } else {
                            between_has(i as int, b, k)
                        }),
                decreases 64 - j,
            {
                let mut m: u64 = 0;
                proof {
                    lemma_empty();
                }
                let mut k: u8 = 0;
                while k < 64
                    invariant
                        i < 64,
                        j < 64,
                        k <= 64,
                        forall|c: int| 0 <= c < 64 ==> (#[trigger] bb_has(m, c) <==> (c < k && if whole {
                            line_has(i as int, j as int, c)
                        } else {
                            between_has(i as int, j as int, c)
                        })),
                    decreases 64 - k,
                {
                    let hit = if whole {
                        aligned_exec(i, j) && collinear_exec(i, j, k)
                    } else {
                        between_exec(i, j, k)
                    };
                    m = add_if(m, k, hit);
                    k = k + 1;
                }
                let ghost before = row.0@;
                row.set(Square::new(j), BB(m));
                assert forall|b: int, c: int| 0 <= b < j + 1 && 0 <= c < 64 implies (#[trigger] bb_has(row.0@[b].0, c)
                    <==> if whole {
                    line_has(i as int, b, c)
                } else {
                    between_has(i as int, b, c)
                }) by {
                    if b < j {
                        assert(row.0@[b] == before[b]);
                    }
                }
                j = j + 1;
            }
            let ghost before = res.0@;
            res.set(Square::new(i), row);
            assert forall|a: int, b: int, c: int| 0 <= a < i + 1 && 0 <= b < 64 && 0 <= c < 64 implies (
            #[trigger] bb_has(res.0@[a].0@[b].0, c) <==> if whole {
                line_has(a, b, c)
            } else {
                between_has(a, b, c)
            }) by {
                if a < i {
                    assert(res.0@[a] == before[a]);
                }
            }
            i = i + 1;
        }
        res
    }

    /// The squares a king on `sq` attacks.
    pub fn king_attacks(&self, sq: Square) -> (r: BB)
        ensures
            forall|t: int| 0 <= t < 64 ==> (bb_has(r.0, t) <==> king_attack(sq@, t)),
    {
        proof {
            use_type_invariant(&self);
        }
        let _ = sq.get();
        let r = self.king.get(sq);
        assert forall|t: int| 0 <= t < 64 implies (bb_has(r.0, t) <==> king_attack(sq@, t)) by {
            assert(bb_has(self.king.0@[sq@].0, t) <==> king_attack(sq@, t));
        }
        r
    }

    /// The squares a knight on `sq` attacks.
    pub fn knight_attacks(&self, sq: Square) -> (r: BB)
        ensures
            forall|t: int| 0 <= t < 64 ==> (bb_has(r.0, t) <==> knight_attack(sq@, t)),
    {
        proof {
            use_type_invariant(&self);
        }
        let _ = sq.get();
        let r = self.knight.get(sq);
        assert forall|t: int| 0 <= t < 64 implies (bb_has(r.0, t) <==> knight_attack(sq@, t)) by {
            assert(bb_has(self.knight.0@[sq@].0, t) <==> knight_attack(sq@, t));
        }
        r
    }

    /// The whole file, rank or diagonal that two squares share; empty when they share none.
    pub fn line(&self, from: Square, to: Square) -> (r: BB)
        ensures
            forall|k: int| 0 <= k < 64 ==> (bb_has(r.0, k) <==> line_has(from@, to@, k)),
    {
        proof {
            use_type_invariant(&self);
        }
        let _ = from.get();
        let _ = to.get();
        let r = self.lines.get(from).get(to);
        assert forall|k: int| 0 <= k < 64 implies (bb_has(r.0, k) <==> line_has(from@, to@, k)) by {
            assert(bb_has(self.lines.0@[from@].0@[to@].0, k) <==> line_has(from@, to@, k));
        }
        r
    }

    /// The squares strictly between two squares that share a file, rank or diagonal; empty
    /// when they share none.
    pub fn between(&self, from: Square, to: Square) -> (r: BB)
        ensures
            forall|k: int| 0 <= k < 64 ==> (bb_has(r.0, k) <==> between_has(from@, to@, k)),
    {
        proof {
            use_type_invariant(&self);
        }
        let _ = from.get();
        let _ = to.get();
        let r = self.between.get(from).get(to);
        assert forall|k: int| 0 <= k < 64 implies (bb_has(r.0, k) <==> between_has(from@, to@, k)) by {
            assert(bb_has(self.between.0@[from@].0@[to@].0, k) <==> between_has(from@, to@, k));
        }
        r
    }

    /// Whether `c` is on the line that `a` and `b` share.
    pub fn aligned(&self, a: Square, b: Square, c: Square) -> (r: bool)
        ensures
            r == line_has(a@, b@, c@),
    {
        let l = self.line(a, b);
        let _ = c.get();
        let sq = BB::square(c);
        proof {
            lemma_disjoint(l.0, sq.0);
            assert(bb_has(sq.0, c@));
            if line_has(a@, b@, c@) {
                assert(bb_has(l.0, c@) && bb_has(sq.0, c@));
            }
        }
        l.and(sq).any()
    }

    /// The squares a rook on `sq` attacks when the squares in `occupied` are occupied.
    pub fn rook_attacks(&self, sq: Square, occupied: BB) -> (r: BB)
        ensures
            forall|t: int| 0 <= t < 64 ==> (bb_has(r.0, t) <==> rook_attack(sq@, t, occupied.0)),
    {
        self.slider_attacks(sq, occupied, true)
    }

    /// The squares a bishop on `sq` attacks when the squares in `occupied` are occupied.
    pub fn bishop_attacks(&self, sq: Square, occupied: BB) -> (r: BB)
        ensures
            forall|t: int| 0 <= t < 64 ==> (bb_has(r.0, t) <==> bishop_attack(sq@, t, occupied.0)),
    {
        self.slider_attacks(sq, occupied, false)
    }

    /// The squares a rook (when `rook`) or a bishop on `sq` attacks: those its four rays
    /// reach.
    fn slider_attacks(&self, sq: Square, occupied: BB, rook: bool) -> (r: BB)
        ensures
            forall|t: int| 0 <= t < 64 ==> (bb_has(r.0, t) <==> slide(rook, sq@, t, occupied.0)),
    {
        proof {
            lemma_empty();
        }
        let (a, b) = if rook { (1i32, 0i32) } else { (1i32, 1i32) };
        let (c, d) = if rook { (0i32, 1i32) } else { (1i32, -1i32) };
        let m = self.ray_attacks(sq, occupied, rook, a, b, 0);
        let m = self.ray_attacks(sq, occupied, rook, -a, -b, m);
        let m = self.ray_attacks(sq, occupied, rook, c, d, m);
        let m = self.ray_attacks(sq, occupied, rook, -c, -d, m);
        proof {
            let s = sq@;
            assert forall|t: int| 0 <= t < 64 && #[trigger] slide(rook, s, t, occupied.0) implies in_dir(s, t, a as int, b as int)
                || in_dir(s, t, -a as int, -b as int) || in_dir(s, t, c as int, d as int) || in_dir(
                s,
                t,
                -c as int,
                -d as int,
            ) by {
                if file_of(t) == file_of(s) && rank_of(t) == rank_of(s) {
                    assert(t == s);
                }
            }
        }
        BB(m)
    }

    /// Adds to `m0` the squares a rook (when `rook`) or a bishop on `sq` attacks going in
    /// the direction of `df` files and `dr` ranks a step.
    fn ray_attacks(&self, sq: Square, occupied: BB, rook: bool, df: i32, dr: i32, m0: u64) -> (m: u64)
        requires
            -1 <= df <= 1,
            -1 <= dr <= 1,
            rook ==> (df == 0) != (dr == 0),
            !rook ==> df != 0 && dr != 0,
        ensures
            forall|k: int|
                0 <= k < 64 ==> (#[trigger] bb_has(m, k) <==> (bb_has(m0, k) || (in_dir(sq@, k, df as int, dr as int)
                    && slide(rook, sq@, k, occupied.0)))),
    {
        let s = sq.get();
        let (fs, rs) = coords(s);
        let mut f = fs + df;
        let mut r = rs + dr;
        let mut m = m0;
        while 0 <= f && f < 8 && 0 <= r && r < 8
            invariant
                s == sq@,
                s < 64,
                fs == file_of(s as int),
                rs == rank_of(s as int),
                -1 <= df <= 1,
                -1 <= dr <= 1,
                rook ==> (df == 0) != (dr == 0),
                !rook ==> df != 0 && dr != 0,
                -1 <= f <= 8,
                -1 <= r <= 8,
                df == 0 ==> f == fs,
                dr == 0 ==> r == rs,
                df > 0 ==> f > fs,
                df < 0 ==> f < fs,
                dr > 0 ==> r > rs,
                dr < 0 ==> r < rs,
                df != 0 && df == dr ==> f - fs == r - rs,
                df != 0 && df == -dr ==> f - fs == rs - r,
                forall|k: int|
                    0 <= k < 64 ==> (#[trigger] bb_has(m, k) <==> (bb_has(m0, k) || (in_dir(s as int, k, df as int, dr as int)
                        && before(k, f as int, r as int, df as int, dr as int) && slide(rook, s as int, k, occupied.0)))),
            decreases if df > 0 {
                8 - f
            } else if df < 0 {
                f + 1
            } else if dr > 0 {
                8 - r
            } else {
                r + 1
            },
        {
            let t = (8 * r + f) as u8;
            assert(file_of(t as int) == f && rank_of(t as int) == r);
            let b = self.between(sq, Square::new(t));
            proof {
                lemma_disjoint(b.0, occupied.0);
                assert((forall|k: int| 0 <= k < 64 ==> !(#[trigger] bb_has(b.0, k) && bb_has(occupied.0, k))) <==> (forall|k: int|
                    0 <= k < 64 && between_has(s as int, t as int, k) ==> !bb_has(occupied.0, k))) by {
                    assert forall|k: int| 0 <= k < 64 implies (bb_has(b.0, k) <==> between_has(s as int, t as int, k)) by {}
                }
                assert(in_dir(s as int, t as int, df as int, dr as int));
                if rook {
                    assert(orthogonal(s as int, t as int));
                } else {
                    assert(diagonal(s as int, t as int));
                }
            }
            let hit = b.and(occupied).none();
            assert(hit == slide(rook, s as int, t as int, occupied.0));
            let ghost m_before = m;
            m = add_if(m, t, hit);
            proof {
                assert forall|k: int| 0 <= k < 64 && in_dir(s as int, k, df as int, dr as int) implies (before(
                    k,
                    (f + df) as int,
                    (r + dr) as int,
                    df as int,
                    dr as int,
                ) <==> (before(k, f as int, r as int, df as int, dr as int) || k == t)) by {
                    if file_of(k) == f && rank_of(k) == r {
                        assert(k == t);
                    }
                }
            }
            f = f + df;
            r = r + dr;
        }
        proof {
            assert forall|k: int| 0 <= k < 64 && in_dir(s as int, k, df as int, dr as int) implies before(
                k,
                f as int,
                r as int,
                df as int,
                dr as int,
            ) by {}
        }
        m
    }
}

} // verus!
