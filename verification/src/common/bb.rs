use vstd::prelude::*;
use super::square::Square;

verus! {

/// A bitboard: a set of squares, bit `i` standing for the square with index `i`.
#[derive(Clone, Copy, Debug, PartialEq, Eq, Structural)]
pub struct BB(pub u64);

/// Whether the square with index `s` is in the set `v`.
pub open spec fn bb_has(v: u64, s: int) -> bool {
    (v >> (s as u64)) & 1 == 1
}

/// Setting the bit of square `s` adds `s` and keeps every other square as it was.
pub proof fn lemma_set_bit(x: u64, s: u64, t: u64)
    requires
        s < 64,
        t < 64,
    ensures
        ((x | (1u64 << s)) >> t) & 1 == 1 <==> ((x >> t) & 1 == 1 || t == s),
{
    assert(((x | (1u64 << s)) >> t) & 1 == 1 <==> ((x >> t) & 1 == 1 || t == s)) by (bit_vector)
        requires
            s < 64,
            t < 64,
    ;
}

/// Combining with zero by exclusive or changes nothing.
pub proof fn lemma_xor_zero(x: u64)
    ensures
        x ^ 0u64 == x,
{
    assert(x ^ 0u64 == x) by (bit_vector);
}

/// Clearing bits of a four-bit value leaves a four-bit value.
pub proof fn lemma_clear_bits_small(c: u8, mask: u8)
    requires
        c < 16,
    ensures
        c & !mask < 16,
{
    assert(c < 16 ==> c & !mask < 16) by (bit_vector);
}

/// The empty set holds no square.
pub proof fn lemma_empty()
    ensures
        forall|k: int| 0 <= k < 64 ==> !#[trigger] bb_has(0, k),
{
    assert(forall|k: u64| k < 64 ==> (0u64 >> k) & 1 == 0) by (bit_vector);
    assert forall|k: int| 0 <= k < 64 implies !#[trigger] bb_has(0, k) by {
        let ku = k as u64;
        assert((0u64 >> ku) & 1 == 0);
    }
}

/// The set of a single square holds that square alone.
pub proof fn lemma_square_bit(s: int)
    requires
        0 <= s < 64,
    ensures
        forall|t: int| 0 <= t < 64 ==> (#[trigger] bb_has(1u64 << (s as u64), t) <==> t == s),
{
    let su = s as u64;
    assert(forall|t: u64| t < 64 ==> (((1u64 << su) >> t) & 1 == 1 <==> t == su))
        by (bit_vector)
        requires
            su < 64,
    ;
    assert forall|t: int| 0 <= t < 64 implies (#[trigger] bb_has(1u64 << su, t) <==> t == s) by {
        let tu = t as u64;
        assert(((1u64 << su) >> tu) & 1 == 1 <==> tu == su);
    }
}

/// Two sets share no square exactly when their intersection is empty.
pub proof fn lemma_disjoint(a: u64, b: u64)
    ensures
        (a & b == 0) <==> (forall|k: int| 0 <= k < 64 ==> !(#[trigger] bb_has(a, k) && bb_has(b, k))),
{
    assert(forall|k: u64| k < 64 ==> (((a & b) >> k) & 1 == 1 <==> ((a >> k) & 1 == 1 && (b >> k) & 1 == 1)))
        by (bit_vector);
    assert forall|k: int| 0 <= k < 64 implies (bb_has(a, k) && bb_has(b, k) <==> ((a & b) >> (k as u64)) & 1 == 1) by {
        let ku = k as u64;
        assert(((a & b) >> ku) & 1 == 1 <==> ((a >> ku) & 1 == 1 && (b >> ku) & 1 == 1));
    }
    let x = a & b;
    if x != 0 {
        vstd::std_specs::bits::axiom_u64_trailing_zeros(x);
        let k = vstd::std_specs::bits::u64_trailing_zeros(x);
        assert(bb_has(a, k as int) && bb_has(b, k as int));
    }
}

/// The number of set bits among the lowest `n` bits of `v`.
pub open spec fn popcount_below(v: u64, n: nat) -> nat
    decreases n,
{
    if n == 0 {
        0
    } else {
        popcount_below(v, (n - 1) as nat) + (if bb_has(v, n - 1) { 1nat } else { 0nat })
    }
}

/// The number of squares in the set `v`.
pub open spec fn popcount(v: u64) -> nat {
    popcount_below(v, 64)
}

/// Bit sets of commonly used squares.
impl BB {
    pub const EMPTY: u64 = 0;
    pub const FULL: u64 = 0xffff_ffff_ffff_ffff;
    pub const FILE_A: u64 = 0x0101_0101_0101_0101;
    pub const FILE_H: u64 = 0x8080_8080_8080_8080;
    pub const RANK_1: u64 = 0xff;
    pub const RANK_2: u64 = 0xff00;
    pub const RANK_3: u64 = 0xff_0000;
    pub const RANK_4: u64 = 0xff00_0000;
    pub const RANK_5: u64 = 0xff_0000_0000;
    pub const RANK_6: u64 = 0xff00_0000_0000;
    pub const RANK_7: u64 = 0xff_0000_0000_0000;
    pub const RANK_8: u64 = 0xff00_0000_0000_0000;
    /// The light squares of the board.
    pub const WHITE_SQUARES: u64 = 0x55aa_55aa_55aa_55aa;

    /// The empty set.
    pub fn empty() -> (r: BB)
        ensures
            r.0 == 0,
    {
        BB(0)
    }

    /// The raw bits.
    pub fn get(self) -> (r: u64)
        ensures
            r == self.0,
    {
        self.0
    }

    /// The set holding exactly the given square.
    pub fn square(s: Square) -> (r: BB)
        ensures
            r.0 == 1u64 << (s@ as u64),
            forall|t: int| 0 <= t < 64 ==> (bb_has(r.0, t) <==> t == s@),
    {
        let i = s.get();
        let r = BB(1u64 << i);
        proof {
            lemma_square_bit(s@);
        }
        r
    }

    /// Whether the set is not empty.
    pub fn any(self) -> (r: bool)
        ensures
            r == (self.0 != 0),
    {
        self.0 != 0
    }

    /// Whether the set is empty.
    pub fn none(self) -> (r: bool)
        ensures
            r == (self.0 == 0),
    {
        self.0 == 0
    }

    /// Intersection.
    pub fn and(self, o: BB) -> (r: BB)
        ensures
            r.0 == self.0 & o.0,
    {
        BB(self.0 & o.0)
    }

    /// Union.
    pub fn or(self, o: BB) -> (r: BB)
        ensures
            r.0 == self.0 | o.0,
    {
        BB(self.0 | o.0)
    }

    /// Symmetric difference.
    pub fn xor(self, o: BB) -> (r: BB)
        ensures
            r.0 == self.0 ^ o.0,
    {
        BB(self.0 ^ o.0)
    }

    /// Complement.
    pub fn not(self) -> (r: BB)
        ensures
            r.0 == !self.0,
    {
        BB(!self.0)
    }

    /// Shift every square up by `n` indices, dropping those that leave the board.
    pub fn shl(self, n: u32) -> (r: BB)
        requires
            n < 64,
        ensures
            r.0 == self.0 << n,
    {
        BB(self.0 << n)
    }

    /// Shift every square down by `n` indices, dropping those that leave the board.
    pub fn shr(self, n: u32) -> (r: BB)
        requires
            n < 64,
        ensures
            r.0 == self.0 >> n,
    {
        BB(self.0 >> n)
    }

    /// The number of squares in the set.
    pub fn count(self) -> (r: u32)
        ensures
            r == popcount(self.0),
    {
        let mut n: u32 = 0;
        let mut i: u32 = 0;
        while i < 64
            invariant
                i <= 64,
                n == popcount_below(self.0, i as nat),
                n <= i,
            decreases 64 - i,
        {
            if (self.0 >> i) & 1 == 1 {
                n = n + 1;
            }
            i = i + 1;
        }
        n
    }

    /// The square with the lowest index in a non-empty set.
    pub fn first_piece(self) -> (r: Square)
        requires
            self.0 != 0,
        ensures
            0 <= r@ < 64,
            bb_has(self.0, r@),
            forall|t: int| 0 <= t < r@ ==> !bb_has(self.0, t),
    {
        let tz = self.0.trailing_zeros();
        proof {
            vstd::std_specs::bits::axiom_u64_trailing_zeros(self.0);
            assert forall|t: int| 0 <= t < tz implies !bb_has(self.0, t) by {
                let tu = t as u64;
                assert((self.0 >> tu) & 1u64 == 0u64);
            }
        }
        Square::new(tz as u8)
    }

    /// The squares of the set in increasing order.
    pub fn squares(self) -> (r: Vec<Square>)
        ensures
            forall|k: int| 0 <= k < r.len() ==> bb_has(self.0, #[trigger] r@[k]@),
            forall|t: int| 0 <= t < 64 && bb_has(self.0, t) ==> exists|k: int|
                0 <= k < r.len() && #[trigger] r@[k]@ == t,
            forall|a: int, b: int| 0 <= a < b < r.len() ==> r@[a]@ < r@[b]@,
    {
        let mut res: Vec<Square> = Vec::new();
        let mut i: u8 = 0;
        while i < 64
            invariant
                i <= 64,
                forall|k: int| 0 <= k < res.len() ==> bb_has(self.0, #[trigger] res@[k]@),
                forall|k: int| 0 <= k < res.len() ==> #[trigger] res@[k]@ < i,
                forall|t: int| 0 <= t < i && bb_has(self.0, t) ==> exists|k: int|
                    0 <= k < res.len() && #[trigger] res@[k]@ == t,
                forall|a: int, b: int| 0 <= a < b < res.len() ==> res@[a]@ < res@[b]@,
            decreases 64 - i,
        {
            let ghost old_res = res@;
            if (self.0 >> i) & 1 == 1 {
                let s = Square::new(i);
                res.push(s);
                proof {
                    assert(res@[res.len() - 1]@ == i);
                }
            }
            proof {
                assert forall|t: int| 0 <= t < i + 1 && bb_has(self.0, t) implies exists|k: int|
                    0 <= k < res.len() && #[trigger] res@[k]@ == t by {
                    if t == i {
                        assert(res@[res.len() - 1]@ == t);
                    } else {
                        let k = choose|k: int| 0 <= k < old_res.len() && #[trigger] old_res[k]@ == t;
                        assert(res@[k]@ == t);
                    }
                }
            }
            i = i + 1;
        }
        res
    }
}

} // verus!
