use vstd::prelude::*;
use crate::text::string_of;
use super::bb::{BB, bb_has};

verus! {

/// The index of square `a1`.
pub const A1: u8 = 0;
/// The index of square `b1`.
pub const B1: u8 = 1;
/// The index of square `c1`.
pub const C1: u8 = 2;
/// The index of square `d1`.
pub const D1: u8 = 3;
/// The index of square `e1`.
pub const E1: u8 = 4;
/// The index of square `f1`.
pub const F1: u8 = 5;
/// The index of square `g1`.
pub const G1: u8 = 6;
/// The index of square `h1`.
pub const H1: u8 = 7;
/// The index of square `a8`.
pub const A8: u8 = 56;
/// The index of square `b8`.
pub const B8: u8 = 57;
/// The index of square `c8`.
pub const C8: u8 = 58;
/// The index of square `d8`.
pub const D8: u8 = 59;
/// The index of square `e8`.
pub const E8: u8 = 60;
/// The index of square `f8`.
pub const F8: u8 = 61;
/// The index of square `g8`.
pub const G8: u8 = 62;
/// The index of square `h8`.
pub const H8: u8 = 63;

/// A single square of the board.
///
/// Index starts with the left bottom side from white's view being index 0
/// and the top right square being 63.
#[derive(Clone, Copy, Debug, PartialEq, Eq, Structural)]
pub struct Square(u8);

impl View for Square {
    type V = int;

    closed spec fn view(&self) -> int {
        self.0 as int
    }
}

/// The index of the square on `file` and `rank`, both taken modulo 8.
pub open spec fn file_rank_index(file: int, rank: int) -> int {
    file % 8 + 8 * (rank % 8)
}

/// The file (0 for `a`) that a letter names, in either case.
pub open spec fn file_of_char(c: char) -> Option<int> {
    if 'a' <= c && c <= 'h' {
        Some(c as int - 'a' as int)
    } else if 'A' <= c && c <= 'H' {
        Some(c as int - 'A' as int)
    } else {
        None
    }
}

/// The square a name such as `e4` stands for: its first two characters are read,
/// the rest is ignored.
pub open spec fn square_of_name(s: Seq<char>) -> Option<int> {
    if s.len() < 2 {
        None
    } else {
        match file_of_char(s[0]) {
            Some(f) => if '1' <= s[1] && s[1] <= '8' {
                Some(f + 8 * (s[1] as int - '1' as int))
            } else {
                None
            },
            None => None,
        }
    }
}

/// The name of a square, such as `e4`: its file letter and its rank digit.
pub open spec fn square_name(s: int) -> Seq<char> {
    seq![('a' as int + s % 8) as char, ('1' as int + s / 8) as char]
}

impl Square {
    #[verifier::type_invariant]
    spec fn index_on_board(self) -> bool {
        self.0 < 64
    }

    /// Squares with the same index are the same square.
    pub proof fn lemma_view_injective(a: Square, b: Square)
        requires
            a@ == b@,
        ensures
            a == b,
    {
    }

    /// Create a square from board index.
    pub fn new(v: u8) -> (r: Self)
        requires
            v < 64,
        ensures
            r@ == v,
    {
        Square(v)
    }

    /// Create a square from board index; the caller keeps the index below 64.
    pub fn new_unchecked(v: u8) -> (r: Self)
        requires
            v < 64,
        ensures
            r@ == v,
    {
        Square(v)
    }

    /// Create a square from its name, such as `a3`.
    pub fn from_name(name: &str) -> (r: Option<Self>)
        ensures
            r is Some <==> square_of_name(name@) is Some,
            r matches Some(s) ==> s@ == square_of_name(name@)->0,
    {
        let mut first: Option<char> = None;
        let mut second: Option<char> = None;
        for c in it: name.chars()
            invariant
                it.seq() == name@,
                it.index() >= 1 ==> first == Some(it.seq()[0]),
                it.index() < 1 ==> first is None,
                it.index() >= 2 ==> second == Some(it.seq()[1]),
                it.index() < 2 ==> second is None,
        {
            if first.is_none() {
                first = Some(c);
            } else if second.is_none() {
                second = Some(c);
            }
        }
        match (first, second) {
            (Some(file), Some(rank)) => Self::from_chars(file, rank),
            _ => None,
        }
    }

    /// The square named by a file letter (either case) and a rank digit.
    pub fn from_chars(file: char, rank: char) -> (r: Option<Self>)
        ensures
            r is Some <==> square_of_name(seq![file, rank]) is Some,
            r matches Some(s) ==> s@ == square_of_name(seq![file, rank])->0,
    {
        let f: u8 = if 'a' <= file && file <= 'h' {
            (file as u32 - 'a' as u32) as u8
        } else if 'A' <= file && file <= 'H' {
            (file as u32 - 'A' as u32) as u8
        } else {
            return None;
        };
        if !('1' <= rank && rank <= '8') {
            return None;
        }
        let r = (rank as u32 - '1' as u32) as u8;
        Some(Self::from_file_rank(f, r))
    }

    /// Create a square from file and rank indices, both taken modulo 8.
    pub fn from_file_rank(file: u8, rank: u8) -> (r: Self)
        ensures
            r@ == file_rank_index(file as int, rank as int),
    {
        let res = (file & 7) | ((rank & 7) << 3);
        assert(res == file % 8 + 8 * (rank % 8) && res < 64) by (bit_vector)
            requires
                res == (file & 7) | ((rank & 7) << 3),
        ;
        Square(res)
    }

    /// Returns the file and rank of the square
    pub fn to_file_rank(self) -> (r: (u8, u8))
        ensures
            r.0 == self@ % 8,
            r.1 == self@ / 8,
    {
        (self.file(), self.rank())
    }

    /// Returns the index of the square
    pub fn get(self) -> (r: u8)
        ensures
            r == self@,
            r < 64,
    {
        proof {
            use_type_invariant(&self);
        }
        self.0
    }

    /// Returns the file index of the square
    pub fn file(self) -> (r: u8)
        ensures
            r == self@ % 8,
    {
        let v = self.0;
        assert(v & 7 == v % 8) by (bit_vector);
        v & 7
    }

    /// Returns the rank index of the square
    pub fn rank(self) -> (r: u8)
        ensures
            r == self@ / 8,
    {
        let v = self.0;
        assert(v >> 3 == v / 8) by (bit_vector);
        v >> 3
    }

    /// Flips the square so its position is mirrored through the centre of the board.
    pub fn flip(self) -> (r: Self)
        ensures
            r@ == 63 - self@,
    {
        proof {
            use_type_invariant(&self);
        }
        Square(63 - self.0)
    }

    /// The set holding only this square.
    pub fn to_bb(self) -> (r: BB)
        ensures
            r.0 == 1u64 << (self@ as u64),
            forall|t: int| 0 <= t < 64 ==> (bb_has(r.0, t) <==> t == self@),
    {
        BB::square(self)
    }

    /// The square `rhs` indices further up; the result must stay on the board.
    pub fn plus(self, rhs: u8) -> (r: Self)
        requires
            self@ + rhs < 64,
        ensures
            r@ == self@ + rhs,
    {
        Square(self.0 + rhs)
    }

    /// The square `rhs` indices further down; the result must stay on the board.
    pub fn minus(self, rhs: u8) -> (r: Self)
        requires
            self@ - rhs >= 0,
        ensures
            r@ == self@ - rhs,
    {
        proof {
            use_type_invariant(&self);
        }
        Square(self.0 - rhs)
    }

    /// The square `rhs` indices away (either way); the result must stay on the board.
    pub fn offset(self, rhs: i8) -> (r: Self)
        requires
            0 <= self@ + rhs < 64,
        ensures
            r@ == self@ + rhs,
    {
        proof {
            use_type_invariant(&self);
        }
        let tmp: i16 = self.0 as i16 + rhs as i16;
        Square(tmp as u8)
    }

    /// Appends the name of the square, such as `e4`.
    pub fn push_name(self, out: &mut Vec<char>)
        ensures
            final(out)@ == old(out)@ + square_name(self@),
    {
        let f = self.file();
        let r = self.rank();
        proof {
            use_type_invariant(&self);
        }
        out.push(((97u8 + f) as char));
        out.push(((49u8 + r) as char));
        assert(out@ =~= old(out)@ + square_name(self@));
    }

    /// The name of the square, such as `e4`.
    pub fn to_string(self) -> (r: String)
        ensures
            r@ == square_name(self@),
    {
        let mut v: Vec<char> = Vec::new();
        self.push_name(&mut v);
        assert(v@ =~= square_name(self@));
        string_of(&v)
    }
}

} // verus!
