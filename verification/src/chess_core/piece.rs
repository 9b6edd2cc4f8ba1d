use vstd::prelude::*;
use crate::common::misc::Player;

verus! {

/// All the possible pieces on the board, white ones first.
#[derive(PartialEq, Eq, Clone, Copy, Debug, Structural)]
pub enum Piece {
    WhiteKing,
    WhiteQueen,
    WhiteBishop,
    WhiteKnight,
    WhiteRook,
    WhitePawn,
    BlackKing,
    BlackQueen,
    BlackBishop,
    BlackKnight,
    BlackRook,
    BlackPawn,
}

/// The number of a piece: white king, queen, bishop, knight, rook, pawn are 0 to 5, the
/// black pieces 6 to 11 in the same order.
pub open spec fn index_of(p: Piece) -> int {
    match p {
        Piece::WhiteKing => 0,
        Piece::WhiteQueen => 1,
        Piece::WhiteBishop => 2,
        Piece::WhiteKnight => 3,
        Piece::WhiteRook => 4,
        Piece::WhitePawn => 5,
        Piece::BlackKing => 6,
        Piece::BlackQueen => 7,
        Piece::BlackBishop => 8,
        Piece::BlackKnight => 9,
        Piece::BlackRook => 10,
        Piece::BlackPawn => 11,
    }
}

/// The piece with the given number, below 12.
pub open spec fn piece_at(v: int) -> Piece {
    if v == 0 {
        Piece::WhiteKing
    } else if v == 1 {
        Piece::WhiteQueen
    } else if v == 2 {
        Piece::WhiteBishop
    } else if v == 3 {
        Piece::WhiteKnight
    } else if v == 4 {
        Piece::WhiteRook
    } else if v == 5 {
        Piece::WhitePawn
    } else if v == 6 {
        Piece::BlackKing
    } else if v == 7 {
        Piece::BlackQueen
    } else if v == 8 {
        Piece::BlackBishop
    } else if v == 9 {
        Piece::BlackKnight
    } else if v == 10 {
        Piece::BlackRook
    } else {
        Piece::BlackPawn
    }
}

/// The FEN letter of a piece: upper case for white.
pub open spec fn letter(p: Piece) -> char {
    match p {
        Piece::WhiteKing => 'K',
        Piece::BlackKing => 'k',
        Piece::WhiteQueen => 'Q',
        Piece::BlackQueen => 'q',
        Piece::WhiteRook => 'R',
        Piece::BlackRook => 'r',
        Piece::WhiteBishop => 'B',
        Piece::BlackBishop => 'b',
        Piece::WhiteKnight => 'N',
        Piece::BlackKnight => 'n',
        Piece::WhitePawn => 'P',
        Piece::BlackPawn => 'p',
    }
}

/// Every piece is the piece of its number.
pub proof fn lemma_index_roundtrip(p: Piece)
    ensures
        0 <= index_of(p) < 12,
        piece_at(index_of(p)) == p,
{
}

impl Piece {
    /// The number of the piece.
    pub fn index(self) -> (r: u8)
        ensures
            r == index_of(self),
    {
        match self {
            Piece::WhiteKing => 0,
            Piece::WhiteQueen => 1,
            Piece::WhiteBishop => 2,
            Piece::WhiteKnight => 3,
            Piece::WhiteRook => 4,
            Piece::WhitePawn => 5,
            Piece::BlackKing => 6,
            Piece::BlackQueen => 7,
            Piece::BlackBishop => 8,
            Piece::BlackKnight => 9,
            Piece::BlackRook => 10,
            Piece::BlackPawn => 11,
        }
    }

    /// The pieces from this one up to and including `end`, in number order.
    pub fn to(self, end: Piece) -> (r: PieceIter)
        ensures
            r.cur() == index_of(self),
            r.end() == index_of(end),
    {
        PieceIter { cur: self.index(), end: end.index() }
    }

    /// The piece of the other colour when `v` holds, the piece itself otherwise.
    pub fn flip(self, v: bool) -> (r: Self)
        ensures
            index_of(r) == (index_of(self) + if v { 6int } else { 0int }) % 12,
    {
        let add: u8 = if v { 6 } else { 0 };
        Self::from_u8((self.index() + add) % 12)
    }

    /// All the pieces of the black player (when `black`) or of the white player.
    pub fn player_pieces(black: bool) -> (r: PieceIter)
        ensures
            r.cur() == if black { 6int } else { 0int },
            r.end() == if black { 11int } else { 5int },
    {
        let add: u8 = if black { 6 } else { 0 };
        PieceIter { cur: add, end: 5 + add }
    }

    /// All the pieces a pawn of the black player (when `black`) or of the white player can
    /// promote to: queen, bishop, knight and rook.
    pub fn player_promote_pieces(black: bool) -> (r: PieceIter)
        ensures
            r.cur() == if black { 7int } else { 1int },
            r.end() == if black { 10int } else { 4int },
    {
        let add: u8 = if black { 6 } else { 0 };
        PieceIter { cur: 1 + add, end: 4 + add }
    }

    /// The king of a player.
    pub fn player_king(player: Player) -> (r: Self)
        ensures
            r == (if player == Player::White { Piece::WhiteKing } else { Piece::BlackKing }),
    {
        match player {
            Player::White => Piece::WhiteKing,
            Player::Black => Piece::BlackKing,
        }
    }

    /// The queen of a player.
    pub fn player_queen(player: Player) -> (r: Self)
        ensures
            r == (if player == Player::White { Piece::WhiteQueen } else { Piece::BlackQueen }),
    {
        match player {
            Player::White => Piece::WhiteQueen,
            Player::Black => Piece::BlackQueen,
        }
    }

    /// The rook of a player.
    pub fn player_rook(player: Player) -> (r: Self)
        ensures
            r == (if player == Player::White { Piece::WhiteRook } else { Piece::BlackRook }),
    {
        match player {
            Player::White => Piece::WhiteRook,
            Player::Black => Piece::BlackRook,
        }
    }

    /// The bishop of a player.
    pub fn player_bishop(player: Player) -> (r: Self)
        ensures
            r == (if player == Player::White { Piece::WhiteBishop } else { Piece::BlackBishop }),
    {
        match player {
            Player::White => Piece::WhiteBishop,
            Player::Black => Piece::BlackBishop,
        }
    }

    /// The knight of a player.
    pub fn player_knight(player: Player) -> (r: Self)
        ensures
            r == (if player == Player::White { Piece::WhiteKnight } else { Piece::BlackKnight }),
    {
        match player {
            Player::White => Piece::WhiteKnight,
            Player::Black => Piece::BlackKnight,
        }
    }

    /// The pawn of a player.
    pub fn player_pawn(player: Player) -> (r: Self)
        ensures
            r == (if player == Player::White { Piece::WhitePawn } else { Piece::BlackPawn }),
    {
        match player {
            Player::White => Piece::WhitePawn,
            Player::Black => Piece::BlackPawn,
        }
    }

    /// The FEN letter of the piece.
    pub fn to_char(self) -> (r: char)
        ensures
            r == letter(self),
    {
        match self {
            Piece::WhiteKing => 'K',
            Piece::BlackKing => 'k',
            Piece::WhiteQueen => 'Q',
            Piece::BlackQueen => 'q',
            Piece::WhiteRook => 'R',
            Piece::BlackRook => 'r',
            Piece::WhiteBishop => 'B',
            Piece::BlackBishop => 'b',
            Piece::WhiteKnight => 'N',
            Piece::BlackKnight => 'n',
            Piece::WhitePawn => 'P',
            Piece::BlackPawn => 'p',
        }
    }

    /// The piece with the given number, below 12.
    pub fn from_u8(v: u8) -> (r: Self)
        requires
            v < 12,
        ensures
            r == piece_at(v as int),
            index_of(r) == v,
    {
        match v {
            0 => Piece::WhiteKing,
            1 => Piece::WhiteQueen,
            2 => Piece::WhiteBishop,
            3 => Piece::WhiteKnight,
            4 => Piece::WhiteRook,
            5 => Piece::WhitePawn,
            6 => Piece::BlackKing,
            7 => Piece::BlackQueen,
            8 => Piece::BlackBishop,
            9 => Piece::BlackKnight,
            10 => Piece::BlackRook,
            _ => Piece::BlackPawn,
        }
    }

    /// The player the piece belongs to.
    pub fn player(self) -> (r: Player)
        ensures
            r == (if index_of(self) < 6 { Player::White } else { Player::Black }),
    {
        if self.white() {
            Player::White
        } else {
            Player::Black
        }
    }

    /// Whether the piece is white.
    pub fn white(self) -> (r: bool)
        ensures
            r == (index_of(self) < 6),
    {
        self.index() < 6
    }
}

/// The pieces between two numbers, both included, in number order.
pub struct PieceIter {
    cur: u8,
    end: u8,
}

impl PieceIter {
    #[verifier::type_invariant]
    spec fn within(self) -> bool {
        self.end < 12 && self.cur <= 12
    }

    /// The number of the next piece.
    pub closed spec fn cur(&self) -> int {
        self.cur as int
    }

    /// The number of the last piece.
    pub closed spec fn end(&self) -> int {
        self.end as int
    }

    /// The next piece, if any is left.
    pub fn next(&mut self) -> (r: Option<Piece>)
        ensures
            old(self).cur() > old(self).end() ==> r is None && final(self).cur() == old(self).cur(),
            old(self).cur() <= old(self).end() ==> r == Some(piece_at(old(self).cur())) && final(self).cur()
                == old(self).cur() + 1,
            final(self).end() == old(self).end(),
    {
        proof {
            use_type_invariant(&*self);
        }
        if self.cur > self.end {
            return None;
        }
        let res = Piece::from_u8(self.cur);
        self.cur = self.cur + 1;
        Some(res)
    }

    /// The number of pieces left.
    pub fn len(&self) -> (r: usize)
        requires
            self.cur() <= self.end(),
        ensures
            r == self.end() + 1 - self.cur(),
    {
        proof {
            use_type_invariant(self);
        }
        (self.end - self.cur + 1) as usize
    }

    /// The pieces left, in order.
    pub fn to_vec(self) -> (r: Vec<Piece>)
        ensures
            r@ == Seq::new(
                if self.cur() <= self.end() { (self.end() + 1 - self.cur()) as nat } else { 0 },
                |k: int| piece_at(self.cur() + k),
            ),
    {
        proof {
            use_type_invariant(&self);
        }
        let mut res: Vec<Piece> = Vec::new();
        let mut cur = self.cur;
        let end = self.end;
        let ghost start = self.cur();
        while cur <= end
            invariant
                end == self.end,
                self.end() < 12,
                start == self.cur(),
                start <= cur <= self.end() + 1 || (start > self.end() && cur == start),
                res@ == Seq::new((cur - start) as nat, |k: int| piece_at(start + k)),
            decreases 13 - cur,
        {
            let p = Piece::from_u8(cur);
            res.push(p);
            cur = cur + 1;
            assert(res@ =~= Seq::new((cur - start) as nat, |k: int| piece_at(start + k)));
        }
        assert(res@ =~= Seq::new(
            if self.cur() <= self.end() { (self.end() + 1 - self.cur()) as nat } else { 0 },
            |k: int| piece_at(self.cur() + k),
        ));
        res
    }
}

} // verus!
