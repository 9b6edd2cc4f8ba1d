use vstd::prelude::*;
use super::misc::{Player, player_index};

verus! {

/// The content of a square: a piece or nothing.
#[derive(PartialEq, Eq, Clone, Copy, Debug, Structural)]
pub enum SquareContent {
    WhiteKing,
    BlackKing,
    WhitePawn,
    BlackPawn,
    WhiteBishop,
    BlackBishop,
    WhiteKnight,
    BlackKnight,
    WhiteRook,
    BlackRook,
    WhiteQueen,
    BlackQueen,
    Empty,
}

/// All the possible pieces on the board.
///
/// The number of a piece is its position in this list: the colour is the lowest bit.
#[derive(PartialEq, Eq, Clone, Copy, Debug, Structural)]
pub enum Piece {
    WhiteKing,
    BlackKing,
    WhitePawn,
    BlackPawn,
    WhiteBishop,
    BlackBishop,
    WhiteKnight,
    BlackKnight,
    WhiteRook,
    BlackRook,
    WhiteQueen,
    BlackQueen,
}

/// The number that represents a piece (0 to 11; odd numbers are black pieces).
pub open spec fn piece_index(p: Piece) -> int {
    match p {
        Piece::WhiteKing => 0,
        Piece::BlackKing => 1,
        Piece::WhitePawn => 2,
        Piece::BlackPawn => 3,
        Piece::WhiteBishop => 4,
        Piece::BlackBishop => 5,
        Piece::WhiteKnight => 6,
        Piece::BlackKnight => 7,
        Piece::WhiteRook => 8,
        Piece::BlackRook => 9,
        Piece::WhiteQueen => 10,
        Piece::BlackQueen => 11,
    }
}

/// The piece with the given number; numbers above 11 give the black queen.
pub open spec fn piece_of_index(i: int) -> Piece {
    if i == 0 {
        Piece::WhiteKing
    } else if i == 1 {
        Piece::BlackKing
    } else if i == 2 {
        Piece::WhitePawn
    } else if i == 3 {
        Piece::BlackPawn
    } else if i == 4 {
        Piece::WhiteBishop
    } else if i == 5 {
        Piece::BlackBishop
    } else if i == 6 {
        Piece::WhiteKnight
    } else if i == 7 {
        Piece::BlackKnight
    } else if i == 8 {
        Piece::WhiteRook
    } else if i == 9 {
        Piece::BlackRook
    } else if i == 10 {
        Piece::WhiteQueen
    } else {
        Piece::BlackQueen
    }
}

/// The number that represents a square content: that of its piece, 12 when empty.
pub open spec fn content_index(c: SquareContent) -> int {
    match c {
        SquareContent::WhiteKing => 0,
        SquareContent::BlackKing => 1,
        SquareContent::WhitePawn => 2,
        SquareContent::BlackPawn => 3,
        SquareContent::WhiteBishop => 4,
        SquareContent::BlackBishop => 5,
        SquareContent::WhiteKnight => 6,
        SquareContent::BlackKnight => 7,
        SquareContent::WhiteRook => 8,
        SquareContent::BlackRook => 9,
        SquareContent::WhiteQueen => 10,
        SquareContent::BlackQueen => 11,
        SquareContent::Empty => 12,
    }
}

/// The content with the given number; numbers above 12 give the empty content.
pub open spec fn content_of_index(i: int) -> SquareContent {
    if 0 <= i < 12 {
        content_of_piece(piece_of_index(i))
    } else {
        SquareContent::Empty
    }
}

/// The content of a square that holds the given piece.
pub open spec fn content_of_piece(p: Piece) -> SquareContent {
    match p {
        Piece::WhiteKing => SquareContent::WhiteKing,
        Piece::BlackKing => SquareContent::BlackKing,
        Piece::WhitePawn => SquareContent::WhitePawn,
        Piece::BlackPawn => SquareContent::BlackPawn,
        Piece::WhiteBishop => SquareContent::WhiteBishop,
        Piece::BlackBishop => SquareContent::BlackBishop,
        Piece::WhiteKnight => SquareContent::WhiteKnight,
        Piece::BlackKnight => SquareContent::BlackKnight,
        Piece::WhiteRook => SquareContent::WhiteRook,
        Piece::BlackRook => SquareContent::BlackRook,
        Piece::WhiteQueen => SquareContent::WhiteQueen,
        Piece::BlackQueen => SquareContent::BlackQueen,
    }
}

/// The piece in a square content, if any.
pub open spec fn piece_of_content(c: SquareContent) -> Option<Piece> {
    if c == SquareContent::Empty {
        None
    } else {
        Some(piece_of_index(content_index(c)))
    }
}

/// The letter of a piece in FEN: upper case for white, lower case for black.
pub open spec fn piece_char(p: Piece) -> char {
    match p {
        Piece::WhiteKing => 'K',
        Piece::BlackKing => 'k',
        Piece::WhiteQueen => 'Q',
        Piece::BlackQueen => 'q',
        Piece::WhiteRook => 'R',
        Piece::BlackRook => 'r',
        Piece::WhiteBishop => 'B',
        Piece::BlackBishop => 'b',
        Piece::WhiteKnight => 'N',
        Piece::BlackKnight => 'n',
        Piece::WhitePawn => 'P',
        Piece::BlackPawn => 'p',
    }
}

/// The piece a FEN letter stands for.
pub open spec fn piece_of_char(c: char) -> Option<Piece> {
    if c == 'K' {
        Some(Piece::WhiteKing)
    } else if c == 'k' {
        Some(Piece::BlackKing)
    } else if c == 'Q' {
        Some(Piece::WhiteQueen)
    } else if c == 'q' {
        Some(Piece::BlackQueen)
    } else if c == 'R' {
        Some(Piece::WhiteRook)
    } else if c == 'r' {
        Some(Piece::BlackRook)
    } else if c == 'B' {
        Some(Piece::WhiteBishop)
    } else if c == 'b' {
        Some(Piece::BlackBishop)
    } else if c == 'N' {
        Some(Piece::WhiteKnight)
    } else if c == 'n' {
        Some(Piece::BlackKnight)
    } else if c == 'P' {
        Some(Piece::WhitePawn)
    } else if c == 'p' {
        Some(Piece::BlackPawn)
    } else {
        None
    }
}

/// The piece `Piece::from_u8` gives for a number: white king, queen, bishop, knight,
/// rook, pawn, then the same for black.
pub open spec fn piece_by_rank_order(v: int) -> Piece {
    if v == 0 {
        Piece::WhiteKing
    } else if v == 1 {
        Piece::WhiteQueen
    } else if v == 2 {
        Piece::WhiteBishop
    } else if v == 3 {
        Piece::WhiteKnight
    } else if v == 4 {
        Piece::WhiteRook
    } else if v == 5 {
        Piece::WhitePawn
    } else if v == 6 {
        Piece::BlackKing
    } else if v == 7 {
        Piece::BlackQueen
    } else if v == 8 {
        Piece::BlackBishop
    } else if v == 9 {
        Piece::BlackKnight
    } else if v == 10 {
        Piece::BlackRook
    } else {
        Piece::BlackPawn
    }
}

impl SquareContent {
    /// Create from the number that represents the content (at most 12).
    pub fn from_u8(v: u8) -> (r: Self)
        requires
            v <= 12,
        ensures
            content_index(r) == v,
    {
        if v == 12 {
            SquareContent::Empty
        } else {
            SquareContent::from(Piece::from_u8_unchecked(v))
        }
    }

    /// Create from the number that represents the content; the caller keeps it at most 12.
    pub fn from_u8_unchecked(v: u8) -> (r: Self)
        requires
            v <= 12,
        ensures
            content_index(r) == v,
    {
        Self::from_u8(v)
    }

    /// The number that represents the content.
    pub fn to_u8(self) -> (r: u8)
        ensures
            r == content_index(self),
    {
        match self {
            SquareContent::WhiteKing => 0,
            SquareContent::BlackKing => 1,
            SquareContent::WhitePawn => 2,
            SquareContent::BlackPawn => 3,
            SquareContent::WhiteBishop => 4,
            SquareContent::BlackBishop => 5,
            SquareContent::WhiteKnight => 6,
            SquareContent::BlackKnight => 7,
            SquareContent::WhiteRook => 8,
            SquareContent::BlackRook => 9,
            SquareContent::WhiteQueen => 10,
            SquareContent::BlackQueen => 11,
            SquareContent::Empty => 12,
        }
    }

    /// The piece on the square, if any.
    pub fn to_piece(self) -> (r: Option<Piece>)
        ensures
            r == piece_of_content(self),
            r matches Some(p) ==> content_of_piece(p) == self,
            r is None <==> self == SquareContent::Empty,
    {
        match self {
            SquareContent::Empty => None,
            _ => Some(Piece::from_u8_unchecked(self.to_u8())),
        }
    }

    /// The character of the content: the FEN letter of its piece, a space when empty.
    pub fn to_char(self) -> (r: char)
        ensures
            r == (match piece_of_content(self) {
                Some(p) => piece_char(p),
                None => ' ',
            }),
    {
        match self.to_piece() {
            Some(p) => p.to_char(),
            None => ' ',
        }
    }

    /// The content of a square that holds the given piece.
    pub fn from(value: Piece) -> (r: Self)
        ensures
            r == content_of_piece(value),
            content_index(r) == piece_index(value),
    {
        match value {
            Piece::WhiteKing => SquareContent::WhiteKing,
            Piece::BlackKing => SquareContent::BlackKing,
            Piece::WhitePawn => SquareContent::WhitePawn,
            Piece::BlackPawn => SquareContent::BlackPawn,
            Piece::WhiteBishop => SquareContent::WhiteBishop,
            Piece::BlackBishop => SquareContent::BlackBishop,
            Piece::WhiteKnight => SquareContent::WhiteKnight,
            Piece::BlackKnight => SquareContent::BlackKnight,
            Piece::WhiteRook => SquareContent::WhiteRook,
            Piece::BlackRook => SquareContent::BlackRook,
            Piece::WhiteQueen => SquareContent::WhiteQueen,
            Piece::BlackQueen => SquareContent::BlackQueen,
        }
    }
}

/// The number of pieces.
pub const PIECE_AMOUNT: u8 = 12;

impl Piece {
    /// All pieces, in the order of their numbers.
    pub fn all() -> (r: AllIter)
        ensures
            r.position() == 0,
    {
        AllIter { cur: 0 }
    }

    /// The pieces of a player: king, pawn, bishop, knight, rook, queen.
    pub fn player_pieces(player: Player) -> (r: PlayerIter)
        ensures
            r.position() == player_index(player),
    {
        PlayerIter { cur: player.to_u8() }
    }

    /// Always flip the color of the piece
    pub fn flip(self) -> (r: Self)
        ensures
            piece_index(r) == (if piece_index(self) % 2 == 0 {
                piece_index(self) + 1
            } else {
                piece_index(self) - 1
            }),
    {
        let v = self.to_u8();
        assert(v < 12 ==> (v ^ 1) < 12 && (v ^ 1) == (if v % 2 == 0 { (v + 1) as u8 } else { (v - 1) as u8 }))
            by (bit_vector);
        Self::from_u8_unchecked(v ^ 1)
    }

    /// Flip the color of the piece if the condition is true
    pub fn cond_flip(self, cond: bool) -> (r: Self)
        ensures
            !cond ==> r == self,
            cond ==> piece_index(r) == (if piece_index(self) % 2 == 0 {
                piece_index(self) + 1
            } else {
                piece_index(self) - 1
            }),
    {
        if cond {
            self.flip()
        } else {
            self
        }
    }

    /// The pieces a pawn of the player can promote to: bishop, knight, rook, queen.
    pub fn player_promote_pieces(player: Player) -> (r: PlayerIter)
        ensures
            r.position() == 4 + player_index(player),
    {
        PlayerIter { cur: 4 + player.to_u8() }
    }

    /// Returns the king for the given player
    pub fn player_king(player: Player) -> (r: Self)
        ensures
            piece_index(r) == 0 + player_index(player),
    {
        Self::from_u8_unchecked(0 + player.to_u8())
    }

    /// Returns the queen for the given player
    pub fn player_queen(player: Player) -> (r: Self)
        ensures
            piece_index(r) == 10 + player_index(player),
    {
        Self::from_u8_unchecked(10 + player.to_u8())
    }

    /// Returns the rook for the given player
    pub fn player_rook(player: Player) -> (r: Self)
        ensures
            piece_index(r) == 8 + player_index(player),
    {
        Self::from_u8_unchecked(8 + player.to_u8())
    }

    /// Returns the bishop for the given player
    pub fn player_bishop(player: Player) -> (r: Self)
        ensures
            piece_index(r) == 4 + player_index(player),
    {
        Self::from_u8_unchecked(4 + player.to_u8())
    }

    /// Returns the knight for the given player
    pub fn player_knight(player: Player) -> (r: Self)
        ensures
            piece_index(r) == 6 + player_index(player),
    {
        Self::from_u8_unchecked(6 + player.to_u8())
    }

    /// Returns the pawn for the given player
    pub fn player_pawn(player: Player) -> (r: Self)
        ensures
            piece_index(r) == 2 + player_index(player),
    {
        Self::from_u8_unchecked(2 + player.to_u8())
    }

    /// The FEN letter of the piece.
    pub fn to_char(self) -> (r: char)
        ensures
            r == piece_char(self),
    {
        match self {
            Piece::WhiteKing => 'K',
            Piece::BlackKing => 'k',
            Piece::WhiteQueen => 'Q',
            Piece::BlackQueen => 'q',
            Piece::WhiteRook => 'R',
            Piece::BlackRook => 'r',
            Piece::WhiteBishop => 'B',
            Piece::BlackBishop => 'b',
            Piece::WhiteKnight => 'N',
            Piece::BlackKnight => 'n',
            Piece::WhitePawn => 'P',
            Piece::BlackPawn => 'p',
        }
    }

    /// The piece a FEN letter stands for.
    pub fn from_char(c: char) -> (r: Option<Self>)
        ensures
            r == piece_of_char(c),
    {
        match c {
            'K' => Some(Piece::WhiteKing),
            'k' => Some(Piece::BlackKing),
            'Q' => Some(Piece::WhiteQueen),
            'q' => Some(Piece::BlackQueen),
            'R' => Some(Piece::WhiteRook),
            'r' => Some(Piece::BlackRook),
            'B' => Some(Piece::WhiteBishop),
            'b' => Some(Piece::BlackBishop),
            'N' => Some(Piece::WhiteKnight),
            'n' => Some(Piece::BlackKnight),
            'P' => Some(Piece::WhitePawn),
            'p' => Some(Piece::BlackPawn),
            _ => None,
        }
    }

    /// A piece from a number in the order white king, queen, bishop, knight, rook, pawn,
    /// then the same for black.
    pub fn from_u8(v: u8) -> (r: Self)
        requires
            v < 12,
        ensures
            r == piece_by_rank_order(v as int),
    {
        match v {
            0 => Piece::WhiteKing,
            1 => Piece::WhiteQueen,
            2 => Piece::WhiteBishop,
            3 => Piece::WhiteKnight,
            4 => Piece::WhiteRook,
            5 => Piece::WhitePawn,
            6 => Piece::BlackKing,
            7 => Piece::BlackQueen,
            8 => Piece::BlackBishop,
            9 => Piece::BlackKnight,
            10 => Piece::BlackRook,
            _ => Piece::BlackPawn,
        }
    }

    /// Create a piece from its number; the caller keeps it below 12.
    pub fn from_u8_unchecked(v: u8) -> (r: Self)
        requires
            v < 12,
        ensures
            piece_index(r) == v,
            r == piece_of_index(v as int),
    {
        match v {
            0 => Piece::WhiteKing,
            1 => Piece::BlackKing,
            2 => Piece::WhitePawn,
            3 => Piece::BlackPawn,
            4 => Piece::WhiteBishop,
            5 => Piece::BlackBishop,
            6 => Piece::WhiteKnight,
            7 => Piece::BlackKnight,
            8 => Piece::WhiteRook,
            9 => Piece::BlackRook,
            10 => Piece::WhiteQueen,
            _ => Piece::BlackQueen,
        }
    }

    /// The number that represents the piece.
    pub fn to_u8(self) -> (r: u8)
        ensures
            r == piece_index(self),
            r < 12,
    {
        match self {
            Piece::WhiteKing => 0,
            Piece::BlackKing => 1,
            Piece::WhitePawn => 2,
            Piece::BlackPawn => 3,
            Piece::WhiteBishop => 4,
            Piece::BlackBishop => 5,
            Piece::WhiteKnight => 6,
            Piece::BlackKnight => 7,
            Piece::WhiteRook => 8,
            Piece::BlackRook => 9,
            Piece::WhiteQueen => 10,
            Piece::BlackQueen => 11,
        }
    }

    /// Returns to which player this piece belongs.
    pub fn player(self) -> (r: Player)
        ensures
            player_index(r) == piece_index(self) % 2,
    {
        if self.white() {
            Player::White
        } else {
            Player::Black
        }
    }

    /// Returns if the piece is a white piece.
    pub fn white(self) -> (r: bool)
        ensures
            r == (piece_index(self) % 2 == 0),
    {
        let v = self.to_u8();
        assert(v & 1 == v % 2) by (bit_vector);
        v & 1 == 0
    }
}

/// The pieces in the order of their numbers, from a position onwards.
#[derive(Debug)]
pub struct AllIter {
    cur: u8,
}

impl AllIter {
    #[verifier::type_invariant]
    spec fn within(self) -> bool {
        self.cur <= 12
    }

    /// The number of the next piece (12 when done).
    pub closed spec fn position(self) -> int {
        self.cur as int
    }

    /// The next piece, if any.
    pub fn next(&mut self) -> (r: Option<Piece>)
        ensures
            old(self).position() < 12 ==> r == Some(piece_of_index(old(self).position()))
                && final(self).position() == old(self).position() + 1,
            old(self).position() >= 12 ==> r is None && final(self).position() == old(self).position(),
            0 <= final(self).position() <= 12,
    {
        proof {
            use_type_invariant(&*self);
        }
        if self.cur == PIECE_AMOUNT {
            return None;
        }
        let res = Piece::from_u8_unchecked(self.cur);
        self.cur = self.cur + 1;
        Some(res)
    }

    /// The number of pieces left.
    pub fn len(&self) -> (r: usize)
        ensures
            r == 12 - self.position(),
    {
        proof {
            use_type_invariant(self);
        }
        (PIECE_AMOUNT - self.cur) as usize
    }

    /// The pieces left, in order.
    pub fn to_vec(self) -> (r: Vec<Piece>)
        ensures
            r@.len() == 12 - self.position(),
            forall|k: int| 0 <= k < r@.len() ==> #[trigger] r@[k] == piece_of_index(self.position() + k),
    {
        proof {
            use_type_invariant(&self);
        }
        let mut it = self;
        let mut res: Vec<Piece> = Vec::new();
        while it.cur < PIECE_AMOUNT
            invariant
                self.cur <= it.cur <= 12,
                res@.len() == it.cur - self.cur,
                forall|k: int| 0 <= k < res@.len() ==> #[trigger] res@[k] == piece_of_index(self.cur + k),
            decreases 12 - it.cur,
        {
            let p = Piece::from_u8_unchecked(it.cur);
            res.push(p);
            it.cur = it.cur + 1;
        }
        res
    }
}

/// The pieces of one player from a position onwards: every second number.
#[derive(Debug)]
pub struct PlayerIter {
    cur: u8,
}

impl PlayerIter {
    #[verifier::type_invariant]
    spec fn within(self) -> bool {
        self.cur <= 13
    }

    /// The number of the next piece (12 or more when done).
    pub closed spec fn position(self) -> int {
        self.cur as int
    }

    /// The next piece, if any.
    pub fn next(&mut self) -> (r: Option<Piece>)
        ensures
            old(self).position() < 12 ==> r == Some(piece_of_index(old(self).position()))
                && final(self).position() == old(self).position() + 2,
            old(self).position() >= 12 ==> r is None && final(self).position() == old(self).position(),
    {
        proof {
            use_type_invariant(&*self);
        }
        if self.cur >= PIECE_AMOUNT {
            return None;
        }
        let res = Piece::from_u8_unchecked(self.cur);
        self.cur = self.cur + 2;
        Some(res)
    }

    /// The number of pieces left.
    pub fn len(&self) -> (r: usize)
        ensures
            r == (13 - self.position()) / 2,
    {
        proof {
            use_type_invariant(self);
        }
        ((PIECE_AMOUNT + 1 - self.cur) / 2) as usize
    }

    /// The pieces left, in order.
    pub fn to_vec(self) -> (r: Vec<Piece>)
        ensures
            r@.len() == (13 - self.position()) / 2,
            forall|k: int| 0 <= k < r@.len() ==> #[trigger] r@[k] == piece_of_index(self.position() + 2 * k),
    {
        proof {
            use_type_invariant(&self);
        }
        let mut cur = self.cur;
        let mut res: Vec<Piece> = Vec::new();
        while cur < PIECE_AMOUNT
            invariant
                self.cur <= cur <= 13,
                (cur - self.cur) % 2 == 0,
                res@.len() == (cur - self.cur) / 2,
                forall|k: int| 0 <= k < res@.len() ==> #[trigger] res@[k] == piece_of_index(self.cur + 2 * k),
            decreases 13 - cur,
        {
            let p = Piece::from_u8_unchecked(cur);
            res.push(p);
            cur = cur + 2;
        }
        res
    }
}

/// A piece's FEN letter reads back as the same piece.
pub proof fn lemma_piece_char_roundtrip(p: Piece)
    ensures
        piece_of_char(piece_char(p)) == Some(p),
{
}

/// The number of a piece gives back the piece.
pub proof fn lemma_piece_index_roundtrip(p: Piece)
    ensures
        piece_of_index(piece_index(p)) == p,
        0 <= piece_index(p) < 12,
{
}

} // verus!
