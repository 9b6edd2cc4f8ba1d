use vstd::prelude::*;
use crate::common::square::{Square, C1, C8, square_name, square_of_name};
use crate::text::{chars_of, is_ascii, string_of};

verus! {

/// The piece a pawn promotes to.
#[derive(Debug, Clone, Copy, PartialEq, Eq, Structural)]
pub enum Promotion {
    Queen,
    Knight,
    Rook,
    Bishop,
}

/// The kind of a move.
#[derive(Debug, Clone, Copy, PartialEq, Eq, Structural)]
pub enum MoveKind {
    Normal,
    Castle,
    Promotion,
    EnPassant,
}

/// A move on the board.
///
/// Encoded in 16 bits: the origin square in bits 0-5, the target square in bits 6-11,
/// the kind in bits 12-13 and the promotion piece (or, for a normal move, the double pawn
/// move flag) in bits 14-15.
#[derive(Clone, Copy, PartialEq, Eq, Debug, Structural)]
pub struct Move(u16);

impl View for Move {
    type V = u16;

    closed spec fn view(&self) -> u16 {
        self.0
    }
}

/// The origin square index of an encoded move.
pub open spec fn move_from(v: u16) -> int {
    v as int % 64
}

/// The target square index of an encoded move.
pub open spec fn move_to(v: u16) -> int {
    (v as int / 64) % 64
}

/// The kind bits of an encoded move.
pub open spec fn move_ty(v: u16) -> u16 {
    v & 0x3000
}

/// The bits that encode a promotion piece.
pub open spec fn promotion_bits(p: Promotion) -> u16 {
    match p {
        Promotion::Queen => 0,
        Promotion::Knight => 0x4000,
        Promotion::Rook => 0x8000,
        Promotion::Bishop => 0xc000,
    }
}

/// The promotion piece that the top two bits of an encoded move stand for.
pub open spec fn promotion_of(v: u16) -> Promotion {
    let b = v & 0xc000;
    if b == 0x0000 {
        Promotion::Queen
    } else if b == 0x4000 {
        Promotion::Knight
    } else if b == 0x8000 {
        Promotion::Rook
    } else {
        Promotion::Bishop
    }
}

/// The kind that the kind bits of an encoded move stand for.
pub open spec fn kind_of(v: u16) -> MoveKind {
    let t = v & 0x3000;
    if t == 0 {
        MoveKind::Normal
    } else if t == 0x1000 {
        MoveKind::Castle
    } else if t == 0x2000 {
        MoveKind::Promotion
    } else {
        MoveKind::EnPassant
    }
}

/// The promotion an encoded move carries, if it is a promotion.
pub open spec fn promotion_option(v: u16) -> Option<Promotion> {
    if move_ty(v) == 0x2000 {
        Some(promotion_of(v))
    } else {
        None
    }
}

/// Mask of the origin square bits.
pub const FROM_MASK: u16 = 0x003f;
/// Mask of the target square bits.
pub const TO_MASK: u16 = 0x0fc0;
/// Mask of the kind bits.
pub const TYPE_MASK: u16 = 0x3000;
/// Kind bits of a castle.
pub const TYPE_CASTLE: u16 = 0x1000;
/// Kind bits of a promotion.
pub const TYPE_PROMOTION: u16 = 0x2000;
/// Kind bits of an en passant capture.
pub const TYPE_EN_PASSANT: u16 = 0x3000;
/// Kind bits of a normal move.
pub const TYPE_NORMAL: u16 = 0;
/// Mask of the promotion bits.
pub const PROMOTION_MASK: u16 = 0xc000;
/// Promotion bits of a queen.
pub const PROMOTION_QUEEN: u16 = 0x0000;
/// Promotion bits of a knight.
pub const PROMOTION_KNIGHT: u16 = 0x4000;
/// Promotion bits of a rook.
pub const PROMOTION_ROOK: u16 = 0x8000;
/// Promotion bits of a bishop.
pub const PROMOTION_BISHOP: u16 = 0xc000;
/// Flag of a normal move that moves a pawn two squares.
pub const DOUBLE_MOVE_PAWN: u16 = 0x4000;
/// The encoding of the invalid move.
pub const INVALID: u16 = 0xffff;
/// The encoding of the null move (passing the turn).
pub const NULL: u16 = 0;

/// A move packed from its origin, its target and its flag bits: each can be read back, and
/// the packing is the sum of the parts.
pub proof fn lemma_pack(f: u16, t: u16, extra: u16)
    requires
        f < 64,
        t < 64,
        extra % 0x1000 == 0,
    ensures
        (f | (t << 6) | extra) as int % 64 == f,
        ((f | (t << 6) | extra) as int / 64) % 64 == t,
        (f | (t << 6) | extra) & 0x3000 == ((extra / 0x1000) % 4) * 0x1000,
        (f | (t << 6) | extra) & 0xc000 == (extra / 0x4000) * 0x4000,
        f | (t << 6) | extra == f + 64 * t + extra,
{
    assert((f | (t << 6) | extra) % 64 == f && ((f | (t << 6) | extra) / 64) % 64 == t
        && (f | (t << 6) | extra) & 0x3000 == ((extra / 0x1000) % 4) * 0x1000
        && (f | (t << 6) | extra) & 0xc000 == (extra / 0x4000) * 0x4000
        && f | (t << 6) | extra == f + 64 * t + extra) by (bit_vector)
        requires
            f < 64,
            t < 64,
            extra % 0x1000 == 0,
    ;
}

impl Promotion {
    /// The bits that encode the promotion piece in a move.
    pub fn bits(self) -> (r: u16)
        ensures
            r == promotion_bits(self),
    {
        match self {
            Promotion::Queen => PROMOTION_QUEEN,
            Promotion::Knight => PROMOTION_KNIGHT,
            Promotion::Rook => PROMOTION_ROOK,
            Promotion::Bishop => PROMOTION_BISHOP,
        }
    }
}

impl Move {
    /// The move with the given encoding.
    pub closed spec fn from_u16_spec(v: u16) -> Move {
        Move(v)
    }

    /// The move with a given encoding has that encoding, and every move is the move of its
    /// encoding.
    pub proof fn lemma_from_u16_spec(m: Move)
        ensures
            Self::from_u16_spec(m@) == m,
            forall|v: u16| (#[trigger] Self::from_u16_spec(v))@ == v,
    {
    }

    /// The invalid move.
    pub fn invalid() -> (r: Move)
        ensures
            r@ == INVALID,
    {
        Move(INVALID)
    }

    /// The null move.
    pub fn null() -> (r: Move)
        ensures
            r@ == NULL,
    {
        Move(NULL)
    }

    /// The move with the given encoding.
    pub fn from_u16(v: u16) -> (r: Self)
        ensures
            r@ == v,
            r == Self::from_u16_spec(v),
    {
        Move(v)
    }

    /// The encoding of the move.
    pub fn to_u16(self) -> (r: u16)
        ensures
            r == self@,
    {
        self.0
    }

    /// A move with the given kind bits and promotion piece.
    pub fn new(from: Square, to: Square, ty: u16, promotion: Promotion) -> (r: Self)
        ensures
            r@ == (from@ as u16) | ((to@ as u16) << 6) | ty | promotion_bits(promotion),
    {
        Self((from.get() as u16) | ((to.get() as u16) << 6) | ty | promotion.bits())
    }

    /// A normal move.
    pub fn normal(from: Square, to: Square) -> (r: Self)
        ensures
            r@ == from@ + 64 * to@,
            move_from(r@) == from@,
            move_to(r@) == to@,
            move_ty(r@) == TYPE_NORMAL,
            r@ & PROMOTION_MASK == 0,
    {
        let f = from.get() as u16;
        let t = to.get() as u16;
        proof {
            lemma_pack(f, t, 0);
            assert(f | (t << 6) | 0 == f | (t << 6)) by (bit_vector);
            assert((f | (t << 6)) & PROMOTION_MASK == (f | (t << 6)) & 0xc000);
        }
        Self(f | (t << 6))
    }

    /// A normal move of a pawn two squares forward.
    pub fn double_pawn(from: Square, to: Square) -> (r: Self)
        ensures
            r@ == from@ + 64 * to@ + DOUBLE_MOVE_PAWN,
            move_from(r@) == from@,
            move_to(r@) == to@,
            move_ty(r@) == TYPE_NORMAL,
            r@ & PROMOTION_MASK != 0,
    {
        let f = from.get() as u16;
        let t = to.get() as u16;
        proof {
            lemma_pack(f, t, DOUBLE_MOVE_PAWN);
            assert(DOUBLE_MOVE_PAWN | f | (t << 6) == f | (t << 6) | DOUBLE_MOVE_PAWN) by (bit_vector);
        }
        Self(DOUBLE_MOVE_PAWN | f | (t << 6))
    }

    /// A castling move of the king.
    pub fn castle(from: Square, to: Square) -> (r: Self)
        ensures
            r@ == from@ + 64 * to@ + TYPE_CASTLE,
            move_from(r@) == from@,
            move_to(r@) == to@,
            move_ty(r@) == TYPE_CASTLE,
    {
        let f = from.get() as u16;
        let t = to.get() as u16;
        proof {
            lemma_pack(f, t, TYPE_CASTLE);
        }
        Self(f | (t << 6) | TYPE_CASTLE)
    }

    /// A pawn move that promotes.
    pub fn promotion(from: Square, to: Square, promotion: Promotion) -> (r: Self)
        ensures
            r@ == from@ + 64 * to@ + TYPE_PROMOTION + promotion_bits(promotion),
            move_from(r@) == from@,
            move_to(r@) == to@,
            move_ty(r@) == TYPE_PROMOTION,
            promotion_of(r@) == promotion,
    {
        let f = from.get() as u16;
        let t = to.get() as u16;
        let p = promotion.bits();
        proof {
            assert(p == 0 || p == 0x4000 || p == 0x8000 || p == 0xc000);
            assert((p == 0 || p == 0x4000 || p == 0x8000 || p == 0xc000) ==> (0x2000u16 | p) == 0x2000u16 + p)
                by (bit_vector);
            lemma_pack(f, t, TYPE_PROMOTION | p);
            assert(f | (t << 6) | TYPE_PROMOTION | p == f | (t << 6) | (TYPE_PROMOTION | p)) by (bit_vector);
        }
        Self(f | (t << 6) | TYPE_PROMOTION | p)
    }

    /// A pawn capturing en passant.
    pub fn en_passant(from: Square, to: Square) -> (r: Self)
        ensures
            r@ == from@ + 64 * to@ + TYPE_EN_PASSANT,
            move_from(r@) == from@,
            move_to(r@) == to@,
            move_ty(r@) == TYPE_EN_PASSANT,
    {
        let f = from.get() as u16;
        let t = to.get() as u16;
        proof {
            lemma_pack(f, t, TYPE_EN_PASSANT);
        }
        Self(f | (t << 6) | TYPE_EN_PASSANT)
    }

    /// The origin square.
    pub fn from(self) -> (r: Square)
        ensures
            r@ == move_from(self@),
    {
        let v = self.0;
        assert(v & FROM_MASK == v % 64) by (bit_vector);
        Square::new((v & FROM_MASK) as u8)
    }

    /// The target square.
    pub fn to(self) -> (r: Square)
        ensures
            r@ == move_to(self@),
    {
        let v = self.0;
        assert((v & TO_MASK) >> 6 == (v / 64) % 64) by (bit_vector);
        Square::new(((v & TO_MASK) >> 6) as u8)
    }

    /// The kind bits.
    pub fn ty(self) -> (r: u16)
        ensures
            r == move_ty(self@),
            r == TYPE_NORMAL || r == TYPE_CASTLE || r == TYPE_PROMOTION || r == TYPE_EN_PASSANT,
    {
        let v = self.0;
        assert(v & 0x3000 == 0 || v & 0x3000 == 0x1000 || v & 0x3000 == 0x2000 || v & 0x3000 == 0x3000)
            by (bit_vector);
        v & TYPE_MASK
    }

    /// The kind of the move.
    pub fn kind(self) -> (r: MoveKind)
        ensures
            r == kind_of(self@),
    {
        let t = self.ty();
        if t == TYPE_NORMAL {
            MoveKind::Normal
        } else if t == TYPE_CASTLE {
            MoveKind::Castle
        } else if t == TYPE_PROMOTION {
            MoveKind::Promotion
        } else {
            MoveKind::EnPassant
        }
    }

    /// Whether a normal move moves a pawn two squares.
    pub fn is_double_move(self) -> (r: bool)
        requires
            move_ty(self@) == TYPE_NORMAL,
        ensures
            r == (self@ & PROMOTION_MASK != 0),
    {
        self.0 & PROMOTION_MASK != 0
    }

    /// The promotion piece of a promotion.
    pub fn promotion_piece(self) -> (r: Promotion)
        requires
            move_ty(self@) == TYPE_PROMOTION,
        ensures
            r == promotion_of(self@),
    {
        let raw = self.0 & PROMOTION_MASK;
        if raw == PROMOTION_QUEEN {
            Promotion::Queen
        } else if raw == PROMOTION_KNIGHT {
            Promotion::Knight
        } else if raw == PROMOTION_ROOK {
            Promotion::Rook
        } else {
            Promotion::Bishop
        }
    }

    /// The promotion piece, for a promotion.
    pub fn get_promotion(self) -> (r: Option<Promotion>)
        ensures
            r == promotion_option(self@),
    {
        if self.ty() == TYPE_PROMOTION {
            Some(self.promotion_piece())
        } else {
            None
        }
    }

    /// A normal move from the square named by the first two bytes of `name` to the square
    /// named at the start of the rest, such as `e2e4`.
    pub fn from_name(name: &str) -> (r: Option<Self>)
        requires
            splits_after_two_bytes(name@),
        ensures
            r == move_of_name(name@),
    {
        let chars = chars_of(name);
        if chars.len() < 2 || !(is_ascii(chars[0]) && is_ascii(chars[1])) {
            return None;
        }
        let from = match Square::from_chars(chars[0], chars[1]) {
            Some(s) => s,
            None => return None,
        };
        if chars.len() < 4 {
            return None;
        }
        let to = match Square::from_chars(chars[2], chars[3]) {
            Some(s) => s,
            None => return None,
        };
        proof {
            assert(seq![chars@[0], chars@[1]] =~= name@.subrange(0, 2));
            assert(name@.subrange(2, name@.len() as int)[0] == name@[2]);
            assert(name@.subrange(2, name@.len() as int)[1] == name@[3]);
        }
        Some(Self::normal(from, to))
    }

    /// The text of the move, such as `e2e4`, `e7e8=Q`, `e5d6e.p.` or `O-O(e1,g1)`.
    pub fn to_string(self) -> (r: String)
        ensures
            r@ == move_text(self@),
    {
        let mut out: Vec<char> = Vec::new();
        if self.0 == INVALID {
            out.push('I');
            out.push('N');
            out.push('V');
            out.push('A');
            out.push('L');
            out.push('I');
            out.push('D');
            assert(out@ =~= move_text(self@));
            return string_of(&out);
        }
        let from = self.from();
        let to = self.to();
        let ty = self.ty();
        if ty == TYPE_CASTLE {
            out.push('O');
            out.push('-');
            out.push('O');
            if !(to.get() == C1 || to.get() == C8) {
                out.push('-');
                out.push('O');
            }
            out.push('(');
            let ghost head = out@;
            from.push_name(&mut out);
            out.push(',');
            to.push_name(&mut out);
            out.push(')');
            assert(out@ =~= head + square_name(from@) + seq![','] + square_name(to@) + seq![')']);
            assert(out@ =~= move_text(self@));
            return string_of(&out);
        }
        from.push_name(&mut out);
        to.push_name(&mut out);
        let ghost names = out@;
        assert(names =~= square_name(from@) + square_name(to@));
        if ty == TYPE_PROMOTION {
            out.push('=');
            let letter = match self.promotion_piece() {
                Promotion::Queen => 'Q',
                Promotion::Knight => 'K',
                Promotion::Rook => 'R',
                Promotion::Bishop => 'B',
            };
            out.push(letter);
        } else if ty == TYPE_EN_PASSANT {
            out.push('e');
            out.push('.');
            out.push('p');
            out.push('.');
        }
        assert(out@ =~= move_text(self@));
        string_of(&out)
    }
}

impl Promotion {
    /// The letter of the promotion piece: `q`, `k`, `r` or `b`.
    pub fn to_string(self) -> (r: String)
        ensures
            r@ == seq![promotion_letter(self)],
    {
        let v: Vec<char> = vec![
            match self {
                Promotion::Queen => 'q',
                Promotion::Knight => 'k',
                Promotion::Rook => 'r',
                Promotion::Bishop => 'b',
            },
        ];
        string_of(&v)
    }
}

/// The letter of a promotion piece.
pub open spec fn promotion_letter(p: Promotion) -> char {
    match p {
        Promotion::Queen => 'q',
        Promotion::Knight => 'k',
        Promotion::Rook => 'r',
        Promotion::Bishop => 'b',
    }
}

/// Whether the first two bytes of the UTF-8 encoding of the characters are whole
/// characters: two ASCII characters, or one character of two bytes.
pub open spec fn splits_after_two_bytes(s: Seq<char>) -> bool {
    ||| s.len() >= 2 && (s[0] as int) < 0x80 && (s[1] as int) < 0x80
    ||| s.len() >= 1 && 0x80 <= (s[0] as int) < 0x800
}

/// The normal move a name such as `e2e4` stands for: the origin square is named by the
/// first two characters when they are ASCII, the target square by the start of the rest.
pub open spec fn move_of_name(s: Seq<char>) -> Option<Move> {
    if s.len() >= 2 && (s[0] as int) < 0x80 && (s[1] as int) < 0x80 {
        match (square_of_name(s.subrange(0, 2)), square_of_name(s.subrange(2, s.len() as int))) {
            (Some(f), Some(t)) => Some(Move::from_u16_spec((f + 64 * t) as u16)),
            _ => None,
        }
    } else {
        None
    }
}

/// The text of an encoded move: `INVALID` for the invalid move; for a castle `O-O` when the
/// king goes to the c file and `O-O-O` otherwise, followed by both squares in brackets;
/// otherwise both square names, then `=` and the piece letter for a promotion or `e.p.`
/// for an en passant capture.
pub open spec fn move_text(v: u16) -> Seq<char> {
    if v == INVALID {
        seq!['I', 'N', 'V', 'A', 'L', 'I', 'D']
    } else if move_ty(v) == TYPE_CASTLE {
        let head = if move_to(v) == C1 || move_to(v) == C8 {
            seq!['O', '-', 'O']
        } else {
            seq!['O', '-', 'O', '-', 'O']
        };
        head + seq!['('] + square_name(move_from(v)) + seq![','] + square_name(move_to(v)) + seq![')']
    } else {
        let names = square_name(move_from(v)) + square_name(move_to(v));
        if move_ty(v) == TYPE_PROMOTION {
            names + seq!['=', match promotion_of(v) {
                Promotion::Queen => 'Q',
                Promotion::Knight => 'K',
                Promotion::Rook => 'R',
                Promotion::Bishop => 'B',
            }]
        } else if move_ty(v) == TYPE_EN_PASSANT {
            names + seq!['e', '.', 'p', '.']
        } else {
            names
        }
    }
}

} // verus!
