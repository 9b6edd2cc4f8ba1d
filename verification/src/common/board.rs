use vstd::prelude::*;
use super::bb::{BB, bb_has, lemma_clear_bits_small, lemma_empty, lemma_set_bit, lemma_xor_zero};
use super::extra_state::{
    ExtraState, BLACK_KING_CASTLE, BLACK_QUEEN_CASTLE, INVALID_ENPASSANT, WHITE_KING_CASTLE,
    WHITE_QUEEN_CASTLE,
};
use super::hash::HashTables;
use super::misc::{Player, opponent, player_index};
use super::piece::{Piece, SquareContent, content_index, content_of_index};
use super::square::{Square, A1, A8, B1, B8, C1, C8, D1, D8, E1, E8, F1, F8, G1, G8, H1, H8};
use crate::chess_core::mov::{
    Move, Promotion, move_from, move_to, move_ty, promotion_of, INVALID, NULL, PROMOTION_MASK,
    TYPE_CASTLE, TYPE_EN_PASSANT, TYPE_NORMAL, TYPE_PROMOTION,
};
use crate::chess_core::util::{BoardArray, PieceArray};

verus! {

/// A move which has been made on the board with extra information for undoing the move.
#[derive(Clone, Copy, PartialEq, Eq, Debug, Structural)]
pub struct UnmakeMove {
    /// The move taken
    pub mov: Move,
    /// Which piece was taken
    pub taken: SquareContent,
    /// The state before the move.
    pub state: ExtraState,
}

/// A position on the board: a bitboard per piece, the content of every square, the extra
/// state and the hash of the position.
#[derive(Clone, Debug)]
pub struct Board {
    pub pieces: PieceArray<BB>,
    pub squares: BoardArray<SquareContent>,
    pub state: ExtraState,
    pub hash: u64,
    pub hash_tables: HashTables,
}

/// The mathematical content of a board: bitboards, squares, extra state and hash.
pub struct BoardModel {
    pub pieces: Seq<BB>,
    pub squares: Seq<SquareContent>,
    pub state: ExtraState,
    pub hash: u64,
}

impl View for Board {
    type V = BoardModel;

    open spec fn view(&self) -> BoardModel {
        BoardModel {
            pieces: self.pieces.0@,
            squares: self.squares.0@,
            state: self.state,
            hash: self.hash,
        }
    }
}

/// The bitboard of the single square `s`.
pub open spec fn bit(s: int) -> u64 {
    1u64 << (s as u64)
}

/// The hash key of piece number `p` on square `s`.
pub open spec fn pkey(k: HashTables, p: int, s: int) -> u64 {
    k.piece_keys@[p]@[s]
}

/// The hash key of castling state `c`.
pub open spec fn ckey(k: HashTables, c: int) -> u64 {
    k.castle_keys@[c]
}

/// The hash key of en passant state `e`.
pub open spec fn ekey(k: HashTables, e: int) -> u64 {
    k.en_passant_keys@[e]
}

/// Whether every bitboard holds exactly the squares whose content is its piece.
pub open spec fn consistent(b: BoardModel) -> bool {
    &&& b.pieces.len() == 12
    &&& b.squares.len() == 64
    &&& forall|p: int, s: int|
        0 <= p < 12 && 0 <= s < 64 ==> (bb_has(#[trigger] b.pieces[p].0, s) <==> content_index(
            #[trigger] b.squares[s],
        ) == p)
}

/// The conditions every position of the library keeps: bitboards and squares agree,
/// and the castling and en passant states are in range.
pub open spec fn well_formed(b: BoardModel) -> bool {
    &&& consistent(b)
    &&& b.state.castle < 16
    &&& b.state.en_passant <= 8
}

/// The castling rights lost by moving a piece to square `t`: only landing on a rook's first
/// square takes a right away; landing on a king's first square (e1, e8) takes none, as in
/// the move code this library has always had.
pub open spec fn castle_mask_to(t: int) -> u8 {
    if t == 0 {
        WHITE_QUEEN_CASTLE
    } else if t == 7 {
        WHITE_KING_CASTLE
    } else if t == 56 {
        BLACK_QUEEN_CASTLE
    } else if t == 63 {
        BLACK_KING_CASTLE
    } else {
        0
    }
}

/// The castling rights lost by moving a piece away from square `f`.
pub open spec fn castle_mask_from(f: int) -> u8 {
    if f == 0 {
        WHITE_QUEEN_CASTLE
    } else if f == 7 {
        WHITE_KING_CASTLE
    } else if f == 4 {
        3
    } else if f == 56 {
        BLACK_QUEEN_CASTLE
    } else if f == 63 {
        BLACK_KING_CASTLE
    } else if f == 60 {
        12
    } else {
        0
    }
}

/// The piece number a pawn of `player` promotes to.
pub open spec fn promote_index(p: Promotion, player: Player) -> int {
    match p {
        Promotion::Queen => 10 + player_index(player),
        Promotion::Knight => 6 + player_index(player),
        Promotion::Bishop => 4 + player_index(player),
        Promotion::Rook => 8 + player_index(player),
    }
}

/// For a castle to square `t`: the corner the rook leaves, the square it goes to, the
/// rook's piece number and the castling rights the move removes.
pub open spec fn castle_rook(t: int) -> (int, int, int, u8) {
    if t == 2 {
        (0, 3, 8, 3)
    } else if t == 6 {
        (7, 5, 8, 3)
    } else if t == 58 {
        (56, 59, 9, 12)
    } else {
        (63, 61, 9, 12)
    }
}

/// The square and piece number of the pawn that an en passant capture takes.
pub open spec fn en_passant_victim(player: Player, t: int) -> (int, int) {
    match player {
        Player::White => (t - 8, 3),
        Player::Black => (t + 8, 2),
    }
}

/// Whether a move counts towards the clock of reversible moves: a normal move of a piece
/// other than a pawn to an empty square that takes away no castling right.
pub open spec fn reversible_move(b: BoardModel, m: Move) -> bool {
    let f = move_from(m@);
    let t = move_to(m@);
    let p = content_index(b.squares[f]);
    let taken0 = b.squares.update(f, SquareContent::Empty)[t];
    let mask = castle_mask_to(t) | castle_mask_from(f);
    &&& m@ != NULL
    &&& move_ty(m@) == TYPE_NORMAL
    &&& taken0 == SquareContent::Empty
    &&& mask & b.state.castle == 0
    &&& p != 2
    &&& p != 3
}

/// Whether a move can be made on a board without breaking any of the conditions that
/// `make_move` relies on; the clock must have room when the move counts towards it.
pub open spec fn can_make(b: BoardModel, m: Move) -> bool {
    let f = move_from(m@);
    let t = move_to(m@);
    let ty = move_ty(m@);
    &&& b.pieces.len() == 12
    &&& b.squares.len() == 64
    &&& b.state.castle < 16
    &&& b.state.en_passant <= 8
    &&& m@ != INVALID
    &&& reversible_move(b, m) ==> b.state.move_clock < 255
    &&& m@ != NULL ==> {
        &&& b.squares[f] != SquareContent::Empty
        &&& b.squares.update(f, SquareContent::Empty)[t] != SquareContent::WhiteKing
        &&& b.squares.update(f, SquareContent::Empty)[t] != SquareContent::BlackKing
        &&& (ty == TYPE_CASTLE ==> (t == 2 || t == 6 || t == 58 || t == 62))
        &&& (ty == TYPE_PROMOTION ==> content_index(b.squares[f]) == 2 + player_index(b.state.player))
        &&& (ty == TYPE_EN_PASSANT ==> (match b.state.player {
            Player::White => t > 8,
            Player::Black => t + 8 < 64,
        }))
    }
}

/// The board after a move: `(bitboards, squares, hash, castling rights, en passant
/// state, reversible, taken)` before the side to move and the clock change.
pub open spec fn move_effect(b: BoardModel, k: HashTables, m: Move) -> (Seq<BB>, Seq<SquareContent>, u64, u8, u8, bool, SquareContent) {
    let f = move_from(m@);
    let t = move_to(m@);
    let ty = move_ty(m@);
    let pc = b.squares[f];
    let p = content_index(pc);
    let taken0 = b.squares.update(f, SquareContent::Empty)[t];
    let sq1 = b.squares.update(f, SquareContent::Empty).update(t, pc);
    let pcs1 = b.pieces.update(p, BB(b.pieces[p].0 ^ (bit(f) | bit(t))));
    let h1 = b.hash ^ k.turn_key ^ pkey(k, p, f) ^ pkey(k, p, t) ^ ekey(k, b.state.en_passant as int)
        ^ ekey(k, 8);
    let c0 = b.state.castle;
    if ty == TYPE_NORMAL {
        let ti = content_index(taken0);
        let pcs2 = if taken0 != SquareContent::Empty {
            pcs1.update(ti, BB(pcs1[ti].0 & !bit(t)))
        } else {
            pcs1
        };
        let h2 = if taken0 != SquareContent::Empty { h1 ^ pkey(k, ti, t) } else { h1 };
        let double = m@ & PROMOTION_MASK != 0;
        let ep = if double { (f % 8) as u8 } else { 8u8 };
        let h3 = if double { h2 ^ ekey(k, 8) ^ ekey(k, f % 8) } else { h2 };
        let mask = castle_mask_to(t) | castle_mask_from(f);
        let rev = taken0 == SquareContent::Empty && mask & c0 == 0 && p != 2 && p != 3;
        let c1 = c0 & !mask;
        (pcs2, sq1, h3 ^ ckey(k, c0 as int) ^ ckey(k, c1 as int), c1, ep, rev, taken0)
    } else if ty == TYPE_CASTLE {
        let (rf, rt, rp, rm) = castle_rook(t);
        let sq2 = sq1.update(rf, SquareContent::Empty).update(rt, content_of_index(rp));
        let pcs2 = pcs1.update(rp, BB(pcs1[rp].0 ^ (bit(rf) | bit(rt))));
        let c1 = c0 & !rm;
        let h2 = h1 ^ ckey(k, c0 as int) ^ ckey(k, c1 as int) ^ pkey(k, rp, rf) ^ pkey(k, rp, rt);
        (pcs2, sq2, h2, c1, 8u8, false, taken0)
    } else if ty == TYPE_PROMOTION {
        let ti = content_index(taken0);
        let pcs2 = if taken0 != SquareContent::Empty {
            pcs1.update(ti, BB(pcs1[ti].0 & !bit(t)))
        } else {
            pcs1
        };
        let h2 = if taken0 != SquareContent::Empty { h1 ^ pkey(k, ti, t) } else { h1 };
        let q = promote_index(promotion_of(m@), b.state.player);
        let pcs3 = pcs2.update(p, BB(pcs2[p].0 & !bit(t)));
        let pcs4 = pcs3.update(q, BB(pcs3[q].0 | bit(t)));
        let sq2 = sq1.update(t, content_of_index(q));
        let h3 = h2 ^ pkey(k, p, t) ^ pkey(k, q, t);
        let c1 = c0 & !castle_mask_to(t);
        (pcs4, sq2, h3 ^ ckey(k, c0 as int) ^ ckey(k, c1 as int), c1, 8u8, false, taken0)
    } else {
        let (vs, vp) = en_passant_victim(b.state.player, t);
        let pcs2 = pcs1.update(vp, BB(pcs1[vp].0 & !bit(vs)));
        let sq2 = sq1.update(vs, SquareContent::Empty);
        (pcs2, sq2, h1 ^ pkey(k, vp, vs), c0, 8u8, false, content_of_index(vp))
    }
}

/// The board after a move, and what undoing it needs.
pub open spec fn made(b: BoardModel, k: HashTables, m: Move) -> (BoardModel, UnmakeMove) {
    if m@ == NULL {
        (
            BoardModel {
                state: ExtraState { player: opponent(b.state.player), ..b.state },
                hash: b.hash ^ k.turn_key,
                ..b
            },
            UnmakeMove { mov: m, taken: SquareContent::Empty, state: b.state },
        )
    } else {
        let (pcs, sqs, h, c, ep, rev, taken) = move_effect(b, k, m);
        (
            BoardModel {
                pieces: pcs,
                squares: sqs,
                state: ExtraState {
                    player: opponent(b.state.player),
                    castle: c,
                    en_passant: ep,
                    move_clock: if rev { (b.state.move_clock + 1) as u8 } else { 0u8 },
                },
                hash: h,
            },
            UnmakeMove { mov: m, taken, state: b.state },
        )
    }
}

/// Whether a move can be undone on a board without breaking any of the conditions that
/// `unmake_move` relies on.
pub open spec fn can_unmake(b: BoardModel, u: UnmakeMove) -> bool {
    let m = u.mov;
    let t = move_to(m@);
    let ty = move_ty(m@);
    &&& b.pieces.len() == 12
    &&& b.squares.len() == 64
    &&& m@ != NULL ==> {
        &&& b.state.castle < 16
        &&& b.state.en_passant <= 8
        &&& u.state.castle < 16
        &&& u.state.en_passant <= 8
        &&& b.squares[t] != SquareContent::Empty
        &&& (ty == TYPE_CASTLE ==> (t == 2 || t == 6 || t == 58 || t == 62))
        &&& (ty == TYPE_EN_PASSANT ==> u.taken != SquareContent::Empty && (match u.state.player {
            Player::White => t > 8,
            Player::Black => t + 8 < 64,
        }))
    }
}

/// The board after undoing a move.
pub open spec fn unmade(b: BoardModel, k: HashTables, u: UnmakeMove) -> BoardModel {
    let m = u.mov;
    let h0 = b.hash ^ k.turn_key;
    if m@ == NULL {
        BoardModel { state: ExtraState { player: opponent(b.state.player), ..b.state }, hash: h0, ..b }
    } else {
        let f = move_from(m@);
        let t = move_to(m@);
        let ty = move_ty(m@);
        let pc = b.squares[t];
        let p = content_index(pc);
        let sq1 = b.squares.update(t, u.taken).update(f, pc);
        let pcs1 = b.pieces.update(p, BB(b.pieces[p].0 ^ (bit(f) | bit(t))));
        let h1 = h0 ^ pkey(k, p, f) ^ pkey(k, p, t) ^ ckey(k, b.state.castle as int) ^ ckey(
            k,
            u.state.castle as int,
        ) ^ ekey(k, b.state.en_passant as int) ^ ekey(k, u.state.en_passant as int);
        let ti = content_index(u.taken);
        let (pcs, sqs, h) = if ty == TYPE_NORMAL {
            if u.taken != SquareContent::Empty {
                (pcs1.update(ti, BB(pcs1[ti].0 | bit(t))), sq1, h1 ^ pkey(k, ti, t))
            } else {
                (pcs1, sq1, h1)
            }
        } else if ty == TYPE_CASTLE {
            let (rf, rt, rp, rm) = castle_rook(t);
            let sq2 = sq1.update(rt, SquareContent::Empty).update(rf, content_of_index(rp));
            let pcs2 = pcs1.update(rp, BB(pcs1[rp].0 ^ (bit(rt) | bit(rf))));
            (pcs2, sq2, h1 ^ pkey(k, rp, rf) ^ pkey(k, rp, rt))
        } else if ty == TYPE_PROMOTION {
            let pcs2 = if u.taken != SquareContent::Empty {
                pcs1.update(ti, BB(pcs1[ti].0 | bit(t)))
            } else {
                pcs1
            };
            let h2 = if u.taken != SquareContent::Empty { h1 ^ pkey(k, ti, t) } else { h1 };
            let pawn = 2 + player_index(u.state.player);
            let pcs3 = pcs2.update(p, BB(pcs2[p].0 & !bit(f)));
            let pcs4 = pcs3.update(pawn, BB(pcs3[pawn].0 | bit(f)));
            (pcs4, sq1.update(f, content_of_index(pawn)), h2 ^ pkey(k, p, f) ^ pkey(k, pawn, f))
        } else {
            let vs = match u.state.player {
                Player::Black => t + 8,
                Player::White => t - 8,
            };
            let sq2 = sq1.update(t, SquareContent::Empty).update(vs, u.taken);
            let pcs2 = pcs1.update(ti, BB(pcs1[ti].0 | bit(vs)));
            (pcs2, sq2, h1 ^ pkey(k, ti, vs))
        };
        BoardModel { pieces: pcs, squares: sqs, state: u.state, hash: h }
    }
}

/// The exclusive or of the keys of the pieces on the squares below `n`.
pub open spec fn squares_hash(sq: Seq<SquareContent>, k: HashTables, n: nat) -> u64
    decreases n,
{
    if n == 0 {
        0
    } else {
        let s = n - 1;
        squares_hash(sq, k, (n - 1) as nat) ^ (if sq[s] != SquareContent::Empty {
            pkey(k, content_index(sq[s]), s)
        } else {
            0u64
        })
    }
}

/// The hash of a position computed from scratch: the initial key, the key of every piece
/// on its square, of the castling state, of the en passant state and, when black is to
/// move, of the turn.
pub open spec fn position_hash(b: BoardModel, k: HashTables) -> u64 {
    k.initial_key ^ squares_hash(b.squares, k, 64) ^ ckey(k, b.state.castle as int) ^ ekey(
        k,
        b.state.en_passant as int,
    ) ^ (if b.state.player == Player::Black { k.turn_key } else { 0u64 })
}

/// The content of every square in the starting position.
pub open spec fn start_square(s: int) -> SquareContent {
    if s == 0 || s == 7 {
        SquareContent::WhiteRook
    } else if s == 1 || s == 6 {
        SquareContent::WhiteKnight
    } else if s == 2 || s == 5 {
        SquareContent::WhiteBishop
    } else if s == 3 {
        SquareContent::WhiteQueen
    } else if s == 4 {
        SquareContent::WhiteKing
    } else if 8 <= s < 16 {
        SquareContent::WhitePawn
    } else if 48 <= s < 56 {
        SquareContent::BlackPawn
    } else if s == 56 || s == 63 {
        SquareContent::BlackRook
    } else if s == 57 || s == 62 {
        SquareContent::BlackKnight
    } else if s == 58 || s == 61 {
        SquareContent::BlackBishop
    } else if s == 59 {
        SquareContent::BlackQueen
    } else if s == 60 {
        SquareContent::BlackKing
    } else {
        SquareContent::Empty
    }
}

/// The bitboard of every piece in the starting position, by piece number.
pub open spec fn start_bits(p: int) -> u64 {
    if p == 0 {
        0x10
    } else if p == 1 {
        0x1000_0000_0000_0000
    } else if p == 2 {
        0xff00
    } else if p == 3 {
        0x00ff_0000_0000_0000
    } else if p == 4 {
        0x24
    } else if p == 5 {
        0x2400_0000_0000_0000
    } else if p == 6 {
        0x42
    } else if p == 7 {
        0x4200_0000_0000_0000
    } else if p == 8 {
        0x81
    } else if p == 9 {
        0x8100_0000_0000_0000
    } else if p == 10 {
        0x08
    } else {
        0x0800_0000_0000_0000
    }
}

/// Whether the bitboards of two different pieces never share a square.
pub open spec fn disjoint_pieces(b: BoardModel) -> bool {
    forall|pa: int, pb: int|
        0 <= pb < pa < 12 ==> #[trigger] b.pieces[pa].0 & #[trigger] b.pieces[pb].0 == 0
}

/// Whether every occupied square is in its piece's bitboard and no bitboard holds an
/// empty square.
pub open spec fn mailbox_matches(b: BoardModel) -> bool {
    forall|s: int|
        0 <= s < 64 ==> if #[trigger] b.squares[s] != SquareContent::Empty {
            bb_has(b.pieces[content_index(b.squares[s])].0, s)
        } else {
            forall|p: int| 0 <= p < 12 ==> !bb_has(#[trigger] b.pieces[p].0, s)
        }
}

/// What `is_valid` checks: one king of each colour, no square in two bitboards, squares
/// and bitboards agree, and the hash is that of the position.
pub open spec fn valid_position(b: BoardModel, k: HashTables) -> bool {
    &&& super::bb::popcount(b.pieces[0].0) == 1
    &&& super::bb::popcount(b.pieces[1].0) == 1
    &&& disjoint_pieces(b)
    &&& mailbox_matches(b)
    &&& b.hash == position_hash(b, k)
}

impl Board {
    /// Returns an empty board, white to move, with the hash of that position.
    pub fn empty() -> (r: Self)
        ensures
            forall|p: int| 0 <= p < 12 ==> (#[trigger] r.pieces.0@[p]).0 == 0,
            forall|s: int| 0 <= s < 64 ==> #[trigger] r.squares.0@[s] == SquareContent::Empty,
            r.state == ExtraState::empty_spec(),
            r.hash == r.hash_tables.initial_key,
    {
        let pieces = PieceArray::new(BB(0));
        let squares = BoardArray::new(SquareContent::Empty);
        let state = ExtraState::empty();
        let hash_tables = HashTables::new();
        Board { pieces, squares, state, hash: hash_tables.initial(), hash_tables }
    }

    /// The hash of the position computed from scratch.
    pub fn init_hash(&self) -> (r: u64)
        requires
            self.state.castle < 16,
            self.state.en_passant <= 8,
        ensures
            r == position_hash(self@, self.hash_tables),
    {
        let k = &self.hash_tables;
        let mut acc: u64 = 0;
        let mut s: u8 = 0;
        while s < 64
            invariant
                s <= 64,
                acc == squares_hash(self.squares.0@, *k, s as nat),
                k == &self.hash_tables,
            decreases 64 - s,
        {
            let c = self.squares.get(Square::new(s));
            if c != SquareContent::Empty {
                acc = acc ^ k.piece(c.to_u8(), s);
            } else {
                proof {
                    lemma_xor_zero(acc);
                }
            }
            s = s + 1;
        }
        let mut hash = k.initial() ^ acc;
        hash = hash ^ k.castle_state(self.state.castle);
        hash = hash ^ k.en_passant_state(self.state.en_passant);
        if self.state.player == Player::Black {
            hash = hash ^ k.turn();
        } else {
            proof {
                lemma_xor_zero(hash);
            }
        }
        hash
    }

    /// Returns a board in the start position.
    pub fn start_position() -> (r: Self)
        ensures
            forall|s: int| 0 <= s < 64 ==> #[trigger] r.squares.0@[s] == start_square(s),
            forall|p: int| 0 <= p < 12 ==> (#[trigger] r.pieces.0@[p]).0 == start_bits(p),
            r.state == (ExtraState { player: Player::White, castle: 15, en_passant: 8, move_clock: 0 }),
            r.hash == position_hash(r@, r.hash_tables),
    {
        let mut res = Board::empty();
        res.state.castle = 15;
        res.state.player = Player::White;

        res.pieces.set(0, BB(0x10));
        res.squares.set(Square::new(E1), SquareContent::WhiteKing);
        res.pieces.set(10, BB(0x08));
        res.squares.set(Square::new(D1), SquareContent::WhiteQueen);
        res.pieces.set(4, BB(0x24));
        res.squares.set(Square::new(C1), SquareContent::WhiteBishop);
        res.squares.set(Square::new(F1), SquareContent::WhiteBishop);
        res.pieces.set(6, BB(0x42));
        res.squares.set(Square::new(B1), SquareContent::WhiteKnight);
        res.squares.set(Square::new(G1), SquareContent::WhiteKnight);
        res.pieces.set(8, BB(0x81));
        res.squares.set(Square::new(A1), SquareContent::WhiteRook);
        res.squares.set(Square::new(H1), SquareContent::WhiteRook);
        res.pieces.set(2, BB(0xff00));

        let mut f: u8 = 0;
        while f < 8
            invariant
                f <= 8,
                forall|s: int| 0 <= s < 64 ==> #[trigger] res.squares.0@[s] == (if 8 <= s < 8 + f {
                    SquareContent::WhitePawn
                } else if 48 <= s < 48 + f {
                    SquareContent::BlackPawn
                } else if s < 8 {
                    start_square(s)
                } else {
                    SquareContent::Empty
                }),
                forall|p: int| 0 <= p < 12 ==> (#[trigger] res.pieces.0@[p]).0 == (if p == 0 || p == 2 || p == 4 || p == 6 || p == 8 || p == 10 {
                    start_bits(p)
                } else {
                    0
                }),
                res.state == (ExtraState { player: Player::White, castle: 15, en_passant: 8, move_clock: 0 }),
            decreases 8 - f,
        {
            res.squares.set(Square::from_file_rank(f, 1), SquareContent::WhitePawn);
            res.squares.set(Square::from_file_rank(f, 6), SquareContent::BlackPawn);
            f = f + 1;
        }

        res.pieces.set(1, BB(0x1000_0000_0000_0000));
        res.squares.set(Square::new(E8), SquareContent::BlackKing);
        res.pieces.set(11, BB(0x0800_0000_0000_0000));
        res.squares.set(Square::new(D8), SquareContent::BlackQueen);
        res.pieces.set(5, BB(0x2400_0000_0000_0000));
        res.squares.set(Square::new(C8), SquareContent::BlackBishop);
        res.squares.set(Square::new(F8), SquareContent::BlackBishop);
        res.pieces.set(7, BB(0x4200_0000_0000_0000));
        res.squares.set(Square::new(B8), SquareContent::BlackKnight);
        res.squares.set(Square::new(G8), SquareContent::BlackKnight);
        res.pieces.set(9, BB(0x8100_0000_0000_0000));
        res.squares.set(Square::new(A8), SquareContent::BlackRook);
        res.squares.set(Square::new(H8), SquareContent::BlackRook);
        res.pieces.set(3, BB(0x00ff_0000_0000_0000));

        res.hash = res.init_hash();
        res
    }

    /// Copy the position of another board onto this one.
    pub fn copy_position(&mut self, b: Board)
        ensures
            final(self)@ == b@,
            final(self).hash_tables == b.hash_tables,
    {
        self.squares = b.squares;
        self.pieces = b.pieces;
        self.state = b.state;
        self.hash_tables = b.hash_tables;
        self.hash = b.hash;
    }

    /// Whether two boards hold the same position: equal hashes, bitboards and extra state.
    pub fn is_equal(&self, other: &Self) -> (r: bool)
        ensures
            r == (self.hash == other.hash && self.pieces.0@ == other.pieces.0@ && self.state == other.state),
    {
        if self.hash != other.hash {
            return false;
        }
        let mut p: u8 = 0;
        while p < 12
            invariant
                p <= 12,
                forall|i: int| 0 <= i < p ==> self.pieces.0@[i] == other.pieces.0@[i],
            decreases 12 - p,
        {
            if self.pieces.get(p) != other.pieces.get(p) {
                return false;
            }
            p = p + 1;
        }
        assert(self.pieces.0@ =~= other.pieces.0@);
        if self.state != other.state {
            return false;
        }
        true
    }

    /// A board holding the given squares and extra state, with bitboards and hash made to
    /// match.
    pub fn from_squares_state(squares: BoardArray<SquareContent>, state: ExtraState) -> (r: Self)
        requires
            state.castle < 16,
            state.en_passant <= 8,
        ensures
            r.squares == squares,
            r.state == state,
            consistent(r@),
            r.hash == position_hash(r@, r.hash_tables),
    {
        let pieces = pieces_from_squares(&squares);
        let hash_tables = HashTables::new();
        let mut res = Board { pieces, squares, state, hash: 0, hash_tables };
        res.hash = res.init_hash();
        res
    }

    /// Checks whether the position is valid: one king of each colour, no square in two
    /// bitboards, squares and bitboards agree and the hash is that of the position.
    pub fn is_valid(&self) -> (r: bool)
        requires
            self.state.castle < 16,
            self.state.en_passant <= 8,
        ensures
            r == valid_position(self@, self.hash_tables),
    {
        let mut res = true;
        if self.pieces.get(0).count() != 1 {
            res = false;
        }
        if self.pieces.get(1).count() != 1 {
            res = false;
        }
        let mut overlap = false;
        let mut pa: u8 = 0;
        while pa < 12
            invariant
                pa <= 12,
                overlap == !(forall|a: int, b: int| 0 <= b < a < pa ==> #[trigger] self.pieces.0@[a].0
                    & #[trigger] self.pieces.0@[b].0 == 0),
            decreases 12 - pa,
        {
            let mut pb: u8 = 0;
            while pb < pa
                invariant
                    pb <= pa < 12,
                    overlap == !((forall|a: int, b: int| 0 <= b < a < pa ==> #[trigger] self.pieces.0@[a].0
                        & #[trigger] self.pieces.0@[b].0 == 0) && (forall|b: int| 0 <= b < pb ==> self.pieces.0@[pa as int].0
                        & #[trigger] self.pieces.0@[b].0 == 0)),
                decreases pa - pb,
            {
                if self.pieces.get(pa).0 & self.pieces.get(pb).0 != 0 {
                    overlap = true;
                }
                pb = pb + 1;
            }
            pa = pa + 1;
        }
        if overlap {
            res = false;
        }
        let mut mismatch = false;
        let mut s: u8 = 0;
        while s < 64
            invariant
                s <= 64,
                mismatch == !(forall|t: int| 0 <= t < s ==> if #[trigger] self.squares.0@[t] != SquareContent::Empty {
                    bb_has(self.pieces.0@[content_index(self.squares.0@[t])].0, t)
                } else {
                    forall|p: int| 0 <= p < 12 ==> !bb_has(#[trigger] self.pieces.0@[p].0, t)
                }),
            decreases 64 - s,
        {
            let sq = Square::new(s);
            let c = self.squares.get(sq);
            if c != SquareContent::Empty {
                if (self.pieces.get(c.to_u8()).0 >> s) & 1 != 1 {
                    mismatch = true;
                }
            } else {
                let mut p: u8 = 0;
                let mut found = false;
                while p < 12
                    invariant
                        p <= 12,
                        s < 64,
                        found == exists|q: int| 0 <= q < p && bb_has(#[trigger] self.pieces.0@[q].0, s as int),
                    decreases 12 - p,
                {
                    if (self.pieces.get(p).0 >> s) & 1 == 1 {
                        found = true;
                    }
                    p = p + 1;
                }
                if found {
                    mismatch = true;
                }
            }
            s = s + 1;
        }
        if mismatch {
            res = false;
        }
        if self.hash != self.init_hash() {
            res = false;
        }
        res
    }

    /// The content of a square.
    pub fn on(&self, square: Square) -> (r: SquareContent)
        ensures
            r == self.squares.0@[square@],
    {
        self.squares.get(square)
    }

    /// The bits of piece number `p`.
    fn piece_bits(&self, p: u8) -> (r: u64)
        requires
            p < 12,
        ensures
            r == self.pieces.0@[p as int].0,
    {
        self.pieces.get(p).0
    }

    fn set_piece_bits(&mut self, p: u8, v: u64)
        requires
            p < 12,
        ensures
            final(self).pieces.0@ == old(self).pieces.0@.update(p as int, BB(v)),
            final(self).squares == old(self).squares,
            final(self).state == old(self).state,
            final(self).hash == old(self).hash,
            final(self).hash_tables == old(self).hash_tables,
    {
        self.pieces.set(p, BB(v));
    }

    /// Make a move on the board.
    pub fn make_move(&mut self, m: Move) -> (r: UnmakeMove)
        requires
            can_make(old(self)@, m),
        ensures
            final(self)@ == made(old(self)@, old(self).hash_tables, m).0,
            r == made(old(self)@, old(self).hash_tables, m).1,
            final(self).hash_tables == old(self).hash_tables,
    {
        let ghost b = self@;
        let ghost k = self.hash_tables;
        self.hash = self.hash ^ self.hash_tables.turn();

        if m.to_u16() == NULL {
            let res = UnmakeMove { mov: m, state: self.state, taken: SquareContent::Empty };
            self.state.player = self.state.player.flip();
            return res;
        }
        let old_state = self.state;

        let from = m.from();
        let to = m.to();
        let ty = m.ty();
        let fi = from.get();
        let ti = to.get();

        let pc = self.squares.get(from);
        self.squares.set(from, SquareContent::Empty);
        let p = pc.to_u8();
        let mut taken = self.squares.get(to);
        self.squares.set(to, pc);
        let bits = self.piece_bits(p) ^ (BB::square(from).0 | BB::square(to).0);
        self.set_piece_bits(p, bits);
        self.hash = self.hash ^ self.hash_tables.piece(p, fi);
        self.hash = self.hash ^ self.hash_tables.piece(p, ti);

        let mut reversible = taken == SquareContent::Empty;
        proof {
            let pcs1 = b.pieces.update(p as int, BB(b.pieces[p as int].0 ^ (bit(fi as int) | bit(ti as int))));
            assert(self.pieces.0@ =~= pcs1);
            assert(self.hash == b.hash ^ k.turn_key ^ pkey(k, p as int, fi as int) ^ pkey(k, p as int, ti as int));
        }

        self.hash = self.hash ^ self.hash_tables.en_passant_state(self.state.en_passant);
        self.state.en_passant = INVALID_ENPASSANT;
        self.hash = self.hash ^ self.hash_tables.en_passant_state(self.state.en_passant);

        if ty == TYPE_NORMAL {
            if taken != SquareContent::Empty {
                let tp = taken.to_u8();
                let bits = self.piece_bits(tp) & !BB::square(to).0;
                self.set_piece_bits(tp, bits);
                self.hash = self.hash ^ self.hash_tables.piece(tp, ti);
            }
            proof {
                let f = fi as int;
                let t = ti as int;
                let pcs1 = b.pieces.update(p as int, BB(b.pieces[p as int].0 ^ (bit(f) | bit(t))));
                let h1 = b.hash ^ k.turn_key ^ pkey(k, p as int, f) ^ pkey(k, p as int, t) ^ ekey(k, b.state.en_passant as int)
                    ^ ekey(k, 8);
                let taken0 = b.squares.update(f, SquareContent::Empty)[t];
                let tix = content_index(taken0);
                let pcs2 = if taken0 != SquareContent::Empty {
                    pcs1.update(tix, BB(pcs1[tix].0 & !bit(t)))
                } else {
                    pcs1
                };
                let h2 = if taken0 != SquareContent::Empty { h1 ^ pkey(k, tix, t) } else { h1 };
                assert(taken0 == taken);
                assert(self.pieces.0@ =~= pcs2);
                assert(self.hash == h2);
            }
            if m.is_double_move() {
                self.hash = self.hash ^ self.hash_tables.en_passant_state(self.state.en_passant);
                self.state.en_passant = from.file();
                self.hash = self.hash ^ self.hash_tables.en_passant_state(self.state.en_passant);
            }
            let mask = castle_mask_to_exec(ti) | castle_mask_from_exec(fi);
            reversible = reversible && mask & self.state.castle == 0 && p != 2 && p != 3;
            self.hash = self.hash ^ self.hash_tables.castle_state(self.state.castle);
            self.state.castle = self.state.castle & !mask;
            proof {
                let c0 = old_state.castle;
                if c0 < 16 {
                    lemma_clear_bits_small(c0, mask);
                }
            }
            self.hash = self.hash ^ self.hash_tables.castle_state(self.state.castle);
            proof {
                assert(self.pieces.0@ =~= move_effect(b, k, m).0);
                assert(self.hash == move_effect(b, k, m).2);
            }
        } else if ty == TYPE_CASTLE {
            reversible = false;
            let (rf, rt, rp, rm): (u8, u8, u8, u8) = if ti == C1 {
                (A1, D1, 8, 3)
            } else if ti == G1 {
                (H1, F1, 8, 3)
            } else if ti == C8 {
                (A8, D8, 9, 12)
            } else {
                (H8, F8, 9, 12)
            };
            let rook = SquareContent::from_u8(rp);
            self.squares.set(Square::new(rf), SquareContent::Empty);
            self.squares.set(Square::new(rt), rook);
            let bits = self.piece_bits(rp) ^ (BB::square(Square::new(rf)).0 | BB::square(Square::new(rt)).0);
            self.set_piece_bits(rp, bits);
            self.hash = self.hash ^ self.hash_tables.castle_state(self.state.castle);
            self.state.castle = self.state.castle & !rm;
            proof {
                let c0 = old_state.castle;
                if c0 < 16 {
                    lemma_clear_bits_small(c0, rm);
                }
            }
            self.hash = self.hash ^ self.hash_tables.castle_state(self.state.castle);
            self.hash = self.hash ^ self.hash_tables.piece(rp, rf);
            self.hash = self.hash ^ self.hash_tables.piece(rp, rt);
            proof {
                assert(self.pieces.0@ =~= move_effect(b, k, m).0);
                assert(self.hash == move_effect(b, k, m).2);
            }
        } else if ty == TYPE_PROMOTION {
            reversible = false;
            if taken != SquareContent::Empty {
                let tp = taken.to_u8();
                let bits = self.piece_bits(tp) & !BB::square(to).0;
                self.set_piece_bits(tp, bits);
                self.hash = self.hash ^ self.hash_tables.piece(tp, ti);
            }
            let player = self.state.player;
            let promote = match m.promotion_piece() {
                Promotion::Queen => Piece::player_queen(player),
                Promotion::Knight => Piece::player_knight(player),
                Promotion::Bishop => Piece::player_bishop(player),
                Promotion::Rook => Piece::player_rook(player),
            };
            let q = promote.to_u8();
            let bits = self.piece_bits(p) & !BB::square(to).0;
            self.set_piece_bits(p, bits);
            let bits = self.piece_bits(q) | BB::square(to).0;
            self.set_piece_bits(q, bits);
            self.squares.set(to, SquareContent::from(promote));
            self.hash = self.hash ^ self.hash_tables.piece(p, ti);
            self.hash = self.hash ^ self.hash_tables.piece(q, ti);
            self.hash = self.hash ^ self.hash_tables.castle_state(self.state.castle);
            let mask = castle_mask_to_exec(ti);
            self.state.castle = self.state.castle & !mask;
            proof {
                let c0 = old_state.castle;
                if c0 < 16 {
                    lemma_clear_bits_small(c0, mask);
                }
            }
            self.hash = self.hash ^ self.hash_tables.castle_state(self.state.castle);
            proof {
                assert(self.pieces.0@ =~= move_effect(b, k, m).0);
                assert(self.hash == move_effect(b, k, m).2);
            }
        } else {
            reversible = false;
            let (vs, vp): (Square, u8) = match self.state.player {
                Player::White => (to.minus(8), 3),
                Player::Black => (to.plus(8), 2),
            };
            let bits = self.piece_bits(vp) & !BB::square(vs).0;
            self.set_piece_bits(vp, bits);
            self.squares.set(vs, SquareContent::Empty);
            self.hash = self.hash ^ self.hash_tables.piece(vp, vs.get());
            taken = SquareContent::from_u8(vp);
            proof {
                assert(self.pieces.0@ =~= move_effect(b, k, m).0);
                assert(self.hash == move_effect(b, k, m).2);
            }
        }

        proof {
            let eff = move_effect(b, k, m);
            assert(self.pieces.0@ =~= eff.0);
            assert(self.squares.0@ =~= eff.1);
            assert(self.hash == eff.2);
            assert(self.state.castle == eff.3);
            assert(self.state.en_passant == eff.4);
            assert(reversible == eff.5);
            assert(taken == eff.6);
        }
        self.state.player = self.state.player.flip();

        if reversible {
            assert(reversible_move(b, m));
            self.state.move_clock = self.state.move_clock + 1;
        } else {
            self.state.move_clock = 0;
        }

        UnmakeMove { mov: m, taken, state: old_state }
    }

    /// Undo a move
    pub fn unmake_move(&mut self, mov: UnmakeMove)
        requires
            can_unmake(old(self)@, mov),
        ensures
            final(self)@ == unmade(old(self)@, old(self).hash_tables, mov),
            final(self).hash_tables == old(self).hash_tables,
    {
        let ghost b = self@;
        let ghost k = self.hash_tables;
        self.hash = self.hash ^ self.hash_tables.turn();

        if mov.mov.to_u16() == NULL {
            self.state.player = self.state.player.flip();
            return;
        }

        let from = mov.mov.from();
        let to = mov.mov.to();
        let ty = mov.mov.ty();
        let fi = from.get();
        let ti = to.get();

        let pc = self.squares.get(to);
        self.squares.set(to, mov.taken);
        self.squares.set(from, pc);
        let p = pc.to_u8();
        let bits = self.piece_bits(p) ^ (BB::square(from).0 | BB::square(to).0);
        self.set_piece_bits(p, bits);
        self.hash = self.hash ^ self.hash_tables.piece(p, fi);
        self.hash = self.hash ^ self.hash_tables.piece(p, ti);

        self.hash = self.hash ^ self.hash_tables.castle_state(self.state.castle);
        self.hash = self.hash ^ self.hash_tables.castle_state(mov.state.castle);

        self.hash = self.hash ^ self.hash_tables.en_passant_state(self.state.en_passant);
        self.hash = self.hash ^ self.hash_tables.en_passant_state(mov.state.en_passant);

        self.state = mov.state;

        if ty == TYPE_NORMAL {
            if mov.taken != SquareContent::Empty {
                let tp = mov.taken.to_u8();
                self.hash = self.hash ^ self.hash_tables.piece(tp, ti);
                let bits = self.piece_bits(tp) | BB::square(to).0;
                self.set_piece_bits(tp, bits);
            }
        } else if ty == TYPE_CASTLE {
            let (rf, rt, rp): (u8, u8, u8) = if ti == C1 {
                (A1, D1, 8)
            } else if ti == G1 {
                (H1, F1, 8)
            } else if ti == C8 {
                (A8, D8, 9)
            } else {
                (H8, F8, 9)
            };
            self.squares.set(Square::new(rt), SquareContent::Empty);
            self.squares.set(Square::new(rf), SquareContent::from_u8(rp));
            let bits = self.piece_bits(rp) ^ (BB::square(Square::new(rt)).0 | BB::square(Square::new(rf)).0);
            self.set_piece_bits(rp, bits);
            self.hash = self.hash ^ self.hash_tables.piece(rp, rf);
            self.hash = self.hash ^ self.hash_tables.piece(rp, rt);
        } else if ty == TYPE_PROMOTION {
            if mov.taken != SquareContent::Empty {
                let tp = mov.taken.to_u8();
                let bits = self.piece_bits(tp) | BB::square(to).0;
                self.set_piece_bits(tp, bits);
                self.hash = self.hash ^ self.hash_tables.piece(tp, ti);
            }
            let pawn = Piece::player_pawn(self.state.player).to_u8();
            let bits = self.piece_bits(p) & !BB::square(from).0;
            self.set_piece_bits(p, bits);
            let bits = self.piece_bits(pawn) | BB::square(from).0;
            self.set_piece_bits(pawn, bits);
            self.squares.set(from, SquareContent::from_u8(pawn));
            self.hash = self.hash ^ self.hash_tables.piece(p, fi);
            self.hash = self.hash ^ self.hash_tables.piece(pawn, fi);
        } else {
            let vs = match self.state.player {
                Player::Black => to.plus(8),
                Player::White => to.minus(8),
            };
            self.squares.set(to, SquareContent::Empty);
            self.squares.set(vs, mov.taken);
            let tp = mov.taken.to_u8();
            let bits = self.piece_bits(tp) | BB::square(vs).0;
            self.set_piece_bits(tp, bits);
            self.hash = self.hash ^ self.hash_tables.piece(tp, vs.get());
        }
        proof {
            assert(self.pieces.0@ =~= unmade(b, k, mov).pieces);
            assert(self.squares.0@ =~= unmade(b, k, mov).squares);
        }
        self.state = mov.state;
    }
}

/// The bitboards that agree with the given squares.
pub fn pieces_from_squares(squares: &BoardArray<SquareContent>) -> (pieces: PieceArray<BB>)
    ensures
        forall|p: int, t: int| #![trigger bb_has(pieces.0@[p].0, t)] 0 <= p < 12 && 0 <= t < 64 ==> (bb_has(pieces.0@[p].0, t)
            <==> content_index(squares.0@[t]) == p),
{
        let mut pieces = PieceArray::new(BB(0));
        proof {
            lemma_empty();
        }
        let mut s: u8 = 0;
        while s < 64
            invariant
                s <= 64,
                forall|p: int, t: int| #![trigger bb_has(pieces.0@[p].0, t)] 0 <= p < 12 && 0 <= t < 64 ==> (bb_has(pieces.0@[p].0, t)
                    <==> (t < s && content_index(squares.0@[t]) == p)),
            decreases 64 - s,
        {
            let c = squares.get(Square::new(s));
            let ghost before = pieces.0@;
            if c != SquareContent::Empty {
                let p = c.to_u8();
                let old = pieces.get(p).0;
                pieces.set(p, BB(old | (1u64 << s)));
                proof {
                    assert forall|t: int| 0 <= t < 64 implies (bb_has(old | (1u64 << s), t) <==> (bb_has(old, t) || t == s)) by {
                        lemma_set_bit(old, s as u64, t as u64);
                    }
                }
            }
            proof {
                assert forall|q: int, t: int| 0 <= q < 12 && 0 <= t < 64 implies (#[trigger] bb_has(pieces.0@[q].0, t)
                    <==> (t < s + 1 && content_index(squares.0@[t]) == q)) by {
                    assert(bb_has(before[q].0, t) <==> (t < s && content_index(squares.0@[t]) == q));
                }
            }
            s = s + 1;
        }
        pieces
}

/// The castling rights lost by moving a piece to square `t`.
fn castle_mask_to_exec(t: u8) -> (r: u8)
    ensures
        r == castle_mask_to(t as int),
{
    if t == A1 {
        WHITE_QUEEN_CASTLE
    } else if t == H1 {
        WHITE_KING_CASTLE
    } else if t == A8 {
        BLACK_QUEEN_CASTLE
    } else if t == H8 {
        BLACK_KING_CASTLE
    } else {
        0
    }
}

/// The castling rights lost by moving a piece away from square `f`.
fn castle_mask_from_exec(f: u8) -> (r: u8)
    ensures
        r == castle_mask_from(f as int),
{
    if f == A1 {
        WHITE_QUEEN_CASTLE
    } else if f == H1 {
        WHITE_KING_CASTLE
    } else if f == E1 {
        3
    } else if f == A8 {
        BLACK_QUEEN_CASTLE
    } else if f == H8 {
        BLACK_KING_CASTLE
    } else if f == E8 {
        12
    } else {
        0
    }
}

} // verus!
