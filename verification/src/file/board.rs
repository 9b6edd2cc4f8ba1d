use vstd::prelude::*;
use super::{EncodeError, FromBytes, Needed, ToBytes};
use crate::chess_core::util::BoardArray;
use crate::common::board::{Board, BoardModel, consistent, position_hash};
use crate::common::extra_state::ExtraState;
use crate::common::misc::Player;
use crate::common::piece::{SquareContent, content_index, content_of_index};
use crate::common::square::Square;

verus! {

/// A position in 34 bytes: two squares per byte, four bits each (the first square of a pair
/// in the high bits), then the castling rights in the high four bits and the en passant file
/// in the low four bits of one byte, then the move clock with the highest bit set when black
/// is to move.
#[derive(Debug, Clone, Copy)]
pub struct FileBoard {
    squares: [u8; 32],
    en_passant_castle: u8,
    player_move_clock: u8,
}

impl View for FileBoard {
    type V = Seq<u8>;

    /// The 34 bytes of the position.
    closed spec fn view(&self) -> Seq<u8> {
        self.squares@ + seq![self.en_passant_castle, self.player_move_clock]
    }
}

/// The byte holding the squares `2 * i` and `2 * i + 1`.
pub open spec fn square_pair_byte(sq: Seq<SquareContent>, i: int) -> u8 {
    (content_index(sq[2 * i]) * 16 + content_index(sq[2 * i + 1])) as u8
}

/// The byte holding the castling rights and the en passant file.
pub open spec fn en_passant_castle_byte(s: ExtraState) -> u8 {
    ((s.castle << 4u8) | s.en_passant) as u8
}

/// The byte holding the move clock and the player to move.
pub open spec fn player_move_clock_byte(s: ExtraState) -> u8 {
    if s.player == Player::Black {
        s.move_clock | 128u8
    } else {
        s.move_clock
    }
}

/// The 34 bytes that describe a board.
pub open spec fn file_board_bytes(b: BoardModel) -> Seq<u8> {
    Seq::new(32, |i: int| square_pair_byte(b.squares, i)) + seq![
        en_passant_castle_byte(b.state),
        player_move_clock_byte(b.state),
    ]
}

/// The content that four bits stand for; the unused values 12 to 15 stand for an empty
/// square.
pub open spec fn content_of_bits(v: int) -> SquareContent {
    content_of_index(v)
}

/// The squares described by 34 bytes: square `s` is in the high four bits of byte `s / 2`
/// when `s` is even, in the low four bits when odd.
pub open spec fn squares_of_bytes(b: Seq<u8>) -> Seq<SquareContent> {
    Seq::new(
        64,
        |s: int|
            if s % 2 == 0 {
                content_of_bits((b[s / 2] / 16) as int)
            } else {
                content_of_bits((b[s / 2] % 16) as int)
            },
    )
}

/// The extra state described by 34 bytes.
pub open spec fn state_of_bytes(b: Seq<u8>) -> ExtraState {
    ExtraState {
        player: if b[33] & 128u8 == 0 {
            Player::White
        } else {
            Player::Black
        },
        move_clock: b[33] & 127u8,
        en_passant: b[32] & 15u8,
        castle: b[32] >> 4u8,
    }
}

impl FileBoard {
    /// A description is 34 bytes long.
    pub proof fn lemma_len(&self)
        ensures
            self@.len() == 34,
    {
    }

    /// The file description of a board.
    pub fn from_board(board: &Board) -> (r: Self)
        ensures
            r@ == file_board_bytes(board@),
    {
        let mut squares = [0u8; 32];
        let mut s: usize = 0;
        while s < 32
            invariant
                s <= 32,
                board.squares.0@.len() == 64,
                forall|i: int| 0 <= i < s ==> squares@[i] == #[trigger] square_pair_byte(board.squares.0@, i),
            decreases 32 - s,
        {
            let a = board.squares.0[2 * s].to_u8();
            let b = board.squares.0[2 * s + 1].to_u8();
            assert(a <= 12 && b <= 12 ==> (a << 4u8) | b == a * 16 + b) by (bit_vector);
            squares[s] = (a << 4) | b;
            s = s + 1;
        }
        let en_passant_castle = (board.state.castle << 4) | board.state.en_passant;
        let mut player_move_clock = board.state.move_clock;
        if board.state.player == Player::Black {
            player_move_clock = player_move_clock | 128;
        }
        let r = FileBoard { squares, en_passant_castle, player_move_clock };
        assert(r@ =~= file_board_bytes(board@));
        r
    }

    /// The board the description stands for, with bitboards and hash made to match.
    pub fn to_board(&self) -> (r: Board)
        requires
            self@[32] & 15u8 <= 8,
        ensures
            r.squares.0@ == squares_of_bytes(self@),
            r.state == state_of_bytes(self@),
            consistent(r@),
            r.hash == position_hash(r@, r.hash_tables),
    {
        let state = ExtraState {
            player: if (self.player_move_clock & 128) == 0 {
                Player::White
            } else {
                Player::Black
            },
            move_clock: self.player_move_clock & 127,
            en_passant: self.en_passant_castle & 15,
            castle: self.en_passant_castle >> 4,
        };
        assert(self@[32] == self.en_passant_castle);
        assert(self@[33] == self.player_move_clock);
        let e = self.en_passant_castle;
        assert(e >> 4u8 < 16) by (bit_vector);
        let mut squares = BoardArray::new(SquareContent::Empty);
        let mut s: usize = 0;
        while s < 32
            invariant
                s <= 32,
                squares.0@.len() == 64,
                forall|i: int| 0 <= i < 32 ==> self@[i] == #[trigger] self.squares@[i],
                forall|i: int| 0 <= i < 2 * s ==> squares.0@[i] == #[trigger] squares_of_bytes(self@)[i],
            decreases 32 - s,
        {
            let byte = self.squares[s];
            let a = byte >> 4;
            let b = byte & 15;
            assert(byte >> 4u8 == byte / 16 && byte & 15u8 == byte % 16) by (bit_vector);
            squares.set(Square::new((2 * s) as u8), Self::content_from_bits(a));
            squares.set(Square::new((2 * s + 1) as u8), Self::content_from_bits(b));
            assert(self@[(2 * s) / 2] == byte);
            assert((2 * s + 1) / 2 == s as int);
            s = s + 1;
        }
        assert(squares.0@ =~= squares_of_bytes(self@));
        Board::from_squares_state(squares, state)
    }

    /// The content that four bits stand for.
    fn content_from_bits(b: u8) -> (r: SquareContent)
        ensures
            r == content_of_bits(b as int),
    {
        if b <= 12 {
            SquareContent::from_u8(b)
        } else {
            SquareContent::Empty
        }
    }
}

impl ToBytes for FileBoard {
    open spec fn encoding(&self) -> Result<Seq<u8>, Seq<u8>> {
        Ok(self@)
    }

    fn to_bytes(&self, bytes: &mut Vec<u8>) -> (r: Result<(), EncodeError>) {
        let mut i: usize = 0;
        while i < 32
            invariant
                i <= 32,
                bytes@ == old(bytes)@ + self.squares@.subrange(0, i as int),
            decreases 32 - i,
        {
            bytes.push(self.squares[i]);
            assert(self.squares@.subrange(0, i + 1) =~= self.squares@.subrange(0, i as int).push(self.squares@[i as int]));
            i = i + 1;
        }
        bytes.push(self.en_passant_castle);
        bytes.push(self.player_move_clock);
        assert(self.squares@.subrange(0, 32) =~= self.squares@);
        assert(bytes@ =~= old(bytes)@ + self@);
        Ok(())
    }
}

impl FromBytes for FileBoard {
    open spec fn decoding(b: Seq<u8>) -> Result<(int, Seq<u8>), Needed> {
        if b.len() < 34 {
            Err(Needed::Size((34 - b.len()) as usize))
        } else {
            Ok((34, b.subrange(0, 34)))
        }
    }

    fn from_bytes(b: &[u8]) -> (r: Result<(usize, FileBoard), Needed>) {
        if b.len() < 34 {
            return Err(Needed::Size(34 - b.len()));
        }
        let mut squares = [0u8; 32];
        let mut i: usize = 0;
        while i < 32
            invariant
                i <= 32,
                b@.len() >= 34,
                forall|j: int| 0 <= j < i ==> squares@[j] == b@[j],
            decreases 32 - i,
        {
            squares[i] = b[i];
            i = i + 1;
        }
        let r = FileBoard { squares, en_passant_castle: b[32], player_move_clock: b[33] };
        assert(r@ =~= b@.subrange(0, 34));
        Ok((34, r))
    }
}

/// Reading a board back from its description gives its squares, and its extra state
/// whenever that state fits the format: castling rights in four bits, an en passant file
/// of at most eight and a move clock below 128.
pub proof fn lemma_board_roundtrip(b: BoardModel)
    requires
        b.squares.len() == 64,
        b.state.castle < 16,
        b.state.en_passant <= 8,
        b.state.move_clock < 128,
    ensures
        file_board_bytes(b).len() == 34,
        file_board_bytes(b)[32] & 15u8 <= 8,
        squares_of_bytes(file_board_bytes(b)) == b.squares,
        state_of_bytes(file_board_bytes(b)) == b.state,
{
    let f = file_board_bytes(b);
    assert forall|s: int| 0 <= s < 64 implies #[trigger] squares_of_bytes(f)[s] == b.squares[s] by {
        let i = s / 2;
        assert(f[i] == square_pair_byte(b.squares, i));
        let hi = content_index(b.squares[2 * i]);
        let lo = content_index(b.squares[2 * i + 1]);
        assert(0 <= hi <= 12 && 0 <= lo <= 12);
        assert((hi * 16 + lo) / 16 == hi && (hi * 16 + lo) % 16 == lo);
        lemma_content_roundtrip(b.squares[s]);
    }
    assert(squares_of_bytes(f) =~= b.squares);
    let c = b.state.castle;
    let e = b.state.en_passant;
    let m = b.state.move_clock;
    assert(c < 16 && e <= 8 ==> ((c << 4u8) | e) >> 4u8 == c && ((c << 4u8) | e) & 15u8 == e) by (bit_vector);
    assert(m < 128 ==> (m | 128u8) & 127u8 == m && (m | 128u8) & 128u8 != 0 && m & 127u8 == m && m & 128u8 == 0) by (bit_vector);
}

/// Every square content is the content of its own number.
pub proof fn lemma_content_roundtrip(c: SquareContent)
    ensures
        content_of_bits(content_index(c)) == c,
{
}

} // verus!
