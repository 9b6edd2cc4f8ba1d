use vstd::prelude::*;
use super::{EncodeError, FromBytes, Needed, ToBytes};
use super::board::FileBoard;
use super::encoding::{move_bytes, outcome_byte, outcome_of_byte};
use crate::chess_core::mov::Move;
use crate::common::misc::Outcome;

verus! {

/// A recorded game: the position it started from, the moves played and how it ended.
#[derive(Debug)]
pub struct Game {
    pub start_position: FileBoard,
    pub moves: Vec<Move>,
    pub outcome: Outcome,
}

/// The mathematical content of a game: the 34 bytes of the start position, the encodings
/// of the moves and the outcome.
pub struct GameModel {
    pub start: Seq<u8>,
    pub moves: Seq<u16>,
    pub outcome: Outcome,
}

impl View for Game {
    type V = GameModel;

    open spec fn view(&self) -> GameModel {
        GameModel {
            start: self.start_position@,
            moves: self.moves@.map_values(|m: Move| m@),
            outcome: self.outcome,
        }
    }
}

/// The four little-endian bytes of a length.
pub open spec fn length_bytes(n: int) -> Seq<u8> {
    seq![(n % 256) as u8, ((n / 256) % 256) as u8, ((n / 65536) % 256) as u8, ((n / 16777216) % 256) as u8]
}

/// The number held in four little-endian bytes starting at `at`.
pub open spec fn length_at(b: Seq<u8>, at: int) -> int {
    b[at] + 256 * b[at + 1] + 65536 * b[at + 2] + 16777216 * b[at + 3]
}

/// The move encoding held in the two little-endian bytes starting at `at`.
pub open spec fn move_at(b: Seq<u8>, at: int) -> u16 {
    (b[at] + 256 * b[at + 1]) as u16
}

/// The bytes of a list of moves, two per move.
pub open spec fn moves_bytes(ms: Seq<Move>) -> Seq<u8>
    decreases ms.len(),
{
    if ms.len() == 0 {
        Seq::empty()
    } else {
        moves_bytes(ms.drop_last()) + move_bytes(ms.last())
    }
}

/// The bytes of a game: start position, outcome byte, number of moves, then the moves. A
/// game with more moves than four bytes can count is refused after the outcome byte.
pub open spec fn game_encoding(g: Game) -> Result<Seq<u8>, Seq<u8>> {
    let head = g.start_position@ + seq![outcome_byte(g.outcome)];
    if g.moves@.len() <= u32::MAX {
        Ok(head + length_bytes(g.moves@.len() as int) + moves_bytes(g.moves@))
    } else {
        Err(head)
    }
}

/// What reading a game from the start of the bytes gives. Where the bytes end early, the
/// part being read says how many more it needs: the start position the bytes it misses,
/// the outcome one, the move count the bytes it misses, a move two or one.
pub open spec fn game_decoding(b: Seq<u8>) -> Result<(int, GameModel), Needed> {
    if b.len() < 34 {
        Err(Needed::Size((34 - b.len()) as usize))
    } else if b.len() < 35 {
        Err(Needed::Size(1))
    } else if b.len() < 39 {
        Err(Needed::Size((39 - b.len()) as usize))
    } else {
        let n = length_at(b, 35);
        let rest = b.len() - 39;
        if rest < 2 * n {
            Err(Needed::Size((2 - rest % 2) as usize))
        } else {
            Ok(
                (
                    39 + 2 * n,
                    GameModel {
                        start: b.subrange(0, 34),
                        moves: Seq::new(n as nat, |i: int| move_at(b, 39 + 2 * i)),
                        outcome: outcome_of_byte(b[34]),
                    },
                ),
            )
        }
    }
}

/// The bytes of a list of moves hold each move in two bytes, in order.
pub proof fn lemma_moves_bytes(ms: Seq<Move>)
    ensures
        moves_bytes(ms).len() == 2 * ms.len(),
        forall|i: int|
            0 <= i < ms.len() ==> moves_bytes(ms)[2 * i] == (ms[i]@ % 256) as u8
                && moves_bytes(ms)[2 * i + 1] == (ms[i]@ / 256) as u8,
    decreases ms.len(),
{
    if ms.len() > 0 {
        let init = ms.drop_last();
        lemma_moves_bytes(init);
        let b = moves_bytes(ms);
        assert(b == moves_bytes(init) + move_bytes(ms.last()));
        assert forall|i: int| 0 <= i < ms.len() implies b[2 * i] == (ms[i]@ % 256) as u8
            && b[2 * i + 1] == (ms[i]@ / 256) as u8 by {
            if i < init.len() {
                assert(init[i] == ms[i]);
            }
        }
    }
}

impl ToBytes for Game {
    open spec fn encoding(&self) -> Result<Seq<u8>, Seq<u8>> {
        game_encoding(*self)
    }

    fn to_bytes(&self, bytes: &mut Vec<u8>) -> (r: Result<(), EncodeError>) {
        proof {
            self.start_position.lemma_len();
        }
        let _ = self.start_position.to_bytes(bytes);
        let _ = self.outcome.to_bytes(bytes);
        let ghost head = bytes@;
        assert(head == old(bytes)@ + (self.start_position@ + seq![outcome_byte(self.outcome)]));
        if self.moves.len() > 0xffff_ffffusize {
            return Err(EncodeError::LengthOverflow);
        }
        let len = self.moves.len() as u32;
        bytes.push((len % 256) as u8);
        bytes.push(((len / 256) % 256) as u8);
        bytes.push(((len / 65536) % 256) as u8);
        bytes.push(((len / 16777216) % 256) as u8);
        assert(bytes@ =~= head + length_bytes(len as int));
        let ghost counted = bytes@;
        let mut i: usize = 0;
        while i < self.moves.len()
            invariant
                i <= self.moves@.len(),
                bytes@ == counted + moves_bytes(self.moves@.subrange(0, i as int)),
            decreases self.moves@.len() - i,
        {
            let _ = self.moves[i].to_bytes(bytes);
            let ghost sub = self.moves@.subrange(0, i + 1);
            assert(sub.drop_last() =~= self.moves@.subrange(0, i as int));
            assert(sub.last() == self.moves@[i as int]);
            i = i + 1;
        }
        assert(self.moves@.subrange(0, self.moves@.len() as int) =~= self.moves@);
        assert(bytes@ =~= old(bytes)@ + (self.start_position@ + seq![outcome_byte(self.outcome)]
            + length_bytes(self.moves@.len() as int) + moves_bytes(self.moves@)));
        Ok(())
    }
}

impl FromBytes for Game {
    open spec fn decoding(b: Seq<u8>) -> Result<(int, GameModel), Needed> {
        game_decoding(b)
    }

    fn from_bytes(b: &[u8]) -> (r: Result<(usize, Game), Needed>) {
        let start_position = match FileBoard::from_bytes(b) {
            Ok((_, f)) => f,
            Err(e) => return Err(e),
        };
        if b.len() < 35 {
            return Err(Needed::Size(1));
        }
        let outcome = match Outcome::from_bytes(&b[34..35]) {
            Ok((_, o)) => o,
            Err(e) => return Err(e),
        };
        if b.len() < 39 {
            return Err(Needed::Size(39 - b.len()));
        }
        let n: u32 = b[35] as u32 + 256 * (b[36] as u32) + 65536 * (b[37] as u32) + 16777216 * (b[38] as u32);
        let mut moves: Vec<Move> = Vec::new();
        let mut pos: usize = 39;
        let mut k: u32 = 0;
        while k < n
            invariant
                b@.len() >= 39,
                n == length_at(b@, 35),
                k <= n,
                pos == 39 + 2 * k,
                pos <= b@.len(),
                moves@.len() == k,
                forall|j: int| 0 <= j < k ==> (#[trigger] moves@[j])@ == move_at(b@, 39 + 2 * j),
            decreases n - k,
        {
            if b.len() - pos < 2 {
                proof {
                    let rest = b@.len() - 39;
                    assert(rest - 2 * k == rest % 2) by (nonlinear_arith)
                        requires
                            0 <= rest - 2 * k < 2,
                            k >= 0,
                    ;
                }
                return Err(Needed::Size(2 - (b.len() - pos)));
            }
            let m = Move::from_u16(b[pos] as u16 + 256 * (b[pos + 1] as u16));
            moves.push(m);
            pos = pos + 2;
            k = k + 1;
        }
        let ghost model = GameModel {
            start: b@.subrange(0, 34),
            moves: Seq::new(n as nat, |i: int| move_at(b@, 39 + 2 * i)),
            outcome: outcome_of_byte(b@[34]),
        };
        let g = Game { start_position, moves, outcome };
        assert(g@.moves =~= model.moves);
        Ok((pos, g))
    }
}

/// Reading back the bytes of a game, whatever follows them, gives the game, but for the
/// outcome, which comes back as its byte reads.
pub proof fn lemma_game_roundtrip(g: Game, rest: Seq<u8>)
    requires
        g.moves@.len() <= u32::MAX,
    ensures
        game_encoding(g) is Ok,
        game_decoding(game_encoding(g)->Ok_0 + rest) == Ok::<(int, GameModel), Needed>(
            (
                game_encoding(g)->Ok_0.len() as int,
                GameModel { outcome: outcome_of_byte(outcome_byte(g.outcome)), ..g@ },
            ),
        ),
{
    let e = game_encoding(g)->Ok_0;
    let b = e + rest;
    let n = g.moves@.len() as int;
    lemma_moves_bytes(g.moves@);
    g.start_position.lemma_len();
    assert(length_at(b, 35) == n) by (nonlinear_arith)
        requires
            0 <= n <= u32::MAX,
            b[35] == (n % 256) as u8,
            b[36] == ((n / 256) % 256) as u8,
            b[37] == ((n / 65536) % 256) as u8,
            b[38] == ((n / 16777216) % 256) as u8,
    ;
    assert(b.subrange(0, 34) =~= g.start_position@);
    let ms = Seq::new(n as nat, |i: int| move_at(b, 39 + 2 * i));
    assert(ms =~= g@.moves);
}

} // verus!
