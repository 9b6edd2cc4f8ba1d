use vstd::prelude::*;
use super::misc::{Player, opponent};

verus! {

/// Castling right of the white king side.
pub const WHITE_KING_CASTLE: u8 = 0b0001;
/// Castling right of the white queen side.
pub const WHITE_QUEEN_CASTLE: u8 = 0b0010;
/// Castling right of the black king side.
pub const BLACK_KING_CASTLE: u8 = 0b0100;
/// Castling right of the black queen side.
pub const BLACK_QUEEN_CASTLE: u8 = 0b1000;
/// The en passant value meaning that no en passant capture is possible.
pub const INVALID_ENPASSANT: u8 = 8;

/// Extra state containing information about a position other than the place of all the pieces.
#[derive(PartialEq, Eq, Clone, Copy, Debug, Structural)]
pub struct ExtraState {
    /// The player whose turn it is.
    pub player: Player,
    /// Castling rights.
    pub castle: u8,
    /// The en passant file, 0-7, or 8 when no en passant capture is possible.
    pub en_passant: u8,
    /// The number of moves since an irreversible move.
    pub move_clock: u8,
}

impl ExtraState {
    /// The empty state: white to move, no castling rights, no en passant, clock at zero.
    pub open spec fn empty_spec() -> Self {
        ExtraState { player: Player::White, castle: 0, en_passant: 8, move_clock: 0 }
    }

    /// White to move, no castling rights, no en passant, clock at zero.
    pub fn empty() -> (r: Self)
        ensures
            r == Self::empty_spec(),
    {
        ExtraState {
            player: Player::White,
            castle: 0,
            en_passant: INVALID_ENPASSANT,
            move_clock: 0,
        }
    }

    /// The state seen from the other side of the board: castling rights of the two
    /// colours swapped, the en passant file mirrored and the other player to move.
    pub fn flip(self) -> (r: Self)
        requires
            self.en_passant <= 7,
        ensures
            r.castle == (((3 & self.castle) << 2) | ((12 & self.castle) >> 2)),
            r.castle == 4 * (self.castle % 4) + (self.castle % 16) / 4,
            r.en_passant == 7 - self.en_passant,
            r.player == opponent(self.player),
            r.move_clock == self.move_clock,
    {
        let mut res = self;
        let c = self.castle;
        assert((((3 & c) << 2) | ((12 & c) >> 2)) == 4 * (c % 4) + (c % 16) / 4) by (bit_vector);
        res.castle = ((3 & c) << 2) | ((12 & c) >> 2);
        res.en_passant = 7 - self.en_passant;
        res.player = self.player.flip();
        res
    }
}

} // verus!
