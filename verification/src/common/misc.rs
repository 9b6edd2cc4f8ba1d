use vstd::prelude::*;

verus! {

/// Why a game was won.
#[derive(Copy, Clone, Debug, PartialEq, Eq, Structural)]
pub enum WinCause {
    Timeout,
    Mate,
    Disconnect,
    Other,
}

/// Why a game was drawn.
#[derive(Copy, Clone, Debug, PartialEq, Eq, Structural)]
pub enum DrawCause {
    Stalemate,
    Timeout,
    FiftyMove,
    Repetition,
    Agreement,
    Material,
    Disconnect,
    Other,
}

/// The outcome of a game.
#[derive(Copy, Clone, Debug, PartialEq, Eq, Structural)]
pub enum Outcome {
    /// The game was won by a player
    Won { by: Player, cause: WinCause },
    /// The game was drawn
    Drawn(DrawCause),
    /// No outcome was determined.
    Undetermined,
}

/// A player: white moves first.
#[derive(Copy, Clone, Debug, PartialEq, Eq, Structural)]
pub enum Player {
    White,
    Black,
}

/// The number that represents a player: 0 for white, 1 for black.
pub open spec fn player_index(p: Player) -> int {
    match p {
        Player::White => 0,
        Player::Black => 1,
    }
}

/// The player with the given number; every number other than 0 is black.
pub open spec fn player_of_index(v: int) -> Player {
    if v == 0 {
        Player::White
    } else {
        Player::Black
    }
}

/// The other player.
pub open spec fn opponent(p: Player) -> Player {
    match p {
        Player::White => Player::Black,
        Player::Black => Player::White,
    }
}

impl Player {
    /// Returns the other player
    pub fn flip(self) -> (r: Self)
        ensures
            r == opponent(self),
            player_index(r) == 1 - player_index(self),
    {
        match self {
            Player::White => Player::Black,
            Player::Black => Player::White,
        }
    }

    /// Create player from its u8 representation (0 white, 1 black).
    pub fn from_u8(v: u8) -> (r: Self)
        requires
            v < 2,
        ensures
            player_index(r) == v,
    {
        if v == 0 {
            Player::White
        } else {
            Player::Black
        }
    }

    /// Create player from its u8 representation; the caller keeps the value below 2.
    pub fn from_u8_unchecked(v: u8) -> (r: Self)
        requires
            v < 2,
        ensures
            player_index(r) == v,
    {
        Self::from_u8(v)
    }

    /// The u8 representation of the player.
    pub fn to_u8(self) -> (r: u8)
        ensures
            r == player_index(self),
    {
        match self {
            Player::White => 0,
            Player::Black => 1,
        }
    }
}

/// A direction on the board with the side with the black pieces being north.
#[derive(Copy, Clone, Debug, PartialEq, Eq, Structural)]
pub enum Direction {
    NW,
    N,
    NE,
    E,
    SE,
    S,
    SW,
    W,
}

/// The position of a direction in the order NW, N, NE, E, SE, S, SW, W.
pub open spec fn direction_index(d: Direction) -> int {
    match d {
        Direction::NW => 0,
        Direction::N => 1,
        Direction::NE => 2,
        Direction::E => 3,
        Direction::SE => 4,
        Direction::S => 5,
        Direction::SW => 6,
        Direction::W => 7,
    }
}

/// The change of the square index when stepping once in a direction.
pub open spec fn direction_offset(d: Direction) -> int {
    match d {
        Direction::NW => 7,
        Direction::N => 8,
        Direction::NE => 9,
        Direction::E => 1,
        Direction::SE => -7,
        Direction::S => -8,
        Direction::SW => -9,
        Direction::W => -1,
    }
}

impl Direction {
    /// Creates a direction from its position in the order NW, N, NE, E, SE, S, SW, W.
    pub fn from_u8(v: u8) -> (r: Option<Self>)
        ensures
            r is Some <==> v < 8,
            r matches Some(d) ==> direction_index(d) == v,
    {
        match v {
            0 => Some(Direction::NW),
            1 => Some(Direction::N),
            2 => Some(Direction::NE),
            3 => Some(Direction::E),
            4 => Some(Direction::SE),
            5 => Some(Direction::S),
            6 => Some(Direction::SW),
            7 => Some(Direction::W),
            _ => None,
        }
    }

    /// Returns the board square index offset of the direction.
    pub fn as_offset(self) -> (r: i8)
        ensures
            r == direction_offset(self),
    {
        match self {
            Direction::NW => 7,
            Direction::N => 8,
            Direction::NE => 9,
            Direction::E => 1,
            Direction::SE => -7,
            Direction::S => -8,
            Direction::SW => -9,
            Direction::W => -1,
        }
    }
}

} // verus!
