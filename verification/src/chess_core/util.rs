use vstd::prelude::*;
use crate::common::square::Square;
use crate::common::misc::{Direction, direction_index};

verus! {

/// An array the size of a board, indexed by square.
#[derive(Clone, Copy, PartialEq, Eq, Debug)]
pub struct BoardArray<T>(pub [T; 64]);

impl<T> BoardArray<T> {
    /// An array with the given contents.
    pub fn new_array(t: [T; 64]) -> (r: Self)
        ensures
            r.0@ == t@,
    {
        BoardArray(t)
    }
}

impl<T: Copy> BoardArray<T> {
    /// An array holding `t` on every square.
    pub fn new(t: T) -> (r: Self)
        ensures
            forall|i: int| 0 <= i < 64 ==> #[trigger] r.0@[i] == t,
            r.0@.len() == 64,
    {
        BoardArray([t; 64])
    }

    /// The value on a square.
    pub fn get(&self, s: Square) -> (r: T)
        ensures
            r == self.0@[s@],
    {
        self.0[s.get() as usize]
    }

    /// Replace the value on a square.
    pub fn set(&mut self, s: Square, v: T)
        ensures
            final(self).0@ == old(self).0@.update(s@, v),
    {
        self.0[s.get() as usize] = v;
    }
}

/// An array the size of all possible directions, indexed by direction.
#[derive(Clone, Copy)]
pub struct DirectionArray<T: Copy>(pub [T; 8]);

impl<T: Copy> DirectionArray<T> {
    /// An array holding `t` for every direction.
    pub fn new(t: T) -> (r: Self)
        ensures
            forall|i: int| 0 <= i < 8 ==> #[trigger] r.0@[i] == t,
            r.0@.len() == 8,
    {
        DirectionArray([t; 8])
    }

    /// The value of a direction.
    pub fn get(&self, d: Direction) -> (r: T)
        ensures
            r == self.0@[direction_index(d)],
    {
        let i: usize = match d {
            Direction::NW => 0,
            Direction::N => 1,
            Direction::NE => 2,
            Direction::E => 3,
            Direction::SE => 4,
            Direction::S => 5,
            Direction::SW => 6,
            Direction::W => 7,
        };
        self.0[i]
    }

    /// Replace the value of a direction.
    pub fn set(&mut self, d: Direction, v: T)
        ensures
            final(self).0@ == old(self).0@.update(direction_index(d), v),
    {
        let i: usize = match d {
            Direction::NW => 0,
            Direction::N => 1,
            Direction::NE => 2,
            Direction::E => 3,
            Direction::SE => 4,
            Direction::S => 5,
            Direction::SW => 6,
            Direction::W => 7,
        };
        self.0[i] = v;
    }
}

/// An array the size of all possible pieces, indexed by the number of a piece.
#[derive(Clone, Copy, PartialEq, Eq, Debug)]
pub struct PieceArray<T>(pub [T; 12]);

impl<T: Copy> PieceArray<T> {
    /// An array holding `t` for every piece.
    pub fn new(t: T) -> (r: Self)
        ensures
            forall|i: int| 0 <= i < 12 ==> #[trigger] r.0@[i] == t,
            r.0@.len() == 12,
    {
        PieceArray([t; 12])
    }

    /// The value of the piece with number `i`.
    pub fn get(&self, i: u8) -> (r: T)
        requires
            i < 12,
        ensures
            r == self.0@[i as int],
    {
        self.0[i as usize]
    }

    /// Replace the value of the piece with number `i`.
    pub fn set(&mut self, i: u8, v: T)
        requires
            i < 12,
        ensures
            final(self).0@ == old(self).0@.update(i as int, v),
    {
        self.0[i as usize] = v;
    }
}

impl<T> PieceArray<T> {
    /// An array with the given contents.
    pub fn new_array(t: [T; 12]) -> (r: Self)
        ensures
            r.0@ == t@,
    {
        PieceArray(t)
    }
}

} // verus!
