use vstd::prelude::*;
use crate::chess_core::mov::Move;

verus! {

/// Trait which a list must implement to be used by the move generator.
pub trait MoveList {
    /// The number of moves the list holds.
    spec fn move_count(&self) -> nat;

    /// Whether another move can be added.
    spec fn has_room(&self) -> bool;

    /// Add a move to the list.
    fn push(&mut self, m: Move)
        requires
            old(self).has_room(),
    ;

    /// Remove all moves.
    fn clear(&mut self)
        ensures
            final(self).move_count() == 0,
    ;

    /// returns the amount of moves.
    fn len(&self) -> (r: usize)
        ensures
            r == self.move_count(),
    ;
}

/// A list that only counts the moves pushed to it.
pub struct MoveCount(usize);

impl MoveCount {
    /// A count of zero.
    pub fn new() -> (r: Self)
        ensures
            r.move_count() == 0,
    {
        MoveCount(0)
    }

    /// A count has room for another move exactly while it is below the largest `usize`.
    pub proof fn lemma_room(&self)
        ensures
            self.has_room() <==> self.move_count() < usize::MAX,
    {
    }
}

impl MoveList for MoveCount {
    closed spec fn move_count(&self) -> nat {
        self.0 as nat
    }

    /// A count below the largest `usize`.
    closed spec fn has_room(&self) -> bool {
        self.0 < usize::MAX
    }

    fn push(&mut self, _m: Move)
        ensures
            final(self).move_count() == old(self).move_count() + 1,
    {
        self.0 = self.0 + 1;
    }

    fn clear(&mut self) {
        self.0 = 0;
    }

    fn len(&self) -> (r: usize) {
        self.0
    }
}

impl MoveList for () {
    open spec fn move_count(&self) -> nat {
        0
    }

    open spec fn has_room(&self) -> bool {
        true
    }

    fn push(&mut self, _m: Move) {
    }

    fn clear(&mut self) {
    }

    fn len(&self) -> (r: usize) {
        0
    }
}

impl MoveList for Vec<Move> {
    open spec fn move_count(&self) -> nat {
        self@.len()
    }

    open spec fn has_room(&self) -> bool {
        true
    }

    fn push(&mut self, m: Move)
        ensures
            final(self)@ == old(self)@.push(m),
    {
        Vec::push(self, m);
    }

    fn clear(&mut self)
        ensures
            final(self)@ == Seq::<Move>::empty(),
    {
        Vec::clear(self);
    }

    fn len(&self) -> (r: usize) {
        Vec::len(self)
    }
}

} // verus!
