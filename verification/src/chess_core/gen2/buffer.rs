use vstd::prelude::*;
use super::list::MoveList;
use crate::chess_core::mov::Move;

verus! {

/// A constant size buffer, which can be used for storing moves; `SIZE` is at most 65535.
pub struct InlineBuffer<const SIZE: usize, T: Copy> {
    moves: Vec<T>,
}

impl<const SIZE: usize, T: Copy> View for InlineBuffer<SIZE, T> {
    type V = Seq<T>;

    /// The values in the buffer, in order.
    closed spec fn view(&self) -> Seq<T> {
        self.moves@
    }
}

impl<const SIZE: usize, T: Copy> InlineBuffer<SIZE, T> {
    #[verifier::type_invariant]
    spec fn fits(self) -> bool {
        self.moves@.len() <= SIZE && SIZE <= 65535
    }

    /// An empty buffer.
    pub fn new() -> (r: Self)
        requires
            SIZE <= 65535,
        ensures
            r@ == Seq::<T>::empty(),
    {
        InlineBuffer { moves: Vec::new() }
    }

    /// A reader over the values in order.
    pub fn iter(&self) -> (r: InlineIter<T>)
        ensures
            r.rest() == self@,
    {
        proof {
            use_type_invariant(self);
        }
        let mut v: Vec<T> = Vec::new();
        let mut i: usize = 0;
        while i < self.moves.len()
            invariant
                i <= self.moves@.len(),
                v@ == self.moves@.take(i as int),
            decreases self.moves@.len() - i,
        {
            v.push(self.moves[i]);
            assert(self.moves@.take(i + 1) =~= self.moves@.take(i as int).push(self.moves@[i as int]));
            i = i + 1;
        }
        assert(self.moves@.take(i as int) =~= self.moves@);
        InlineIter { values: v, cur: 0 }
    }

    /// Removes the value at `idx`, putting the last value in its place.
    pub fn swap_remove(&mut self, idx: usize)
        requires
            (idx as int) < old(self)@.len(),
        ensures
            final(self)@ == old(self)@.update(idx as int, old(self)@.last()).drop_last(),
    {
        proof {
            use_type_invariant(&*self);
        }
        let mut v: Vec<T> = Vec::new();
        std::mem::swap(&mut v, &mut self.moves);
        let _ = v.swap_remove(idx as usize);
        self.moves = v;
    }

    /// Removes and returns the last value.
    pub fn pop(&mut self) -> (r: Option<T>)
        ensures
            old(self)@.len() > 0 ==> r == Some(old(self)@.last()) && final(self)@ == old(self)@.drop_last(),
            old(self)@.len() == 0 ==> r is None && final(self)@ == old(self)@,
    {
        proof {
            use_type_invariant(&*self);
        }
        let mut v: Vec<T> = Vec::new();
        std::mem::swap(&mut v, &mut self.moves);
        let r = v.pop();
        self.moves = v;
        proof {
            if old(self)@.len() > 0 {
                assert(old(self)@.subrange(0, old(self)@.len() - 1) =~= old(self)@.drop_last());
            }
        }
        r
    }

    /// The number of values.
    pub fn len(&self) -> (r: usize)
        ensures
            r == self@.len(),
            r <= SIZE,
    {
        proof {
            use_type_invariant(self);
        }
        self.moves.len()
    }

    /// Keeps the first `len` values.
    pub fn truncate(&mut self, len: usize)
        requires
            len as int <= old(self)@.len(),
        ensures
            final(self)@ == old(self)@.take(len as int),
    {
        proof {
            use_type_invariant(&*self);
        }
        let mut v: Vec<T> = Vec::new();
        std::mem::swap(&mut v, &mut self.moves);
        v.truncate(len as usize);
        self.moves = v;
    }

    /// Exchanges the values at `a` and `b`.
    pub fn swap(&mut self, a: usize, b: usize)
        requires
            (a as int) < old(self)@.len(),
            (b as int) < old(self)@.len(),
        ensures
            final(self)@ == old(self)@.update(a as int, old(self)@[b as int]).update(b as int, old(self)@[a as int]),
    {
        proof {
            use_type_invariant(&*self);
        }
        let mut v: Vec<T> = Vec::new();
        std::mem::swap(&mut v, &mut self.moves);
        let x = v[a as usize];
        let y = v[b as usize];
        v.set(a as usize, y);
        v.set(b as usize, x);
        self.moves = v;
    }
}

/// A reader over the values of a buffer.
pub struct InlineIter<T: Copy> {
    values: Vec<T>,
    cur: usize,
}

impl<T: Copy> InlineIter<T> {
    /// The values not read yet.
    pub closed spec fn rest(&self) -> Seq<T> {
        self.values@.subrange(self.cur as int, self.values@.len() as int)
    }

    #[verifier::type_invariant]
    spec fn in_range(self) -> bool {
        self.cur <= self.values@.len()
    }

    /// The next value, if any is left.
    pub fn next(&mut self) -> (r: Option<T>)
        ensures
            old(self).rest().len() > 0 ==> r == Some(old(self).rest()[0]) && final(self).rest() == old(self).rest().drop_first(),
            old(self).rest().len() == 0 ==> r is None && final(self).rest() == old(self).rest(),
    {
        proof {
            use_type_invariant(&*self);
        }
        if self.cur == self.values.len() {
            return None;
        }
        let r = self.values[self.cur];
        self.cur = self.cur + 1;
        assert(self.rest() =~= old(self).rest().drop_first());
        Some(r)
    }
}

impl<const SIZE: usize> MoveList for InlineBuffer<SIZE, Move> {
    open spec fn move_count(&self) -> nat {
        self@.len()
    }

    open spec fn has_room(&self) -> bool {
        self@.len() < SIZE
    }

    fn push(&mut self, m: Move)
        ensures
            final(self)@ == old(self)@.push(m),
    {
        proof {
            use_type_invariant(&*self);
        }
        let mut v: Vec<Move> = Vec::new();
        std::mem::swap(&mut v, &mut self.moves);
        v.push(m);
        self.moves = v;
    }

    fn clear(&mut self)
        ensures
            final(self)@ == Seq::<Move>::empty(),
    {
        proof {
            use_type_invariant(&*self);
        }
        self.moves = Vec::new();
    }

    fn len(&self) -> (r: usize) {
        self.moves.len()
    }
}

} // verus!
