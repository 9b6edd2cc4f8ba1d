use vstd::prelude::*;

verus! {

/// The maximum number of moves in any position.
pub const MAX_MOVES: usize = 218;

/// A buffer of at most `SIZE` values, `SIZE` being at most 255, that keeps its length in a
/// byte.
pub struct InlineBuffer<const SIZE: usize, T> {
    moves: Vec<T>,
}

impl<const SIZE: usize, T> View for InlineBuffer<SIZE, T> {
    type V = Seq<T>;

    /// The values in the buffer, in order.
    closed spec fn view(&self) -> Seq<T> {
        self.moves@
    }
}

impl<const SIZE: usize, T> InlineBuffer<SIZE, T> {
    #[verifier::type_invariant]
    spec fn fits(self) -> bool {
        self.moves@.len() <= SIZE && SIZE <= 255
    }
}

impl<const SIZE: usize, T: Copy> InlineBuffer<SIZE, T> {
    /// An empty buffer.
    pub fn new() -> (r: Self)
        requires
            SIZE <= 255,
        ensures
            r@ == Seq::<T>::empty(),
    {
        InlineBuffer { moves: Vec::new() }
    }

    /// A reader over the values in order.
    pub fn iter(&self) -> (r: InlineIter<T>)
        ensures
            r.rest() == self@,
    {
        proof {
            use_type_invariant(self);
        }
        let mut v: Vec<T> = Vec::new();
        let mut i: usize = 0;
        while i < self.moves.len()
            invariant
                i <= self.moves@.len(),
                v@ == self.moves@.take(i as int),
            decreases self.moves@.len() - i,
        {
            v.push(self.moves[i]);
            assert(self.moves@.take(i + 1) =~= self.moves@.take(i as int).push(self.moves@[i as int]));
            i = i + 1;
        }
        assert(self.moves@.take(i as int) =~= self.moves@);
        InlineIter { values: v, cur: 0 }
    }

    /// Removes the value at `idx`, putting the last value in its place.
    pub fn swap_remove(&mut self, idx: u8)
        requires
            (idx as int) < old(self)@.len(),
        ensures
            final(self)@ == old(self)@.update(idx as int, old(self)@.last()).drop_last(),
    {
        proof {
            use_type_invariant(&*self);
        }
        let mut v: Vec<T> = Vec::new();
        std::mem::swap(&mut v, &mut self.moves);
        let _ = v.swap_remove(idx as usize);
        self.moves = v;
    }

    /// Removes and returns the last value.
    pub fn pop(&mut self) -> (r: Option<T>)
        ensures
            old(self)@.len() > 0 ==> r == Some(old(self)@.last()) && final(self)@ == old(self)@.drop_last(),
            old(self)@.len() == 0 ==> r is None && final(self)@ == old(self)@,
    {
        proof {
            use_type_invariant(&*self);
        }
        let mut v: Vec<T> = Vec::new();
        std::mem::swap(&mut v, &mut self.moves);
        let r = v.pop();
        self.moves = v;
        proof {
            if old(self)@.len() > 0 {
                assert(old(self)@.subrange(0, old(self)@.len() - 1) =~= old(self)@.drop_last());
            }
        }
        r
    }

    /// The number of values.
    pub fn len(&self) -> (r: u8)
        ensures
            r == self@.len(),
            r <= SIZE,
    {
        proof {
            use_type_invariant(self);
        }
        self.moves.len() as u8
    }

    /// Keeps the first `len` values.
    pub fn truncate(&mut self, len: u8)
        requires
            len as int <= old(self)@.len(),
        ensures
            final(self)@ == old(self)@.take(len as int),
    {
        proof {
            use_type_invariant(&*self);
        }
        let mut v: Vec<T> = Vec::new();
        std::mem::swap(&mut v, &mut self.moves);
        v.truncate(len as usize);
        self.moves = v;
    }

    /// Exchanges the values at `a` and `b`.
    pub fn swap(&mut self, a: u8, b: u8)
        requires
            (a as int) < old(self)@.len(),
            (b as int) < old(self)@.len(),
        ensures
            final(self)@ == old(self)@.update(a as int, old(self)@[b as int]).update(b as int, old(self)@[a as int]),
    {
        proof {
            use_type_invariant(&*self);
        }
        let mut v: Vec<T> = Vec::new();
        std::mem::swap(&mut v, &mut self.moves);
        let x = v[a as usize];
        let y = v[b as usize];
        v.set(a as usize, y);
        v.set(b as usize, x);
        self.moves = v;
    }

    /// The value at `at`, if there is one.
    pub fn get(&self, at: u8) -> (r: Option<T>)
        ensures
            (at as int) < self@.len() ==> r == Some(self@[at as int]),
            (at as int) >= self@.len() ==> r is None,
    {
        if (at as usize) < self.moves.len() {
            Some(self.moves[at as usize])
        } else {
            None
        }
    }

    /// Whether the buffer is empty.
    pub fn is_empty(&self) -> (r: bool)
        ensures
            r == (self@.len() == 0),
    {
        self.moves.len() == 0
    }

    /// Appends a value; the buffer must not be full.
    pub fn push(&mut self, m: T)
        requires
            old(self)@.len() < SIZE,
        ensures
            final(self)@ == old(self)@.push(m),
    {
        proof {
            use_type_invariant(&*self);
        }
        let mut v: Vec<T> = Vec::new();
        std::mem::swap(&mut v, &mut self.moves);
        v.push(m);
        self.moves = v;
    }

    /// Removes every value.
    pub fn clear(&mut self)
        ensures
            final(self)@ == Seq::<T>::empty(),
    {
        proof {
            use_type_invariant(&*self);
        }
        self.moves = Vec::new();
    }

    /// The values, in order.
    pub fn as_slice(&self) -> (r: &[T])
        ensures
            r@ == self@,
    {
        self.moves.as_slice()
    }
}

/// A reader over the values of a buffer.
pub struct InlineIter<T> {
    values: Vec<T>,
    cur: usize,
}

impl<T> InlineIter<T> {
    /// The values not read yet.
    pub closed spec fn rest(&self) -> Seq<T> {
        self.values@.subrange(self.cur as int, self.values@.len() as int)
    }

    #[verifier::type_invariant]
    spec fn in_range(self) -> bool {
        self.cur <= self.values@.len()
    }
}

impl<T: Copy> InlineIter<T> {
    /// The next value, if any is left.
    pub fn next(&mut self) -> (r: Option<T>)
        ensures
            old(self).rest().len() > 0 ==> r == Some(old(self).rest()[0]) && final(self).rest() == old(self).rest().drop_first(),
            old(self).rest().len() == 0 ==> r is None && final(self).rest() == old(self).rest(),
    {
        proof {
            use_type_invariant(&*self);
        }
        if self.cur == self.values.len() {
            return None;
        }
        let r = self.values[self.cur];
        self.cur = self.cur + 1;
        assert(self.rest() =~= old(self).rest().drop_first());
        Some(r)
    }
}

} // verus!
