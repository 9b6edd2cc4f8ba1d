//! What a step of move generation does to the list of moves: it appends moves, each of a
//! given description, and all of them unless the list fills up.
use vstd::prelude::*;
use super::inline_buffer::{InlineBuffer, MAX_MOVES};
use crate::chess_core::mov::Move;

verus! {

/// `new` is `old` with moves appended that `ok` accepts, no two of them alike; unless the
/// list filled up, every move that `ok` accepts is among them, and when it filled up, some
/// move that `ok` accepts did not fit.
pub open spec fn adds(old: Seq<Move>, new: Seq<Move>, ok: spec_fn(u16) -> bool, full: bool) -> bool {
    &&& old.len() <= new.len() <= MAX_MOVES
    &&& new.subrange(0, old.len() as int) == old
    &&& forall|j: int| old.len() <= j < new.len() ==> #[trigger] ok(new[j]@)
    &&& forall|i: int, j: int| #![trigger new[i], new[j]] old.len() <= i < j < new.len() ==> new[i]@ != new[j]@
    &&& full ==> new.len() == MAX_MOVES
    &&& full ==> exists|v: u16| #[trigger] ok(v) && left_out(old, new, v)
    &&& !full ==> forall|v: u16| #[trigger] ok(v) ==> exists|j: int| old.len() <= j < new.len() && new[j]@ == v
}

/// Whether the move `v` is not among those appended to `old` in `new`.
pub open spec fn left_out(old: Seq<Move>, new: Seq<Move>, v: u16) -> bool {
    forall|j: int| old.len() <= j < new.len() ==> #[trigger] new[j]@ != v
}

/// Nothing is added when nothing is accepted.
pub proof fn lemma_adds_none(a: Seq<Move>, ok: spec_fn(u16) -> bool)
    requires
        a.len() <= MAX_MOVES,
        forall|v: u16| !#[trigger] ok(v),
    ensures
        adds(a, a, ok, false),
{
    assert(a.subrange(0, a.len() as int) =~= a);
}

/// Two steps, the first of which did not fill the list, add what either accepts, when no
/// move is accepted by both.
pub proof fn lemma_adds_union(a: Seq<Move>, b: Seq<Move>, c: Seq<Move>, ok1: spec_fn(u16) -> bool, ok2: spec_fn(u16) -> bool, full: bool)
    requires
        adds(a, b, ok1, false),
        adds(b, c, ok2, full),
        forall|v: u16| #[trigger] ok1(v) ==> !ok2(v),
    ensures
        adds(a, c, |v: u16| ok1(v) || ok2(v), full),
{
    let ok = |v: u16| ok1(v) || ok2(v);
    assert(c.subrange(0, a.len() as int) =~= a) by {
        assert(c.subrange(0, b.len() as int) == b);
        assert forall|i: int| 0 <= i < a.len() implies c.subrange(0, a.len() as int)[i] == a[i] by {
            assert(c[i] == c.subrange(0, b.len() as int)[i]);
            assert(b[i] == b.subrange(0, a.len() as int)[i]);
        }
    }
    assert forall|i: int, j: int| a.len() <= i < j < c.len() implies c[i]@ != c[j]@ by {
        if j < b.len() {
            assert(c[i] == c.subrange(0, b.len() as int)[i]);
            assert(c[j] == c.subrange(0, b.len() as int)[j]);
            assert(b[i]@ != b[j]@);
        } else if i < b.len() {
            assert(c[i] == c.subrange(0, b.len() as int)[i]);
            assert(ok1(b[i]@));
            assert(ok2(c[j]@));
        } else {
            assert(c[i]@ != c[j]@);
        }
    }
    if full {
        let v = choose|v: u16| #[trigger] ok2(v) && left_out(b, c, v);
        assert(ok(v));
        assert forall|j: int| a.len() <= j < c.len() implies #[trigger] c[j]@ != v by {
            if j < b.len() {
                assert(c[j] == c.subrange(0, b.len() as int)[j]);
                assert(ok1(b[j]@));
            }
        }
        assert(left_out(a, c, v));
    }
    assert forall|j: int| a.len() <= j < c.len() implies #[trigger] ok(c[j]@) by {
        if j < b.len() {
            assert(c[j] == c.subrange(0, b.len() as int)[j]);
            assert(ok1(b[j]@));
        } else {
            assert(ok2(c[j]@));
        }
    }
    if !full {
        assert forall|v: u16| #[trigger] ok(v) implies exists|j: int| a.len() <= j < c.len() && c[j]@ == v by {
            if ok1(v) {
                let j = choose|j: int| a.len() <= j < b.len() && b[j]@ == v;
                assert(c[j] == c.subrange(0, b.len() as int)[j]);
                assert(a.len() <= j < c.len() && c[j]@ == v);
            } else {
                assert(ok2(v));
            }
        }
    }
}

/// A step that filled the list added only moves of a wider description.
pub proof fn lemma_adds_widen(a: Seq<Move>, b: Seq<Move>, ok1: spec_fn(u16) -> bool, ok2: spec_fn(u16) -> bool)
    requires
        adds(a, b, ok1, true),
        forall|v: u16| #[trigger] ok1(v) ==> ok2(v),
    ensures
        adds(a, b, ok2, true),
{
    assert forall|j: int| a.len() <= j < b.len() implies #[trigger] ok2(b[j]@) by {
        assert(ok1(b[j]@));
    }
    let v = choose|v: u16| #[trigger] ok1(v) && left_out(a, b, v);
    assert(ok2(v));
}

/// A step adds what an equivalent description accepts.
pub proof fn lemma_adds_same(a: Seq<Move>, b: Seq<Move>, ok1: spec_fn(u16) -> bool, ok2: spec_fn(u16) -> bool, full: bool)
    requires
        adds(a, b, ok1, full),
        forall|v: u16| #[trigger] ok1(v) == ok2(v),
    ensures
        adds(a, b, ok2, full),
{
    assert(ok1 =~= ok2);
}

/// Appends a move when the list has room: whether it had none.
pub fn push_move(list: &mut InlineBuffer<MAX_MOVES, Move>, m: Move) -> (full: bool)
    ensures
        full == (old(list)@.len() == MAX_MOVES),
        !full ==> final(list)@ == old(list)@.push(m),
        full ==> final(list)@ == old(list)@,
{
    if list.len() as usize == MAX_MOVES {
        true
    } else {
        list.push(m);
        false
    }
}

/// Appending one move when there was room adds exactly that move.
pub proof fn lemma_adds_one(a: Seq<Move>, m: Move, ok: spec_fn(u16) -> bool)
    requires
        a.len() < MAX_MOVES,
        forall|v: u16| #[trigger] ok(v) <==> v == m@,
    ensures
        adds(a, a.push(m), ok, false),
{
    let b = a.push(m);
    assert(b.subrange(0, a.len() as int) =~= a);
    assert(b[a.len() as int] == m);
}

/// Appending nothing to a full list leaves out the one move that was accepted.
pub proof fn lemma_adds_full(a: Seq<Move>, m: Move, ok: spec_fn(u16) -> bool)
    requires
        a.len() == MAX_MOVES,
        forall|v: u16| #[trigger] ok(v) <==> v == m@,
    ensures
        adds(a, a, ok, true),
{
    assert(a.subrange(0, a.len() as int) =~= a);
    assert(ok(m@));
    assert(left_out(a, a, m@));
}

} // verus!
