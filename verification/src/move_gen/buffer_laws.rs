//! What a run of operations does to the length of a buffer.
use vstd::prelude::*;

verus! {

/// An operation on a buffer, as its method takes it.
pub enum BufferOp<T> {
    Push(T),
    Pop,
    SwapRemove(u8),
    Truncate(u8),
    Clear,
}

/// The values after one operation, as the method's contract gives them.
pub open spec fn apply_op<T>(s: Seq<T>, op: BufferOp<T>) -> Seq<T> {
    match op {
        BufferOp::Push(m) => s.push(m),
        BufferOp::Pop => if s.len() > 0 {
            s.drop_last()
        } else {
            s
        },
        BufferOp::SwapRemove(i) => s.update(i as int, s.last()).drop_last(),
        BufferOp::Truncate(n) => s.take(n as int),
        BufferOp::Clear => Seq::<T>::empty(),
    }
}

/// Whether the method's `requires` admits the operation on a buffer of `size` places.
pub open spec fn op_allowed<T>(size: nat, s: Seq<T>, op: BufferOp<T>) -> bool {
    match op {
        BufferOp::Push(_) => s.len() < size,
        BufferOp::SwapRemove(i) => (i as int) < s.len(),
        BufferOp::Truncate(n) => (n as int) <= s.len(),
        _ => true,
    }
}

/// The values after the operations, in order, from `s`.
pub open spec fn apply_ops<T>(s: Seq<T>, ops: Seq<BufferOp<T>>) -> Seq<T>
    decreases ops.len(),
{
    if ops.len() == 0 {
        s
    } else {
        apply_op(apply_ops(s, ops.drop_last()), ops.last())
    }
}

/// Whether each operation is admitted where it comes.
pub open spec fn ops_allowed<T>(size: nat, s: Seq<T>, ops: Seq<BufferOp<T>>) -> bool
    decreases ops.len(),
{
    ops.len() == 0 || (ops_allowed(size, s, ops.drop_last()) && op_allowed(size, apply_ops(s, ops.drop_last()), ops.last()))
}

/// The count kept by hand from a new buffer: the length set by the last clear or
/// truncation (none at the start), plus the pushes after it, less the pops that found a
/// value and the swap-removes after it.
pub open spec fn counted<T>(ops: Seq<BufferOp<T>>) -> int
    decreases ops.len(),
{
    if ops.len() == 0 {
        0
    } else {
        let n = counted(ops.drop_last());
        match ops.last() {
            BufferOp::Push(_) => n + 1,
            BufferOp::Pop => if n > 0 {
                n - 1
            } else {
                0
            },
            BufferOp::SwapRemove(_) => n - 1,
            BufferOp::Truncate(k) => k as int,
            BufferOp::Clear => 0,
        }
    }
}

/// From a new buffer of `size` places, after any run of operations that the methods admit,
/// the buffer holds as many values as counted by hand, and never more than `size`.
pub proof fn lemma_buffer_length<T>(size: nat, ops: Seq<BufferOp<T>>)
    requires
        ops_allowed(size, Seq::<T>::empty(), ops),
    ensures
        apply_ops(Seq::<T>::empty(), ops).len() == counted(ops),
        apply_ops(Seq::<T>::empty(), ops).len() <= size,
    decreases ops.len(),
{
    if ops.len() > 0 {
        lemma_buffer_length(size, ops.drop_last());
    }
}

} // verus!
