//! Small number helpers.
use vstd::prelude::*;

verus! {

/// The number negated when `cond` holds, else unchanged: `(v ^ -c) + c` with `c` the
/// condition as 0 or 1, which flips the sign in two's complement. The most negative number
/// has no negation, so it is not flipped.
pub fn cond_flip(v: i64, cond: bool) -> (r: i64)
    requires
        !(cond && v == i64::MIN),
    ensures
        r == if cond { -v } else { v as int },
{
    if cond {
        -v
    } else {
        v
    }
}

} // verus!
