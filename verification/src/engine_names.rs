//! The names an engine may be uploaded under.
use vstd::prelude::*;
use crate::text::chars_of;

verus! {

/// Whether `std`'s `char::is_alphanumeric` holds of `c`: a letter or a digit by the Unicode
/// tables the standard library carries.
pub uninterp spec fn unicode_alphanumeric(c: char) -> bool;

/// `std`'s `char::is_alphanumeric`: whether the character is alphabetic or numeric.
#[verifier::external_body]
fn is_alphanumeric(c: char) -> (r: bool)
    ensures
        r == unicode_alphanumeric(c),
{
    c.is_alphanumeric()
}

/// Whether a character may stand in an engine's name: a letter or a digit, a space, an
/// underscore, a hyphen or a full stop.
pub open spec fn name_char_ok(c: char) -> bool {
    unicode_alphanumeric(c) || c == ' ' || c == '_' || c == '-' || c == '.'
}

/// Whether an engine may be uploaded under the name: every character is one that may
/// stand in a name.
pub fn engine_name_ok(name: &str) -> (r: bool)
    ensures
        r == forall|i: int| 0 <= i < name@.len() ==> #[trigger] name_char_ok(name@[i]),
{
    let cs = chars_of(name);
    let mut i: usize = 0;
    while i < cs.len()
        invariant
            i <= cs@.len(),
            cs@ == name@,
            forall|j: int| 0 <= j < i ==> #[trigger] name_char_ok(name@[j]),
        decreases cs@.len() - i,
    {
        let c = cs[i];
        if !(is_alphanumeric(c) || c == ' ' || c == '_' || c == '-' || c == '.') {
            assert(!name_char_ok(name@[i as int]));
            return false;
        }
        i = i + 1;
    }
    true
}

} // verus!
