//! Small text-building helpers whose work std does.

use vstd::prelude::*;

verus! {

/// Relies on String::push: it appends exactly the given character to
/// the end of this string.
#[verifier::external_body]
pub fn push_char(s: &mut String, c: char)
    ensures
        final(s)@ == old(s)@.push(c),
{
    s.push(c);
}

/// Relies on char::from_u32: for a code point that is a Unicode scalar
/// value (not a surrogate, at most 0x10FFFF) it returns the character
/// with exactly that code point.
#[verifier::external_body]
pub fn char_from_code(v: u32) -> (c: char)
    requires
        v < 0xD800 || (0xE000 <= v && v <= 0x10FFFF),
    ensures
        c == (v as char),
{
    char::from_u32(v).unwrap()
}

} // verus!
