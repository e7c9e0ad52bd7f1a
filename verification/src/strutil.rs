//! Small trusted bridges between `String`/`&str` and the character sequences
//! the rest of the crate computes on.

use vstd::prelude::*;

verus! {

/// Relies on str's `PartialEq`: two string slices are equal exactly when
/// their character sequences are.
pub assume_specification[ <str as PartialEq>::eq ](a: &str, b: &str) -> (r: bool)
    ensures
        r == (a@ == b@),
;

/// Relies on `Iterator::collect` for `String`: collecting characters builds
/// the string with exactly those characters in order.
#[verifier::external_body]
pub fn string_from_chars(chars: &Vec<char>) -> (s: String)
    ensures
        s@ == chars@,
{
    chars.iter().collect()
}

/// Relies on `str::chars` and `Iterator::collect`: the characters of a string
/// slice, in order.
#[verifier::external_body]
pub fn chars_of(s: &str) -> (chars: Vec<char>)
    ensures
        chars@ == s@,
{
    s.chars().collect()
}

} // verus!
