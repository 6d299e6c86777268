//! Contracts for the string and character operations of the standard library
//! that the rest of the crate builds on.

use vstd::prelude::*;

verus! {

/// Whether `char::is_whitespace` holds of the character: whether it has the
/// Unicode property White_Space.
pub uninterp spec fn is_white_space(c: char) -> bool;

/// The characters that `char::to_uppercase` yields for the character, in order.
pub uninterp spec fn upper_of(c: char) -> Seq<char>;

/// The text that `str::to_lowercase` gives for the text.
pub uninterp spec fn lower_text(text: Seq<char>) -> Seq<char>;

/// `char::is_whitespace` is a function of the character alone.
pub assume_specification[ char::is_whitespace ](c: char) -> (white: bool)
    ensures
        white == is_white_space(c),
;

/// `String::push` appends the character and leaves what was there in place.
pub assume_specification[ String::push ](s: &mut String, ch: char)
    ensures
        final(s)@ == old(s)@.push(ch),
;

/// Two string slices are equal exactly when they hold the same characters.
pub assume_specification[ <str as PartialEq>::eq ](a: &str, b: &str) -> (same: bool)
    ensures
        same == (a@ == b@),
;

/// Collects what `char::to_uppercase` yields. Trusted: the mapping is a
/// function of the character alone.
#[verifier::external_body]
pub(crate) fn uppercase(c: char) -> (upper: String)
    ensures
        upper@ == upper_of(c),
{
    c.to_uppercase().collect()
}

/// Calls `str::to_lowercase`. Trusted: the result is a function of the text
/// alone.
#[verifier::external_body]
pub(crate) fn lowercase(text: &str) -> (lower: String)
    ensures
        lower@ == lower_text(text@),
{
    text.to_lowercase()
}

/// The characters of a string slice, in order.
pub fn chars_of(s: &str) -> (chars: Vec<char>)
    ensures
        chars@ == s@,
{
    let mut chars: Vec<char> = Vec::new();
    for c in it: s.chars()
        invariant
            chars@ == it.seq().take(it.index() as int),
            it.seq() == s@,
    {
        chars.push(c);
    }
    chars
}

} // verus!
