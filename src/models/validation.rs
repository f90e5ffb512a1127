use vstd::prelude::*;

verus! {

/// Shortest accepted text of a name or a todo, in characters.
pub const MIN_TEXT_CHARS: u64 = 1;

/// Longest accepted text of a name or a todo, in characters.
pub const MAX_TEXT_CHARS: u64 = 100;

/// A text that a creation or update payload may carry: not empty, and at
/// most `MAX_TEXT_CHARS` characters.
pub open spec fn text_is_valid(s: Seq<char>) -> bool {
    MIN_TEXT_CHARS <= s.len() && s.len() <= MAX_TEXT_CHARS
}

/// Relies on validator::validate_length, which for a `&String` counts its
/// characters (`chars().count()`) and accepts when `min <= count <= max`.
#[verifier::external_body]
fn length_within(s: &String, min: u64, max: u64) -> (r: bool)
    ensures
        r == (min <= s@.len() && s@.len() <= max),
{
    validator::validate_length(s, Some(min), Some(max), None)
}

/// Whether `s` is an acceptable text: see `text_is_valid`.
pub fn is_valid_text(s: &String) -> (r: bool)
    ensures
        r == text_is_valid(s@),
{
    length_within(s, MIN_TEXT_CHARS, MAX_TEXT_CHARS)
}

} // verus!
