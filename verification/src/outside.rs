//! Calls into other crates and into parts of the standard library that
//! have no specification. The contracts in this file are believed, not
//! proved: each says what the function that is called is documented to do.

use crate::text::{ascii_uppercased, is_printable_ascii, padded};
use pad::PadStr;
use vstd::prelude::*;
use vstd::utf8::is_ascii_chars;

verus! {

/// What `str::to_uppercase` returns for `text`.
pub uninterp spec fn uppercased(text: Seq<char>) -> Seq<char>;

/// The number of terminal columns that `text` takes, as the `unicode-width`
/// crate counts them for `pad`.
pub uninterp spec fn display_width(text: Seq<char>) -> nat;

/// What `regex::Regex::replace` returns for the pattern, the haystack and
/// the replacement, or `None` where the pattern does not compile.
pub uninterp spec fn leftmost_match_replaced(
    pattern: Seq<char>,
    haystack: Seq<char>,
    replacement: Seq<char>,
) -> Option<Seq<char>>;

/// An identifier padded to the width of its group.
pub open spec fn aligned(identifier: Seq<char>, width: nat) -> Seq<char> {
    padded(identifier, display_width(identifier), width)
}

/// Calls `str::to_uppercase`. The result is named by [`uppercased`]; on text
/// that is all ASCII it is the text with `a` to `z` replaced by `A` to `Z`.
#[verifier::external_body]
pub(crate) fn to_uppercase(text: &str) -> (upper: String)
    ensures
        upper@ == uppercased(text@),
        is_ascii_chars(text@) ==> upper@ == ascii_uppercased(text@),
{
    text.to_uppercase()
}

/// Calls `pad::PadStr::pad_to_width`, which returns the text unchanged when
/// its display width is `width` or more, and otherwise appends one space for
/// each missing column. A character between the space and `~` is one column
/// wide.
#[verifier::external_body]
pub(crate) fn pad_to_width(text: &str, width: usize) -> (result: String)
    ensures
        result@ == padded(text@, display_width(text@), width as nat),
        is_printable_ascii(text@) ==> result@ == padded(text@, text@.len(), width as nat),
{
    text.pad_to_width(width)
}

/// Compiles `pattern` with `regex::Regex::new` and calls `Regex::replace`
/// with the haystack and the replacement: `None` if the pattern does not
/// compile, else the haystack with the leftmost match replaced.
#[verifier::external_body]
pub(crate) fn replace_leftmost_match(pattern: &str, haystack: &str, replacement: &str) -> (result:
    Option<String>)
    ensures
        match result {
            Some(replaced) => leftmost_match_replaced(pattern@, haystack@, replacement@) == Some(
                replaced@,
            ),
            None => leftmost_match_replaced(pattern@, haystack@, replacement@) is None,
        },
{
    match regex::Regex::new(pattern) {
        Ok(compiled) => Some(compiled.replace(haystack, replacement).into_owned()),
        Err(_) => None,
    }
}

} // verus!
