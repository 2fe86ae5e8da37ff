//! White space and comments.

use crate::error::FormatError;
use crate::fragment::{lemma_fragment_view, Fragment, FragmentKind, FragmentView};
use crate::outside::{leftmost_match_replaced, replace_leftmost_match};
use crate::text::contains_newline;
use crate::token::{
    normal, text_outcome, tokens_outcome, tokens_view, PrintInfo, RenderToken, SpaceType,
};
use vstd::prelude::*;

verus! {

/// Matches the opening of a comment and the space after it, if there is one.
pub const COMMENT_OPEN: &'static str = "/\\* ?";

/// Matches the closing of a comment and the space before it, if there is one.
pub const COMMENT_CLOSE: &'static str = " ?\\*/";

/// The token that a white-space fragment leaves in a token list: a line
/// break if the fragment starts with a newline fragment or its text holds a
/// line feed, and nothing otherwise.
pub open spec fn whitespace_token(white_space: FragmentView) -> Option<RenderToken> {
    if white_space.children.len() > 0 && white_space.children[0].kind == FragmentKind::Newline {
        Some(RenderToken { text: white_space.children[0].text, spacing: SpaceType::LineBreak })
    } else if white_space.text.contains('\n') {
        Some(RenderToken { text: white_space.text, spacing: SpaceType::LineBreak })
    } else {
        None
    }
}

/// The tokens that a white-space fragment adds to a token list.
pub open spec fn whitespace_tokens(white_space: FragmentView) -> Seq<RenderToken> {
    match whitespace_token(white_space) {
        Some(token) => seq![token],
        None => Seq::empty(),
    }
}

/// The text of a comment with one space after its opening and one before
/// its closing: the leftmost opening is replaced first, then the leftmost
/// closing. `None` if the regex engine rejects a pattern.
pub open spec fn comment_text(text: Seq<char>) -> Option<Seq<char>> {
    match leftmost_match_replaced(COMMENT_OPEN@, text, seq!['/', '*', ' ']) {
        Some(opened) => leftmost_match_replaced(COMMENT_CLOSE@, opened, seq![' ', '*', '/']),
        None => None,
    }
}

/// The outcome of spacing a comment, as the formatters report it.
pub open spec fn comment_outcome(text: Seq<char>) -> Result<Seq<char>, FormatError> {
    match comment_text(text) {
        Some(spaced) => Ok(spaced),
        None => Err(FormatError::InvalidPattern),
    }
}

/// The token of a comment whose spacing is normalized.
pub open spec fn comment_tokens(text: Seq<char>) -> Result<Seq<RenderToken>, FormatError> {
    match comment_outcome(text) {
        Ok(spaced) => Ok(seq![normal(spaced)]),
        Err(error) => Err(error),
    }
}

/// The token of a white-space fragment: a line break if the fragment
/// holds a line feed, and nothing otherwise.
pub fn format_whitespace(white_space: &Fragment) -> (token: Option<PrintInfo>)
    ensures
        match token {
            Some(t) => whitespace_token(white_space@) == Some(t@),
            None => whitespace_token(white_space@) is None,
        },
{
    proof {
        lemma_fragment_view(white_space);
    }
    if white_space.children.len() > 0 {
        let first = &white_space.children[0];
        proof {
            lemma_fragment_view(first);
        }
        if first.kind == FragmentKind::Newline {
            return Some(PrintInfo::new(first.text.clone(), SpaceType::LineBreak));
        }
    }
    if contains_newline(white_space.text.as_str()) {
        Some(PrintInfo::new(white_space.text.clone(), SpaceType::LineBreak))
    } else {
        None
    }
}

/// The text of a comment with one space inside each of its marks.
pub fn format_comment(comment: &Fragment) -> (spaced: Result<String, FormatError>)
    ensures
        text_outcome(spaced) == comment_outcome(comment@.text),
{
    proof {
        lemma_fragment_view(comment);
        reveal_strlit("/* ");
        reveal_strlit(" */");
        assert("/* "@ =~= seq!['/', '*', ' ']);
        assert(" */"@ =~= seq![' ', '*', '/']);
    }
    match replace_leftmost_match(COMMENT_OPEN, comment.text.as_str(), "/* ") {
        Some(opened) => match replace_leftmost_match(COMMENT_CLOSE, opened.as_str(), " */") {
            Some(closed) => Ok(closed),
            None => Err(FormatError::InvalidPattern),
        },
        None => Err(FormatError::InvalidPattern),
    }
}

/// The tokens of white space: a line break or nothing.
pub fn whitespace_list(white_space: &Fragment) -> (tokens: Vec<PrintInfo>)
    ensures
        tokens_view(tokens@) == whitespace_tokens(white_space@),
{
    let mut tokens = Vec::new();
    if let Some(token) = format_whitespace(white_space) {
        tokens.push(token);
    }
    assert(tokens_view(tokens@) =~= whitespace_tokens(white_space@));
    tokens
}

/// The token of a comment whose spacing is normalized.
pub fn comment_list(comment: &Fragment) -> (result: Result<Vec<PrintInfo>, FormatError>)
    ensures
        tokens_outcome(result) == comment_tokens(comment@.text),
{
    match format_comment(comment) {
        Ok(spaced) => {
            let mut tokens = Vec::new();
            tokens.push(PrintInfo::new(spaced, SpaceType::Normal));
            assert(tokens_view(tokens@) =~= seq![normal(spaced@)]);
            Ok(tokens)
        },
        Err(error) => Err(error),
    }
}

} // verus!
