//! The top level: the fragments of a program are written out one after the
//! other, and the indent level is carried from each statement to the next.

use crate::error::FormatError;
use crate::fragment::{lemma_fragment_view, Fragment, FragmentKind, FragmentView};
use crate::normalize::normalize_keyword;
use crate::outside::uppercased;
use crate::statement::{format_statement, statement_output};
use crate::text::{get_tabs, tabs};
use crate::token::text_outcome;
use crate::trivia::{comment_outcome, format_comment, format_whitespace, whitespace_token};
use vstd::prelude::*;

verus! {

/// The text that one fragment of a program is written as at an indent
/// level, and the indent level after it.
pub open spec fn program_item(child: FragmentView, indent: nat) -> Result<
    (Seq<char>, nat),
    FormatError,
> {
    match child.kind {
        FragmentKind::Comment => match comment_outcome(child.text) {
            Ok(spaced) => Ok((tabs(indent) + spaced, indent)),
            Err(error) => Err(error),
        },
        FragmentKind::Statement => statement_output(child, indent),
        FragmentKind::Whitespace => Ok(
            (
                if whitespace_token(child) is Some {
                    seq!['\n']
                } else {
                    Seq::empty()
                },
                indent,
            ),
        ),
        FragmentKind::Keyword => Ok((uppercased(child.text), indent)),
        FragmentKind::Include => Ok((tabs(indent) + child.text + seq!['\n'], indent)),
        FragmentKind::Newline => Ok((seq!['\n'], indent)),
        FragmentKind::EndOfInput => Ok((Seq::empty(), indent)),
        _ => Err(FormatError::StructuralMismatch),
    }
}

/// The outcome `later`, with `earlier` put in front of its text when it
/// succeeded.
pub open spec fn text_after(earlier: Seq<char>, later: Result<Seq<char>, FormatError>) -> Result<
    Seq<char>,
    FormatError,
> {
    match later {
        Ok(text) => Ok(earlier + text),
        Err(error) => Err(error),
    }
}

/// The text of the fragments of a program from `at` on, started at the
/// indent level `indent`.
pub open spec fn program_text(children: Seq<FragmentView>, at: int, indent: nat) -> Result<
    Seq<char>,
    FormatError,
>
    decreases children.len() - at,
{
    if at < 0 || at >= children.len() {
        Ok(Seq::empty())
    } else {
        match program_item(children[at], indent) {
            Ok((text, next_indent)) => text_after(text, program_text(children, at + 1, next_indent)),
            Err(error) => Err(error),
        }
    }
}

/// Formats one fragment of a program.
fn format_program_item(child: &Fragment, indent_level: usize) -> (result: Result<
    (String, usize),
    FormatError,
>)
    ensures
        match result {
            Ok((text, next_indent)) => program_item(child@, indent_level as nat) == Ok::<
                _,
                FormatError,
            >((text@, next_indent as nat)),
            Err(error) => program_item(child@, indent_level as nat) == Err::<(Seq<char>, nat), _>(
                error,
            ),
        },
{
    proof {
        lemma_fragment_view(child);
        reveal_strlit("\n");
        assert("\n"@ =~= seq!['\n']);
    }
    match child.kind {
        FragmentKind::Comment => match format_comment(child) {
            Ok(spaced) => {
                let mut text = get_tabs(indent_level);
                text.append(spaced.as_str());
                Ok((text, indent_level))
            },
            Err(error) => Err(error),
        },
        FragmentKind::Statement => format_statement(child, indent_level),
        FragmentKind::Whitespace => {
            if format_whitespace(child).is_some() {
                Ok((String::from_str("\n"), indent_level))
            } else {
                Ok((String::new(), indent_level))
            }
        },
        FragmentKind::Keyword => Ok((normalize_keyword(child.text.as_str()), indent_level)),
        FragmentKind::Include => {
            let mut text = get_tabs(indent_level);
            text.append(child.text.as_str());
            text.append("\n");
            Ok((text, indent_level))
        },
        FragmentKind::Newline => Ok((String::from_str("\n"), indent_level)),
        FragmentKind::EndOfInput => Ok((String::new(), indent_level)),
        _ => Err(FormatError::StructuralMismatch),
    }
}

/// Formats a program: the text of its fragments in order, starting at
/// indent level 0.
pub fn format_code(program: &Fragment) -> (result: Result<String, FormatError>)
    ensures
        text_outcome(result) == program_text(program@.children, 0, 0),
{
    let mut output = String::new();
    let mut indent_level: usize = 0;
    let ghost children = program@.children;
    proof {
        lemma_fragment_view(program);
        if let Ok(text) = program_text(children, 0, 0) {
            assert(Seq::<char>::empty() + text =~= text);
        }
    }
    let mut at: usize = 0;
    while at < program.children.len()
        invariant
            at <= program.children.len(),
            children == program@.children,
            children.len() == program.children.len(),
            forall|i: int|
                0 <= i < children.len() ==> #[trigger] children[i] == program.children@[i]@,
            program_text(children, 0, 0) == text_after(
                output@,
                program_text(children, at as int, indent_level as nat),
            ),
        decreases program.children.len() - at,
    {
        let ghost before = output@;
        match format_program_item(&program.children[at], indent_level) {
            Ok((text, next_indent)) => {
                output.append(text.as_str());
                proof {
                    if let Ok(rest) = program_text(children, at + 1, next_indent as nat) {
                        assert(before + (text@ + rest) =~= (before + text@) + rest);
                    }
                }
                indent_level = next_indent;
            },
            Err(error) => {
                return Err(error);
            },
        }
        at += 1;
    }
    proof {
        assert(output@ + Seq::<char>::empty() =~= output@);
    }
    Ok(output)
}

} // verus!
