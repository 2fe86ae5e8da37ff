//! Statements: the token list of one statement is built from its
//! fragments, then written out by the rendering pass. Blocks that open or
//! close in the statement change the indent level of what follows it.

use crate::assign::{assign_tokens, format_assign};
use crate::datatype::{datatype_tokens, format_datatype};
use crate::error::FormatError;
use crate::expression::{
    conditional_expression_tokens, expression_tokens, format_conditional_expression,
    format_expression,
};
use crate::fragment::{lemma_fragment_view, Fragment, FragmentKind, FragmentView};
use crate::normalize::normalize_keyword;
use crate::outside::uppercased;
use crate::render::{render_tokens, rendered};
use crate::temp_table::{format_temp_table, temp_table_tokens};
use crate::token::{
    append_tokens, normal, single_token, tokens_outcome, tokens_view, PrintInfo, RenderToken,
    SpaceType,
};
use crate::trivia::{whitespace_list, whitespace_tokens};
use vstd::prelude::*;

verus! {

/// What the fragments of a statement come to: the tokens, the line feeds
/// that are written ahead of them, and the indent level after them.
pub ghost struct StatementWalk {
    pub tokens: Seq<RenderToken>,
    pub leading: Seq<char>,
    pub next_indent: nat,
}

/// The outcome `tokens` of a formatter that leaves the indent level alone.
pub open spec fn at_indent(indent: nat, tokens: Result<Seq<RenderToken>, FormatError>) -> Result<
    StatementWalk,
    FormatError,
> {
    match tokens {
        Ok(tokens) => Ok(StatementWalk { tokens, leading: Seq::empty(), next_indent: indent }),
        Err(error) => Err(error),
    }
}

/// The outcome `later`, with `earlier` put in front of it when it
/// succeeded.
pub open spec fn statement_after(earlier: StatementWalk, later: Result<StatementWalk, FormatError>)
    -> Result<StatementWalk, FormatError> {
    match later {
        Ok(walk) => Ok(
            StatementWalk {
                tokens: earlier.tokens + walk.tokens,
                leading: earlier.leading + walk.leading,
                next_indent: walk.next_indent,
            },
        ),
        Err(error) => Err(error),
    }
}

/// The indent level after a block opens. It fails where the level would
/// leave the range of `usize`.
pub open spec fn indent_after_begin(indent: nat) -> Result<nat, FormatError> {
    if indent >= usize::MAX {
        Err(FormatError::Overflow)
    } else {
        Ok(indent + 1)
    }
}

/// The indent level after a block closes: one less, and never below zero.
pub open spec fn indent_after_end(indent: nat) -> nat {
    if indent > 0 {
        (indent - 1) as nat
    } else {
        0
    }
}

/// What one fragment of a statement adds to it at the indent level
/// `indent`.
pub open spec fn statement_item(child: FragmentView, indent: nat) -> Result<
    StatementWalk,
    FormatError,
>
    decreases child.children, child.children.len() + 1,
{
    match child.kind {
        FragmentKind::LoopLabel => at_indent(
            indent,
            Ok(seq![RenderToken { text: child.text, spacing: SpaceType::NoSpaceBefore }]),
        ),
        FragmentKind::Keyword => at_indent(indent, Ok(seq![normal(uppercased(child.text))])),
        FragmentKind::ConditionalExpression => at_indent(
            indent,
            conditional_expression_tokens(child.children, 0),
        ),
        FragmentKind::Expression => at_indent(indent, expression_tokens(child, false)),
        FragmentKind::BlockBegin => match indent_after_begin(indent) {
            Ok(deeper) => Ok(
                StatementWalk {
                    tokens: seq![
                        RenderToken { text: child.text, spacing: SpaceType::NoSpaceBefore },
                    ],
                    leading: Seq::empty(),
                    next_indent: deeper,
                },
            ),
            Err(error) => Err(error),
        },
        FragmentKind::BlockEnd => Ok(
            StatementWalk {
                tokens: seq![
                    RenderToken { text: uppercased(child.text), spacing: SpaceType::StatementEnd },
                ],
                leading: Seq::empty(),
                next_indent: indent_after_end(indent),
            },
        ),
        FragmentKind::DefineTempTable => at_indent(indent, temp_table_tokens(child.children, 0)),
        FragmentKind::AssignStatement => at_indent(indent, assign_tokens(child.children, 0)),
        FragmentKind::Whitespace => at_indent(indent, Ok(whitespace_tokens(child))),
        FragmentKind::Newline => Ok(
            StatementWalk { tokens: Seq::empty(), leading: seq!['\n'], next_indent: indent },
        ),
        FragmentKind::StatementEnd => at_indent(
            indent,
            Ok(seq![RenderToken { text: uppercased(child.text), spacing: SpaceType::StatementEnd }]),
        ),
        FragmentKind::Datatype => at_indent(indent, datatype_tokens(child.children, 0)),
        FragmentKind::Statement => statement_walk(child.children, 0, indent),
        _ => Err(FormatError::StructuralMismatch),
    }
}

/// What the fragments of a statement from `at` on come to, started at the
/// indent level `indent`.
pub open spec fn statement_walk(children: Seq<FragmentView>, at: int, indent: nat) -> Result<
    StatementWalk,
    FormatError,
>
    decreases children, children.len() - at,
{
    if at < 0 || at >= children.len() {
        Ok(StatementWalk { tokens: Seq::empty(), leading: Seq::empty(), next_indent: indent })
    } else {
        match statement_item(children[at], indent) {
            Ok(here) => statement_after(here, statement_walk(children, at + 1, here.next_indent)),
            Err(error) => Err(error),
        }
    }
}

/// The text of a statement at an indent level, and the indent level for
/// the statement after it. The tokens are written at the level that the
/// statement starts at.
pub open spec fn statement_output(statement: FragmentView, indent: nat) -> Result<
    (Seq<char>, nat),
    FormatError,
> {
    match statement_walk(statement.children, 0, indent) {
        Ok(walk) => Ok((walk.leading + rendered(walk.tokens, indent), walk.next_indent)),
        Err(error) => Err(error),
    }
}

/// Nothing put in front of an outcome leaves it as it is.
pub proof fn lemma_statement_after_nothing(later: Result<StatementWalk, FormatError>)
    ensures
        statement_after(
            StatementWalk { tokens: Seq::empty(), leading: Seq::empty(), next_indent: 0 },
            later,
        ) == later,
{
    if let Ok(walk) = later {
        assert(Seq::<RenderToken>::empty() + walk.tokens =~= walk.tokens);
        assert(Seq::<char>::empty() + walk.leading =~= walk.leading);
    }
}

/// Putting two walks in front of an outcome one after the other is
/// putting their tokens and line feeds in front at once.
pub proof fn lemma_statement_after_after(
    first: StatementWalk,
    second: StatementWalk,
    later: Result<StatementWalk, FormatError>,
)
    ensures
        statement_after(first, statement_after(second, later)) == statement_after(
            StatementWalk {
                tokens: first.tokens + second.tokens,
                leading: first.leading + second.leading,
                next_indent: second.next_indent,
            },
            later,
        ),
{
    if let Ok(walk) = later {
        assert(first.tokens + (second.tokens + walk.tokens) =~= (first.tokens + second.tokens)
            + walk.tokens);
        assert(first.leading + (second.leading + walk.leading) =~= (first.leading
            + second.leading) + walk.leading);
    }
}

/// True if `result` and the state after a step are what `expected` says.
/// Of the state after a step that failed it says nothing.
pub open spec fn statement_matches(
    result: Result<Vec<PrintInfo>, FormatError>,
    leading_before: Seq<char>,
    leading_after: Seq<char>,
    indent_after: usize,
    expected: Result<StatementWalk, FormatError>,
) -> bool {
    match expected {
        Ok(walk) => tokens_outcome(result) == Ok::<_, FormatError>(walk.tokens) && leading_after
            == leading_before + walk.leading && indent_after == walk.next_indent,
        Err(error) => result == Err::<Vec<PrintInfo>, _>(error),
    }
}

/// Formats one fragment of a statement.
fn format_statement_item(
    child: &Fragment,
    next_indent: &mut usize,
    leading: &mut String,
) -> (result: Result<Vec<PrintInfo>, FormatError>)
    ensures
        statement_matches(
            result,
            old(leading)@,
            final(leading)@,
            *final(next_indent),
            statement_item(child@, *old(next_indent) as nat),
        ),
    decreases child, 2nat,
{
    proof {
        lemma_fragment_view(child);
        assert(leading@ + Seq::<char>::empty() =~= leading@);
    }
    match child.kind {
        FragmentKind::LoopLabel => Ok(single_token(child.text.clone(), SpaceType::NoSpaceBefore)),
        FragmentKind::Keyword => Ok(
            single_token(normalize_keyword(child.text.as_str()), SpaceType::Normal),
        ),
        FragmentKind::ConditionalExpression => format_conditional_expression(child),
        FragmentKind::Expression => format_expression(child, false),
        FragmentKind::BlockBegin => {
            if *next_indent == usize::MAX {
                return Err(FormatError::Overflow);
            }
            *next_indent += 1;
            Ok(single_token(child.text.clone(), SpaceType::NoSpaceBefore))
        },
        FragmentKind::BlockEnd => {
            if *next_indent > 0 {
                *next_indent -= 1;
            }
            Ok(single_token(normalize_keyword(child.text.as_str()), SpaceType::StatementEnd))
        },
        FragmentKind::DefineTempTable => format_temp_table(child),
        FragmentKind::AssignStatement => format_assign(child),
        FragmentKind::Whitespace => Ok(whitespace_list(child)),
        FragmentKind::Newline => {
            proof {
                reveal_strlit("\n");
                assert("\n"@ =~= seq!['\n']);
            }
            leading.append("\n");
            let nothing = Vec::new();
            assert(tokens_view(nothing@) =~= Seq::empty());
            Ok(nothing)
        },
        FragmentKind::StatementEnd => Ok(
            single_token(normalize_keyword(child.text.as_str()), SpaceType::StatementEnd),
        ),
        FragmentKind::Datatype => format_datatype(child),
        FragmentKind::Statement => build_print_list(child, next_indent, leading),
        _ => Err(FormatError::StructuralMismatch),
    }
}

/// Builds the token list of a statement. The line feeds that the statement
/// holds between its fragments are added to `leading`, and `next_indent`
/// follows the blocks that open and close.
pub fn build_print_list(statement: &Fragment, next_indent: &mut usize, leading: &mut String) -> (result:
    Result<Vec<PrintInfo>, FormatError>)
    ensures
        statement_matches(
            result,
            old(leading)@,
            final(leading)@,
            *final(next_indent),
            statement_walk(statement@.children, 0, *old(next_indent) as nat),
        ),
    decreases statement, 1nat,
{
    let mut print_list = Vec::new();
    let ghost children = statement@.children;
    let ghost start_indent = *next_indent as nat;
    let ghost start_leading = leading@;
    proof {
        lemma_fragment_view(statement);
        assert(tokens_view(print_list@) =~= Seq::empty());
        assert(Seq::<RenderToken>::empty() + Seq::<RenderToken>::empty() =~= Seq::<
            RenderToken,
        >::empty());
        assert(start_leading =~= start_leading + Seq::<char>::empty());
        lemma_statement_after_nothing(statement_walk(children, 0, start_indent));
    }
    let ghost mut added: Seq<char> = Seq::empty();
    let mut at: usize = 0;
    while at < statement.children.len()
        invariant
            at <= statement.children.len(),
            children == statement@.children,
            children.len() == statement.children.len(),
            forall|i: int|
                0 <= i < children.len() ==> #[trigger] children[i] == statement.children@[i]@,
            start_indent == *old(next_indent),
            start_leading == old(leading)@,
            leading@ == start_leading + added,
            statement_walk(children, 0, start_indent) == statement_after(
                StatementWalk { tokens: tokens_view(print_list@), leading: added, next_indent: 0 },
                statement_walk(children, at as int, *next_indent as nat),
            ),
        decreases statement.children.len() - at,
    {
        let ghost before = StatementWalk {
            tokens: tokens_view(print_list@),
            leading: added,
            next_indent: 0,
        };
        let ghost item = statement_item(children[at as int], *next_indent as nat);
        match format_statement_item(&statement.children[at], next_indent, leading) {
            Ok(tokens) => append_tokens(&mut print_list, tokens),
            Err(error) => {
                return Err(error);
            },
        }
        proof {
            let here = item->Ok_0;
            lemma_statement_after_after(
                before,
                here,
                statement_walk(children, at + 1, here.next_indent),
            );
            assert(start_leading + (added + here.leading) =~= (start_leading + added)
                + here.leading);
            added = added + here.leading;
        }
        at += 1;
    }
    Ok(print_list)
}

/// Formats one statement at `indent_level`: its text, and the indent level
/// for the statement after it.
pub fn format_statement(statement: &Fragment, indent_level: usize) -> (result: Result<
    (String, usize),
    FormatError,
>)
    ensures
        match result {
            Ok((text, next_indent)) => statement_output(statement@, indent_level as nat) == Ok::<
                _,
                FormatError,
            >((text@, next_indent as nat)),
            Err(error) => statement_output(statement@, indent_level as nat) == Err::<
                (Seq<char>, nat),
                _,
            >(error),
        },
{
    let mut next_indent = indent_level;
    let mut output = String::new();
    let print_list = match build_print_list(statement, &mut next_indent, &mut output) {
        Ok(tokens) => tokens,
        Err(error) => {
            return Err(error);
        },
    };
    proof {
        let walk = statement_walk(statement@.children, 0, indent_level as nat)->Ok_0;
        assert(output@ =~= walk.leading);
    }
    let words = render_tokens(&print_list, indent_level);
    output.append(words.as_str());
    Ok((output, next_indent))
}

} // verus!
