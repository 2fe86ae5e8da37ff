//! The rendering pass: one sweep over a token list that writes each token
//! with the spaces, line breaks and indentation that its spacing directive
//! and those of its two neighbours call for.

use crate::text::{get_tabs, tabs, trim, trimmed};
use crate::token::{tokens_view, PrintInfo, RenderToken, SpaceType};
use vstd::prelude::*;

verus! {

/// True if no space is written between a token with this directive and the
/// token after it.
pub open spec fn suppresses_space(spacing: SpaceType) -> bool {
    spacing == SpaceType::NoRightPad || spacing == SpaceType::ExtraIndent
}

/// The indentation written after a line break, chosen by the directive of
/// the token that follows: none before another line break, the current
/// level before a statement end, two levels more before an extra indent
/// and one level more before anything else or at the end of the list.
pub open spec fn break_indent(next: Option<SpaceType>, indent: nat) -> Seq<char> {
    match next {
        Some(SpaceType::LineBreak) => Seq::empty(),
        Some(SpaceType::StatementEnd) => tabs(indent),
        Some(SpaceType::ExtraIndent) => tabs(indent + 2),
        _ => tabs(indent + 1),
    }
}

/// The directive of the token after position `at`, if there is one.
pub open spec fn spacing_after(tokens: Seq<RenderToken>, at: int) -> Option<SpaceType> {
    if at + 1 < tokens.len() {
        Some(tokens[at + 1].spacing)
    } else {
        None
    }
}

/// What the pass writes for the token at position `at`.
pub open spec fn rendered_token(tokens: Seq<RenderToken>, at: int, indent: nat) -> Seq<char>
    recommends
        0 <= at < tokens.len(),
{
    let text = trimmed(tokens[at].text);
    if tokens[at].spacing == SpaceType::StatementEnd {
        let closing = if indent == 0 {
            text
        } else {
            tabs((indent - 1) as nat) + text
        };
        if at == tokens.len() - 1 {
            closing.push(' ')
        } else {
            closing
        }
    } else if at == 0 {
        tabs(indent) + text
    } else {
        match tokens[at].spacing {
            SpaceType::TabAlignRight => text.push('\t'),
            SpaceType::NoSpaceBefore => text,
            SpaceType::LineBreak => seq!['\n'] + break_indent(spacing_after(tokens, at), indent),
            _ => if suppresses_space(tokens[at - 1].spacing) {
                text
            } else {
                seq![' '] + text
            },
        }
    }
}

/// What the pass writes for the first `count` tokens.
pub open spec fn rendered_prefix(tokens: Seq<RenderToken>, count: nat, indent: nat) -> Seq<char>
    decreases count,
{
    if count == 0 {
        Seq::empty()
    } else {
        rendered_prefix(tokens, (count - 1) as nat, indent) + rendered_token(
            tokens,
            count - 1,
            indent,
        )
    }
}

/// The text of a token list at an indent level.
pub open spec fn rendered(tokens: Seq<RenderToken>, indent: nat) -> Seq<char> {
    rendered_prefix(tokens, tokens.len(), indent)
}

/// Writes out the token at position `at` of `tokens`.
fn render_token(tokens: &Vec<PrintInfo>, at: usize, indent_level: usize) -> (piece: String)
    requires
        at < tokens.len(),
    ensures
        piece@ == rendered_token(tokens_view(tokens@), at as int, indent_level as nat),
{
    let ghost list = tokens_view(tokens@);
    let ghost indent = indent_level as nat;
    assert(list[at as int] == tokens[at as int]@);
    let token = &tokens[at];
    let text = trim(token.line.as_str());
    let mut piece = String::new();
    proof {
        reveal_strlit(" ");
        reveal_strlit("\t");
        reveal_strlit("\n");
        assert(" "@ =~= seq![' ']);
        assert("\t"@ =~= seq!['\t']);
        assert("\n"@ =~= seq!['\n']);
    }
    match token.spacing_attribute {
        SpaceType::StatementEnd => {
            if indent_level > 0 {
                piece = get_tabs(indent_level - 1);
            }
            piece.append(text);
            if at == tokens.len() - 1 {
                piece.append(" ");
            }
            assert(piece@ =~= rendered_token(list, at as int, indent));
        },
        spacing => {
            if at == 0 {
                piece = get_tabs(indent_level);
                piece.append(text);
                assert(piece@ =~= rendered_token(list, at as int, indent));
            } else {
                match spacing {
                    SpaceType::TabAlignRight => {
                        piece.append(text);
                        piece.append("\t");
                        assert(piece@ =~= rendered_token(list, at as int, indent));
                    },
                    SpaceType::NoSpaceBefore => {
                        piece.append(text);
                        assert(piece@ =~= rendered_token(list, at as int, indent));
                    },
                    SpaceType::LineBreak => {
                        piece.append("\n");
                        let mut levels: u8 = 1;
                        let mut indented = true;
                        if at + 1 < tokens.len() {
                            assert(list[at + 1] == tokens[at + 1]@);
                            match tokens[at + 1].spacing_attribute {
                                SpaceType::LineBreak => {
                                    indented = false;
                                },
                                SpaceType::StatementEnd => {
                                    levels = 0;
                                },
                                SpaceType::ExtraIndent => {
                                    levels = 2;
                                },
                                _ => {},
                            }
                        }
                        if indented {
                            let base = get_tabs(indent_level);
                            piece.append(base.as_str());
                            if levels >= 1 {
                                piece.append("\t");
                            }
                            if levels >= 2 {
                                piece.append("\t");
                            }
                            assert(tabs(indent) + seq!['\t'] =~= tabs(indent + 1));
                            assert(tabs(indent) + seq!['\t'] + seq!['\t'] =~= tabs(indent + 2));
                        }
                        assert(piece@ =~= rendered_token(list, at as int, indent));
                    },
                    _ => {
                        assert(list[at - 1] == tokens[at - 1]@);
                        let before = tokens[at - 1].spacing_attribute;
                        if !(before == SpaceType::NoRightPad || before == SpaceType::ExtraIndent) {
                            piece.append(" ");
                        }
                        piece.append(text);
                        assert(piece@ =~= rendered_token(list, at as int, indent));
                    },
                }
            }
        },
    }
    piece
}

/// The rendering pass: writes out `tokens` at `indent_level`.
pub fn render_tokens(tokens: &Vec<PrintInfo>, indent_level: usize) -> (output: String)
    ensures
        output@ == rendered(tokens_view(tokens@), indent_level as nat),
{
    let mut output = String::new();
    let mut at: usize = 0;
    while at < tokens.len()
        invariant
            at <= tokens.len(),
            tokens_view(tokens@).len() == tokens.len(),
            output@ == rendered_prefix(tokens_view(tokens@), at as nat, indent_level as nat),
        decreases tokens.len() - at,
    {
        let piece = render_token(tokens, at, indent_level);
        output.append(piece.as_str());
        at += 1;
    }
    output
}

} // verus!
