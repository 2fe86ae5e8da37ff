//! Function calls and function declarations.

use crate::error::FormatError;
use crate::expression::{expression_tokens, format_expression};
use crate::fragment::{lemma_fragment_view, Fragment, FragmentKind, FragmentView};
use crate::normalize::normalize_keyword;
use crate::outside::uppercased;
use crate::token::{
    after, append_tokens, followed_by, lemma_after_after, lemma_after_nothing, normal, push_token,
    tokens_outcome, tokens_view, PrintInfo, RenderToken, SpaceType,
};
use crate::trivia::{comment_list, comment_tokens, whitespace_list, whitespace_tokens};
use vstd::prelude::*;

verus! {

/// What one fragment between the parentheses of a function adds to the
/// tokens.
pub open spec fn function_content_item(child: FragmentView) -> Result<
    Seq<RenderToken>,
    FormatError,
>
    decreases child.children, child.children.len() + 2,
{
    match child.kind {
        FragmentKind::Keyword => Ok(seq![normal(uppercased(child.text))]),
        FragmentKind::Variable => Ok(seq![normal(child.text)]),
        FragmentKind::Comma => Ok(
            seq![RenderToken { text: child.text, spacing: SpaceType::NoSpaceBefore }],
        ),
        FragmentKind::Expression => expression_tokens(child, false),
        FragmentKind::Whitespace => Ok(whitespace_tokens(child)),
        FragmentKind::Comment => comment_tokens(child.text),
        _ => Err(FormatError::StructuralMismatch),
    }
}

/// The tokens of what stands between the parentheses of a function, from
/// `at` on.
pub open spec fn function_content_tokens(children: Seq<FragmentView>, at: int) -> Result<
    Seq<RenderToken>,
    FormatError,
>
    decreases children, children.len() - at,
{
    if at < 0 || at >= children.len() {
        Ok(Seq::empty())
    } else {
        followed_by(function_content_item(children[at]), function_content_tokens(children, at + 1))
    }
}

/// What one fragment of a function call adds to its tokens.
pub open spec fn function_item(child: FragmentView) -> Result<Seq<RenderToken>, FormatError>
    decreases child.children, child.children.len() + 1,
{
    match child.kind {
        FragmentKind::Keyword => Ok(seq![normal(uppercased(child.text))]),
        FragmentKind::Variable => Ok(seq![normal(child.text)]),
        FragmentKind::LeftParenthesis | FragmentKind::RightParenthesis => Ok(
            seq![RenderToken { text: child.text, spacing: SpaceType::NoSpaceBefore }],
        ),
        FragmentKind::FunctionContent => function_content_tokens(child.children, 0),
        _ => Err(FormatError::StructuralMismatch),
    }
}

/// The tokens of the fragments of a function call from `at` on.
pub open spec fn function_tokens(children: Seq<FragmentView>, at: int) -> Result<
    Seq<RenderToken>,
    FormatError,
>
    decreases children, children.len() - at,
{
    if at < 0 || at >= children.len() {
        Ok(Seq::empty())
    } else {
        followed_by(function_item(children[at]), function_tokens(children, at + 1))
    }
}

/// What one fragment of a function declaration adds to its tokens.
pub open spec fn function_declaration_item(child: FragmentView) -> Result<
    Seq<RenderToken>,
    FormatError,
> {
    match child.kind {
        FragmentKind::Keyword | FragmentKind::FunctionKeyword | FragmentKind::ForwardMarker => Ok(
            seq![normal(uppercased(child.text))],
        ),
        FragmentKind::Variable => Ok(seq![normal(child.text)]),
        FragmentKind::FunctionContent => function_content_tokens(child.children, 0),
        FragmentKind::Whitespace => Ok(whitespace_tokens(child)),
        FragmentKind::LeftParenthesis | FragmentKind::RightParenthesis => Ok(
            seq![RenderToken { text: child.text, spacing: SpaceType::NoSpaceBefore }],
        ),
        FragmentKind::Comment => comment_tokens(child.text),
        _ => Err(FormatError::StructuralMismatch),
    }
}

/// The tokens of the fragments of a function declaration from `at` on.
pub open spec fn function_declaration_tokens(children: Seq<FragmentView>, at: int) -> Result<
    Seq<RenderToken>,
    FormatError,
>
    decreases children.len() - at,
{
    if at < 0 || at >= children.len() {
        Ok(Seq::empty())
    } else {
        followed_by(
            function_declaration_item(children[at]),
            function_declaration_tokens(children, at + 1),
        )
    }
}

/// Formats a function call: the name, and the arguments between
/// parentheses that stay close to it.
pub fn format_function(function: &Fragment) -> (result: Result<Vec<PrintInfo>, FormatError>)
    ensures
        tokens_outcome(result) == function_tokens(function@.children, 0),
    decreases function, 0nat,
{
    let mut print_list = Vec::new();
    let ghost children = function@.children;
    proof {
        lemma_fragment_view(function);
        lemma_after_nothing(function_tokens(children, 0));
    }
    let mut at: usize = 0;
    while at < function.children.len()
        invariant
            at <= function.children.len(),
            children == function@.children,
            children.len() == function.children.len(),
            forall|i: int|
                0 <= i < children.len() ==> #[trigger] children[i] == function.children@[i]@,
            function_tokens(children, 0) == after(
                tokens_view(print_list@),
                function_tokens(children, at as int),
            ),
        decreases function.children.len() - at,
    {
        let child = &function.children[at];
        let ghost before = tokens_view(print_list@);
        let ghost rest = function_tokens(children, at + 1);
        proof {
            lemma_fragment_view(child);
        }
        match child.kind {
            FragmentKind::Keyword => push_token(
                &mut print_list,
                normalize_keyword(child.text.as_str()),
                SpaceType::Normal,
            ),
            FragmentKind::Variable => push_token(
                &mut print_list,
                child.text.clone(),
                SpaceType::Normal,
            ),
            FragmentKind::LeftParenthesis | FragmentKind::RightParenthesis => push_token(
                &mut print_list,
                child.text.clone(),
                SpaceType::NoSpaceBefore,
            ),
            FragmentKind::FunctionContent => match format_function_content(child) {
                Ok(tokens) => append_tokens(&mut print_list, tokens),
                Err(error) => {
                    return Err(error);
                },
            },
            _ => {
                return Err(FormatError::StructuralMismatch);
            },
        }
        proof {
            let here = function_item(children[at as int])->Ok_0;
            assert(tokens_view(print_list@) =~= before + here);
            lemma_after_after(before, here, rest);
        }
        at += 1;
    }
    Ok(print_list)
}

/// Formats the declaration of a function.
pub fn format_function_declaration(declaration: &Fragment) -> (result: Result<
    Vec<PrintInfo>,
    FormatError,
>)
    ensures
        tokens_outcome(result) == function_declaration_tokens(declaration@.children, 0),
{
    let mut print_list = Vec::new();
    let ghost children = declaration@.children;
    proof {
        lemma_fragment_view(declaration);
        lemma_after_nothing(function_declaration_tokens(children, 0));
    }
    let mut at: usize = 0;
    while at < declaration.children.len()
        invariant
            at <= declaration.children.len(),
            children == declaration@.children,
            children.len() == declaration.children.len(),
            forall|i: int|
                0 <= i < children.len() ==> #[trigger] children[i] == declaration.children@[i]@,
            function_declaration_tokens(children, 0) == after(
                tokens_view(print_list@),
                function_declaration_tokens(children, at as int),
            ),
        decreases declaration.children.len() - at,
    {
        let child = &declaration.children[at];
        let ghost before = tokens_view(print_list@);
        let ghost rest = function_declaration_tokens(children, at + 1);
        proof {
            lemma_fragment_view(child);
        }
        match child.kind {
            FragmentKind::Keyword
            | FragmentKind::FunctionKeyword
            | FragmentKind::ForwardMarker => push_token(
                &mut print_list,
                normalize_keyword(child.text.as_str()),
                SpaceType::Normal,
            ),
            FragmentKind::Variable => push_token(
                &mut print_list,
                child.text.clone(),
                SpaceType::Normal,
            ),
            FragmentKind::FunctionContent => match format_function_content(child) {
                Ok(tokens) => append_tokens(&mut print_list, tokens),
                Err(error) => {
                    return Err(error);
                },
            },
            FragmentKind::Whitespace => append_tokens(&mut print_list, whitespace_list(child)),
            FragmentKind::LeftParenthesis | FragmentKind::RightParenthesis => push_token(
                &mut print_list,
                child.text.clone(),
                SpaceType::NoSpaceBefore,
            ),
            FragmentKind::Comment => match comment_list(child) {
                Ok(tokens) => append_tokens(&mut print_list, tokens),
                Err(error) => {
                    return Err(error);
                },
            },
            _ => {
                return Err(FormatError::StructuralMismatch);
            },
        }
        proof {
            let here = function_declaration_item(children[at as int])->Ok_0;
            assert(tokens_view(print_list@) =~= before + here);
            lemma_after_after(before, here, rest);
        }
        at += 1;
    }
    Ok(print_list)
}

/// Formats what stands between the parentheses of a function.
pub fn format_function_content(function_content: &Fragment) -> (result: Result<
    Vec<PrintInfo>,
    FormatError,
>)
    ensures
        tokens_outcome(result) == function_content_tokens(function_content@.children, 0),
    decreases function_content, 0nat,
{
    let mut print_list = Vec::new();
    let ghost children = function_content@.children;
    proof {
        lemma_fragment_view(function_content);
        lemma_after_nothing(function_content_tokens(children, 0));
    }
    let mut at: usize = 0;
    while at < function_content.children.len()
        invariant
            at <= function_content.children.len(),
            children == function_content@.children,
            children.len() == function_content.children.len(),
            forall|i: int|
                0 <= i < children.len() ==> #[trigger] children[i]
                    == function_content.children@[i]@,
            function_content_tokens(children, 0) == after(
                tokens_view(print_list@),
                function_content_tokens(children, at as int),
            ),
        decreases function_content.children.len() - at,
    {
        let child = &function_content.children[at];
        let ghost before = tokens_view(print_list@);
        let ghost rest = function_content_tokens(children, at + 1);
        proof {
            lemma_fragment_view(child);
        }
        match child.kind {
            FragmentKind::Keyword => push_token(
                &mut print_list,
                normalize_keyword(child.text.as_str()),
                SpaceType::Normal,
            ),
            FragmentKind::Variable => push_token(
                &mut print_list,
                child.text.clone(),
                SpaceType::Normal,
            ),
            FragmentKind::Comma => push_token(
                &mut print_list,
                child.text.clone(),
                SpaceType::NoSpaceBefore,
            ),
            FragmentKind::Expression => match format_expression(child, false) {
                Ok(tokens) => append_tokens(&mut print_list, tokens),
                Err(error) => {
                    return Err(error);
                },
            },
            FragmentKind::Whitespace => append_tokens(&mut print_list, whitespace_list(child)),
            FragmentKind::Comment => match comment_list(child) {
                Ok(tokens) => append_tokens(&mut print_list, tokens),
                Err(error) => {
                    return Err(error);
                },
            },
            _ => {
                return Err(FormatError::StructuralMismatch);
            },
        }
        proof {
            let here = function_content_item(children[at as int])->Ok_0;
            assert(tokens_view(print_list@) =~= before + here);
            lemma_after_after(before, here, rest);
        }
        at += 1;
    }
    Ok(print_list)
}

} // verus!
