//! Datatypes and the arrays in them.

use crate::error::FormatError;
use crate::fragment::{lemma_fragment_view, Fragment, FragmentKind, FragmentView};
use crate::normalize::normalize_keyword;
use crate::outside::uppercased;
use crate::token::{
    after, append_tokens, followed_by, lemma_after_after, lemma_after_nothing, normal, push_token,
    tokens_outcome, tokens_view, PrintInfo, RenderToken, SpaceType,
};
use vstd::prelude::*;

verus! {

/// What one fragment of a datatype adds to its tokens. Text in quotes keeps
/// its case; anything else that is no array is uppercased.
pub open spec fn datatype_item(child: FragmentView) -> Result<Seq<RenderToken>, FormatError>
    decreases child.children, child.children.len() + 1,
{
    match child.kind {
        FragmentKind::ArrayData => array_tokens(child.children, 0),
        FragmentKind::StringLiteral => Ok(seq![normal(child.text)]),
        _ => Ok(seq![normal(uppercased(child.text))]),
    }
}

/// The tokens of the fragments of a datatype from `at` on.
pub open spec fn datatype_tokens(children: Seq<FragmentView>, at: int) -> Result<
    Seq<RenderToken>,
    FormatError,
>
    decreases children, children.len() - at,
{
    if at < 0 || at >= children.len() {
        Ok(Seq::empty())
    } else {
        followed_by(datatype_item(children[at]), datatype_tokens(children, at + 1))
    }
}

/// What one fragment of an array adds to its tokens.
pub open spec fn array_item(child: FragmentView) -> Result<Seq<RenderToken>, FormatError>
    decreases child.children, child.children.len() + 1,
{
    match child.kind {
        FragmentKind::LeftSquareBracket
        | FragmentKind::RightSquareBracket
        | FragmentKind::Comma => Ok(
            seq![RenderToken { text: child.text, spacing: SpaceType::NoSpaceBefore }],
        ),
        FragmentKind::Variable => Ok(seq![normal(child.text)]),
        FragmentKind::Datatype => datatype_tokens(child.children, 0),
        _ => Err(FormatError::StructuralMismatch),
    }
}

/// The tokens of the fragments of an array from `at` on.
pub open spec fn array_tokens(children: Seq<FragmentView>, at: int) -> Result<
    Seq<RenderToken>,
    FormatError,
>
    decreases children, children.len() - at,
{
    if at < 0 || at >= children.len() {
        Ok(Seq::empty())
    } else {
        followed_by(array_item(children[at]), array_tokens(children, at + 1))
    }
}

/// Formats a datatype: text in quotes as it is, arrays by their parts,
/// anything else in uppercase.
pub fn format_datatype(data_type: &Fragment) -> (result: Result<Vec<PrintInfo>, FormatError>)
    ensures
        tokens_outcome(result) == datatype_tokens(data_type@.children, 0),
    decreases data_type,
{
    let mut print_list = Vec::new();
    let ghost children = data_type@.children;
    proof {
        lemma_fragment_view(data_type);
        lemma_after_nothing(datatype_tokens(children, 0));
    }
    let mut at: usize = 0;
    while at < data_type.children.len()
        invariant
            at <= data_type.children.len(),
            children == data_type@.children,
            children.len() == data_type.children.len(),
            forall|i: int|
                0 <= i < children.len() ==> #[trigger] children[i] == data_type.children@[i]@,
            datatype_tokens(children, 0) == after(
                tokens_view(print_list@),
                datatype_tokens(children, at as int),
            ),
        decreases data_type.children.len() - at,
    {
        let child = &data_type.children[at];
        let ghost before = tokens_view(print_list@);
        let ghost rest = datatype_tokens(children, at + 1);
        proof {
            lemma_fragment_view(child);
        }
        match child.kind {
            FragmentKind::ArrayData => match format_array(child) {
                Ok(tokens) => append_tokens(&mut print_list, tokens),
                Err(error) => {
                    return Err(error);
                },
            },
            FragmentKind::StringLiteral => push_token(
                &mut print_list,
                child.text.clone(),
                SpaceType::Normal,
            ),
            _ => push_token(
                &mut print_list,
                normalize_keyword(child.text.as_str()),
                SpaceType::Normal,
            ),
        }
        proof {
            let here = datatype_item(children[at as int])->Ok_0;
            assert(tokens_view(print_list@) =~= before + here);
            lemma_after_after(before, here, rest);
        }
        at += 1;
    }
    Ok(print_list)
}

/// Formats an array: brackets and commas close to what stands before
/// them.
fn format_array(array: &Fragment) -> (result: Result<Vec<PrintInfo>, FormatError>)
    ensures
        tokens_outcome(result) == array_tokens(array@.children, 0),
    decreases array,
{
    let mut print_list = Vec::new();
    let ghost children = array@.children;
    proof {
        lemma_fragment_view(array);
        lemma_after_nothing(array_tokens(children, 0));
    }
    let mut at: usize = 0;
    while at < array.children.len()
        invariant
            at <= array.children.len(),
            children == array@.children,
            children.len() == array.children.len(),
            forall|i: int| 0 <= i < children.len() ==> #[trigger] children[i] == array.children@[i]@,
            array_tokens(children, 0) == after(
                tokens_view(print_list@),
                array_tokens(children, at as int),
            ),
        decreases array.children.len() - at,
    {
        let child = &array.children[at];
        let ghost before = tokens_view(print_list@);
        let ghost rest = array_tokens(children, at + 1);
        proof {
            lemma_fragment_view(child);
        }
        match child.kind {
            FragmentKind::LeftSquareBracket
            | FragmentKind::RightSquareBracket
            | FragmentKind::Comma => push_token(
                &mut print_list,
                child.text.clone(),
                SpaceType::NoSpaceBefore,
            ),
            FragmentKind::Variable => push_token(
                &mut print_list,
                child.text.clone(),
                SpaceType::Normal,
            ),
            FragmentKind::Datatype => match format_datatype(child) {
                Ok(tokens) => append_tokens(&mut print_list, tokens),
                Err(error) => {
                    return Err(error);
                },
            },
            _ => {
                return Err(FormatError::StructuralMismatch);
            },
        }
        proof {
            let here = array_item(children[at as int])->Ok_0;
            assert(tokens_view(print_list@) =~= before + here);
            lemma_after_after(before, here, rest);
        }
        at += 1;
    }
    Ok(print_list)
}

} // verus!
