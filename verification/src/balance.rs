//! Parentheses balance: what the count of open parentheses is after a
//! walk, in terms of the parentheses that the walk met.

use crate::error::FormatError;
use crate::expression::{
    expression_item, expression_tokens, initial_mode, walk_expression, BracketFormatting,
};
use crate::fragment::{FragmentKind, FragmentView};
use crate::lookahead::opens_next;
use vstd::prelude::*;

verus! {

/// The number of opening parentheses among the fragments from `at` on,
/// those of nested expressions included.
pub open spec fn opened(children: Seq<FragmentView>, at: int) -> nat
    decreases children, children.len() - at,
{
    if at < 0 || at >= children.len() {
        0
    } else {
        (match children[at].kind {
            FragmentKind::LeftParenthesis => 1,
            FragmentKind::Expression => opened(children[at].children, 0),
            _ => 0,
        }) + opened(children, at + 1)
    }
}

/// The number of closing parentheses among the fragments from `at` on,
/// those of nested expressions included.
pub open spec fn closed(children: Seq<FragmentView>, at: int) -> nat
    decreases children, children.len() - at,
{
    if at < 0 || at >= children.len() {
        0
    } else {
        (match children[at].kind {
            FragmentKind::RightParenthesis => 1,
            FragmentKind::Expression => closed(children[at].children, 0),
            _ => 0,
        }) + closed(children, at + 1)
    }
}

/// A walk that succeeds leaves the count where it was, raised by the
/// parentheses that were opened and lowered by those that were closed. So
/// where as many were closed as opened, the count is back at its value
/// from before the walk.
pub proof fn walk_counts_parentheses(
    children: Seq<FragmentView>,
    at: int,
    conditional: bool,
    mode: BracketFormatting,
    unclosed: nat,
)
    requires
        walk_expression(children, at, conditional, mode, unclosed) is Ok,
    ensures
        walk_expression(children, at, conditional, mode, unclosed)->Ok_0.unclosed + closed(
            children,
            at,
        ) == unclosed + opened(children, at),
    decreases children, children.len() - at,
{
    if 0 <= at < children.len() {
        let child = children[at];
        let here = expression_item(
            child,
            opens_next(children, at + 1),
            conditional,
            mode,
            unclosed,
        )->Ok_0;
        if child.kind == FragmentKind::Expression {
            walk_counts_parentheses(child.children, 0, conditional, mode, unclosed);
        }
        walk_counts_parentheses(children, at + 1, conditional, here.mode, here.unclosed);
    }
}

/// An expression whose formatting succeeds closes as many parentheses as
/// it opens.
pub proof fn formatted_expression_is_balanced(expression: FragmentView, conditional: bool)
    requires
        expression_tokens(expression, conditional) is Ok,
    ensures
        opened(expression.children, 0) == closed(expression.children, 0),
{
    walk_counts_parentheses(expression.children, 0, conditional, initial_mode(expression), 0);
}

/// An expression that opens and closes different numbers of parentheses
/// fails. If the walk itself gets through, the failure is a structural
/// mismatch; else it is the error that stopped the walk.
pub proof fn unbalanced_expression_fails(expression: FragmentView, conditional: bool)
    requires
        opened(expression.children, 0) != closed(expression.children, 0),
    ensures
        match walk_expression(expression.children, 0, conditional, initial_mode(expression), 0) {
            Ok(_) => expression_tokens(expression, conditional) == Err::<
                Seq<crate::token::RenderToken>,
                _,
            >(FormatError::StructuralMismatch),
            Err(error) => expression_tokens(expression, conditional) == Err::<
                Seq<crate::token::RenderToken>,
                _,
            >(error),
        },
{
    if walk_expression(expression.children, 0, conditional, initial_mode(expression), 0) is Ok {
        walk_counts_parentheses(expression.children, 0, conditional, initial_mode(expression), 0);
    }
}

} // verus!
