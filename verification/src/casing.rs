//! Case: keywords come out uppercased, identifiers come out as they were
//! written.

use crate::expression::{expression_item, walk_expression, BracketFormatting};
use crate::fragment::{FragmentKind, FragmentView};
use crate::lookahead::opens_next;
use crate::outside::uppercased;
use crate::statement::{statement_item, statement_walk};
use crate::text::{ascii_upper, ascii_uppercased};
use crate::token::normal;
use vstd::prelude::*;

verus! {

/// The kinds that an expression writes in uppercase.
pub open spec fn is_uppercased_kind(kind: FragmentKind) -> bool {
    kind == FragmentKind::Keyword || kind == FragmentKind::NotKeyword || kind
        == FragmentKind::Logical || kind == FragmentKind::Properties || kind
        == FragmentKind::TemptableKeyword
}

/// In the tokens of a walk that succeeds, each keyword fragment among the
/// fragments walked stands as a token with its text uppercased, and each
/// identifier as a token with its text unchanged.
pub proof fn expression_keeps_identifiers_and_uppercases_keywords(
    children: Seq<FragmentView>,
    at: int,
    conditional: bool,
    mode: BracketFormatting,
    unclosed: nat,
    position: int,
)
    requires
        0 <= at <= position < children.len(),
        walk_expression(children, at, conditional, mode, unclosed) is Ok,
    ensures
        is_uppercased_kind(children[position].kind) ==> walk_expression(
            children,
            at,
            conditional,
            mode,
            unclosed,
        )->Ok_0.tokens.contains(normal(uppercased(children[position].text))),
        children[position].kind == FragmentKind::Variable ==> walk_expression(
            children,
            at,
            conditional,
            mode,
            unclosed,
        )->Ok_0.tokens.contains(normal(children[position].text)),
    decreases position - at,
{
    let tokens = walk_expression(children, at, conditional, mode, unclosed)->Ok_0.tokens;
    let here = expression_item(
        children[at],
        opens_next(children, at + 1),
        conditional,
        mode,
        unclosed,
    )->Ok_0;
    let rest = walk_expression(children, at + 1, conditional, here.mode, here.unclosed)->Ok_0;
    assert(tokens == here.tokens + rest.tokens);
    if at == position {
        if is_uppercased_kind(children[position].kind) || children[position].kind
            == FragmentKind::Variable {
            assert(tokens[0] == here.tokens[0]);
        }
    } else {
        expression_keeps_identifiers_and_uppercases_keywords(
            children,
            at + 1,
            conditional,
            here.mode,
            here.unclosed,
            position,
        );
        assert forall|token: crate::token::RenderToken| rest.tokens.contains(token) implies tokens.contains(
            token,
        ) by {
            let i = choose|i: int| 0 <= i < rest.tokens.len() && rest.tokens[i] == token;
            assert(tokens[here.tokens.len() + i] == token);
        }
    }
}

/// In the tokens of a statement that is formatted, each keyword fragment
/// of the statement stands as a token with its text uppercased.
pub proof fn statement_uppercases_keywords(
    children: Seq<FragmentView>,
    at: int,
    indent: nat,
    position: int,
)
    requires
        0 <= at <= position < children.len(),
        children[position].kind == FragmentKind::Keyword,
        statement_walk(children, at, indent) is Ok,
    ensures
        statement_walk(children, at, indent)->Ok_0.tokens.contains(
            normal(uppercased(children[position].text)),
        ),
    decreases position - at,
{
    let tokens = statement_walk(children, at, indent)->Ok_0.tokens;
    let here = statement_item(children[at], indent)->Ok_0;
    let rest = statement_walk(children, at + 1, here.next_indent)->Ok_0;
    assert(tokens == here.tokens + rest.tokens);
    if at == position {
        assert(tokens[0] == here.tokens[0]);
    } else {
        statement_uppercases_keywords(children, at + 1, here.next_indent, position);
        let wanted = normal(uppercased(children[position].text));
        let i = choose|i: int| 0 <= i < rest.tokens.len() && rest.tokens[i] == wanted;
        assert(tokens[here.tokens.len() + i] == wanted);
    }
}

/// On ASCII text, uppercasing gives the same result for two spellings that
/// differ in case only, and uppercasing again changes nothing.
pub proof fn ascii_uppercase_ignores_case(left: Seq<char>, right: Seq<char>)
    requires
        left.len() == right.len(),
        forall|i: int| 0 <= i < left.len() ==> ascii_upper(left[i]) == ascii_upper(right[i]),
    ensures
        ascii_uppercased(left) == ascii_uppercased(right),
        ascii_uppercased(ascii_uppercased(left)) == ascii_uppercased(left),
{
    assert(ascii_uppercased(left) =~= ascii_uppercased(right));
    assert forall|i: int| 0 <= i < left.len() implies ascii_upper(ascii_upper(left[i]))
        == ascii_upper(left[i]) by {
        let c = left[i];
        if 'a' <= c <= 'z' {
            assert(ascii_upper(c) == ((c as u32) - 32) as char);
        }
    }
    assert(ascii_uppercased(ascii_uppercased(left)) =~= ascii_uppercased(left));
}

} // verus!
