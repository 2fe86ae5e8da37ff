//! Lookahead over the fragments of an expression. The layout of a
//! parenthesis or an operator depends on the significant fragment that
//! follows it, and the mode of an expression on its first three.

use crate::fragment::{lemma_fragment_view, Fragment, FragmentKind, FragmentView};
use crate::text::contains_newline;
use vstd::prelude::*;

verus! {

/// What a fragment shows to a lookahead that skips white space and
/// comments: nothing if it is one of those, the kind of its first fragment
/// if it is a nested expression, and its own kind otherwise.
pub open spec fn peeked_kind(fragment: FragmentView) -> Option<FragmentKind> {
    match fragment.kind {
        FragmentKind::Whitespace | FragmentKind::Comment => None,
        FragmentKind::Expression => if fragment.children.len() > 0 {
            Some(fragment.children[0].kind)
        } else {
            None
        },
        kind => Some(kind),
    }
}

/// The kind of the first significant fragment at or after position `at`.
pub open spec fn next_significant(children: Seq<FragmentView>, at: int) -> Option<FragmentKind>
    decreases children.len() - at,
{
    if at < 0 || at >= children.len() {
        None
    } else {
        match peeked_kind(children[at]) {
            Some(kind) => Some(kind),
            None => next_significant(children, at + 1),
        }
    }
}

/// True if the first significant fragment at or after `at` opens a
/// parenthesis.
pub open spec fn opens_next(children: Seq<FragmentView>, at: int) -> bool {
    next_significant(children, at) == Some(FragmentKind::LeftParenthesis)
}

/// What a fragment shows to the lookahead that picks the mode. It differs
/// from [`peeked_kind`] in one point: white space that holds a line feed is
/// seen.
pub open spec fn opening_kind(fragment: FragmentView) -> Option<FragmentKind> {
    match fragment.kind {
        FragmentKind::Comment => None,
        FragmentKind::Whitespace => if fragment.text.contains('\n') {
            Some(FragmentKind::Whitespace)
        } else {
            None
        },
        FragmentKind::Expression => if fragment.children.len() > 0 {
            Some(fragment.children[0].kind)
        } else {
            None
        },
        kind => Some(kind),
    }
}

/// The first `wanted` kinds that the fragments from `at` on show to the
/// lookahead that picks the mode, or all of them if they are fewer.
pub open spec fn opening_kinds(children: Seq<FragmentView>, at: int, wanted: nat) -> Seq<
    FragmentKind,
>
    decreases children.len() - at,
{
    if wanted == 0 || at < 0 || at >= children.len() {
        Seq::empty()
    } else {
        match opening_kind(children[at]) {
            Some(kind) => seq![kind] + opening_kinds(children, at + 1, (wanted - 1) as nat),
            None => opening_kinds(children, at + 1, wanted),
        }
    }
}

/// True if the expression opens with a parenthesis, a line break and a
/// second parenthesis.
pub open spec fn opens_stacked(expression: FragmentView) -> bool {
    opening_kinds(expression.children, 0, 3) == seq![
        FragmentKind::LeftParenthesis,
        FragmentKind::Whitespace,
        FragmentKind::LeftParenthesis,
    ]
}

/// True if the expression opens with a parenthesis, a line break and a
/// second parenthesis.
pub fn opens_with_stacked_parentheses(expression: &Fragment) -> (stacked: bool)
    ensures
        stacked == opens_stacked(expression@),
{
    let mut kinds: Vec<FragmentKind> = Vec::new();
    let ghost children = expression@.children;
    proof {
        lemma_fragment_view(expression);
        assert(kinds@ + opening_kinds(children, 0, 3) =~= opening_kinds(children, 0, 3));
    }
    let mut at: usize = 0;
    while at < expression.children.len() && kinds.len() < 3
        invariant
            at <= expression.children.len(),
            kinds.len() <= 3,
            children == expression@.children,
            children.len() == expression.children.len(),
            forall|i: int|
                0 <= i < children.len() ==> #[trigger] children[i] == expression.children@[i]@,
            opening_kinds(children, 0, 3) == kinds@ + opening_kinds(
                children,
                at as int,
                (3 - kinds.len()) as nat,
            ),
        decreases expression.children.len() - at,
    {
        let child = &expression.children[at];
        let ghost found = kinds@;
        let ghost wanted = (3 - kinds.len()) as nat;
        proof {
            lemma_fragment_view(child);
        }
        match child.kind {
            FragmentKind::Comment => {},
            FragmentKind::Whitespace => {
                if contains_newline(child.text.as_str()) {
                    kinds.push(FragmentKind::Whitespace);
                }
            },
            FragmentKind::Expression => {
                if child.children.len() > 0 {
                    proof {
                        lemma_fragment_view(&child.children[0]);
                    }
                    kinds.push(child.children[0].kind);
                }
            },
            kind => {
                kinds.push(kind);
            },
        }
        proof {
            match opening_kind(children[at as int]) {
                Some(kind) => {
                    assert(found + (seq![kind] + opening_kinds(
                        children,
                        at + 1,
                        (wanted - 1) as nat,
                    )) =~= found.push(kind) + opening_kinds(
                        children,
                        at + 1,
                        (wanted - 1) as nat,
                    ));
                },
                None => {},
            }
        }
        at += 1;
    }
    let stacked = kinds.len() == 3 && kinds[0] == FragmentKind::LeftParenthesis && kinds[1]
        == FragmentKind::Whitespace && kinds[2] == FragmentKind::LeftParenthesis;
    proof {
        let pattern = seq![
            FragmentKind::LeftParenthesis,
            FragmentKind::Whitespace,
            FragmentKind::LeftParenthesis,
        ];
        assert(opening_kinds(children, 0, 3) =~= kinds@);
        assert(pattern.len() == 3 && pattern[0] == FragmentKind::LeftParenthesis && pattern[1]
            == FragmentKind::Whitespace && pattern[2] == FragmentKind::LeftParenthesis);
        if stacked {
            assert(kinds@ =~= pattern);
        }
    }
    stacked
}

/// True if the first significant fragment of `parent` at or after position
/// `from` opens a parenthesis.
pub fn next_is_left_parenthesis(parent: &Fragment, from: usize) -> (opens: bool)
    requires
        from <= parent.children.len(),
    ensures
        opens == opens_next(parent@.children, from as int),
{
    let ghost children = parent@.children;
    proof {
        lemma_fragment_view(parent);
    }
    let mut at: usize = from;
    while at < parent.children.len()
        invariant
            from <= at <= parent.children.len(),
            children == parent@.children,
            children.len() == parent.children.len(),
            forall|i: int|
                0 <= i < children.len() ==> #[trigger] children[i] == parent.children@[i]@,
            next_significant(children, from as int) == next_significant(children, at as int),
        decreases parent.children.len() - at,
    {
        let child = &parent.children[at];
        proof {
            lemma_fragment_view(child);
        }
        match child.kind {
            FragmentKind::Whitespace | FragmentKind::Comment => {},
            FragmentKind::Expression => {
                if child.children.len() > 0 {
                    proof {
                        lemma_fragment_view(&child.children[0]);
                    }
                    return child.children[0].kind == FragmentKind::LeftParenthesis;
                }
            },
            kind => {
                return kind == FragmentKind::LeftParenthesis;
            },
        }
        at += 1;
    }
    false
}

} // verus!
