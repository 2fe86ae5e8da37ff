//! Expressions: a walk over the nested fragments of one expression that
//! produces a flat token list. The walk threads two pieces of state through
//! every nested expression: the bracket formatting mode and the number of
//! parentheses that are open.

use crate::datatype::{datatype_tokens, format_datatype};
use crate::error::FormatError;
use crate::fragment::{lemma_fragment_view, Fragment, FragmentKind, FragmentView};
use crate::function::{format_function, function_tokens};
use crate::lookahead::{
    next_is_left_parenthesis, opens_next, opens_stacked, opens_with_stacked_parentheses,
};
use crate::normalize::{format_operator, normalize_keyword, operator_mnemonic};
use crate::outside::uppercased;
use crate::text::trimmed;
use crate::token::{
    after, append_tokens, followed_by, lemma_after_after, lemma_after_nothing, line_break, normal,
    push_line_break, push_token, single_token, tokens_outcome, tokens_view, PrintInfo, RenderToken,
    SpaceType,
};
use crate::trivia::{comment_list, comment_tokens, whitespace_list, whitespace_tokens};
use vstd::prelude::*;

verus! {

/// How the parentheses of an expression are laid out.
#[derive(Clone, Copy, Debug, PartialEq, Eq, Structural)]
pub enum BracketFormatting {
    /// Parentheses stay on the line.
    Flat,
    /// The expression opens with two parentheses that each get a line of
    /// their own. The flags say whether the placement of the first and of
    /// the second is still to come.
    StackedOpen(bool, bool),
}

/// What a walk over part of an expression leaves behind: the tokens, and
/// the mode and the count of open parentheses after it.
pub ghost struct Walked {
    pub tokens: Seq<RenderToken>,
    pub mode: BracketFormatting,
    pub unclosed: nat,
}

/// The outcome `tokens` of a formatter that leaves the walk's state alone.
pub open spec fn keeping(
    mode: BracketFormatting,
    unclosed: nat,
    tokens: Result<Seq<RenderToken>, FormatError>,
) -> Result<Walked, FormatError> {
    match tokens {
        Ok(tokens) => Ok(Walked { tokens, mode, unclosed }),
        Err(error) => Err(error),
    }
}

/// The outcome `later`, with `earlier` put in front of its tokens when it
/// succeeded.
pub open spec fn walked_after(earlier: Seq<RenderToken>, later: Result<Walked, FormatError>)
    -> Result<Walked, FormatError> {
    match later {
        Ok(walked) => Ok(
            Walked { tokens: earlier + walked.tokens, mode: walked.mode, unclosed: walked.unclosed },
        ),
        Err(error) => Err(error),
    }
}

/// Nothing put in front of an outcome leaves it as it is.
pub proof fn lemma_walked_after_nothing(later: Result<Walked, FormatError>)
    ensures
        walked_after(Seq::empty(), later) == later,
{
    if let Ok(walked) = later {
        assert(Seq::<RenderToken>::empty() + walked.tokens =~= walked.tokens);
    }
}

/// Putting tokens in front of an outcome twice is putting them in front
/// at once, in the same order.
pub proof fn lemma_walked_after_after(
    first: Seq<RenderToken>,
    second: Seq<RenderToken>,
    later: Result<Walked, FormatError>,
)
    ensures
        walked_after(first, walked_after(second, later)) == walked_after(first + second, later),
{
    if let Ok(walked) = later {
        assert(first + (second + walked.tokens) =~= (first + second) + walked.tokens);
    }
}

/// The mode that an expression is walked in, decided once from its start.
pub open spec fn initial_mode(expression: FragmentView) -> BracketFormatting {
    if opens_stacked(expression) {
        BracketFormatting::StackedOpen(true, true)
    } else {
        BracketFormatting::Flat
    }
}

/// An opening parenthesis. It is counted. The first of a stacked pair is
/// followed by a line break, the second asks for an extra indent. In flat
/// mode an outermost parenthesis that is followed by another one gets a
/// line of its own and switches the rest of the expression to the stacked
/// layout. Any other parenthesis stays on the line.
pub open spec fn open_parenthesis(
    text: Seq<char>,
    followed_by_open: bool,
    mode: BracketFormatting,
    unclosed: nat,
) -> Result<Walked, FormatError> {
    if unclosed >= usize::MAX {
        Err(FormatError::Overflow)
    } else {
        let count = unclosed + 1;
        match mode {
            BracketFormatting::StackedOpen(true, _) => Ok(
                Walked {
                    tokens: seq![normal(text), line_break()],
                    mode: BracketFormatting::StackedOpen(false, true),
                    unclosed: count,
                },
            ),
            BracketFormatting::StackedOpen(false, true) => Ok(
                Walked {
                    tokens: seq![RenderToken { text, spacing: SpaceType::ExtraIndent }],
                    mode: BracketFormatting::StackedOpen(false, false),
                    unclosed: count,
                },
            ),
            _ => if mode == BracketFormatting::Flat && count == 1 && followed_by_open {
                Ok(
                    Walked {
                        tokens: seq![line_break(), normal(text), line_break()],
                        mode: BracketFormatting::StackedOpen(false, true),
                        unclosed: count,
                    },
                )
            } else {
                Ok(
                    Walked {
                        tokens: seq![RenderToken { text, spacing: SpaceType::NoRightPad }],
                        mode,
                        unclosed: count,
                    },
                )
            },
        }
    }
}

/// A closing parenthesis. It fails if no parenthesis is open. Outside flat
/// mode a line break follows it when it closes back to the outermost
/// parenthesis.
pub open spec fn close_parenthesis(text: Seq<char>, mode: BracketFormatting, unclosed: nat)
    -> Result<Walked, FormatError> {
    if unclosed == 0 {
        Err(FormatError::StructuralMismatch)
    } else {
        let count = (unclosed - 1) as nat;
        let closing = RenderToken { text, spacing: SpaceType::NoSpaceBefore };
        Ok(
            Walked {
                tokens: if count == 1 && mode != BracketFormatting::Flat {
                    seq![closing, line_break()]
                } else {
                    seq![closing]
                },
                mode,
                unclosed: count,
            },
        )
    }
}

/// The token of an operator. Outside flat mode an operator at the
/// outermost parenthesis that is followed by an opening parenthesis is
/// aligned with a tab.
pub open spec fn operator_token(
    text: Seq<char>,
    conditional: bool,
    followed_by_open: bool,
    mode: BracketFormatting,
    unclosed: nat,
) -> RenderToken {
    RenderToken {
        text: operator_mnemonic(trimmed(text), conditional),
        spacing: if unclosed == 1 && mode != BracketFormatting::Flat && followed_by_open {
            SpaceType::TabAlignRight
        } else {
            SpaceType::Normal
        },
    }
}

/// What one fragment of an expression adds to the walk.
pub open spec fn expression_item(
    child: FragmentView,
    followed_by_open: bool,
    conditional: bool,
    mode: BracketFormatting,
    unclosed: nat,
) -> Result<Walked, FormatError>
    decreases child.children, child.children.len() + 1,
{
    match child.kind {
        FragmentKind::Keyword
        | FragmentKind::NotKeyword
        | FragmentKind::Logical
        | FragmentKind::Properties
        | FragmentKind::TemptableKeyword => keeping(
            mode,
            unclosed,
            Ok(seq![normal(uppercased(child.text))]),
        ),
        FragmentKind::Operator => keeping(
            mode,
            unclosed,
            Ok(seq![operator_token(child.text, conditional, followed_by_open, mode, unclosed)]),
        ),
        FragmentKind::Comment => keeping(mode, unclosed, comment_tokens(child.text)),
        FragmentKind::Expression => walk_expression(child.children, 0, conditional, mode, unclosed),
        FragmentKind::Accumulate => keeping(mode, unclosed, accumulate_tokens(child.children, 0)),
        FragmentKind::Whitespace => keeping(
            mode,
            unclosed,
            Ok(
                if mode == BracketFormatting::Flat {
                    whitespace_tokens(child)
                } else {
                    Seq::empty()
                },
            ),
        ),
        FragmentKind::Variable => keeping(mode, unclosed, Ok(seq![normal(child.text)])),
        FragmentKind::Datatype => keeping(mode, unclosed, datatype_tokens(child.children, 0)),
        FragmentKind::Function => keeping(mode, unclosed, function_tokens(child.children, 0)),
        FragmentKind::RightParenthesis => close_parenthesis(child.text, mode, unclosed),
        FragmentKind::LeftParenthesis => open_parenthesis(
            child.text,
            followed_by_open,
            mode,
            unclosed,
        ),
        _ => Err(FormatError::StructuralMismatch),
    }
}

/// The walk over the fragments of an expression from position `at` on,
/// started in `mode` with `unclosed` parentheses open. It stops at the
/// first fragment that fails.
pub open spec fn walk_expression(
    children: Seq<FragmentView>,
    at: int,
    conditional: bool,
    mode: BracketFormatting,
    unclosed: nat,
) -> Result<Walked, FormatError>
    decreases children, children.len() - at,
{
    if at < 0 || at >= children.len() {
        Ok(Walked { tokens: Seq::empty(), mode, unclosed })
    } else {
        match expression_item(
            children[at],
            opens_next(children, at + 1),
            conditional,
            mode,
            unclosed,
        ) {
            Ok(here) => walked_after(
                here.tokens,
                walk_expression(children, at + 1, conditional, here.mode, here.unclosed),
            ),
            Err(error) => Err(error),
        }
    }
}

/// The tokens of an expression: those of the walk over its fragments,
/// started in the mode that its opening calls for and with no parenthesis
/// open. An expression that leaves a parenthesis open fails.
pub open spec fn expression_tokens(expression: FragmentView, conditional: bool) -> Result<
    Seq<RenderToken>,
    FormatError,
>
    decreases expression.children, expression.children.len() + 1,
{
    match walk_expression(expression.children, 0, conditional, initial_mode(expression), 0) {
        Ok(walked) => if walked.unclosed == 0 {
            Ok(walked.tokens)
        } else {
            Err(FormatError::StructuralMismatch)
        },
        Err(error) => Err(error),
    }
}

/// What one fragment of an accumulate clause adds to its tokens.
pub open spec fn accumulate_item(child: FragmentView) -> Result<Seq<RenderToken>, FormatError>
    decreases child.children, child.children.len() + 2,
{
    match child.kind {
        FragmentKind::AccumulateKeyword
        | FragmentKind::AggregatePhrase
        | FragmentKind::ByKeyword => Ok(seq![normal(uppercased(child.text))]),
        FragmentKind::Expression => expression_tokens(child, false),
        FragmentKind::Comment => comment_tokens(child.text),
        FragmentKind::Whitespace => Ok(whitespace_tokens(child)),
        _ => Err(FormatError::StructuralMismatch),
    }
}

/// The tokens of the fragments of an accumulate clause from `at` on.
pub open spec fn accumulate_tokens(children: Seq<FragmentView>, at: int) -> Result<
    Seq<RenderToken>,
    FormatError,
>
    decreases children, children.len() - at,
{
    if at < 0 || at >= children.len() {
        Ok(Seq::empty())
    } else {
        followed_by(accumulate_item(children[at]), accumulate_tokens(children, at + 1))
    }
}

/// What one fragment of a `BY` clause adds to its tokens.
pub open spec fn by_expression_item(child: FragmentView) -> Result<Seq<RenderToken>, FormatError> {
    match child.kind {
        FragmentKind::ByKeyword => Ok(seq![normal(uppercased(child.text))]),
        FragmentKind::Expression => expression_tokens(child, false),
        FragmentKind::Whitespace => Ok(whitespace_tokens(child)),
        FragmentKind::Comment => Ok(seq![normal(child.text)]),
        _ => Err(FormatError::StructuralMismatch),
    }
}

/// The tokens of the fragments of a `BY` clause from `at` on.
pub open spec fn by_expression_tokens(children: Seq<FragmentView>, at: int) -> Result<
    Seq<RenderToken>,
    FormatError,
>
    decreases children.len() - at,
{
    if at < 0 || at >= children.len() {
        Ok(Seq::empty())
    } else {
        followed_by(by_expression_item(children[at]), by_expression_tokens(children, at + 1))
    }
}

/// What one fragment of a conditional expression adds to its tokens. The
/// expressions in it are in a conditional context.
pub open spec fn conditional_expression_item(child: FragmentView) -> Result<
    Seq<RenderToken>,
    FormatError,
> {
    match child.kind {
        FragmentKind::ConditionalExpressionPred => Ok(seq![normal(uppercased(child.text))]),
        FragmentKind::Expression => expression_tokens(child, true),
        FragmentKind::Whitespace => Ok(whitespace_tokens(child)),
        FragmentKind::Comment => Ok(seq![normal(child.text)]),
        _ => Err(FormatError::StructuralMismatch),
    }
}

/// The tokens of the fragments of a conditional expression from `at` on.
pub open spec fn conditional_expression_tokens(children: Seq<FragmentView>, at: int) -> Result<
    Seq<RenderToken>,
    FormatError,
>
    decreases children.len() - at,
{
    if at < 0 || at >= children.len() {
        Ok(Seq::empty())
    } else {
        followed_by(
            conditional_expression_item(children[at]),
            conditional_expression_tokens(children, at + 1),
        )
    }
}

/// True if `result` and the state after a walk are what `expected` says:
/// its tokens, mode and count where it succeeds, its error where it fails.
/// Of the state after a walk that failed it says nothing.
pub open spec fn walk_matches(
    result: Result<Vec<PrintInfo>, FormatError>,
    mode_after: BracketFormatting,
    unclosed_after: usize,
    expected: Result<Walked, FormatError>,
) -> bool {
    match expected {
        Ok(walked) => tokens_outcome(result) == Ok::<_, FormatError>(walked.tokens) && mode_after
            == walked.mode && unclosed_after == walked.unclosed,
        Err(error) => result == Err::<Vec<PrintInfo>, _>(error),
    }
}

/// Formats an expression. The mode is decided from the start of the
/// expression, the walk starts with no parenthesis open, and it has to end
/// with none open.
pub fn format_expression(expression: &Fragment, conditional: bool) -> (result: Result<
    Vec<PrintInfo>,
    FormatError,
>)
    ensures
        tokens_outcome(result) == expression_tokens(expression@, conditional),
    decreases expression, 2nat,
{
    let mut brackets = if opens_with_stacked_parentheses(expression) {
        BracketFormatting::StackedOpen(true, true)
    } else {
        BracketFormatting::Flat
    };
    let mut unclosed_left_count: usize = 0;
    match inner_format_expression(expression, conditional, &mut brackets, &mut unclosed_left_count) {
        Ok(tokens) => if unclosed_left_count == 0 {
            Ok(tokens)
        } else {
            Err(FormatError::StructuralMismatch)
        },
        Err(error) => Err(error),
    }
}

/// Walks the fragments of `expression` with the mode and the count of the
/// expression that it is part of. When the walk fails, nothing is said of
/// the two after it.
pub fn inner_format_expression(
    expression: &Fragment,
    conditional: bool,
    brackets: &mut BracketFormatting,
    unclosed_left_count: &mut usize,
) -> (result: Result<Vec<PrintInfo>, FormatError>)
    ensures
        walk_matches(
            result,
            *final(brackets),
            *final(unclosed_left_count),
            walk_expression(
                expression@.children,
                0,
                conditional,
                *old(brackets),
                *old(unclosed_left_count) as nat,
            ),
        ),
    decreases expression, 1nat,
{
    let mut print_list = Vec::new();
    let ghost children = expression@.children;
    let ghost start_mode = *brackets;
    let ghost start_count = *unclosed_left_count as nat;
    proof {
        lemma_fragment_view(expression);
        lemma_walked_after_nothing(
            walk_expression(children, 0, conditional, start_mode, start_count),
        );
    }
    let mut at: usize = 0;
    while at < expression.children.len()
        invariant
            at <= expression.children.len(),
            children == expression@.children,
            children.len() == expression.children.len(),
            start_mode == *old(brackets),
            start_count == *old(unclosed_left_count),
            walk_expression(children, 0, conditional, start_mode, start_count) == walked_after(
                tokens_view(print_list@),
                walk_expression(
                    children,
                    at as int,
                    conditional,
                    *brackets,
                    *unclosed_left_count as nat,
                ),
            ),
        decreases expression.children.len() - at,
    {
        let ghost before = tokens_view(print_list@);
        let ghost item = expression_item(
            children[at as int],
            opens_next(children, at + 1),
            conditional,
            *brackets,
            *unclosed_left_count as nat,
        );
        match format_expression_item(expression, at, conditional, brackets, unclosed_left_count) {
            Ok(tokens) => append_tokens(&mut print_list, tokens),
            Err(error) => {
                return Err(error);
            },
        }
        proof {
            let here = item->Ok_0;
            lemma_walked_after_after(
                before,
                here.tokens,
                walk_expression(children, at + 1, conditional, here.mode, here.unclosed),
            );
        }
        at += 1;
    }
    Ok(print_list)
}

/// Formats the fragment at position `at` of the expression `parent`.
fn format_expression_item(
    parent: &Fragment,
    at: usize,
    conditional: bool,
    brackets: &mut BracketFormatting,
    unclosed_left_count: &mut usize,
) -> (result: Result<Vec<PrintInfo>, FormatError>)
    requires
        at < parent.children.len(),
    ensures
        walk_matches(
            result,
            *final(brackets),
            *final(unclosed_left_count),
            expression_item(
                parent@.children[at as int],
                opens_next(parent@.children, at + 1),
                conditional,
                *old(brackets),
                *old(unclosed_left_count) as nat,
            ),
        ),
    decreases parent, 0nat,
{
    proof {
        lemma_fragment_view(parent);
    }
    let child = &parent.children[at];
    proof {
        lemma_fragment_view(child);
    }
    match child.kind {
        FragmentKind::Keyword
        | FragmentKind::NotKeyword
        | FragmentKind::Logical
        | FragmentKind::Properties
        | FragmentKind::TemptableKeyword => Ok(single_token(normalize_keyword(child.text.as_str()), SpaceType::Normal)),
        FragmentKind::Operator => Ok(
            format_operator_token(parent, at, conditional, *brackets, *unclosed_left_count),
        ),
        FragmentKind::Comment => comment_list(child),
        FragmentKind::Expression => inner_format_expression(
            child,
            conditional,
            brackets,
            unclosed_left_count,
        ),
        FragmentKind::Accumulate => format_accumulate(child),
        FragmentKind::Whitespace => {
            if *brackets == BracketFormatting::Flat {
                Ok(whitespace_list(child))
            } else {
                let nothing = Vec::new();
                assert(tokens_view(nothing@) =~= Seq::empty());
                Ok(nothing)
            }
        },
        FragmentKind::Variable => Ok(single_token(child.text.clone(), SpaceType::Normal)),
        FragmentKind::Datatype => format_datatype(child),
        FragmentKind::Function => format_function(child),
        FragmentKind::RightParenthesis => format_right_parenthesis(
            child,
            *brackets,
            unclosed_left_count,
        ),
        FragmentKind::LeftParenthesis => format_left_parenthesis(
            parent,
            at,
            brackets,
            unclosed_left_count,
        ),
        _ => Err(FormatError::StructuralMismatch),
    }
}

/// Formats the opening parenthesis at position `at` of `parent`.
fn format_left_parenthesis(
    parent: &Fragment,
    at: usize,
    brackets: &mut BracketFormatting,
    unclosed_left_count: &mut usize,
) -> (result: Result<Vec<PrintInfo>, FormatError>)
    requires
        at < parent.children.len(),
    ensures
        walk_matches(
            result,
            *final(brackets),
            *final(unclosed_left_count),
            open_parenthesis(
                parent@.children[at as int].text,
                opens_next(parent@.children, at + 1),
                *old(brackets),
                *old(unclosed_left_count) as nat,
            ),
        ),
{
    proof {
        lemma_fragment_view(parent);
        lemma_fragment_view(&parent.children[at as int]);
    }
    let text = parent.children[at].text.clone();
    let mut tokens = Vec::new();
    if *unclosed_left_count == usize::MAX {
        return Err(FormatError::Overflow);
    }
    *unclosed_left_count += 1;
    match *brackets {
        BracketFormatting::StackedOpen(true, _) => {
            push_token(&mut tokens, text, SpaceType::Normal);
            push_line_break(&mut tokens);
            *brackets = BracketFormatting::StackedOpen(false, true);
            assert(tokens_view(tokens@) =~= seq![normal(text@), line_break()]);
        },
        BracketFormatting::StackedOpen(false, true) => {
            push_token(&mut tokens, text, SpaceType::ExtraIndent);
            *brackets = BracketFormatting::StackedOpen(false, false);
            assert(tokens_view(tokens@) =~= seq![
                RenderToken { text: text@, spacing: SpaceType::ExtraIndent },
            ]);
        },
        BracketFormatting::Flat => {
            if *unclosed_left_count == 1 && next_is_left_parenthesis(parent, at + 1) {
                push_line_break(&mut tokens);
                push_token(&mut tokens, text, SpaceType::Normal);
                push_line_break(&mut tokens);
                *brackets = BracketFormatting::StackedOpen(false, true);
                assert(tokens_view(tokens@) =~= seq![line_break(), normal(text@), line_break()]);
            } else {
                push_token(&mut tokens, text, SpaceType::NoRightPad);
                assert(tokens_view(tokens@) =~= seq![
                    RenderToken { text: text@, spacing: SpaceType::NoRightPad },
                ]);
            }
        },
        _ => {
            push_token(&mut tokens, text, SpaceType::NoRightPad);
            assert(tokens_view(tokens@) =~= seq![
                RenderToken { text: text@, spacing: SpaceType::NoRightPad },
            ]);
        },
    }
    Ok(tokens)
}

/// Formats a closing parenthesis.
fn format_right_parenthesis(
    parenthesis: &Fragment,
    brackets: BracketFormatting,
    unclosed_left_count: &mut usize,
) -> (result: Result<Vec<PrintInfo>, FormatError>)
    ensures
        walk_matches(
            result,
            brackets,
            *final(unclosed_left_count),
            close_parenthesis(parenthesis@.text, brackets, *old(unclosed_left_count) as nat),
        ),
{
    proof {
        lemma_fragment_view(parenthesis);
    }
    if *unclosed_left_count == 0 {
        return Err(FormatError::StructuralMismatch);
    }
    *unclosed_left_count -= 1;
    let mut tokens = Vec::new();
    push_token(&mut tokens, parenthesis.text.clone(), SpaceType::NoSpaceBefore);
    if *unclosed_left_count == 1 && brackets != BracketFormatting::Flat {
        push_line_break(&mut tokens);
        assert(tokens_view(tokens@) =~= seq![
            RenderToken { text: parenthesis@.text, spacing: SpaceType::NoSpaceBefore },
            line_break(),
        ]);
    } else {
        assert(tokens_view(tokens@) =~= seq![
            RenderToken { text: parenthesis@.text, spacing: SpaceType::NoSpaceBefore },
        ]);
    }
    Ok(tokens)
}

/// Formats the operator at position `at` of `parent`.
fn format_operator_token(
    parent: &Fragment,
    at: usize,
    conditional: bool,
    brackets: BracketFormatting,
    unclosed_left_count: usize,
) -> (tokens: Vec<PrintInfo>)
    requires
        at < parent.children.len(),
    ensures
        tokens_view(tokens@) == seq![
            operator_token(
                parent@.children[at as int].text,
                conditional,
                opens_next(parent@.children, at + 1),
                brackets,
                unclosed_left_count as nat,
            ),
        ],
{
    proof {
        lemma_fragment_view(parent);
    }
    let aligned = unclosed_left_count == 1 && brackets != BracketFormatting::Flat
        && next_is_left_parenthesis(parent, at + 1);
    let spacing = if aligned {
        SpaceType::TabAlignRight
    } else {
        SpaceType::Normal
    };
    let mut tokens = Vec::new();
    let mnemonic = format_operator(&parent.children[at], conditional);
    push_token(&mut tokens, mnemonic, spacing);
    assert(tokens_view(tokens@) =~= seq![RenderToken { text: mnemonic@, spacing }]);
    tokens
}

/// Formats an accumulate clause. Each expression in it is formatted on
/// its own.
pub fn format_accumulate(accum: &Fragment) -> (result: Result<Vec<PrintInfo>, FormatError>)
    ensures
        tokens_outcome(result) == accumulate_tokens(accum@.children, 0),
    decreases accum, 0nat,
{
    let mut print_list = Vec::new();
    let ghost children = accum@.children;
    proof {
        lemma_fragment_view(accum);
        lemma_after_nothing(accumulate_tokens(children, 0));
    }
    let mut at: usize = 0;
    while at < accum.children.len()
        invariant
            at <= accum.children.len(),
            children == accum@.children,
            children.len() == accum.children.len(),
            forall|i: int| 0 <= i < children.len() ==> #[trigger] children[i] == accum.children@[i]@,
            accumulate_tokens(children, 0) == after(
                tokens_view(print_list@),
                accumulate_tokens(children, at as int),
            ),
        decreases accum.children.len() - at,
    {
        let child = &accum.children[at];
        let ghost before = tokens_view(print_list@);
        let ghost rest = accumulate_tokens(children, at + 1);
        proof {
            lemma_fragment_view(child);
        }
        match child.kind {
            FragmentKind::AccumulateKeyword
            | FragmentKind::AggregatePhrase
            | FragmentKind::ByKeyword => push_token(
                &mut print_list,
                normalize_keyword(child.text.as_str()),
                SpaceType::Normal,
            ),
            FragmentKind::Expression => match format_expression(child, false) {
                Ok(tokens) => append_tokens(&mut print_list, tokens),
                Err(error) => {
                    return Err(error);
                },
            },
            FragmentKind::Comment => match comment_list(child) {
                Ok(tokens) => append_tokens(&mut print_list, tokens),
                Err(error) => {
                    return Err(error);
                },
            },
            FragmentKind::Whitespace => append_tokens(&mut print_list, whitespace_list(child)),
            _ => {
                return Err(FormatError::StructuralMismatch);
            },
        }
        proof {
            let here = accumulate_item(children[at as int])->Ok_0;
            assert(tokens_view(print_list@) =~= before + here);
            lemma_after_after(before, here, rest);
        }
        at += 1;
    }
    Ok(print_list)
}

/// Formats a `BY` clause. Comments in it are kept as they are written.
pub fn format_by_expression(by_expression: &Fragment) -> (result: Result<
    Vec<PrintInfo>,
    FormatError,
>)
    ensures
        tokens_outcome(result) == by_expression_tokens(by_expression@.children, 0),
{
    let mut print_list = Vec::new();
    let ghost children = by_expression@.children;
    proof {
        lemma_fragment_view(by_expression);
        lemma_after_nothing(by_expression_tokens(children, 0));
    }
    let mut at: usize = 0;
    while at < by_expression.children.len()
        invariant
            at <= by_expression.children.len(),
            children == by_expression@.children,
            children.len() == by_expression.children.len(),
            forall|i: int|
                0 <= i < children.len() ==> #[trigger] children[i] == by_expression.children@[i]@,
            by_expression_tokens(children, 0) == after(
                tokens_view(print_list@),
                by_expression_tokens(children, at as int),
            ),
        decreases by_expression.children.len() - at,
    {
        let child = &by_expression.children[at];
        let ghost before = tokens_view(print_list@);
        let ghost rest = by_expression_tokens(children, at + 1);
        proof {
            lemma_fragment_view(child);
        }
        match child.kind {
            FragmentKind::ByKeyword => push_token(
                &mut print_list,
                normalize_keyword(child.text.as_str()),
                SpaceType::Normal,
            ),
            FragmentKind::Expression => match format_expression(child, false) {
                Ok(tokens) => append_tokens(&mut print_list, tokens),
                Err(error) => {
                    return Err(error);
                },
            },
            FragmentKind::Whitespace => append_tokens(&mut print_list, whitespace_list(child)),
            FragmentKind::Comment => push_token(
                &mut print_list,
                child.text.clone(),
                SpaceType::Normal,
            ),
            _ => {
                return Err(FormatError::StructuralMismatch);
            },
        }
        proof {
            let here = by_expression_item(children[at as int])->Ok_0;
            assert(tokens_view(print_list@) =~= before + here);
            lemma_after_after(before, here, rest);
        }
        at += 1;
    }
    Ok(print_list)
}

/// Formats a conditional expression: the word that opens it in uppercase,
/// and its expressions in a conditional context.
pub fn format_conditional_expression(conditional_expression: &Fragment) -> (result: Result<
    Vec<PrintInfo>,
    FormatError,
>)
    ensures
        tokens_outcome(result) == conditional_expression_tokens(
            conditional_expression@.children,
            0,
        ),
{
    let mut print_list = Vec::new();
    let ghost children = conditional_expression@.children;
    proof {
        lemma_fragment_view(conditional_expression);
        lemma_after_nothing(conditional_expression_tokens(children, 0));
    }
    let mut at: usize = 0;
    while at < conditional_expression.children.len()
        invariant
            at <= conditional_expression.children.len(),
            children == conditional_expression@.children,
            children.len() == conditional_expression.children.len(),
            forall|i: int|
                0 <= i < children.len() ==> #[trigger] children[i]
                    == conditional_expression.children@[i]@,
            conditional_expression_tokens(children, 0) == after(
                tokens_view(print_list@),
                conditional_expression_tokens(children, at as int),
            ),
        decreases conditional_expression.children.len() - at,
    {
        let child = &conditional_expression.children[at];
        let ghost before = tokens_view(print_list@);
        let ghost rest = conditional_expression_tokens(children, at + 1);
        proof {
            lemma_fragment_view(child);
        }
        match child.kind {
            FragmentKind::ConditionalExpressionPred => push_token(
                &mut print_list,
                normalize_keyword(child.text.as_str()),
                SpaceType::Normal,
            ),
            FragmentKind::Expression => match format_expression(child, true) {
                Ok(tokens) => append_tokens(&mut print_list, tokens),
                Err(error) => {
                    return Err(error);
                },
            },
            FragmentKind::Whitespace => append_tokens(&mut print_list, whitespace_list(child)),
            FragmentKind::Comment => push_token(
                &mut print_list,
                child.text.clone(),
                SpaceType::Normal,
            ),
            _ => {
                return Err(FormatError::StructuralMismatch);
            },
        }
        proof {
            let here = conditional_expression_item(children[at as int])->Ok_0;
            assert(tokens_view(print_list@) =~= before + here);
            lemma_after_after(before, here, rest);
        }
        at += 1;
    }
    Ok(print_list)
}

} // verus!
