//! Assignments. The lines of an assignment are a declaration group: their
//! targets are padded to the width of the longest.

use crate::align::{align_identifier, lemma_widest_prefix, widest};
use crate::error::FormatError;
use crate::expression::{expression_tokens, format_expression};
use crate::fragment::{lemma_fragment_view, Fragment, FragmentKind, FragmentView};
use crate::normalize::normalize_keyword;
use crate::outside::{aligned, uppercased};
use crate::text::{byte_len, byte_length};
use crate::token::{
    after, append_tokens, extend_tokens, followed_by, lemma_after_after, lemma_after_nothing,
    line_break, normal, push_token, tokens_outcome, tokens_view, PrintInfo, RenderToken, SpaceType,
};
use vstd::prelude::*;

verus! {

/// One line of an assignment, in the parts that it was read in.
#[derive(Clone, Debug, PartialEq, Eq)]
pub struct AssignLinePrintInfo {
    pub before_var: Vec<PrintInfo>,
    pub variable: String,
    pub variable_len: usize,
    pub before_assign_expr: Vec<PrintInfo>,
    pub assign_expr: Vec<PrintInfo>,
    pub pre_when: Vec<PrintInfo>,
    pub when: Option<PrintInfo>,
    pub pre_when_expr: Vec<PrintInfo>,
    pub when_expr: Vec<PrintInfo>,
    pub end: Vec<PrintInfo>,
}

/// One row of a declaration group: the tokens before the identifier, the
/// identifier, the length by which it takes part in the alignment, and the
/// tokens after it.
pub ghost struct DeclarationLine {
    pub prefix_tokens: Seq<RenderToken>,
    pub identifier: Seq<char>,
    pub identifier_length: nat,
    pub body_tokens: Seq<RenderToken>,
}

/// The token of a `WHEN` keyword, if there is one.
pub open spec fn optional_token(token: Option<RenderToken>) -> Seq<RenderToken> {
    match token {
        Some(token) => seq![token],
        None => Seq::empty(),
    }
}

/// The value of the `when` part of a line.
pub open spec fn when_view(when: Option<PrintInfo>) -> Option<RenderToken> {
    match when {
        Some(token) => Some(token@),
        None => None,
    }
}

impl View for AssignLinePrintInfo {
    type V = DeclarationLine;

    open spec fn view(&self) -> DeclarationLine {
        DeclarationLine {
            prefix_tokens: tokens_view(self.before_var@),
            identifier: self.variable@,
            identifier_length: self.variable_len as nat,
            body_tokens: tokens_view(self.before_assign_expr@) + tokens_view(self.assign_expr@)
                + tokens_view(self.pre_when@) + optional_token(when_view(self.when)) + tokens_view(
                self.pre_when_expr@,
            ) + tokens_view(self.when_expr@) + tokens_view(self.end@),
        }
    }
}

impl AssignLinePrintInfo {
    /// A line from its parts. The target takes part in the alignment with
    /// its length in bytes.
    pub fn new(
        before_var: Vec<PrintInfo>,
        variable: String,
        before_assign_expr: Vec<PrintInfo>,
        assign_expr: Vec<PrintInfo>,
        pre_when: Vec<PrintInfo>,
        when: Option<PrintInfo>,
        pre_when_expr: Vec<PrintInfo>,
        when_expr: Vec<PrintInfo>,
        end: Vec<PrintInfo>,
    ) -> (line: Self)
        ensures
            line@ == (DeclarationLine {
                prefix_tokens: tokens_view(before_var@),
                identifier: variable@,
                identifier_length: byte_length(variable@),
                body_tokens: tokens_view(before_assign_expr@) + tokens_view(assign_expr@)
                    + tokens_view(pre_when@) + optional_token(when_view(when)) + tokens_view(
                    pre_when_expr@,
                ) + tokens_view(when_expr@) + tokens_view(end@),
            }),
    {
        let variable_len = byte_len(variable.as_str());
        Self {
            before_var,
            variable,
            variable_len,
            before_assign_expr,
            assign_expr,
            pre_when,
            when,
            pre_when_expr,
            when_expr,
            end,
        }
    }
}

/// The values of a sequence of lines, one for one.
pub open spec fn lines_view(lines: Seq<AssignLinePrintInfo>) -> Seq<DeclarationLine> {
    lines.map_values(|line: AssignLinePrintInfo| line@)
}

/// What a scan over the fragments of a line found: the tokens that came
/// before it, the thing itself, and the position after it.
pub ghost struct Scanned<T> {
    pub before: Seq<RenderToken>,
    pub found: T,
    pub next: int,
}

/// The outcome `later`, with `earlier` put in front of the tokens that came
/// before what was found.
pub open spec fn scanned_after<T>(earlier: Seq<RenderToken>, later: Result<Scanned<T>, FormatError>)
    -> Result<Scanned<T>, FormatError> {
    match later {
        Ok(scanned) => Ok(
            Scanned { before: earlier + scanned.before, found: scanned.found, next: scanned.next },
        ),
        Err(error) => Err(error),
    }
}

/// Nothing put in front of an outcome leaves it as it is.
pub proof fn lemma_scanned_after_nothing<T>(later: Result<Scanned<T>, FormatError>)
    ensures
        scanned_after(Seq::empty(), later) == later,
{
    if let Ok(scanned) = later {
        assert(Seq::<RenderToken>::empty() + scanned.before =~= scanned.before);
    }
}

/// Putting tokens in front of an outcome twice is putting them in front
/// at once, in the same order.
pub proof fn lemma_scanned_after_after<T>(
    first: Seq<RenderToken>,
    second: Seq<RenderToken>,
    later: Result<Scanned<T>, FormatError>,
)
    ensures
        scanned_after(first, scanned_after(second, later)) == scanned_after(first + second, later),
{
    if let Ok(scanned) = later {
        assert(first + (second + scanned.before) =~= (first + second) + scanned.before);
    }
}

/// Scans from `at` to the target of a line. Comments on the way are kept,
/// white space is dropped, and anything else fails, as does a line without
/// a target.
pub open spec fn variable_scan(children: Seq<FragmentView>, at: int) -> Result<
    Scanned<Seq<char>>,
    FormatError,
>
    decreases children.len() - at,
{
    if at < 0 || at >= children.len() {
        Err(FormatError::StructuralMismatch)
    } else {
        match children[at].kind {
            FragmentKind::Comment => scanned_after(
                seq![normal(children[at].text)],
                variable_scan(children, at + 1),
            ),
            FragmentKind::Variable => Ok(
                Scanned { before: Seq::empty(), found: children[at].text, next: at + 1 },
            ),
            FragmentKind::Whitespace => variable_scan(children, at + 1),
            _ => Err(FormatError::StructuralMismatch),
        }
    }
}

/// The outcome of an expression as the end of a scan at position `at`.
pub open spec fn found_expression(expression: FragmentView, at: int) -> Result<
    Scanned<Seq<RenderToken>>,
    FormatError,
> {
    match expression_tokens(expression, true) {
        Ok(tokens) => Ok(Scanned { before: Seq::empty(), found: tokens, next: at + 1 }),
        Err(error) => Err(error),
    }
}

/// Scans from `at` to the expression that is assigned. Comments and the
/// equals sign on the way are kept.
pub open spec fn assigned_expression_scan(children: Seq<FragmentView>, at: int) -> Result<
    Scanned<Seq<RenderToken>>,
    FormatError,
>
    decreases children.len() - at,
{
    if at < 0 || at >= children.len() {
        Err(FormatError::StructuralMismatch)
    } else {
        match children[at].kind {
            FragmentKind::Comment | FragmentKind::Equals => scanned_after(
                seq![normal(children[at].text)],
                assigned_expression_scan(children, at + 1),
            ),
            FragmentKind::Expression => found_expression(children[at], at),
            FragmentKind::Whitespace => assigned_expression_scan(children, at + 1),
            _ => Err(FormatError::StructuralMismatch),
        }
    }
}

/// Scans from `at` to the `WHEN` keyword, which a line need not have.
pub open spec fn when_keyword_scan(children: Seq<FragmentView>, at: int) -> Result<
    Scanned<Option<RenderToken>>,
    FormatError,
>
    decreases children.len() - at,
{
    if at < 0 || at >= children.len() {
        Ok(Scanned { before: Seq::empty(), found: None, next: at })
    } else {
        match children[at].kind {
            FragmentKind::Comment => scanned_after(
                seq![normal(children[at].text)],
                when_keyword_scan(children, at + 1),
            ),
            FragmentKind::WhenKeyword => Ok(
                Scanned {
                    before: Seq::empty(),
                    found: Some(normal(uppercased(children[at].text))),
                    next: at + 1,
                },
            ),
            FragmentKind::Whitespace => when_keyword_scan(children, at + 1),
            _ => Err(FormatError::StructuralMismatch),
        }
    }
}

/// Scans from `at` to the expression after `WHEN`.
pub open spec fn when_expression_scan(children: Seq<FragmentView>, at: int) -> Result<
    Scanned<Seq<RenderToken>>,
    FormatError,
>
    decreases children.len() - at,
{
    if at < 0 || at >= children.len() {
        Err(FormatError::StructuralMismatch)
    } else {
        match children[at].kind {
            FragmentKind::Comment => scanned_after(
                seq![normal(children[at].text)],
                when_expression_scan(children, at + 1),
            ),
            FragmentKind::Expression => found_expression(children[at], at),
            FragmentKind::Whitespace => when_expression_scan(children, at + 1),
            _ => Err(FormatError::StructuralMismatch),
        }
    }
}

/// The comments among the fragments from `at` on.
pub open spec fn trailing_comments(children: Seq<FragmentView>, at: int) -> Seq<RenderToken>
    decreases children.len() - at,
{
    if at < 0 || at >= children.len() {
        Seq::empty()
    } else if children[at].kind == FragmentKind::Comment {
        seq![normal(children[at].text)] + trailing_comments(children, at + 1)
    } else {
        trailing_comments(children, at + 1)
    }
}

/// What follows the `WHEN` keyword of a line: the tokens up to its
/// expression, the expression, and the comments after it.
pub open spec fn when_clause(children: Seq<FragmentView>, at: int) -> Result<
    Seq<RenderToken>,
    FormatError,
> {
    match when_expression_scan(children, at) {
        Ok(condition) => Ok(
            condition.before + condition.found + trailing_comments(children, condition.next),
        ),
        Err(error) => Err(error),
    }
}

/// One line of an assignment as a row of a declaration group.
pub open spec fn assign_line(line: FragmentView) -> Result<DeclarationLine, FormatError> {
    match variable_scan(line.children, 0) {
        Ok(target) => match assigned_expression_scan(line.children, target.next) {
            Ok(value) => match when_keyword_scan(line.children, value.next) {
                Ok(when) => match (match when.found {
                    Some(keyword) => when_clause(line.children, when.next),
                    None => Ok(Seq::empty()),
                }) {
                    Ok(clause) => Ok(
                        DeclarationLine {
                            prefix_tokens: target.before,
                            identifier: target.found,
                            identifier_length: byte_length(target.found),
                            body_tokens: value.before + value.found + when.before + optional_token(
                                when.found,
                            ) + clause,
                        },
                    ),
                    Err(error) => Err(error),
                },
                Err(error) => Err(error),
            },
            Err(error) => Err(error),
        },
        Err(error) => Err(error),
    }
}

/// The rows of the first `count` lines, or the first error among them.
pub open spec fn assign_line_rows(children: Seq<FragmentView>, count: nat) -> Result<
    Seq<DeclarationLine>,
    FormatError,
>
    decreases count,
{
    if count == 0 {
        Ok(Seq::empty())
    } else {
        match assign_line_rows(children, (count - 1) as nat) {
            Ok(rows) => match assign_line(children[count - 1]) {
                Ok(row) => Ok(rows.push(row)),
                Err(error) => Err(error),
            },
            Err(error) => Err(error),
        }
    }
}

/// The lengths by which the rows take part in the alignment.
pub open spec fn row_lengths(rows: Seq<DeclarationLine>) -> Seq<nat> {
    rows.map_values(|row: DeclarationLine| row.identifier_length)
}

/// The tokens of one row in a group of the given width: the tokens before
/// the identifier, the identifier padded to the width, the tokens after it
/// and a line break.
pub open spec fn row_tokens(row: DeclarationLine, width: nat) -> Seq<RenderToken> {
    row.prefix_tokens + seq![normal(aligned(row.identifier, width))] + row.body_tokens
        + seq![line_break()]
}

/// The tokens of the first `count` rows in a group of the given width.
pub open spec fn aligned_rows(rows: Seq<DeclarationLine>, count: nat, width: nat) -> Seq<
    RenderToken,
>
    decreases count,
{
    if count == 0 {
        Seq::empty()
    } else {
        aligned_rows(rows, (count - 1) as nat, width) + row_tokens(rows[count - 1], width)
    }
}

/// The tokens of the lines of an assignment.
pub open spec fn assign_lines_tokens(lines: FragmentView) -> Result<Seq<RenderToken>, FormatError> {
    match assign_line_rows(lines.children, lines.children.len()) {
        Ok(rows) => Ok(aligned_rows(rows, rows.len(), widest(row_lengths(rows), rows.len()))),
        Err(error) => Err(error),
    }
}

/// What one fragment of an assignment adds to its tokens.
pub open spec fn assign_item(child: FragmentView) -> Result<Seq<RenderToken>, FormatError> {
    match child.kind {
        FragmentKind::AssignKeyword
        | FragmentKind::InputKeyword
        | FragmentKind::FramebrowseKeyword
        | FragmentKind::NoerrorKeyword => Ok(seq![normal(uppercased(child.text))]),
        FragmentKind::Variable => Ok(seq![normal(child.text)]),
        FragmentKind::AssignLines => assign_lines_tokens(child),
        FragmentKind::Whitespace => Ok(Seq::empty()),
        _ => Err(FormatError::StructuralMismatch),
    }
}

/// The tokens of the fragments of an assignment from `at` on.
pub open spec fn assign_tokens(children: Seq<FragmentView>, at: int) -> Result<
    Seq<RenderToken>,
    FormatError,
>
    decreases children.len() - at,
{
    if at < 0 || at >= children.len() {
        Ok(Seq::empty())
    } else {
        followed_by(assign_item(children[at]), assign_tokens(children, at + 1))
    }
}

/// Formats an assignment: its keywords in uppercase, the frame it reads
/// from, and its lines as a declaration group.
pub fn format_assign(assign: &Fragment) -> (result: Result<Vec<PrintInfo>, FormatError>)
    ensures
        tokens_outcome(result) == assign_tokens(assign@.children, 0),
{
    let mut print_list = Vec::new();
    let ghost children = assign@.children;
    proof {
        lemma_fragment_view(assign);
        lemma_after_nothing(assign_tokens(children, 0));
    }
    let mut at: usize = 0;
    while at < assign.children.len()
        invariant
            at <= assign.children.len(),
            children == assign@.children,
            children.len() == assign.children.len(),
            forall|i: int|
                0 <= i < children.len() ==> #[trigger] children[i] == assign.children@[i]@,
            assign_tokens(children, 0) == after(
                tokens_view(print_list@),
                assign_tokens(children, at as int),
            ),
        decreases assign.children.len() - at,
    {
        let child = &assign.children[at];
        let ghost before = tokens_view(print_list@);
        let ghost rest = assign_tokens(children, at + 1);
        proof {
            lemma_fragment_view(child);
        }
        match child.kind {
            FragmentKind::AssignKeyword
            | FragmentKind::InputKeyword
            | FragmentKind::FramebrowseKeyword
            | FragmentKind::NoerrorKeyword => push_token(
                &mut print_list,
                normalize_keyword(child.text.as_str()),
                SpaceType::Normal,
            ),
            FragmentKind::Variable => push_token(
                &mut print_list,
                child.text.clone(),
                SpaceType::Normal,
            ),
            FragmentKind::AssignLines => match format_assign_lines(child) {
                Ok(tokens) => append_tokens(&mut print_list, tokens),
                Err(error) => {
                    return Err(error);
                },
            },
            FragmentKind::Whitespace => {},
            _ => {
                return Err(FormatError::StructuralMismatch);
            },
        }
        proof {
            let here = assign_item(children[at as int])->Ok_0;
            assert(tokens_view(print_list@) =~= before + here);
            lemma_after_after(before, here, rest);
        }
        at += 1;
    }
    Ok(print_list)
}

/// Once a line fails, the lines fail with the same error.
proof fn lemma_assign_line_rows_fail(children: Seq<FragmentView>, failed: nat, count: nat)
    requires
        failed < count,
        assign_line_rows(children, failed) is Ok,
        assign_line(children[failed as int]) is Err,
    ensures
        assign_line_rows(children, count) == Err::<Seq<DeclarationLine>, _>(
            assign_line(children[failed as int])->Err_0,
        ),
    decreases count,
{
    if count > failed + 1 {
        lemma_assign_line_rows_fail(children, failed, (count - 1) as nat);
    }
}

/// Writes out one row in a group of the given width.
fn format_declaration_line(line: &AssignLinePrintInfo, width: usize) -> (tokens: Vec<PrintInfo>)
    ensures
        tokens_view(tokens@) == row_tokens(line@, width as nat),
{
    let mut inner_list = Vec::new();
    extend_tokens(&mut inner_list, &line.before_var);
    push_token(
        &mut inner_list,
        align_identifier(line.variable.as_str(), width),
        SpaceType::Normal,
    );
    extend_tokens(&mut inner_list, &line.before_assign_expr);
    extend_tokens(&mut inner_list, &line.assign_expr);
    extend_tokens(&mut inner_list, &line.pre_when);
    if let Some(when) = &line.when {
        push_token(&mut inner_list, when.line.clone(), when.spacing_attribute);
    }
    extend_tokens(&mut inner_list, &line.pre_when_expr);
    extend_tokens(&mut inner_list, &line.when_expr);
    extend_tokens(&mut inner_list, &line.end);
    proof {
        reveal_strlit("\n");
        assert("\n"@ =~= seq!['\n']);
    }
    push_token(&mut inner_list, String::from_str("\n"), SpaceType::LineBreak);
    assert(tokens_view(inner_list@) =~= row_tokens(line@, width as nat));
    inner_list
}

/// Formats the lines of an assignment, with the targets padded to the
/// width of the longest.
pub fn format_assign_lines(lines: &Fragment) -> (result: Result<Vec<PrintInfo>, FormatError>)
    ensures
        tokens_outcome(result) == assign_lines_tokens(lines@),
{
    let mut lines_breakdown: Vec<AssignLinePrintInfo> = Vec::new();
    let mut longest: usize = 0;
    let ghost children = lines@.children;
    proof {
        lemma_fragment_view(lines);
        assert(lines_view(lines_breakdown@) =~= Seq::empty());
    }
    let mut at: usize = 0;
    while at < lines.children.len()
        invariant
            at <= lines.children.len(),
            children == lines@.children,
            children.len() == lines.children.len(),
            forall|i: int| 0 <= i < children.len() ==> #[trigger] children[i] == lines.children@[i]@,
            lines_breakdown.len() == at,
            assign_line_rows(children, at as nat) == Ok::<_, FormatError>(
                lines_view(lines_breakdown@),
            ),
            longest == widest(row_lengths(lines_view(lines_breakdown@)), at as nat),
        decreases lines.children.len() - at,
    {
        let ghost before = lines_view(lines_breakdown@);
        let curr_line = match format_assign_single_line(&lines.children[at]) {
            Ok(line) => line,
            Err(error) => {
                proof {
                    lemma_assign_line_rows_fail(children, at as nat, children.len());
                }
                return Err(error);
            },
        };
        if curr_line.variable_len > longest {
            longest = curr_line.variable_len;
        }
        lines_breakdown.push(curr_line);
        proof {
            let now = lines_view(lines_breakdown@);
            assert(now =~= before.push(curr_line@));
            lemma_widest_prefix(row_lengths(before), row_lengths(now), at as nat);
        }
        at += 1;
    }
    let ghost rows = lines_view(lines_breakdown@);
    let mut print_list = Vec::new();
    proof {
        assert(tokens_view(print_list@) =~= Seq::empty());
    }
    let mut done: usize = 0;
    while done < lines_breakdown.len()
        invariant
            done <= lines_breakdown.len(),
            rows == lines_view(lines_breakdown@),
            tokens_view(print_list@) == aligned_rows(rows, done as nat, longest as nat),
        decreases lines_breakdown.len() - done,
    {
        let tokens = format_declaration_line(&lines_breakdown[done], longest);
        append_tokens(&mut print_list, tokens);
        done += 1;
    }
    Ok(print_list)
}

/// Reads one line of an assignment.
pub fn format_assign_single_line(line: &Fragment) -> (result: Result<
    AssignLinePrintInfo,
    FormatError,
>)
    ensures
        match result {
            Ok(row) => assign_line(line@) == Ok::<_, FormatError>(row@),
            Err(error) => assign_line(line@) == Err::<DeclarationLine, _>(error),
        },
{
    proof {
        lemma_fragment_view(line);
    }
    let (before_var, variable, next) = match get_to_variable(line, 0) {
        Ok(found) => found,
        Err(error) => {
            return Err(error);
        },
    };
    let (before_assign_expr, assign_expr, next) = match get_to_assign_expression(line, next) {
        Ok(found) => found,
        Err(error) => {
            return Err(error);
        },
    };
    let (pre_when, when_keyword, next) = match get_to_when_keyword(line, next) {
        Ok(found) => found,
        Err(error) => {
            return Err(error);
        },
    };
    let (pre_when_expr, when_expr, post_expr) = match when_keyword {
        Some(_) => {
            let (before_when_expr, when_expr, next) = match get_to_expression(line, next) {
                Ok(found) => found,
                Err(error) => {
                    return Err(error);
                },
            };
            let post_expr = comments_to_end(line, next);
            (before_when_expr, when_expr, post_expr)
        },
        None => (Vec::new(), Vec::new(), Vec::new()),
    };
    proof {
        if when_keyword is None {
            assert(tokens_view(pre_when_expr@) + tokens_view(when_expr@) + tokens_view(post_expr@)
                =~= Seq::empty());
        }
    }
    let row = AssignLinePrintInfo::new(
        before_var,
        variable,
        before_assign_expr,
        assign_expr,
        pre_when,
        when_keyword,
        pre_when_expr,
        when_expr,
        post_expr,
    );
    proof {
        let expected = assign_line(line@)->Ok_0;
        assert(row@.body_tokens =~= expected.body_tokens);
    }
    Ok(row)
}

/// True if `result` is the outcome `expected` of a scan.
pub open spec fn scan_matches<T, V>(
    result: Result<(Vec<PrintInfo>, T, usize), FormatError>,
    found: spec_fn(T) -> V,
    expected: Result<Scanned<V>, FormatError>,
) -> bool {
    match result {
        Ok((before, thing, next)) => expected == Ok::<_, FormatError>(
            Scanned { before: tokens_view(before@), found: found(thing), next: next as int },
        ),
        Err(error) => expected == Err::<Scanned<V>, _>(error),
    }
}

/// Scans from position `from` to the target of the line.
fn get_to_variable(line: &Fragment, from: usize) -> (result: Result<
    (Vec<PrintInfo>, String, usize),
    FormatError,
>)
    requires
        from <= line.children.len(),
    ensures
        scan_matches(
            result,
            |variable: String| variable@,
            variable_scan(line@.children, from as int),
        ),
        result matches Ok((_, _, next)) ==> next <= line.children.len(),
{
    let mut before_var = Vec::new();
    let ghost children = line@.children;
    proof {
        lemma_fragment_view(line);
        lemma_scanned_after_nothing(variable_scan(children, from as int));
        assert(tokens_view(before_var@) =~= Seq::empty());
    }
    let mut at: usize = from;
    while at < line.children.len()
        invariant
            from <= at <= line.children.len(),
            children == line@.children,
            children.len() == line.children.len(),
            forall|i: int| 0 <= i < children.len() ==> #[trigger] children[i] == line.children@[i]@,
            variable_scan(children, from as int) == scanned_after(
                tokens_view(before_var@),
                variable_scan(children, at as int),
            ),
        decreases line.children.len() - at,
    {
        let next = &line.children[at];
        let ghost before = tokens_view(before_var@);
        proof {
            lemma_fragment_view(next);
        }
        match next.kind {
            FragmentKind::Comment => {
                push_token(&mut before_var, next.text.clone(), SpaceType::Normal);
                proof {
                    assert(tokens_view(before_var@) =~= before + seq![normal(next@.text)]);
                    lemma_scanned_after_after(
                        before,
                        seq![normal(next@.text)],
                        variable_scan(children, at + 1),
                    );
                }
            },
            FragmentKind::Variable => {
                proof {
                    assert(before + Seq::<RenderToken>::empty() =~= before);
                }
                return Ok((before_var, next.text.clone(), at + 1));
            },
            FragmentKind::Whitespace => {},
            _ => {
                return Err(FormatError::StructuralMismatch);
            },
        }
        at += 1;
    }
    Err(FormatError::StructuralMismatch)
}

/// Scans from position `from` to the expression that is assigned.
fn get_to_assign_expression(line: &Fragment, from: usize) -> (result: Result<
    (Vec<PrintInfo>, Vec<PrintInfo>, usize),
    FormatError,
>)
    requires
        from <= line.children.len(),
    ensures
        scan_matches(
            result,
            |tokens: Vec<PrintInfo>| tokens_view(tokens@),
            assigned_expression_scan(line@.children, from as int),
        ),
        result matches Ok((_, _, next)) ==> next <= line.children.len(),
{
    let mut before_expr = Vec::new();
    let ghost children = line@.children;
    proof {
        lemma_fragment_view(line);
        lemma_scanned_after_nothing(assigned_expression_scan(children, from as int));
        assert(tokens_view(before_expr@) =~= Seq::empty());
    }
    let mut at: usize = from;
    while at < line.children.len()
        invariant
            from <= at <= line.children.len(),
            children == line@.children,
            children.len() == line.children.len(),
            forall|i: int| 0 <= i < children.len() ==> #[trigger] children[i] == line.children@[i]@,
            assigned_expression_scan(children, from as int) == scanned_after(
                tokens_view(before_expr@),
                assigned_expression_scan(children, at as int),
            ),
        decreases line.children.len() - at,
    {
        let next = &line.children[at];
        let ghost before = tokens_view(before_expr@);
        proof {
            lemma_fragment_view(next);
        }
        match next.kind {
            FragmentKind::Comment | FragmentKind::Equals => {
                push_token(&mut before_expr, next.text.clone(), SpaceType::Normal);
                proof {
                    assert(tokens_view(before_expr@) =~= before + seq![normal(next@.text)]);
                    lemma_scanned_after_after(
                        before,
                        seq![normal(next@.text)],
                        assigned_expression_scan(children, at + 1),
                    );
                }
            },
            FragmentKind::Expression => {
                proof {
                    assert(before + Seq::<RenderToken>::empty() =~= before);
                }
                return match format_expression(next, true) {
                    Ok(tokens) => Ok((before_expr, tokens, at + 1)),
                    Err(error) => Err(error),
                };
            },
            FragmentKind::Whitespace => {},
            _ => {
                return Err(FormatError::StructuralMismatch);
            },
        }
        at += 1;
    }
    Err(FormatError::StructuralMismatch)
}

/// Scans from position `from` to the `WHEN` keyword, if the line has one.
fn get_to_when_keyword(line: &Fragment, from: usize) -> (result: Result<
    (Vec<PrintInfo>, Option<PrintInfo>, usize),
    FormatError,
>)
    requires
        from <= line.children.len(),
    ensures
        scan_matches(
            result,
            |when: Option<PrintInfo>| when_view(when),
            when_keyword_scan(line@.children, from as int),
        ),
        result matches Ok((_, _, next)) ==> next <= line.children.len(),
{
    let mut before_when = Vec::new();
    let ghost children = line@.children;
    proof {
        lemma_fragment_view(line);
        lemma_scanned_after_nothing(when_keyword_scan(children, from as int));
        assert(tokens_view(before_when@) =~= Seq::empty());
    }
    let mut at: usize = from;
    while at < line.children.len()
        invariant
            from <= at <= line.children.len(),
            children == line@.children,
            children.len() == line.children.len(),
            forall|i: int| 0 <= i < children.len() ==> #[trigger] children[i] == line.children@[i]@,
            when_keyword_scan(children, from as int) == scanned_after(
                tokens_view(before_when@),
                when_keyword_scan(children, at as int),
            ),
        decreases line.children.len() - at,
    {
        let next = &line.children[at];
        let ghost before = tokens_view(before_when@);
        proof {
            lemma_fragment_view(next);
        }
        match next.kind {
            FragmentKind::Comment => {
                push_token(&mut before_when, next.text.clone(), SpaceType::Normal);
                proof {
                    assert(tokens_view(before_when@) =~= before + seq![normal(next@.text)]);
                    lemma_scanned_after_after(
                        before,
                        seq![normal(next@.text)],
                        when_keyword_scan(children, at + 1),
                    );
                }
            },
            FragmentKind::WhenKeyword => {
                proof {
                    assert(before + Seq::<RenderToken>::empty() =~= before);
                }
                let keyword = PrintInfo::new(
                    normalize_keyword(next.text.as_str()),
                    SpaceType::Normal,
                );
                return Ok((before_when, Some(keyword), at + 1));
            },
            FragmentKind::Whitespace => {},
            _ => {
                return Err(FormatError::StructuralMismatch);
            },
        }
        at += 1;
    }
    proof {
        assert(tokens_view(before_when@) + Seq::<RenderToken>::empty() =~= tokens_view(
            before_when@,
        ));
    }
    Ok((before_when, None, at))
}

/// Scans from position `from` to the expression after `WHEN`.
fn get_to_expression(line: &Fragment, from: usize) -> (result: Result<
    (Vec<PrintInfo>, Vec<PrintInfo>, usize),
    FormatError,
>)
    requires
        from <= line.children.len(),
    ensures
        scan_matches(
            result,
            |tokens: Vec<PrintInfo>| tokens_view(tokens@),
            when_expression_scan(line@.children, from as int),
        ),
        result matches Ok((_, _, next)) ==> next <= line.children.len(),
{
    let mut before_expr = Vec::new();
    let ghost children = line@.children;
    proof {
        lemma_fragment_view(line);
        lemma_scanned_after_nothing(when_expression_scan(children, from as int));
        assert(tokens_view(before_expr@) =~= Seq::empty());
    }
    let mut at: usize = from;
    while at < line.children.len()
        invariant
            from <= at <= line.children.len(),
            children == line@.children,
            children.len() == line.children.len(),
            forall|i: int| 0 <= i < children.len() ==> #[trigger] children[i] == line.children@[i]@,
            when_expression_scan(children, from as int) == scanned_after(
                tokens_view(before_expr@),
                when_expression_scan(children, at as int),
            ),
        decreases line.children.len() - at,
    {
        let next = &line.children[at];
        let ghost before = tokens_view(before_expr@);
        proof {
            lemma_fragment_view(next);
        }
        match next.kind {
            FragmentKind::Comment => {
                push_token(&mut before_expr, next.text.clone(), SpaceType::Normal);
                proof {
                    assert(tokens_view(before_expr@) =~= before + seq![normal(next@.text)]);
                    lemma_scanned_after_after(
                        before,
                        seq![normal(next@.text)],
                        when_expression_scan(children, at + 1),
                    );
                }
            },
            FragmentKind::Expression => {
                proof {
                    assert(before + Seq::<RenderToken>::empty() =~= before);
                }
                return match format_expression(next, true) {
                    Ok(tokens) => Ok((before_expr, tokens, at + 1)),
                    Err(error) => Err(error),
                };
            },
            FragmentKind::Whitespace => {},
            _ => {
                return Err(FormatError::StructuralMismatch);
            },
        }
        at += 1;
    }
    Err(FormatError::StructuralMismatch)
}

/// The comments of the line from position `from` on.
fn comments_to_end(line: &Fragment, from: usize) -> (comments: Vec<PrintInfo>)
    requires
        from <= line.children.len(),
    ensures
        tokens_view(comments@) == trailing_comments(line@.children, from as int),
{
    let mut comments = Vec::new();
    let ghost children = line@.children;
    proof {
        lemma_fragment_view(line);
        assert(tokens_view(comments@) + trailing_comments(children, from as int)
            =~= trailing_comments(children, from as int));
    }
    let mut at: usize = from;
    while at < line.children.len()
        invariant
            from <= at <= line.children.len(),
            children == line@.children,
            children.len() == line.children.len(),
            forall|i: int| 0 <= i < children.len() ==> #[trigger] children[i] == line.children@[i]@,
            trailing_comments(children, from as int) == tokens_view(comments@) + trailing_comments(
                children,
                at as int,
            ),
        decreases line.children.len() - at,
    {
        let next = &line.children[at];
        let ghost before = tokens_view(comments@);
        proof {
            lemma_fragment_view(next);
        }
        if next.kind == FragmentKind::Comment {
            push_token(&mut comments, next.text.clone(), SpaceType::Normal);
            assert(before + (seq![normal(next@.text)] + trailing_comments(children, at + 1))
                =~= before.push(normal(next@.text)) + trailing_comments(children, at + 1));
        }
        at += 1;
    }
    assert(tokens_view(comments@) + trailing_comments(children, at as int) =~= tokens_view(
        comments@,
    ));
    comments
}

} // verus!
