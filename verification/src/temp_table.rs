//! Temp-table definitions. The fields of a temp-table are a declaration
//! group: their names are padded to the width of the longest.

use crate::align::{align_identifier, lemma_widest_prefix, widest};
use crate::error::FormatError;
use crate::fragment::{lemma_fragment_view, Fragment, FragmentKind, FragmentView};
use crate::normalize::normalize_keyword;
use crate::outside::{aligned, uppercased};
use crate::text::{byte_len, byte_length};
use crate::token::{
    after, append_tokens, followed_by, lemma_after_after, lemma_after_nothing, line_break, normal,
    push_token, tokens_outcome, tokens_view, PrintInfo, RenderToken, SpaceType,
};
use crate::trivia::{
    comment_outcome, format_comment, format_whitespace, whitespace_list, whitespace_token,
    whitespace_tokens,
};
use vstd::prelude::*;

verus! {

/// One field of a temp-table: the text before its name, the name, the
/// length by which the name takes part in the alignment, and the text
/// after the name.
#[derive(Clone, Debug, PartialEq, Eq)]
pub struct FieldInfo {
    pub before_variable: String,
    pub variable: String,
    pub variable_length: usize,
    pub after_variable: String,
}

/// The mathematical value of a [`FieldInfo`].
pub ghost struct FieldInfoView {
    pub before_variable: Seq<char>,
    pub variable: Seq<char>,
    pub variable_length: nat,
    pub after_variable: Seq<char>,
}

impl View for FieldInfo {
    type V = FieldInfoView;

    open spec fn view(&self) -> FieldInfoView {
        FieldInfoView {
            before_variable: self.before_variable@,
            variable: self.variable@,
            variable_length: self.variable_length as nat,
            after_variable: self.after_variable@,
        }
    }
}

impl FieldInfo {
    /// A field from its parts, kept as they are given.
    pub fn new(
        before_variable: String,
        variable: String,
        variable_length: usize,
        after_variable: String,
    ) -> (field: Self)
        ensures
            field@ == (FieldInfoView {
                before_variable: before_variable@,
                variable: variable@,
                variable_length: variable_length as nat,
                after_variable: after_variable@,
            }),
    {
        Self { before_variable, variable, variable_length, after_variable }
    }
}

/// The values of a sequence of fields, one for one.
pub open spec fn fields_view(fields: Seq<FieldInfo>) -> Seq<FieldInfoView> {
    fields.map_values(|field: FieldInfo| field@)
}

/// What stands in a field up to its name: the text before the name, the
/// name, and the position after it.
pub ghost struct FieldStart {
    pub before: Seq<char>,
    pub variable: Seq<char>,
    pub next: int,
}

/// The outcome `later`, with `earlier` put in front of the text before the
/// name when it succeeded.
pub open spec fn field_start_after(earlier: Seq<char>, later: Result<FieldStart, FormatError>)
    -> Result<FieldStart, FormatError> {
    match later {
        Ok(start) => Ok(
            FieldStart { before: earlier + start.before, variable: start.variable, next: start.next },
        ),
        Err(error) => Err(error),
    }
}

/// The text that a fragment before the name of a field contributes.
pub open spec fn field_start_piece(child: FragmentView) -> Result<Seq<char>, FormatError> {
    match child.kind {
        FragmentKind::FieldKeyword | FragmentKind::AslikeKeyword | FragmentKind::Keyword => Ok(
            uppercased(child.text),
        ),
        FragmentKind::Whitespace | FragmentKind::Newline => match whitespace_token(child) {
            Some(token) => Ok(token.text),
            None => Ok(Seq::empty()),
        },
        FragmentKind::Comment => comment_outcome(child.text),
        _ => Err(FormatError::StructuralMismatch),
    }
}

/// Reads the fragments of a field from `at` up to its name. A field
/// without a name fails.
pub open spec fn field_start(children: Seq<FragmentView>, at: int) -> Result<
    FieldStart,
    FormatError,
>
    decreases children.len() - at,
{
    if at < 0 || at >= children.len() {
        Err(FormatError::StructuralMismatch)
    } else if children[at].kind == FragmentKind::Variable {
        Ok(FieldStart { before: Seq::empty(), variable: children[at].text, next: at + 1 })
    } else {
        match field_start_piece(children[at]) {
            Ok(piece) => field_start_after(piece, field_start(children, at + 1)),
            Err(error) => Err(error),
        }
    }
}

/// The text of the fragments of a field from `at` on: keywords uppercased,
/// anything else as it is.
pub open spec fn field_end(children: Seq<FragmentView>, at: int) -> Seq<char>
    decreases children.len() - at,
{
    if at < 0 || at >= children.len() {
        Seq::empty()
    } else {
        (if children[at].kind == FragmentKind::Keyword {
            uppercased(children[at].text)
        } else {
            children[at].text
        }) + field_end(children, at + 1)
    }
}

/// What a field fragment holds.
pub open spec fn field_info(field: FragmentView) -> Result<FieldInfoView, FormatError> {
    match field_start(field.children, 0) {
        Ok(start) => Ok(
            FieldInfoView {
                before_variable: start.before,
                variable: start.variable,
                variable_length: byte_length(start.variable),
                after_variable: field_end(field.children, start.next),
            },
        ),
        Err(error) => Err(error),
    }
}

/// What the first `count` field fragments hold, or the first error among
/// them.
pub open spec fn field_infos(children: Seq<FragmentView>, count: nat) -> Result<
    Seq<FieldInfoView>,
    FormatError,
>
    decreases count,
{
    if count == 0 {
        Ok(Seq::empty())
    } else {
        match field_infos(children, (count - 1) as nat) {
            Ok(fields) => match field_info(children[count - 1]) {
                Ok(field) => Ok(fields.push(field)),
                Err(error) => Err(error),
            },
            Err(error) => Err(error),
        }
    }
}

/// The lengths by which the fields take part in the alignment.
pub open spec fn field_lengths(fields: Seq<FieldInfoView>) -> Seq<nat> {
    fields.map_values(|field: FieldInfoView| field.variable_length)
}

/// The line of a field in a group of the given width: the text before the
/// name, a space, the name padded to the width, and the text after it.
pub open spec fn field_line(field: FieldInfoView, width: nat) -> Seq<char> {
    field.before_variable + seq![' '] + aligned(field.variable, width) + field.after_variable
}

/// The tokens of the first `count` fields in a group of the given width:
/// for each field its line and a line break.
pub open spec fn field_lines(fields: Seq<FieldInfoView>, count: nat, width: nat) -> Seq<
    RenderToken,
>
    decreases count,
{
    if count == 0 {
        Seq::empty()
    } else {
        field_lines(fields, (count - 1) as nat, width) + seq![
            normal(field_line(fields[count - 1], width)),
            line_break(),
        ]
    }
}

/// The tokens of the field list of a temp-table.
pub open spec fn temp_table_fields_tokens(fields: FragmentView) -> Result<
    Seq<RenderToken>,
    FormatError,
> {
    match field_infos(fields.children, fields.children.len()) {
        Ok(infos) => Ok(field_lines(infos, infos.len(), widest(field_lengths(infos), infos.len()))),
        Err(error) => Err(error),
    }
}

/// What one fragment of a `LIKE` clause adds to its tokens.
pub open spec fn temp_table_like_item(child: FragmentView) -> Result<
    Seq<RenderToken>,
    FormatError,
> {
    match child.kind {
        FragmentKind::LikeKeyword | FragmentKind::Keyword => Ok(
            seq![normal(uppercased(child.text))],
        ),
        FragmentKind::Variable => Ok(seq![normal(child.text)]),
        FragmentKind::Whitespace | FragmentKind::Newline => Ok(whitespace_tokens(child)),
        _ => Err(FormatError::StructuralMismatch),
    }
}

/// The tokens of the fragments of a `LIKE` clause from `at` on.
pub open spec fn temp_table_like_tokens(children: Seq<FragmentView>, at: int) -> Result<
    Seq<RenderToken>,
    FormatError,
>
    decreases children.len() - at,
{
    if at < 0 || at >= children.len() {
        Ok(Seq::empty())
    } else {
        followed_by(temp_table_like_item(children[at]), temp_table_like_tokens(children, at + 1))
    }
}

/// What one fragment of a temp-table definition adds to its tokens.
pub open spec fn temp_table_item(child: FragmentView) -> Result<Seq<RenderToken>, FormatError> {
    match child.kind {
        FragmentKind::DefineKeyword | FragmentKind::Keyword | FragmentKind::TemptableKeyword => Ok(
            seq![normal(uppercased(child.text))],
        ),
        FragmentKind::Variable => Ok(seq![normal(child.text)]),
        FragmentKind::TempTableLike => temp_table_like_tokens(child.children, 0),
        FragmentKind::TempTableFields => temp_table_fields_tokens(child),
        FragmentKind::Whitespace | FragmentKind::Newline => Ok(whitespace_tokens(child)),
        _ => Err(FormatError::StructuralMismatch),
    }
}

/// The tokens of the fragments of a temp-table definition from `at` on.
pub open spec fn temp_table_tokens(children: Seq<FragmentView>, at: int) -> Result<
    Seq<RenderToken>,
    FormatError,
>
    decreases children.len() - at,
{
    if at < 0 || at >= children.len() {
        Ok(Seq::empty())
    } else {
        followed_by(temp_table_item(children[at]), temp_table_tokens(children, at + 1))
    }
}

/// Formats a temp-table definition: its keywords in uppercase, its name,
/// and its `LIKE` clause or its fields.
pub fn format_temp_table(temp_table: &Fragment) -> (result: Result<Vec<PrintInfo>, FormatError>)
    ensures
        tokens_outcome(result) == temp_table_tokens(temp_table@.children, 0),
{
    let mut print_list = Vec::new();
    let ghost children = temp_table@.children;
    proof {
        lemma_fragment_view(temp_table);
        lemma_after_nothing(temp_table_tokens(children, 0));
    }
    let mut at: usize = 0;
    while at < temp_table.children.len()
        invariant
            at <= temp_table.children.len(),
            children == temp_table@.children,
            children.len() == temp_table.children.len(),
            forall|i: int|
                0 <= i < children.len() ==> #[trigger] children[i] == temp_table.children@[i]@,
            temp_table_tokens(children, 0) == after(
                tokens_view(print_list@),
                temp_table_tokens(children, at as int),
            ),
        decreases temp_table.children.len() - at,
    {
        let child = &temp_table.children[at];
        let ghost before = tokens_view(print_list@);
        let ghost rest = temp_table_tokens(children, at + 1);
        proof {
            lemma_fragment_view(child);
        }
        match child.kind {
            FragmentKind::DefineKeyword
            | FragmentKind::Keyword
            | FragmentKind::TemptableKeyword => push_token(
                &mut print_list,
                normalize_keyword(child.text.as_str()),
                SpaceType::Normal,
            ),
            FragmentKind::Variable => push_token(
                &mut print_list,
                child.text.clone(),
                SpaceType::Normal,
            ),
            FragmentKind::TempTableLike => match format_temp_table_like(child) {
                Ok(tokens) => append_tokens(&mut print_list, tokens),
                Err(error) => {
                    return Err(error);
                },
            },
            FragmentKind::TempTableFields => match format_temp_table_fields(child) {
                Ok(tokens) => append_tokens(&mut print_list, tokens),
                Err(error) => {
                    return Err(error);
                },
            },
            FragmentKind::Whitespace | FragmentKind::Newline => append_tokens(
                &mut print_list,
                whitespace_list(child),
            ),
            _ => {
                return Err(FormatError::StructuralMismatch);
            },
        }
        proof {
            let here = temp_table_item(children[at as int])->Ok_0;
            assert(tokens_view(print_list@) =~= before + here);
            lemma_after_after(before, here, rest);
        }
        at += 1;
    }
    Ok(print_list)
}

/// Formats the `LIKE` clause of a temp-table definition.
pub fn format_temp_table_like(like_field: &Fragment) -> (result: Result<
    Vec<PrintInfo>,
    FormatError,
>)
    ensures
        tokens_outcome(result) == temp_table_like_tokens(like_field@.children, 0),
{
    let mut print_list = Vec::new();
    let ghost children = like_field@.children;
    proof {
        lemma_fragment_view(like_field);
        lemma_after_nothing(temp_table_like_tokens(children, 0));
    }
    let mut at: usize = 0;
    while at < like_field.children.len()
        invariant
            at <= like_field.children.len(),
            children == like_field@.children,
            children.len() == like_field.children.len(),
            forall|i: int|
                0 <= i < children.len() ==> #[trigger] children[i] == like_field.children@[i]@,
            temp_table_like_tokens(children, 0) == after(
                tokens_view(print_list@),
                temp_table_like_tokens(children, at as int),
            ),
        decreases like_field.children.len() - at,
    {
        let child = &like_field.children[at];
        let ghost before = tokens_view(print_list@);
        let ghost rest = temp_table_like_tokens(children, at + 1);
        proof {
            lemma_fragment_view(child);
        }
        match child.kind {
            FragmentKind::LikeKeyword | FragmentKind::Keyword => push_token(
                &mut print_list,
                normalize_keyword(child.text.as_str()),
                SpaceType::Normal,
            ),
            FragmentKind::Variable => push_token(
                &mut print_list,
                child.text.clone(),
                SpaceType::Normal,
            ),
            FragmentKind::Whitespace | FragmentKind::Newline => append_tokens(
                &mut print_list,
                whitespace_list(child),
            ),
            _ => {
                return Err(FormatError::StructuralMismatch);
            },
        }
        proof {
            let here = temp_table_like_item(children[at as int])->Ok_0;
            assert(tokens_view(print_list@) =~= before + here);
            lemma_after_after(before, here, rest);
        }
        at += 1;
    }
    Ok(print_list)
}

/// Formats the field list of a temp-table: one line for each field, with
/// the names padded to the width of the longest.
pub fn format_temp_table_fields(fields: &Fragment) -> (result: Result<Vec<PrintInfo>, FormatError>)
    ensures
        tokens_outcome(result) == temp_table_fields_tokens(fields@),
{
    let mut fields_and_length_list: Vec<FieldInfo> = Vec::new();
    let mut largest_variable_length: usize = 0;
    let ghost children = fields@.children;
    proof {
        lemma_fragment_view(fields);
        assert(fields_view(fields_and_length_list@) =~= Seq::empty());
    }
    let mut at: usize = 0;
    while at < fields.children.len()
        invariant
            at <= fields.children.len(),
            children == fields@.children,
            children.len() == fields.children.len(),
            forall|i: int| 0 <= i < children.len() ==> #[trigger] children[i] == fields.children@[i]@,
            fields_and_length_list.len() == at,
            field_infos(children, at as nat) == Ok::<_, FormatError>(
                fields_view(fields_and_length_list@),
            ),
            largest_variable_length == widest(
                field_lengths(fields_view(fields_and_length_list@)),
                at as nat,
            ),
        decreases fields.children.len() - at,
    {
        let ghost before = fields_view(fields_and_length_list@);
        let next_field = match format_temp_table_single_field(&fields.children[at]) {
            Ok(field) => field,
            Err(error) => {
                proof {
                    lemma_field_infos_fail(children, at as nat, children.len());
                }
                return Err(error);
            },
        };
        if next_field.variable_length > largest_variable_length {
            largest_variable_length = next_field.variable_length;
        }
        fields_and_length_list.push(next_field);
        proof {
            let now = fields_view(fields_and_length_list@);
            assert(now =~= before.push(next_field@));
            lemma_widest_prefix(field_lengths(before), field_lengths(now), at as nat);
        }
        at += 1;
    }
    let ghost infos = fields_view(fields_and_length_list@);
    let mut print_list = Vec::new();
    let mut done: usize = 0;
    proof {
        assert(tokens_view(print_list@) =~= Seq::empty());
    }
    while done < fields_and_length_list.len()
        invariant
            done <= fields_and_length_list.len(),
            infos == fields_view(fields_and_length_list@),
            tokens_view(print_list@) == field_lines(
                infos,
                done as nat,
                largest_variable_length as nat,
            ),
        decreases fields_and_length_list.len() - done,
    {
        let curr = &fields_and_length_list[done];
        let ghost before = tokens_view(print_list@);
        let mut line = String::new();
        proof {
            reveal_strlit(" ");
            assert(" "@ =~= seq![' ']);
        }
        line.append(curr.before_variable.as_str());
        line.append(" ");
        line.append(align_identifier(curr.variable.as_str(), largest_variable_length).as_str());
        line.append(curr.after_variable.as_str());
        assert(line@ =~= field_line(infos[done as int], largest_variable_length as nat));
        push_token(&mut print_list, line, SpaceType::Normal);
        proof {
            reveal_strlit("\n");
            assert("\n"@ =~= seq!['\n']);
        }
        push_token(&mut print_list, String::from_str("\n"), SpaceType::LineBreak);
        assert(tokens_view(print_list@) =~= before + seq![normal(line@), line_break()]);
        done += 1;
    }
    Ok(print_list)
}

/// Once a field fails, the list of fields fails with the same error.
proof fn lemma_field_infos_fail(children: Seq<FragmentView>, failed: nat, count: nat)
    requires
        failed < count,
        field_infos(children, failed) is Ok,
        field_info(children[failed as int]) is Err,
    ensures
        field_infos(children, count) == Err::<Seq<FieldInfoView>, _>(
            field_info(children[failed as int])->Err_0,
        ),
    decreases count,
{
    if count > failed + 1 {
        lemma_field_infos_fail(children, failed, (count - 1) as nat);
    }
}

/// Reads one field of a temp-table.
pub fn format_temp_table_single_field(single_field: &Fragment) -> (result: Result<
    FieldInfo,
    FormatError,
>)
    ensures
        match result {
            Ok(field) => field_info(single_field@) == Ok::<_, FormatError>(field@),
            Err(error) => field_info(single_field@) == Err::<FieldInfoView, _>(error),
        },
{
    match format_temp_table_single_field_process_to_variable(single_field) {
        Ok((before_variable, variable, next)) => {
            let after_variable = format_temp_table_single_field_to_end(single_field, next);
            let variable_len = byte_len(variable.as_str());
            Ok(FieldInfo::new(before_variable, variable, variable_len, after_variable))
        },
        Err(error) => Err(error),
    }
}

/// Reads a field up to its name: the text before the name, the name and
/// the position after it.
fn format_temp_table_single_field_process_to_variable(single_field: &Fragment) -> (result: Result<
    (String, String, usize),
    FormatError,
>)
    ensures
        match result {
            Ok((before, variable, next)) => field_start(single_field@.children, 0) == Ok::<
                _,
                FormatError,
            >(FieldStart { before: before@, variable: variable@, next: next as int }) && next
                <= single_field.children.len(),
            Err(error) => field_start(single_field@.children, 0) == Err::<FieldStart, _>(error),
        },
{
    let mut before_variable_string = String::new();
    let ghost children = single_field@.children;
    proof {
        lemma_fragment_view(single_field);
        lemma_field_start_after_nothing(field_start(children, 0));
    }
    let mut at: usize = 0;
    while at < single_field.children.len()
        invariant
            at <= single_field.children.len(),
            children == single_field@.children,
            children.len() == single_field.children.len(),
            forall|i: int|
                0 <= i < children.len() ==> #[trigger] children[i] == single_field.children@[i]@,
            field_start(children, 0) == field_start_after(
                before_variable_string@,
                field_start(children, at as int),
            ),
        decreases single_field.children.len() - at,
    {
        let next = &single_field.children[at];
        let ghost before = before_variable_string@;
        proof {
            lemma_fragment_view(next);
        }
        match next.kind {
            FragmentKind::FieldKeyword | FragmentKind::AslikeKeyword | FragmentKind::Keyword => {
                before_variable_string.append(normalize_keyword(next.text.as_str()).as_str());
            },
            FragmentKind::Variable => {
                proof {
                    assert(before + Seq::<char>::empty() =~= before);
                }
                return Ok((before_variable_string, next.text.clone(), at + 1));
            },
            FragmentKind::Whitespace | FragmentKind::Newline => {
                if let Some(token) = format_whitespace(next) {
                    before_variable_string.append(token.line.as_str());
                }
                proof {
                    assert(before + Seq::<char>::empty() =~= before);
                }
            },
            FragmentKind::Comment => match format_comment(next) {
                Ok(spaced) => {
                    before_variable_string.append(spaced.as_str());
                },
                Err(error) => {
                    return Err(error);
                },
            },
            _ => {
                return Err(FormatError::StructuralMismatch);
            },
        }
        proof {
            let piece = field_start_piece(children[at as int])->Ok_0;
            assert(before_variable_string@ == before + piece);
            lemma_field_start_after_after(before, piece, field_start(children, at + 1));
        }
        at += 1;
    }
    Err(FormatError::StructuralMismatch)
}

/// Nothing put in front of an outcome leaves it as it is.
proof fn lemma_field_start_after_nothing(later: Result<FieldStart, FormatError>)
    ensures
        field_start_after(Seq::empty(), later) == later,
{
    if let Ok(start) = later {
        assert(Seq::<char>::empty() + start.before =~= start.before);
    }
}

/// Putting text in front of an outcome twice is putting it in front at
/// once, in the same order.
proof fn lemma_field_start_after_after(
    first: Seq<char>,
    second: Seq<char>,
    later: Result<FieldStart, FormatError>,
)
    ensures
        field_start_after(first, field_start_after(second, later)) == field_start_after(
            first + second,
            later,
        ),
{
    if let Ok(start) = later {
        assert(first + (second + start.before) =~= (first + second) + start.before);
    }
}

/// The text of a field from position `from` on.
fn format_temp_table_single_field_to_end(single_field: &Fragment, from: usize) -> (text: String)
    requires
        from <= single_field.children.len(),
    ensures
        text@ == field_end(single_field@.children, from as int),
{
    let mut accum = String::new();
    let ghost children = single_field@.children;
    proof {
        lemma_fragment_view(single_field);
        assert(accum@ + field_end(children, from as int) =~= field_end(children, from as int));
    }
    let mut at: usize = from;
    while at < single_field.children.len()
        invariant
            from <= at <= single_field.children.len(),
            children == single_field@.children,
            children.len() == single_field.children.len(),
            forall|i: int|
                0 <= i < children.len() ==> #[trigger] children[i] == single_field.children@[i]@,
            field_end(children, from as int) == accum@ + field_end(children, at as int),
        decreases single_field.children.len() - at,
    {
        let curr = &single_field.children[at];
        let ghost before = accum@;
        proof {
            lemma_fragment_view(curr);
        }
        match curr.kind {
            FragmentKind::Keyword => {
                accum.append(normalize_keyword(curr.text.as_str()).as_str());
            },
            _ => {
                accum.append(curr.text.as_str());
            },
        }
        proof {
            let piece = if children[at as int].kind == FragmentKind::Keyword {
                uppercased(children[at as int].text)
            } else {
                children[at as int].text
            };
            assert(before + (piece + field_end(children, at + 1)) =~= (before + piece) + field_end(
                children,
                at + 1,
            ));
        }
        at += 1;
    }
    assert(accum@ + field_end(children, at as int) =~= accum@);
    accum
}

} // verus!
