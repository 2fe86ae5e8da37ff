use abl_formatter::assign::{
    format_assign, format_assign_lines, format_assign_single_line, AssignLinePrintInfo,
};
use abl_formatter::fragment::{Fragment, FragmentKind};
use abl_formatter::render::render_tokens;
use abl_formatter::temp_table::{
    format_temp_table, format_temp_table_fields, format_temp_table_like,
    format_temp_table_single_field, FieldInfo,
};
use abl_formatter::token::{PrintInfo, SpaceType};
use abl_formatter::FormatError;

fn leaf(kind: FragmentKind, text: &str) -> Fragment {
    Fragment::leaf(kind, text)
}

fn node(kind: FragmentKind, children: Vec<Fragment>) -> Fragment {
    Fragment::new(kind, String::new(), children)
}

fn token(text: &str, spacing: SpaceType) -> PrintInfo {
    PrintInfo::new(text.to_string(), spacing)
}

fn normal(text: &str) -> PrintInfo {
    token(text, SpaceType::Normal)
}

fn line_break() -> PrintInfo {
    token("\n", SpaceType::LineBreak)
}

fn value(text: &str) -> Fragment {
    node(
        FragmentKind::Expression,
        vec![node(FragmentKind::Datatype, vec![leaf(FragmentKind::Other, text)])],
    )
}

fn assignment(target: &str, text: &str) -> Fragment {
    node(
        FragmentKind::AssignLine,
        vec![
            leaf(FragmentKind::Variable, target),
            leaf(FragmentKind::Whitespace, " "),
            leaf(FragmentKind::Equals, "="),
            leaf(FragmentKind::Whitespace, " "),
            value(text),
        ],
    )
}

fn field(name: &str, datatype: &str) -> Fragment {
    node(
        FragmentKind::TempTableField,
        vec![
            leaf(FragmentKind::FieldKeyword, "field"),
            leaf(FragmentKind::Whitespace, " "),
            leaf(FragmentKind::Variable, name),
            leaf(FragmentKind::Whitespace, " "),
            leaf(FragmentKind::AslikeKeyword, "as"),
            leaf(FragmentKind::Whitespace, " "),
            leaf(FragmentKind::Keyword, datatype),
        ],
    )
}

#[test]
fn a_line_takes_part_with_the_length_of_its_target() {
    let line = AssignLinePrintInfo::new(
        vec![normal("/*c*/")],
        "total".to_string(),
        vec![normal("=")],
        vec![normal("1")],
        vec![],
        Some(normal("WHEN")),
        vec![],
        vec![normal("TRUE")],
        vec![],
    );
    assert_eq!(line.variable, "total");
    assert_eq!(line.variable_len, 5);
    assert_eq!(line.before_var, vec![normal("/*c*/")]);
    assert_eq!(line.before_assign_expr, vec![normal("=")]);
    assert_eq!(line.assign_expr, vec![normal("1")]);
    assert_eq!(line.pre_when, vec![]);
    assert_eq!(line.when, Some(normal("WHEN")));
    assert_eq!(line.pre_when_expr, vec![]);
    assert_eq!(line.when_expr, vec![normal("TRUE")]);
    assert_eq!(line.end, vec![]);
    let accent = AssignLinePrintInfo::new(
        vec![],
        "pâté".to_string(),
        vec![],
        vec![],
        vec![],
        None,
        vec![],
        vec![],
        vec![],
    );
    assert_eq!(accent.variable_len, 6);
}

#[test]
fn assignment_targets_share_a_column() {
    let mut second = assignment("bb", "2");
    second.children.push(leaf(FragmentKind::Whitespace, " "));
    second.children.push(leaf(FragmentKind::WhenKeyword, "when"));
    second.children.push(leaf(FragmentKind::Whitespace, " "));
    second.children.push(node(
        FragmentKind::Expression,
        vec![leaf(FragmentKind::Logical, "true")],
    ));
    let assign = node(
        FragmentKind::AssignStatement,
        vec![
            leaf(FragmentKind::AssignKeyword, "assign"),
            leaf(FragmentKind::Whitespace, " "),
            node(FragmentKind::AssignLines, vec![assignment("a", "1"), second]),
        ],
    );
    let tokens = format_assign(&assign).unwrap();
    assert_eq!(
        tokens,
        vec![
            normal("ASSIGN"),
            normal("a "),
            normal("="),
            normal("1"),
            line_break(),
            normal("bb"),
            normal("="),
            normal("2"),
            normal("WHEN"),
            normal("TRUE"),
            line_break(),
        ]
    );
    assert_eq!(tokens[1].line.len(), 2);
    assert_eq!(tokens[5].line.len(), 2);
    assert_eq!(
        render_tokens(&tokens, 0),
        "ASSIGN a = 1\n\t bb = 2 WHEN TRUE\n\t"
    );
}

#[test]
fn assignment_targets_of_lengths_3_7_1_are_padded_to_7() {
    let lines = node(
        FragmentKind::AssignLines,
        vec![
            assignment("abc", "1"),
            assignment("abcdefg", "2"),
            assignment("a", "3"),
        ],
    );
    let tokens = format_assign_lines(&lines).unwrap();
    assert_eq!(tokens.len(), 12);
    assert_eq!(tokens[0], normal("abc    "));
    assert_eq!(tokens[4], normal("abcdefg"));
    assert_eq!(tokens[8], normal("a      "));
}

#[test]
fn a_single_assignment_is_not_padded() {
    let lines = node(FragmentKind::AssignLines, vec![assignment("total", "1")]);
    assert_eq!(
        format_assign_lines(&lines),
        Ok(vec![normal("total"), normal("="), normal("1"), line_break()])
    );
    let none = node(FragmentKind::AssignLines, vec![]);
    assert_eq!(format_assign_lines(&none), Ok(vec![]));
}

#[test]
fn an_assignment_compares_with_mnemonics() {
    let line = node(
        FragmentKind::AssignLine,
        vec![
            leaf(FragmentKind::Variable, "ok"),
            leaf(FragmentKind::Equals, "="),
            node(
                FragmentKind::Expression,
                vec![
                    leaf(FragmentKind::Variable, "a"),
                    leaf(FragmentKind::Operator, "="),
                    leaf(FragmentKind::Variable, "b"),
                ],
            ),
        ],
    );
    let row = format_assign_single_line(&line).unwrap();
    assert_eq!(row.before_assign_expr, vec![normal("=")]);
    assert_eq!(row.assign_expr, vec![normal("a"), normal("EQ"), normal("b")]);
    assert_eq!(row.when, None);
}

#[test]
fn comments_of_an_assignment_stay_where_they_are() {
    let line = node(
        FragmentKind::AssignLine,
        vec![
            leaf(FragmentKind::Comment, "/*1*/"),
            leaf(FragmentKind::Variable, "a"),
            leaf(FragmentKind::Comment, "/*2*/"),
            leaf(FragmentKind::Equals, "="),
            leaf(FragmentKind::Comment, "/*3*/"),
            value("1"),
            leaf(FragmentKind::Comment, "/*4*/"),
            leaf(FragmentKind::WhenKeyword, "When"),
            leaf(FragmentKind::Comment, "/*5*/"),
            value("2"),
            leaf(FragmentKind::Variable, "dropped"),
            leaf(FragmentKind::Comment, "/*6*/"),
        ],
    );
    let row = format_assign_single_line(&line).unwrap();
    assert_eq!(row.before_var, vec![normal("/*1*/")]);
    assert_eq!(row.variable, "a");
    assert_eq!(row.variable_len, 1);
    assert_eq!(row.before_assign_expr, vec![normal("/*2*/"), normal("="), normal("/*3*/")]);
    assert_eq!(row.assign_expr, vec![normal("1")]);
    assert_eq!(row.pre_when, vec![normal("/*4*/")]);
    assert_eq!(row.when, Some(normal("WHEN")));
    assert_eq!(row.pre_when_expr, vec![normal("/*5*/")]);
    assert_eq!(row.when_expr, vec![normal("2")]);
    assert_eq!(row.end, vec![normal("/*6*/")]);
}

#[test]
fn an_assignment_without_its_parts_is_a_mismatch() {
    let no_target = node(FragmentKind::AssignLine, vec![leaf(FragmentKind::Whitespace, " ")]);
    assert_eq!(
        format_assign_single_line(&no_target),
        Err(FormatError::StructuralMismatch)
    );
    let no_value = node(
        FragmentKind::AssignLine,
        vec![leaf(FragmentKind::Variable, "a"), leaf(FragmentKind::Equals, "=")],
    );
    assert_eq!(
        format_assign_single_line(&no_value),
        Err(FormatError::StructuralMismatch)
    );
    let mut no_condition = assignment("a", "1");
    no_condition.children.push(leaf(FragmentKind::WhenKeyword, "when"));
    assert_eq!(
        format_assign_single_line(&no_condition),
        Err(FormatError::StructuralMismatch)
    );
    let mut stray = assignment("a", "1");
    stray.children.push(leaf(FragmentKind::Keyword, "no-error"));
    assert_eq!(
        format_assign_single_line(&stray),
        Err(FormatError::StructuralMismatch)
    );
    let early = node(
        FragmentKind::AssignLine,
        vec![leaf(FragmentKind::Equals, "="), leaf(FragmentKind::Variable, "a")],
    );
    assert_eq!(
        format_assign_single_line(&early),
        Err(FormatError::StructuralMismatch)
    );
}

#[test]
fn a_failing_line_fails_the_assignment() {
    let lines = node(
        FragmentKind::AssignLines,
        vec![
            assignment("a", "1"),
            node(FragmentKind::AssignLine, vec![]),
            assignment("b", "2"),
        ],
    );
    assert_eq!(format_assign_lines(&lines), Err(FormatError::StructuralMismatch));
    let assign = node(
        FragmentKind::AssignStatement,
        vec![leaf(FragmentKind::Keyword, "assign")],
    );
    assert_eq!(format_assign(&assign), Err(FormatError::StructuralMismatch));
}

#[test]
fn an_assignment_keeps_its_keywords_and_frame() {
    let assign = node(
        FragmentKind::AssignStatement,
        vec![
            leaf(FragmentKind::AssignKeyword, "Assign"),
            leaf(FragmentKind::InputKeyword, "input"),
            leaf(FragmentKind::FramebrowseKeyword, "frame"),
            leaf(FragmentKind::Variable, "fMain"),
            leaf(FragmentKind::NoerrorKeyword, "no-error"),
        ],
    );
    assert_eq!(
        format_assign(&assign),
        Ok(vec![
            normal("ASSIGN"),
            normal("INPUT"),
            normal("FRAME"),
            normal("fMain"),
            normal("NO-ERROR"),
        ])
    );
}

#[test]
fn a_field_is_kept_as_it_is_given() {
    let info = FieldInfo::new(
        "FIELD".to_string(),
        "id".to_string(),
        2,
        " AS INTEGER".to_string(),
    );
    assert_eq!(info.before_variable, "FIELD");
    assert_eq!(info.variable, "id");
    assert_eq!(info.variable_length, 2);
    assert_eq!(info.after_variable, " AS INTEGER");
}

#[test]
fn a_field_is_read_in_three_parts() {
    let mut fragment = field("custNum", "integer");
    fragment.children.insert(1, leaf(FragmentKind::Comment, "/*key*/"));
    fragment.children.insert(1, leaf(FragmentKind::Newline, "\n"));
    let info = format_temp_table_single_field(&fragment).unwrap();
    assert_eq!(info.before_variable, "FIELD\n/* key */");
    assert_eq!(info.variable, "custNum");
    assert_eq!(info.variable_length, 7);
    assert_eq!(info.after_variable, " as INTEGER");
}

#[test]
fn a_field_without_a_name_is_a_mismatch() {
    let nameless = node(
        FragmentKind::TempTableField,
        vec![leaf(FragmentKind::FieldKeyword, "field")],
    );
    assert_eq!(
        format_temp_table_single_field(&nameless),
        Err(FormatError::StructuralMismatch)
    );
    let empty = node(FragmentKind::TempTableField, vec![]);
    assert_eq!(
        format_temp_table_single_field(&empty),
        Err(FormatError::StructuralMismatch)
    );
    let stray = node(
        FragmentKind::TempTableField,
        vec![leaf(FragmentKind::Operator, "+"), leaf(FragmentKind::Variable, "a")],
    );
    assert_eq!(
        format_temp_table_single_field(&stray),
        Err(FormatError::StructuralMismatch)
    );
}

#[test]
fn field_names_share_a_column() {
    let fields = node(
        FragmentKind::TempTableFields,
        vec![
            field("id", "integer"),
            field("name", "character"),
            field("x", "logical"),
        ],
    );
    let tokens = format_temp_table_fields(&fields).unwrap();
    assert_eq!(
        tokens,
        vec![
            normal("FIELD id   as INTEGER"),
            line_break(),
            normal("FIELD name as CHARACTER"),
            line_break(),
            normal("FIELD x    as LOGICAL"),
            line_break(),
        ]
    );
    assert_eq!(
        render_tokens(&tokens, 0),
        "FIELD id   as INTEGER\n\t FIELD name as CHARACTER\n\t FIELD x    as LOGICAL\n\t"
    );
}

#[test]
fn field_names_of_lengths_3_7_1_are_padded_to_7() {
    let fields = node(
        FragmentKind::TempTableFields,
        vec![
            field("abc", "integer"),
            field("abcdefg", "integer"),
            field("a", "integer"),
        ],
    );
    assert_eq!(
        format_temp_table_fields(&fields),
        Ok(vec![
            normal("FIELD abc     as INTEGER"),
            line_break(),
            normal("FIELD abcdefg as INTEGER"),
            line_break(),
            normal("FIELD a       as INTEGER"),
            line_break(),
        ])
    );
    let single = node(FragmentKind::TempTableFields, vec![field("abc", "integer")]);
    assert_eq!(
        format_temp_table_fields(&single),
        Ok(vec![normal("FIELD abc as INTEGER"), line_break()])
    );
}

#[test]
fn a_failing_field_fails_the_list() {
    let fields = node(
        FragmentKind::TempTableFields,
        vec![field("id", "integer"), node(FragmentKind::TempTableField, vec![])],
    );
    assert_eq!(
        format_temp_table_fields(&fields),
        Err(FormatError::StructuralMismatch)
    );
}

#[test]
fn a_temp_table_is_formatted_with_its_fields() {
    let table = node(
        FragmentKind::DefineTempTable,
        vec![
            leaf(FragmentKind::DefineKeyword, "define"),
            leaf(FragmentKind::Whitespace, " "),
            leaf(FragmentKind::TemptableKeyword, "temp-table"),
            leaf(FragmentKind::Variable, "ttOrder"),
            leaf(FragmentKind::Keyword, "no-undo"),
            leaf(FragmentKind::Newline, "\n"),
            node(FragmentKind::TempTableFields, vec![field("id", "integer")]),
        ],
    );
    assert_eq!(
        format_temp_table(&table),
        Ok(vec![
            normal("DEFINE"),
            normal("TEMP-TABLE"),
            normal("ttOrder"),
            normal("NO-UNDO"),
            token("\n", SpaceType::LineBreak),
            normal("FIELD id as INTEGER"),
            line_break(),
        ])
    );
    let unknown = node(
        FragmentKind::DefineTempTable,
        vec![leaf(FragmentKind::Operator, "+")],
    );
    assert_eq!(format_temp_table(&unknown), Err(FormatError::StructuralMismatch));
}

#[test]
fn a_like_clause_is_formatted() {
    let like = node(
        FragmentKind::TempTableLike,
        vec![
            leaf(FragmentKind::LikeKeyword, "like"),
            leaf(FragmentKind::Whitespace, " "),
            leaf(FragmentKind::Variable, "Customer"),
            leaf(FragmentKind::Whitespace, "\n"),
            leaf(FragmentKind::Keyword, "validate"),
        ],
    );
    assert_eq!(
        format_temp_table_like(&like),
        Ok(vec![
            normal("LIKE"),
            normal("Customer"),
            token("\n", SpaceType::LineBreak),
            normal("VALIDATE"),
        ])
    );
    let table = node(FragmentKind::DefineTempTable, vec![like]);
    assert_eq!(format_temp_table(&table).unwrap().len(), 4);
    let unknown = node(
        FragmentKind::TempTableLike,
        vec![leaf(FragmentKind::Comment, "/*c*/")],
    );
    assert_eq!(
        format_temp_table_like(&unknown),
        Err(FormatError::StructuralMismatch)
    );
}
