use abl_formatter::datatype::format_datatype;
use abl_formatter::expression::{
    format_accumulate, format_by_expression, format_conditional_expression,
    format_expression, inner_format_expression, BracketFormatting,
};
use abl_formatter::fragment::{Fragment, FragmentKind};
use abl_formatter::function::{format_function, format_function_declaration};
use abl_formatter::render::render_tokens;
use abl_formatter::token::{PrintInfo, SpaceType};
use abl_formatter::FormatError;

fn leaf(kind: FragmentKind, text: &str) -> Fragment {
    Fragment::leaf(kind, text)
}

fn node(kind: FragmentKind, children: Vec<Fragment>) -> Fragment {
    Fragment::new(kind, String::new(), children)
}

fn number(text: &str) -> Fragment {
    node(FragmentKind::Datatype, vec![leaf(FragmentKind::Other, text)])
}

fn token(text: &str, spacing: SpaceType) -> PrintInfo {
    PrintInfo::new(text.to_string(), spacing)
}

fn normal(text: &str) -> PrintInfo {
    token(text, SpaceType::Normal)
}

fn line_break() -> PrintInfo {
    token("\n", SpaceType::LineBreak)
}

fn open() -> Fragment {
    leaf(FragmentKind::LeftParenthesis, "(")
}

fn close() -> Fragment {
    leaf(FragmentKind::RightParenthesis, ")")
}

fn two_clauses() -> Vec<Fragment> {
    vec![
        open(),
        open(),
        leaf(FragmentKind::Variable, "a"),
        leaf(FragmentKind::Operator, ">"),
        number("1"),
        close(),
        leaf(FragmentKind::Operator, "and"),
        open(),
        leaf(FragmentKind::Variable, "b"),
        leaf(FragmentKind::Operator, "<"),
        number("2"),
        close(),
        close(),
    ]
}

#[test]
fn an_empty_expression_has_no_tokens() {
    let expression = node(FragmentKind::Expression, vec![]);
    assert_eq!(format_expression(&expression, false), Ok(vec![]));
}

#[test]
fn keywords_are_uppercased_and_identifiers_kept() {
    let expression = node(
        FragmentKind::Expression,
        vec![
            leaf(FragmentKind::NotKeyword, "not"),
            leaf(FragmentKind::Variable, "myVar"),
            leaf(FragmentKind::Operator, "="),
            leaf(FragmentKind::Logical, "True"),
            leaf(FragmentKind::Keyword, "no-lock"),
            leaf(FragmentKind::Properties, "num-entries"),
            leaf(FragmentKind::TemptableKeyword, "temp-table"),
        ],
    );
    assert_eq!(
        format_expression(&expression, true),
        Ok(vec![
            normal("NOT"),
            normal("myVar"),
            normal("EQ"),
            normal("TRUE"),
            normal("NO-LOCK"),
            normal("NUM-ENTRIES"),
            normal("TEMP-TABLE"),
        ])
    );
    let tokens = format_expression(&expression, false).unwrap();
    assert_eq!(tokens[2], normal("="));
    assert_eq!(render_tokens(&tokens, 0), "NOT myVar = TRUE NO-LOCK NUM-ENTRIES TEMP-TABLE");
}

#[test]
fn a_single_parenthesis_stays_on_the_line() {
    let expression = node(
        FragmentKind::Expression,
        vec![
            open(),
            leaf(FragmentKind::Variable, "a"),
            leaf(FragmentKind::Operator, "+"),
            leaf(FragmentKind::Variable, "b"),
            close(),
            leaf(FragmentKind::Operator, "and"),
            open(),
            leaf(FragmentKind::Variable, "c"),
            close(),
        ],
    );
    let tokens = format_expression(&expression, false).unwrap();
    assert_eq!(
        tokens,
        vec![
            token("(", SpaceType::NoRightPad),
            normal("a"),
            normal("+"),
            normal("b"),
            token(")", SpaceType::NoSpaceBefore),
            normal("AND"),
            token("(", SpaceType::NoRightPad),
            normal("c"),
            token(")", SpaceType::NoSpaceBefore),
        ]
    );
    assert_eq!(render_tokens(&tokens, 0), "(a + b) AND (c)");
}

#[test]
fn two_opening_parentheses_are_stacked() {
    let expression = node(FragmentKind::Expression, two_clauses());
    let tokens = format_expression(&expression, false).unwrap();
    assert_eq!(
        tokens,
        vec![
            line_break(),
            normal("("),
            line_break(),
            token("(", SpaceType::ExtraIndent),
            normal("a"),
            normal("GT"),
            normal("1"),
            token(")", SpaceType::NoSpaceBefore),
            line_break(),
            token("AND", SpaceType::TabAlignRight),
            token("(", SpaceType::NoRightPad),
            normal("b"),
            normal("LT"),
            normal("2"),
            token(")", SpaceType::NoSpaceBefore),
            line_break(),
            token(")", SpaceType::NoSpaceBefore),
        ]
    );
    assert_eq!(
        render_tokens(&tokens, 0),
        " (\n\t\t (a GT 1)\n\tAND\t (b LT 2)\n\t)"
    );
    assert_eq!(
        render_tokens(&tokens, 1),
        "\t (\n\t\t\t (a GT 1)\n\t\tAND\t (b LT 2)\n\t\t)"
    );
}

#[test]
fn the_stacked_layout_is_shared_with_nested_expressions() {
    let mut inner = two_clauses();
    let last = inner.pop().unwrap();
    let first = inner.remove(0);
    let nested = node(
        FragmentKind::Expression,
        vec![first, node(FragmentKind::Expression, inner), last],
    );
    let flat = node(FragmentKind::Expression, two_clauses());
    assert_eq!(
        format_expression(&nested, false),
        format_expression(&flat, false)
    );
}

#[test]
fn parentheses_apart_by_a_line_break_open_in_stacked_mode() {
    let expression = node(
        FragmentKind::Expression,
        vec![
            leaf(FragmentKind::Comment, "/*c*/"),
            open(),
            leaf(FragmentKind::Whitespace, " "),
            leaf(FragmentKind::Whitespace, "\n  "),
            open(),
            leaf(FragmentKind::Variable, "a"),
            close(),
            leaf(FragmentKind::Whitespace, "\n"),
            leaf(FragmentKind::Operator, "or"),
            leaf(FragmentKind::Variable, "b"),
            close(),
        ],
    );
    assert_eq!(
        format_expression(&expression, false),
        Ok(vec![
            normal("/* c */"),
            normal("("),
            line_break(),
            token("(", SpaceType::ExtraIndent),
            normal("a"),
            token(")", SpaceType::NoSpaceBefore),
            line_break(),
            normal("OR"),
            normal("b"),
            token(")", SpaceType::NoSpaceBefore),
        ])
    );
}

#[test]
fn white_space_with_a_line_feed_is_kept_in_flat_mode() {
    let expression = node(
        FragmentKind::Expression,
        vec![
            leaf(FragmentKind::Variable, "a"),
            leaf(FragmentKind::Whitespace, " "),
            leaf(FragmentKind::Operator, "+"),
            leaf(FragmentKind::Whitespace, " \n"),
            leaf(FragmentKind::Variable, "b"),
        ],
    );
    assert_eq!(
        format_expression(&expression, false),
        Ok(vec![
            normal("a"),
            normal("+"),
            token(" \n", SpaceType::LineBreak),
            normal("b"),
        ])
    );
}

#[test]
fn a_balanced_walk_restores_the_count() {
    let expression = node(FragmentKind::Expression, two_clauses());
    for start in [0usize, 1, 5] {
        let mut mode = BracketFormatting::Flat;
        let mut count = start;
        let result = inner_format_expression(&expression, false, &mut mode, &mut count);
        assert!(result.is_ok());
        assert_eq!(count, start);
    }
}

#[test]
fn the_walk_counts_open_parentheses() {
    let expression = node(
        FragmentKind::Expression,
        vec![open(), leaf(FragmentKind::Variable, "a"), open()],
    );
    let mut mode = BracketFormatting::Flat;
    let mut count = 3usize;
    let result = inner_format_expression(&expression, false, &mut mode, &mut count);
    assert_eq!(
        result,
        Ok(vec![
            token("(", SpaceType::NoRightPad),
            normal("a"),
            token("(", SpaceType::NoRightPad),
        ])
    );
    assert_eq!(count, 5);
    assert_eq!(mode, BracketFormatting::Flat);
}

#[test]
fn the_walk_advances_the_mode() {
    let expression = node(FragmentKind::Expression, vec![open()]);
    let mut mode = BracketFormatting::StackedOpen(true, true);
    let mut count = 0usize;
    assert_eq!(
        inner_format_expression(&expression, false, &mut mode, &mut count),
        Ok(vec![normal("("), line_break()])
    );
    assert_eq!(mode, BracketFormatting::StackedOpen(false, true));
    assert_eq!(
        inner_format_expression(&expression, false, &mut mode, &mut count),
        Ok(vec![token("(", SpaceType::ExtraIndent)])
    );
    assert_eq!(mode, BracketFormatting::StackedOpen(false, false));
    assert_eq!(
        inner_format_expression(&expression, false, &mut mode, &mut count),
        Ok(vec![token("(", SpaceType::NoRightPad)])
    );
    assert_eq!(mode, BracketFormatting::StackedOpen(false, false));
    assert_eq!(count, 3);
}

#[test]
fn a_closing_parenthesis_without_an_opening_one_is_a_mismatch() {
    let expression = node(
        FragmentKind::Expression,
        vec![leaf(FragmentKind::Variable, "a"), close()],
    );
    assert_eq!(
        format_expression(&expression, false),
        Err(FormatError::StructuralMismatch)
    );
    let reversed = node(FragmentKind::Expression, vec![close(), open()]);
    assert_eq!(
        format_expression(&reversed, false),
        Err(FormatError::StructuralMismatch)
    );
}

#[test]
fn a_parenthesis_left_open_is_a_mismatch() {
    let expression = node(
        FragmentKind::Expression,
        vec![open(), open(), leaf(FragmentKind::Variable, "a"), close()],
    );
    assert_eq!(
        format_expression(&expression, false),
        Err(FormatError::StructuralMismatch)
    );
}

#[test]
fn an_unexpected_fragment_is_a_mismatch() {
    let expression = node(
        FragmentKind::Expression,
        vec![leaf(FragmentKind::Variable, "a"), leaf(FragmentKind::Comma, ",")],
    );
    assert_eq!(
        format_expression(&expression, false),
        Err(FormatError::StructuralMismatch)
    );
}

#[test]
fn a_count_at_the_limit_overflows() {
    let expression = node(FragmentKind::Expression, vec![open()]);
    let mut mode = BracketFormatting::Flat;
    let mut count = usize::MAX;
    assert_eq!(
        inner_format_expression(&expression, false, &mut mode, &mut count),
        Err(FormatError::Overflow)
    );
}

#[test]
fn datatypes_are_uppercased_but_for_text_in_quotes() {
    let datatype = node(
        FragmentKind::Datatype,
        vec![
            leaf(FragmentKind::Logical, "yes"),
            leaf(FragmentKind::StringLiteral, "\"Hello\""),
            leaf(FragmentKind::Other, "0x1f"),
            node(
                FragmentKind::ArrayData,
                vec![
                    leaf(FragmentKind::LeftSquareBracket, "["),
                    leaf(FragmentKind::Variable, "i"),
                    leaf(FragmentKind::Comma, ","),
                    node(FragmentKind::Datatype, vec![leaf(FragmentKind::Other, "2e3")]),
                    leaf(FragmentKind::RightSquareBracket, "]"),
                ],
            ),
        ],
    );
    let tokens = format_datatype(&datatype).unwrap();
    assert_eq!(
        tokens,
        vec![
            normal("YES"),
            normal("\"Hello\""),
            normal("0X1F"),
            token("[", SpaceType::NoSpaceBefore),
            normal("i"),
            token(",", SpaceType::NoSpaceBefore),
            normal("2E3"),
            token("]", SpaceType::NoSpaceBefore),
        ]
    );
    assert_eq!(render_tokens(&tokens, 0), "YES \"Hello\" 0X1F[ i, 2E3]");
}

#[test]
fn an_array_rejects_what_it_does_not_know() {
    let datatype = node(
        FragmentKind::Datatype,
        vec![node(
            FragmentKind::ArrayData,
            vec![leaf(FragmentKind::Keyword, "x")],
        )],
    );
    assert_eq!(format_datatype(&datatype), Err(FormatError::StructuralMismatch));
}

#[test]
fn function_calls_keep_their_parentheses_close() {
    let function = node(
        FragmentKind::Function,
        vec![
            leaf(FragmentKind::Variable, "substring"),
            leaf(FragmentKind::LeftParenthesis, "("),
            node(
                FragmentKind::FunctionContent,
                vec![
                    node(FragmentKind::Expression, vec![leaf(FragmentKind::Variable, "a")]),
                    leaf(FragmentKind::Comma, ","),
                    leaf(FragmentKind::Whitespace, " "),
                    node(FragmentKind::Expression, vec![number("1")]),
                    leaf(FragmentKind::Comment, "/*x*/"),
                    leaf(FragmentKind::Keyword, "input"),
                    leaf(FragmentKind::Variable, "b"),
                ],
            ),
            leaf(FragmentKind::RightParenthesis, ")"),
        ],
    );
    let tokens = format_function(&function).unwrap();
    assert_eq!(
        tokens,
        vec![
            normal("substring"),
            token("(", SpaceType::NoSpaceBefore),
            normal("a"),
            token(",", SpaceType::NoSpaceBefore),
            normal("1"),
            normal("/* x */"),
            normal("INPUT"),
            normal("b"),
            token(")", SpaceType::NoSpaceBefore),
        ]
    );
    assert_eq!(render_tokens(&tokens, 0), "substring( a, 1 /* x */ INPUT b)");
}

#[test]
fn a_function_in_an_expression_does_not_count_as_a_parenthesis() {
    let expression = node(
        FragmentKind::Expression,
        vec![
            node(
                FragmentKind::Function,
                vec![
                    leaf(FragmentKind::Keyword, "can-find"),
                    leaf(FragmentKind::LeftParenthesis, "("),
                    leaf(FragmentKind::RightParenthesis, ")"),
                ],
            ),
            leaf(FragmentKind::Operator, "<>"),
            number("0"),
        ],
    );
    assert_eq!(
        format_expression(&expression, false),
        Ok(vec![
            normal("CAN-FIND"),
            token("(", SpaceType::NoSpaceBefore),
            token(")", SpaceType::NoSpaceBefore),
            normal("NE"),
            normal("0"),
        ])
    );
}

#[test]
fn a_function_rejects_what_it_does_not_know() {
    let function = node(FragmentKind::Function, vec![leaf(FragmentKind::Comma, ",")]);
    assert_eq!(format_function(&function), Err(FormatError::StructuralMismatch));
    let content = node(
        FragmentKind::Function,
        vec![node(
            FragmentKind::FunctionContent,
            vec![leaf(FragmentKind::Operator, "+")],
        )],
    );
    assert_eq!(format_function(&content), Err(FormatError::StructuralMismatch));
}

#[test]
fn function_declarations_are_formatted() {
    let declaration = node(
        FragmentKind::FunctionDeclaration,
        vec![
            leaf(FragmentKind::FunctionKeyword, "function"),
            leaf(FragmentKind::Whitespace, " "),
            leaf(FragmentKind::Variable, "getTotal"),
            leaf(FragmentKind::Keyword, "returns"),
            leaf(FragmentKind::Keyword, "integer"),
            leaf(FragmentKind::LeftParenthesis, "("),
            node(
                FragmentKind::FunctionContent,
                vec![
                    leaf(FragmentKind::Keyword, "input"),
                    leaf(FragmentKind::Variable, "pId"),
                ],
            ),
            leaf(FragmentKind::RightParenthesis, ")"),
            leaf(FragmentKind::Whitespace, "\n"),
            leaf(FragmentKind::Comment, "/*fwd*/"),
            leaf(FragmentKind::ForwardMarker, "forward"),
        ],
    );
    let tokens = format_function_declaration(&declaration).unwrap();
    assert_eq!(
        tokens,
        vec![
            normal("FUNCTION"),
            normal("getTotal"),
            normal("RETURNS"),
            normal("INTEGER"),
            token("(", SpaceType::NoSpaceBefore),
            normal("INPUT"),
            normal("pId"),
            token(")", SpaceType::NoSpaceBefore),
            token("\n", SpaceType::LineBreak),
            normal("/* fwd */"),
            normal("FORWARD"),
        ]
    );
    let unknown = node(
        FragmentKind::FunctionDeclaration,
        vec![leaf(FragmentKind::Operator, "+")],
    );
    assert_eq!(
        format_function_declaration(&unknown),
        Err(FormatError::StructuralMismatch)
    );
}

#[test]
fn accumulate_clauses_are_formatted() {
    let accumulate = node(
        FragmentKind::Accumulate,
        vec![
            leaf(FragmentKind::AccumulateKeyword, "accumulate"),
            node(FragmentKind::Expression, vec![leaf(FragmentKind::Variable, "amount")]),
            leaf(FragmentKind::AggregatePhrase, "total"),
            leaf(FragmentKind::ByKeyword, "by"),
            leaf(FragmentKind::Comment, "/*k*/"),
            leaf(FragmentKind::Whitespace, " "),
        ],
    );
    assert_eq!(
        format_accumulate(&accumulate),
        Ok(vec![
            normal("ACCUMULATE"),
            normal("amount"),
            normal("TOTAL"),
            normal("BY"),
            normal("/* k */"),
        ])
    );
    let inside = node(FragmentKind::Expression, vec![accumulate]);
    assert_eq!(format_expression(&inside, false).unwrap().len(), 5);
    let unknown = node(
        FragmentKind::Accumulate,
        vec![leaf(FragmentKind::Variable, "x")],
    );
    assert_eq!(format_accumulate(&unknown), Err(FormatError::StructuralMismatch));
}

#[test]
fn an_expression_in_an_accumulate_clause_starts_its_own_count() {
    let accumulate = node(
        FragmentKind::Accumulate,
        vec![node(FragmentKind::Expression, vec![open()])],
    );
    assert_eq!(
        format_accumulate(&accumulate),
        Err(FormatError::StructuralMismatch)
    );
    let outer = node(
        FragmentKind::Expression,
        vec![
            open(),
            node(
                FragmentKind::Accumulate,
                vec![node(FragmentKind::Expression, vec![close()])],
            ),
        ],
    );
    assert_eq!(
        format_expression(&outer, false),
        Err(FormatError::StructuralMismatch)
    );
}

#[test]
fn by_clauses_keep_comments_as_written() {
    let by = node(
        FragmentKind::ByExpression,
        vec![
            leaf(FragmentKind::ByKeyword, "by"),
            leaf(FragmentKind::Comment, "/*c*/"),
            node(
                FragmentKind::Expression,
                vec![
                    leaf(FragmentKind::Variable, "a"),
                    leaf(FragmentKind::Operator, "="),
                    leaf(FragmentKind::Variable, "b"),
                ],
            ),
            leaf(FragmentKind::Whitespace, "\n"),
        ],
    );
    assert_eq!(
        format_by_expression(&by),
        Ok(vec![
            normal("BY"),
            normal("/*c*/"),
            normal("a"),
            normal("="),
            normal("b"),
            token("\n", SpaceType::LineBreak),
        ])
    );
    let unknown = node(
        FragmentKind::ByExpression,
        vec![leaf(FragmentKind::Keyword, "by")],
    );
    assert_eq!(
        format_by_expression(&unknown),
        Err(FormatError::StructuralMismatch)
    );
}

#[test]
fn conditional_expressions_compare_with_mnemonics() {
    let conditional = node(
        FragmentKind::ConditionalExpression,
        vec![
            leaf(FragmentKind::ConditionalExpressionPred, "if"),
            leaf(FragmentKind::Whitespace, " "),
            node(
                FragmentKind::Expression,
                vec![
                    leaf(FragmentKind::Variable, "a"),
                    leaf(FragmentKind::Operator, "="),
                    leaf(FragmentKind::Variable, "b"),
                ],
            ),
            leaf(FragmentKind::Comment, "/*c*/"),
        ],
    );
    let tokens = format_conditional_expression(&conditional).unwrap();
    assert_eq!(
        tokens,
        vec![
            normal("IF"),
            normal("a"),
            normal("EQ"),
            normal("b"),
            normal("/*c*/"),
        ]
    );
    assert_eq!(render_tokens(&tokens, 0), "IF a EQ b /*c*/");
    let unknown = node(
        FragmentKind::ConditionalExpression,
        vec![leaf(FragmentKind::Keyword, "if")],
    );
    assert_eq!(
        format_conditional_expression(&unknown),
        Err(FormatError::StructuralMismatch)
    );
}

#[test]
fn formatting_what_was_formatted_changes_nothing() {
    let kinds = vec![
        FragmentKind::NotKeyword,
        FragmentKind::Variable,
        FragmentKind::Operator,
        FragmentKind::Logical,
        FragmentKind::Operator,
        FragmentKind::Variable,
        FragmentKind::Operator,
        FragmentKind::Comment,
        FragmentKind::Keyword,
    ];
    let texts = vec!["not", "myVar", "=", "yes", " and ", "Other", "<=", "/*c*/", "no-lock"];
    let first = node(
        FragmentKind::Expression,
        kinds
            .iter()
            .zip(texts.iter())
            .map(|(kind, text)| leaf(*kind, text))
            .collect(),
    );
    let once = format_expression(&first, true).unwrap();
    assert_eq!(
        render_tokens(&once, 0),
        "NOT myVar EQ YES AND Other LE /* c */ NO-LOCK"
    );
    let second = node(
        FragmentKind::Expression,
        kinds
            .iter()
            .zip(once.iter())
            .map(|(kind, token)| leaf(*kind, &token.line))
            .collect(),
    );
    let twice = format_expression(&second, true).unwrap();
    assert_eq!(twice, once);
    assert_eq!(render_tokens(&twice, 0), render_tokens(&once, 0));
}
