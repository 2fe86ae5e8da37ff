use abl_formatter::align::align_identifier;
use abl_formatter::fragment::{Fragment, FragmentKind};
use abl_formatter::input::IoType;
use abl_formatter::normalize::{format_operator, normalize_keyword, normalize_operator};
use abl_formatter::text::{byte_len, contains_newline, get_tabs, is_whitespace_char, trim};
use abl_formatter::token::{PrintInfo, SpaceType};
use abl_formatter::trivia::{format_comment, format_whitespace};
use abl_formatter::FormatError;

#[test]
fn keywords_are_uppercased_whatever_their_case() {
    assert_eq!(normalize_keyword("define"), "DEFINE");
    assert_eq!(normalize_keyword("Define"), "DEFINE");
    assert_eq!(normalize_keyword("DEFINE"), "DEFINE");
    assert_eq!(normalize_keyword("temp-table"), "TEMP-TABLE");
    assert_eq!(normalize_keyword(""), "");
}

#[test]
fn keywords_outside_ascii_are_uppercased_too() {
    assert_eq!(normalize_keyword("straße"), "STRASSE");
    assert_eq!(normalize_keyword("é"), "É");
}

#[test]
fn equals_is_a_mnemonic_only_where_it_compares() {
    assert_eq!(normalize_operator("=", true), "EQ");
    assert_eq!(normalize_operator("=", false), "=");
}

#[test]
fn comparison_operators_are_mnemonics_in_any_context() {
    for conditional in [true, false] {
        assert_eq!(normalize_operator("<", conditional), "LT");
        assert_eq!(normalize_operator("<=", conditional), "LE");
        assert_eq!(normalize_operator(">", conditional), "GT");
        assert_eq!(normalize_operator(">=", conditional), "GE");
        assert_eq!(normalize_operator("<>", conditional), "NE");
    }
}

#[test]
fn other_operators_are_uppercased() {
    assert_eq!(normalize_operator("and", true), "AND");
    assert_eq!(normalize_operator("Or", false), "OR");
    assert_eq!(normalize_operator("+", false), "+");
    assert_eq!(normalize_operator(" <", false), " <");
}

#[test]
fn operator_fragments_are_trimmed_first() {
    let operator = Fragment::leaf(FragmentKind::Operator, " <= ");
    assert_eq!(format_operator(&operator, false), "LE");
    let equals = Fragment::leaf(FragmentKind::Operator, "\t=\n");
    assert_eq!(format_operator(&equals, true), "EQ");
    assert_eq!(format_operator(&equals, false), "=");
    let word = Fragment::leaf(FragmentKind::Operator, " matches ");
    assert_eq!(format_operator(&word, false), "MATCHES");
}

#[test]
fn trim_removes_white_space_at_both_ends() {
    assert_eq!(trim("  a b \n"), "a b");
    assert_eq!(trim("a"), "a");
    assert_eq!(trim(""), "");
    assert_eq!(trim(" \t\r\n"), "");
    assert_eq!(trim("\u{a0}x\u{3000}"), "x");
    assert_eq!(trim("\u{2003}é \u{85}"), "é");
    assert_eq!(trim("\u{200b}x"), "\u{200b}x");
}

#[test]
fn trim_agrees_with_the_standard_library() {
    for code in 0u32..0x3100 {
        if let Some(c) = char::from_u32(code) {
            assert_eq!(is_whitespace_char(c), c.is_whitespace(), "U+{:04X}", code);
            let text = format!("{}x{}", c, c);
            assert_eq!(trim(&text), text.trim());
        }
    }
}

#[test]
fn newlines_are_found() {
    assert!(contains_newline("a\nb"));
    assert!(contains_newline("\n"));
    assert!(!contains_newline("a b\t\r"));
    assert!(!contains_newline(""));
}

#[test]
fn tabs_are_one_per_level() {
    assert_eq!(get_tabs(0), "");
    assert_eq!(get_tabs(1), "\t");
    assert_eq!(get_tabs(3), "\t\t\t");
}

#[test]
fn byte_length_counts_bytes() {
    assert_eq!(byte_len(""), 0);
    assert_eq!(byte_len("abc"), 3);
    assert_eq!(byte_len("pâté"), 6);
}

#[test]
fn identifiers_of_lengths_3_7_1_fill_a_field_of_7() {
    assert_eq!(align_identifier("abc", 7), "abc    ");
    assert_eq!(align_identifier("abcdefg", 7), "abcdefg");
    assert_eq!(align_identifier("a", 7), "a      ");
    for name in ["abc", "abcdefg", "a"] {
        assert_eq!(align_identifier(name, 7).len(), 7);
    }
}

#[test]
fn a_group_of_one_is_not_padded() {
    assert_eq!(align_identifier("total", 5), "total");
    assert_eq!(align_identifier("total", 0), "total");
    assert_eq!(align_identifier("", 0), "");
}

#[test]
fn padding_counts_columns() {
    assert_eq!(align_identifier("pâté", 6), "pâté  ");
    assert_eq!(align_identifier("日本", 6), "日本  ");
    assert_eq!(align_identifier("", 2), "  ");
}

#[test]
fn comments_get_one_space_inside_their_marks() {
    let comment = Fragment::leaf(FragmentKind::Comment, "/*hello*/");
    assert_eq!(format_comment(&comment), Ok("/* hello */".to_string()));
    let spaced = Fragment::leaf(FragmentKind::Comment, "/* hello */");
    assert_eq!(format_comment(&spaced), Ok("/* hello */".to_string()));
    let wide = Fragment::leaf(FragmentKind::Comment, "/*  two  */");
    assert_eq!(format_comment(&wide), Ok("/*  two  */".to_string()));
}

#[test]
fn only_the_first_comment_marks_are_spaced() {
    let twice = Fragment::leaf(FragmentKind::Comment, "/*a*/ /*b*/");
    assert_eq!(format_comment(&twice), Ok("/* a */ /*b*/".to_string()));
    let none = Fragment::leaf(FragmentKind::Comment, "plain");
    assert_eq!(format_comment(&none), Ok("plain".to_string()));
    let dollar = Fragment::leaf(FragmentKind::Comment, "/*$1*/");
    assert_eq!(format_comment(&dollar), Ok("/* $1 */".to_string()));
}

#[test]
fn white_space_with_a_line_feed_is_a_line_break() {
    let plain = Fragment::leaf(FragmentKind::Whitespace, "  \t");
    assert_eq!(format_whitespace(&plain), None);
    let broken = Fragment::leaf(FragmentKind::Whitespace, " \n ");
    assert_eq!(
        format_whitespace(&broken),
        Some(PrintInfo::new(" \n ".to_string(), SpaceType::LineBreak))
    );
    let nested = Fragment::new(
        FragmentKind::Whitespace,
        "\r\n".to_string(),
        vec![Fragment::leaf(FragmentKind::Newline, "\r\n")],
    );
    assert_eq!(
        format_whitespace(&nested),
        Some(PrintInfo::new("\r\n".to_string(), SpaceType::LineBreak))
    );
    let other = Fragment::new(
        FragmentKind::Whitespace,
        " ".to_string(),
        vec![Fragment::leaf(FragmentKind::Other, " ")],
    );
    assert_eq!(format_whitespace(&other), None);
}

#[test]
fn the_file_argument_selects_the_input() {
    assert_eq!(IoType::from_argument(None), IoType::FromStdIn);
    assert_eq!(IoType::from_argument(Some("-")), IoType::FromStdIn);
    assert_eq!(IoType::from_argument(Some("--")), IoType::FromStdIn);
    assert_eq!(
        IoType::from_argument(Some("a.p")),
        IoType::FromFile("a.p".to_string())
    );
    assert_eq!(
        IoType::from_argument(Some("---")),
        IoType::FromFile("---".to_string())
    );
    assert_eq!(IoType::from_argument(Some("")), IoType::FromFile(String::new()));
}

#[test]
fn errors_describe_themselves() {
    assert_eq!(
        FormatError::StructuralMismatch.describe(),
        "fragment tree does not have the expected structure"
    );
    assert_eq!(
        FormatError::InvalidPattern.describe(),
        "comment spacing pattern was rejected"
    );
    assert_eq!(
        FormatError::Overflow.describe(),
        "nesting is deeper than this machine can count"
    );
}
