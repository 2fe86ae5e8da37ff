//! A pretty-printer for ABL (Progress 4GL) source.
//!
//! The input is a tree of classified [`Fragment`]s. Each statement is first
//! turned into a flat list of render tokens ([`PrintInfo`]), a piece of text
//! with a [`SpaceType`] that says how it sits next to its neighbours, and the
//! list is then written out in one left-to-right pass that inserts spaces,
//! line breaks and indentation.
//!
//! Every function states its result over the views of its arguments: a
//! fragment is viewed as a [`FragmentView`], a token as a [`RenderToken`] and
//! text as a sequence of characters.

pub mod align;
pub mod assign;
pub mod balance;
pub mod blocks;
pub mod casing;
pub mod datatype;
pub mod error;
pub mod expression;
pub mod fragment;
pub mod function;
pub mod input;
pub mod lookahead;
pub mod normalize;
pub mod outside;
pub mod program;
pub mod render;
pub mod statement;
pub mod temp_table;
pub mod text;
pub mod token;
pub mod trivia;

pub use assign::{format_assign, AssignLinePrintInfo};
pub use datatype::format_datatype;
pub use error::FormatError;
pub use expression::{
    format_accumulate, format_by_expression, format_conditional_expression, format_expression,
    BracketFormatting,
};
pub use fragment::{Fragment, FragmentKind, FragmentView};
pub use function::{format_function, format_function_declaration};
pub use input::IoType;
pub use normalize::{normalize_keyword, normalize_operator};
pub use program::format_code;
pub use render::render_tokens;
pub use statement::format_statement;
pub use temp_table::{format_temp_table, FieldInfo};
pub use text::get_tabs;
pub use token::{PrintInfo, RenderToken, SpaceType};
