//! Where the source text comes from.

use crate::text::same_text;
use vstd::prelude::*;

verus! {

/// The source of the text to format.
#[derive(Debug, PartialEq, Eq)]
pub enum IoType {
    FromStdIn,
    FromFile(String),
}

/// True if `argument` names standard input.
pub open spec fn names_standard_input(argument: Seq<char>) -> bool {
    argument == seq!['-'] || argument == seq!['-', '-']
}

impl IoType {
    /// The source that a file argument selects: the file of that name, or
    /// standard input where there is no argument or the argument is `-` or
    /// `--`.
    pub fn from_argument(argument: Option<&str>) -> (input: IoType)
        ensures
            match input {
                IoType::FromFile(name) => argument matches Some(given) && name@ == given@
                    && !names_standard_input(given@),
                IoType::FromStdIn => argument matches Some(given) ==> names_standard_input(given@),
            },
    {
        proof {
            reveal_strlit("-");
            reveal_strlit("--");
            assert("-"@ =~= seq!['-']);
            assert("--"@ =~= seq!['-', '-']);
        }
        match argument {
            Some(given) => {
                if same_text(given, "-") || same_text(given, "--") {
                    IoType::FromStdIn
                } else {
                    IoType::FromFile(String::from_str(given))
                }
            },
            None => IoType::FromStdIn,
        }
    }
}

} // verus!
