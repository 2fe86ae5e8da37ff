use vstd::prelude::*;

verus! {

/// Why a tree could not be rendered. Rendering is all or nothing: no
/// function hands back partial output together with an error.
#[derive(Clone, Copy, Debug, PartialEq, Eq, Structural)]
pub enum FormatError {
    /// A fragment stands where the renderer has no rule for its kind, a
    /// required fragment is missing, or the parentheses of an expression do
    /// not balance.
    StructuralMismatch,
    /// The regex engine rejected one of the comment-spacing patterns.
    InvalidPattern,
    /// A parenthesis counter or an indent level would leave the range of
    /// `usize`.
    Overflow,
}

impl FormatError {
    /// A short description of the error, for messages.
    pub fn describe(&self) -> (message: String)
        ensures
            message@ == match *self {
                FormatError::StructuralMismatch => "fragment tree does not have the expected structure"@,
                FormatError::InvalidPattern => "comment spacing pattern was rejected"@,
                FormatError::Overflow => "nesting is deeper than this machine can count"@,
            },
    {
        match self {
            FormatError::StructuralMismatch => String::from_str(
                "fragment tree does not have the expected structure",
            ),
            FormatError::InvalidPattern => String::from_str("comment spacing pattern was rejected"),
            FormatError::Overflow => String::from_str(
                "nesting is deeper than this machine can count",
            ),
        }
    }
}

} // verus!
