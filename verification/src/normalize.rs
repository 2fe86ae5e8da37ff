//! Canonical text for keywords and operators.

use crate::fragment::{lemma_fragment_view, Fragment};
use crate::outside::{to_uppercase, uppercased};
use crate::text::{ascii_uppercased, same_text, trim, trimmed};
use vstd::prelude::*;
use vstd::utf8::is_ascii_chars;

verus! {

/// The canonical text of an operator. The comparison operators become
/// their mnemonics. `=` becomes `EQ` where it compares, and stays the
/// assignment symbol elsewhere. Any other operator is uppercased.
pub open spec fn operator_mnemonic(text: Seq<char>, is_conditional_context: bool) -> Seq<char> {
    if text == seq!['<'] {
        seq!['L', 'T']
    } else if text == seq!['<', '='] {
        seq!['L', 'E']
    } else if text == seq!['>'] {
        seq!['G', 'T']
    } else if text == seq!['>', '='] {
        seq!['G', 'E']
    } else if text == seq!['<', '>'] {
        seq!['N', 'E']
    } else if text == seq!['='] {
        if is_conditional_context {
            seq!['E', 'Q']
        } else {
            seq!['=']
        }
    } else {
        uppercased(text)
    }
}

/// Where an expression compares, `=` becomes `EQ`; elsewhere it stays as
/// it is. The other comparison operators become their mnemonics in either
/// context.
pub proof fn comparison_operators_become_mnemonics(is_conditional_context: bool)
    ensures
        operator_mnemonic(seq!['='], true) == seq!['E', 'Q'],
        operator_mnemonic(seq!['='], false) == seq!['='],
        operator_mnemonic(seq!['<'], is_conditional_context) == seq!['L', 'T'],
        operator_mnemonic(seq!['<', '='], is_conditional_context) == seq!['L', 'E'],
        operator_mnemonic(seq!['>'], is_conditional_context) == seq!['G', 'T'],
        operator_mnemonic(seq!['>', '='], is_conditional_context) == seq!['G', 'E'],
        operator_mnemonic(seq!['<', '>'], is_conditional_context) == seq!['N', 'E'],
{
    assert(seq!['<', '='].len() == 2 && seq!['<', '='][0] == '<' && seq!['<', '='][1] == '=');
    assert(seq!['>', '='].len() == 2 && seq!['>', '='][0] == '>' && seq!['>', '='][1] == '=');
    assert(seq!['<', '>'].len() == 2 && seq!['<', '>'][0] == '<' && seq!['<', '>'][1] == '>');
    assert(seq!['<'].len() == 1 && seq!['<'][0] == '<');
    assert(seq!['>'].len() == 1 && seq!['>'][0] == '>');
    assert(seq!['='].len() == 1 && seq!['='][0] == '=');
}

/// The uppercase form of a keyword.
pub fn normalize_keyword(text: &str) -> (keyword: String)
    ensures
        keyword@ == uppercased(text@),
        is_ascii_chars(text@) ==> keyword@ == ascii_uppercased(text@),
{
    to_uppercase(text)
}

/// The canonical text of the operator `text`.
pub fn normalize_operator(text: &str, is_conditional_context: bool) -> (mnemonic: String)
    ensures
        mnemonic@ == operator_mnemonic(text@, is_conditional_context),
{
    proof {
        reveal_strlit("<");
        reveal_strlit("<=");
        reveal_strlit(">");
        reveal_strlit(">=");
        reveal_strlit("<>");
        reveal_strlit("=");
        reveal_strlit("LT");
        reveal_strlit("LE");
        reveal_strlit("GT");
        reveal_strlit("GE");
        reveal_strlit("NE");
        reveal_strlit("EQ");
        assert("<"@ =~= seq!['<']);
        assert("<="@ =~= seq!['<', '=']);
        assert(">"@ =~= seq!['>']);
        assert(">="@ =~= seq!['>', '=']);
        assert("<>"@ =~= seq!['<', '>']);
        assert("="@ =~= seq!['=']);
        assert("LT"@ =~= seq!['L', 'T']);
        assert("LE"@ =~= seq!['L', 'E']);
        assert("GT"@ =~= seq!['G', 'T']);
        assert("GE"@ =~= seq!['G', 'E']);
        assert("NE"@ =~= seq!['N', 'E']);
        assert("EQ"@ =~= seq!['E', 'Q']);
    }
    if same_text(text, "<") {
        String::from_str("LT")
    } else if same_text(text, "<=") {
        String::from_str("LE")
    } else if same_text(text, ">") {
        String::from_str("GT")
    } else if same_text(text, ">=") {
        String::from_str("GE")
    } else if same_text(text, "<>") {
        String::from_str("NE")
    } else if same_text(text, "=") {
        if is_conditional_context {
            String::from_str("EQ")
        } else {
            String::from_str("=")
        }
    } else {
        to_uppercase(text)
    }
}

/// The canonical text of an operator fragment: that of its text without
/// the white space around it.
pub fn format_operator(operator: &Fragment, conditional: bool) -> (mnemonic: String)
    ensures
        mnemonic@ == operator_mnemonic(trimmed(operator@.text), conditional),
{
    proof {
        lemma_fragment_view(operator);
    }
    normalize_operator(trim(operator.text.as_str()), conditional)
}

} // verus!
