//! Blocks: how the indent level after a statement follows from the blocks
//! that the statement opens and closes.

use crate::fragment::{FragmentKind, FragmentView};
use crate::statement::{indent_after_end, statement_item, statement_output, statement_walk};
use vstd::prelude::*;

verus! {

/// True for the kinds that leave the indent level as it is.
pub open spec fn keeps_indent(kind: FragmentKind) -> bool {
    kind != FragmentKind::BlockBegin && kind != FragmentKind::BlockEnd && kind
        != FragmentKind::Statement
}

/// A run of fragments that neither open nor close a block does not change
/// the indent level.
pub proof fn lemma_run_keeps_indent(children: Seq<FragmentView>, at: int, to: int, indent: nat)
    requires
        0 <= at <= to <= children.len(),
        forall|k: int| at <= k < to ==> keeps_indent(#[trigger] children[k].kind),
        statement_walk(children, at, indent) is Ok,
    ensures
        statement_walk(children, to, indent) is Ok,
        statement_walk(children, at, indent)->Ok_0.next_indent == statement_walk(
            children,
            to,
            indent,
        )->Ok_0.next_indent,
    decreases to - at,
{
    if at < to {
        assert(keeps_indent(children[at].kind));
        let here = statement_item(children[at], indent)->Ok_0;
        assert(here.next_indent == indent);
        lemma_run_keeps_indent(children, at + 1, to, indent);
    }
}

/// A statement that opens one block, closes one block after it and holds
/// no other block or nested statement leaves the indent level as it found
/// it.
pub proof fn block_pair_keeps_indent(
    statement: FragmentView,
    begin: int,
    end: int,
    indent: nat,
)
    requires
        0 <= begin < end < statement.children.len(),
        statement.children[begin].kind == FragmentKind::BlockBegin,
        statement.children[end].kind == FragmentKind::BlockEnd,
        forall|k: int|
            0 <= k < statement.children.len() && k != begin && k != end ==> keeps_indent(
                #[trigger] statement.children[k].kind,
            ),
        statement_output(statement, indent) is Ok,
    ensures
        statement_output(statement, indent)->Ok_0.1 == indent,
{
    let children = statement.children;
    let length = children.len() as int;
    lemma_run_keeps_indent(children, 0, begin, indent);
    let opened = statement_item(children[begin], indent)->Ok_0;
    assert(opened.next_indent == indent + 1);
    lemma_run_keeps_indent(children, begin + 1, end, indent + 1);
    let closed = statement_item(children[end], indent + 1)->Ok_0;
    assert(closed.next_indent == indent);
    lemma_run_keeps_indent(children, end + 1, length, indent);
}

/// Closing a block lowers the indent level by one, and at level zero it
/// leaves it at zero: a statement that closes more blocks than are open
/// does not fail and does not go below zero.
pub proof fn block_end_stops_at_zero(end: FragmentView, indent: nat)
    requires
        end.kind == FragmentKind::BlockEnd,
    ensures
        statement_item(end, indent) is Ok,
        statement_item(end, indent)->Ok_0.next_indent == indent_after_end(indent),
        statement_item(end, 0)->Ok_0.next_indent == 0,
        indent > 0 ==> statement_item(end, indent)->Ok_0.next_indent == indent - 1,
{
}

} // verus!
