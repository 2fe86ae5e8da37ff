//! Declaration groups: sibling declarations whose identifiers are padded
//! to one shared width, the greatest of their lengths.

use crate::outside::{aligned, pad_to_width};
use crate::text::{is_printable_ascii, repeated};
use vstd::prelude::*;

verus! {

/// The greatest of the first `count` lengths, and 0 for none.
pub open spec fn widest(lengths: Seq<nat>, count: nat) -> nat
    decreases count,
{
    if count == 0 {
        0
    } else {
        let before = widest(lengths, (count - 1) as nat);
        if lengths[count - 1] > before {
            lengths[count - 1]
        } else {
            before
        }
    }
}

/// The greatest of the first `count` lengths depends on those lengths only.
pub proof fn lemma_widest_prefix(shorter: Seq<nat>, longer: Seq<nat>, count: nat)
    requires
        count <= shorter.len() <= longer.len(),
        forall|i: int| 0 <= i < count ==> shorter[i] == longer[i],
    ensures
        widest(shorter, count) == widest(longer, count),
    decreases count,
{
    if count > 0 {
        lemma_widest_prefix(shorter, longer, (count - 1) as nat);
    }
}

/// The shared width of a group is the length of one of its members, and no
/// member is longer.
pub proof fn shared_width_is_greatest_length(lengths: Seq<nat>, count: nat)
    requires
        count <= lengths.len(),
    ensures
        forall|i: int| 0 <= i < count ==> lengths[i] <= widest(lengths, count),
        count > 0 ==> exists|i: int| 0 <= i < count && lengths[i] == widest(lengths, count),
    decreases count,
{
    if count > 0 {
        shared_width_is_greatest_length(lengths, (count - 1) as nat);
        if count > 1 {
            let i = choose|i: int| 0 <= i < count - 1 && lengths[i] == widest(
                lengths,
                (count - 1) as nat,
            );
            assert(0 <= i < count);
        }
        if lengths[count - 1] > widest(lengths, (count - 1) as nat) {
            assert(lengths[count - 1] == widest(lengths, count));
        }
    }
}

/// A group of one is as wide as its only member, so that padding its
/// identifier to the width of the group adds nothing.
pub proof fn group_of_one_has_its_own_width(lengths: Seq<nat>)
    requires
        lengths.len() == 1,
    ensures
        widest(lengths, 1) == lengths[0],
{
    reveal_with_fuel(widest, 2);
}

/// Pads an identifier to the width of its group. An identifier of
/// characters between the space and `~` that is shorter than the width is
/// filled up with spaces to exactly the width, and one that is as long as
/// the width or longer is left as it is.
pub fn align_identifier(identifier: &str, width: usize) -> (result: String)
    ensures
        result@ == aligned(identifier@, width as nat),
        is_printable_ascii(identifier@) && identifier@.len() < width ==> result@ == identifier@
            + repeated(' ', (width - identifier@.len()) as nat) && result@.len() == width,
        is_printable_ascii(identifier@) && identifier@.len() >= width ==> result@ == identifier@,
{
    pad_to_width(identifier, width)
}

} // verus!
