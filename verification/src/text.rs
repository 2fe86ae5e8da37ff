//! Text operations that the formatters share, and their meaning on
//! sequences of characters.

use vstd::prelude::*;

verus! {

/// `c` with the letters `a` to `z` mapped to `A` to `Z`.
pub open spec fn ascii_upper(c: char) -> char {
    if 'a' <= c <= 'z' {
        ((c as u32) - 32) as char
    } else {
        c
    }
}

/// `text` with the letters `a` to `z` mapped to `A` to `Z`.
pub open spec fn ascii_uppercased(text: Seq<char>) -> Seq<char> {
    text.map_values(|c: char| ascii_upper(c))
}

/// True if every character of `text` lies between the space and `~`.
pub open spec fn is_printable_ascii(text: Seq<char>) -> bool {
    forall|i: int| 0 <= i < text.len() ==> ' ' <= #[trigger] text[i] <= '~'
}

/// The code points with the Unicode property White_Space.
pub open spec fn is_white_space(c: char) -> bool {
    ||| '\u{9}' <= c <= '\u{D}'
    ||| c == ' '
    ||| c == '\u{85}'
    ||| c == '\u{A0}'
    ||| c == '\u{1680}'
    ||| '\u{2000}' <= c <= '\u{200A}'
    ||| c == '\u{2028}'
    ||| c == '\u{2029}'
    ||| c == '\u{202F}'
    ||| c == '\u{205F}'
    ||| c == '\u{3000}'
}

/// `text` without the white space at its start.
pub open spec fn without_leading_white_space(text: Seq<char>) -> Seq<char>
    decreases text.len(),
{
    if text.len() > 0 && is_white_space(text.first()) {
        without_leading_white_space(text.drop_first())
    } else {
        text
    }
}

/// `text` without the white space at its end.
pub open spec fn without_trailing_white_space(text: Seq<char>) -> Seq<char>
    decreases text.len(),
{
    if text.len() > 0 && is_white_space(text.last()) {
        without_trailing_white_space(text.drop_last())
    } else {
        text
    }
}

/// `text` without the white space at its two ends.
pub open spec fn trimmed(text: Seq<char>) -> Seq<char> {
    without_trailing_white_space(without_leading_white_space(text))
}

/// The number of bytes of `text` in UTF-8, which is what `str::len` counts.
pub open spec fn byte_length(text: Seq<char>) -> nat {
    vstd::utf8::encode_utf8(text).len()
}

/// `count` copies of `c`.
pub open spec fn repeated(c: char, count: nat) -> Seq<char> {
    Seq::new(count, |i: int| c)
}

/// The indentation of `level` levels: one tab for each.
pub open spec fn tabs(level: nat) -> Seq<char> {
    repeated('\t', level)
}

/// `text`, which takes `columns` columns, followed by as many spaces as it
/// lacks to `width` columns.
pub open spec fn padded(text: Seq<char>, columns: nat, width: nat) -> Seq<char> {
    if columns >= width {
        text
    } else {
        text + repeated(' ', (width - columns) as nat)
    }
}

/// True if the two string slices hold the same text. They are compared
/// byte by byte, which decides it because the characters can be read back
/// from the bytes.
pub fn same_text(left: &str, right: &str) -> (same: bool)
    ensures
        same == (left@ == right@),
{
    let left_bytes = left.as_bytes();
    let right_bytes = right.as_bytes();
    proof {
        vstd::utf8::encode_utf8_decode_utf8(left@);
        vstd::utf8::encode_utf8_decode_utf8(right@);
    }
    if left_bytes.len() != right_bytes.len() {
        return false;
    }
    let mut at: usize = 0;
    while at < left_bytes.len()
        invariant
            at <= left_bytes.len(),
            left_bytes.len() == right_bytes.len(),
            left_bytes@ == vstd::utf8::encode_utf8(left@),
            right_bytes@ == vstd::utf8::encode_utf8(right@),
            forall|i: int| 0 <= i < at ==> left_bytes@[i] == right_bytes@[i],
        decreases left_bytes.len() - at,
    {
        if left_bytes[at] != right_bytes[at] {
            return false;
        }
        at += 1;
    }
    proof {
        assert(left_bytes@ =~= right_bytes@);
    }
    true
}

/// The length of `text` in bytes.
pub fn byte_len(text: &str) -> (length: usize)
    ensures
        length == byte_length(text@),
{
    text.as_bytes().len()
}

/// True if `c` has the Unicode property White_Space.
pub fn is_whitespace_char(c: char) -> (white: bool)
    ensures
        white == is_white_space(c),
{
    (c >= '\u{9}' && c <= '\u{D}') || c == ' ' || c == '\u{85}' || c == '\u{A0}' || c == '\u{1680}'
        || (c >= '\u{2000}' && c <= '\u{200A}') || c == '\u{2028}' || c == '\u{2029}' || c
        == '\u{202F}' || c == '\u{205F}' || c == '\u{3000}'
}

/// Text that starts with `count` white-space characters and no more is,
/// without them, the rest of the text.
proof fn lemma_leading_white_space(text: Seq<char>, count: int)
    requires
        0 <= count <= text.len(),
        forall|i: int| 0 <= i < count ==> is_white_space(#[trigger] text[i]),
        count == text.len() || !is_white_space(text[count]),
    ensures
        without_leading_white_space(text) == text.subrange(count, text.len() as int),
    decreases count,
{
    if count == 0 {
        assert(text.subrange(0, text.len() as int) =~= text);
    } else {
        let rest = text.drop_first();
        assert forall|i: int| 0 <= i < count - 1 implies is_white_space(#[trigger] rest[i]) by {
            assert(rest[i] == text[i + 1]);
        }
        lemma_leading_white_space(rest, count - 1);
        assert(rest.subrange(count - 1, rest.len() as int) =~= text.subrange(
            count,
            text.len() as int,
        ));
    }
}

/// Text that ends in white space after its first `kept` characters and
/// no earlier is, without it, those characters.
proof fn lemma_trailing_white_space(text: Seq<char>, kept: int)
    requires
        0 <= kept <= text.len(),
        forall|i: int| kept <= i < text.len() ==> is_white_space(#[trigger] text[i]),
        kept == 0 || !is_white_space(text[kept - 1]),
    ensures
        without_trailing_white_space(text) == text.subrange(0, kept),
    decreases text.len() - kept,
{
    if kept == text.len() {
        assert(text.subrange(0, kept) =~= text);
    } else {
        let rest = text.drop_last();
        assert forall|i: int| kept <= i < rest.len() implies is_white_space(#[trigger] rest[i]) by {
            assert(rest[i] == text[i]);
        }
        lemma_trailing_white_space(rest, kept);
        assert(rest.subrange(0, kept) =~= text.subrange(0, kept));
    }
}

/// `text` without the white space at its two ends.
pub fn trim(text: &str) -> (result: &str)
    ensures
        result@ == trimmed(text@),
{
    let length = text.unicode_len();
    let mut start: usize = 0;
    let mut end: usize = 0;
    let mut seen = false;
    let mut index: usize = 0;
    for c in it: text.chars()
        invariant
            it.seq() == text@,
            length == text@.len(),
            index == it.index(),
            seen ==> start < end <= index && !is_white_space(text@[start as int])
                && !is_white_space(text@[end - 1]),
            seen ==> forall|j: int| 0 <= j < start ==> is_white_space(#[trigger] text@[j]),
            seen ==> forall|j: int| end <= j < index ==> is_white_space(#[trigger] text@[j]),
            !seen ==> forall|j: int| 0 <= j < index ==> is_white_space(#[trigger] text@[j]),
    {
        if !is_whitespace_char(c) {
            if !seen {
                start = index;
                seen = true;
            }
            end = index + 1;
        }
        index += 1;
    }
    if seen {
        proof {
            let full = text@;
            lemma_leading_white_space(full, start as int);
            let tail = full.subrange(start as int, full.len() as int);
            assert forall|i: int| end - start <= i < tail.len() implies is_white_space(
                #[trigger] tail[i],
            ) by {
                assert(tail[i] == full[start + i]);
            }
            lemma_trailing_white_space(tail, end - start);
            assert(tail.subrange(0, end - start) =~= full.subrange(start as int, end as int));
        }
        text.substring_char(start, end)
    } else {
        proof {
            lemma_leading_white_space(text@, text@.len() as int);
            assert(text@.subrange(text@.len() as int, text@.len() as int) =~= text@.subrange(0, 0));
        }
        text.substring_char(0, 0)
    }
}

/// True if `text` holds a line feed.
pub fn contains_newline(text: &str) -> (found: bool)
    ensures
        found == text@.contains('\n'),
{
    let mut found = false;
    for c in it: text.chars()
        invariant
            it.seq() == text@,
            found == exists|j: int| 0 <= j < it.index() && text@[j] == '\n',
    {
        if c == '\n' {
            found = true;
        }
    }
    found
}

/// The indentation of `indent_level` levels.
pub fn get_tabs(indent_level: usize) -> (result: String)
    ensures
        result@ == tabs(indent_level as nat),
{
    let mut result = String::new();
    let mut done: usize = 0;
    while done < indent_level
        invariant
            done <= indent_level,
            result@ == tabs(done as nat),
        decreases indent_level - done,
    {
        proof {
            reveal_strlit("\t");
            assert(tabs(done as nat) + "\t"@ =~= tabs((done + 1) as nat));
        }
        result.append("\t");
        done += 1;
    }
    result
}

} // verus!
