//! Offsets in a text, and the lines and columns that an editor counts.
//!
//! An offset counts the bytes of a text in UTF-8. A column counts the units of a
//! line in UTF-16.

use ruff_source_file::{LineIndex, OneIndexed, PositionEncoding, SourceLocation};

use vstd::prelude::*;

verus! {

/// An index of the lines of a text.
#[verifier::external_type_specification]
#[verifier::external_body]
pub struct ExLineIndex(ruff_source_file::LineIndex);

/// An offset in a text.
#[verifier::external_type_specification]
#[verifier::external_body]
pub struct ExTextSize(ruff_text_size::TextSize);

/// The byte offsets at which the lines of an index start.
pub uninterp spec fn line_starts(index: ruff_source_file::LineIndex) -> Seq<u32>;

/// Whether an index takes its text for one of ASCII characters alone.
pub uninterp spec fn only_ascii(index: ruff_source_file::LineIndex) -> bool;

/// The bytes of a character in UTF-8.
pub open spec fn utf8_len(c: char) -> nat {
    if (c as u32) < 0x80 {
        1
    } else if (c as u32) < 0x800 {
        2
    } else if (c as u32) < 0x10000 {
        3
    } else {
        4
    }
}

/// The units of a character in UTF-16.
pub open spec fn utf16_len(c: char) -> nat {
    if (c as u32) < 0x10000 {
        1
    } else {
        2
    }
}

/// The offset of the `i`-th character of a text.
pub open spec fn size(s: Seq<char>, i: int) -> nat
    decreases i,
{
    if i <= 0 || i > s.len() {
        0
    } else {
        size(s, i - 1) + utf8_len(s[i - 1])
    }
}

/// The units in UTF-16 before the `i`-th character of a text.
pub open spec fn units(s: Seq<char>, i: int) -> nat
    decreases i,
{
    if i <= 0 || i > s.len() {
        0
    } else {
        units(s, i - 1) + utf16_len(s[i - 1])
    }
}

/// Whether a line ends with the `i`-th character: a line feed, or a carriage
/// return that no line feed follows.
pub open spec fn ends_line(s: Seq<char>, i: int) -> bool {
    s[i] == '\n' || (s[i] == '\r' && !(i + 1 < s.len() && s[i + 1] == '\n'))
}

/// The characters with which lines start, in or directly behind the first `n`.
pub open spec fn heads(s: Seq<char>, n: int) -> Seq<int>
    decreases n,
{
    if n <= 0 {
        seq![0int]
    } else if ends_line(s, n - 1) {
        heads(s, n - 1).push(n)
    } else {
        heads(s, n - 1)
    }
}

/// The characters with which the lines of a text start.
pub open spec fn line_heads(s: Seq<char>) -> Seq<int> {
    heads(s, s.len() as int)
}

/// The offsets at which the lines of a text start.
pub open spec fn starts_of(s: Seq<char>) -> Seq<u32> {
    Seq::new(line_heads(s).len(), |k: int| size(s, line_heads(s)[k]) as u32)
}

/// The end of a line: the start of the next, or the end of the text.
pub open spec fn line_end(s: Seq<char>, line: int) -> int {
    if line + 1 < line_heads(s).len() {
        line_heads(s)[line + 1]
    } else {
        s.len() as int
    }
}

/// Whether every character of a text is one of ASCII.
pub open spec fn is_ascii(s: Seq<char>) -> bool {
    forall|i: int| 0 <= i < s.len() ==> (#[trigger] s[i] as u32) < 0x80
}

/// Whether an index is that of a text.
pub open spec fn indexes(index: LineIndex, s: Seq<char>) -> bool {
    &&& size(s, s.len() as int) <= u32::MAX
    &&& line_starts(index) == starts_of(s)
    &&& only_ascii(index) == is_ascii(s)
}

/// Whether offsets rise from zero.
pub open spec fn rising(starts: Seq<u32>) -> bool {
    &&& starts.len() > 0
    &&& starts[0] == 0
    &&& forall|i: int, j: int| 0 <= i < j < starts.len() ==> starts[i] < starts[j]
}

/// The line of an offset: the last that does not start behind it.
pub open spec fn is_line_of(starts: Seq<u32>, offset: u32, line: int) -> bool {
    &&& 0 <= line < starts.len()
    &&& starts[line] <= offset
    &&& line + 1 < starts.len() ==> offset < starts[line + 1]
}

/// The character of a line that a column reaches: the first before which the line
/// has that many units, or its end.
pub open spec fn reach(s: Seq<char>, head: int, end: int, column: nat, k: int) -> int
    decreases end - k,
{
    if k >= end || units(s, k) - units(s, head) >= column {
        k
    } else {
        reach(s, head, end, column, k + 1)
    }
}

/// `LineIndex::from_source_text` finds the start of each line: offset zero, and
/// the offset behind each line break. It also notes whether the text is ASCII.
/// It panics on a text of 4 GiB or more.
#[verifier::external_body]
pub(crate) fn line_index_of(text: &str) -> (index: LineIndex)
    requires
        size(text@, text@.len() as int) <= u32::MAX,
    ensures
        line_starts(index) == starts_of(text@),
        only_ascii(index) == is_ascii(text@),
{
    LineIndex::from_source_text(text)
}

/// `LineIndex::line_index` finds the line of a byte offset by binary search;
/// lines are counted from zero here.
#[verifier::external_body]
pub(crate) fn line_of(index: &LineIndex, offset: u32) -> (line: usize)
    requires
        rising(line_starts(*index)),
    ensures
        is_line_of(line_starts(*index), offset, line as int),
{
    index.line_index(offset.into()).to_zero_indexed()
}

/// `LineIndex::line_count` is the number of line starts.
#[verifier::external_body]
pub(crate) fn line_count(index: &LineIndex) -> (count: usize)
    ensures
        count == line_starts(*index).len(),
{
    index.line_count()
}

/// `LineIndex::source_location`, in UTF-16: the line of an offset, and the units
/// between the start of the line and the offset. It panics on an offset inside
/// a character or behind the text.
#[verifier::external_body]
pub(crate) fn source_location(index: &LineIndex, text: &str, offset: u32) -> (r: (usize, usize))
    requires
        indexes(*index, text@),
        exists|i: int| 0 <= i <= text@.len() && #[trigger] size(text@, i) == offset,
    ensures
        is_line_of(line_starts(*index), offset, r.0 as int),
        forall|i: int|
            0 <= i <= text@.len() && #[trigger] size(text@, i) == offset ==> r.1 == units(
                text@,
                i,
            ) - units(text@, line_heads(text@)[r.0 as int]),
{
    let location = index.source_location(offset.into(), text, PositionEncoding::Utf16);
    (location.line.to_zero_indexed(), location.character_offset.to_zero_indexed())
}

/// `LineIndex::offset`, in UTF-16: walks over the characters of a line until a
/// number of units is reached, or the line ends.
#[verifier::external_body]
pub(crate) fn offset_in_line(index: &LineIndex, text: &str, line: usize, column: u32) -> (offset: u32)
    requires
        indexes(*index, text@),
        line < line_heads(text@).len(),
    ensures
        offset == size(
            text@,
            reach(
                text@,
                line_heads(text@)[line as int],
                line_end(text@, line as int),
                column as nat,
                line_heads(text@)[line as int],
            ),
        ),
{
    let character_offset = OneIndexed::from_zero_indexed(column as usize);
    let location = SourceLocation { line: OneIndexed::from_zero_indexed(line), character_offset };
    index.offset(location, text, PositionEncoding::Utf16).to_u32()
}

/// `LineIndex::line_range`: where a line starts and ends, with its line break.
#[verifier::external_body]
pub(crate) fn line_range(index: &LineIndex, text: &str, line: usize) -> (r: (u32, u32))
    requires
        indexes(*index, text@),
        line < line_heads(text@).len(),
    ensures
        r.0 == size(text@, line_heads(text@)[line as int]),
        r.1 == size(text@, line_end(text@, line as int)),
{
    let range = index.line_range(OneIndexed::from_zero_indexed(line), text);
    (range.start().to_u32(), range.end().to_u32())
}

/// The offset of a later character is greater, as are the units before it.
pub proof fn sizes_rise(s: Seq<char>, i: int, j: int)
    requires
        0 <= i < j <= s.len(),
    ensures
        size(s, i) + (j - i) <= size(s, j),
        units(s, i) + (j - i) <= units(s, j),
        units(s, j) - units(s, i) <= size(s, j) - size(s, i),
    decreases j - i,
{
    if i < j - 1 {
        sizes_rise(s, i, j - 1);
    }
}

/// One offset is that of one character.
pub proof fn size_is_one(s: Seq<char>, i: int, j: int)
    requires
        0 <= i <= s.len(),
        0 <= j <= s.len(),
        size(s, i) == size(s, j),
    ensures
        i == j,
{
    if i < j {
        sizes_rise(s, i, j);
    } else if j < i {
        sizes_rise(s, j, i);
    }
}

/// The lines of a text start one behind the other, inside it.
pub proof fn heads_rise(s: Seq<char>, n: int)
    requires
        0 <= n <= s.len(),
    ensures
        heads(s, n).len() > 0,
        heads(s, n)[0] == 0,
        forall|i: int| 0 <= i < heads(s, n).len() ==> 0 <= #[trigger] heads(s, n)[i] <= n,
        forall|i: int, j: int| 0 <= i < j < heads(s, n).len() ==> heads(s, n)[i] < heads(s, n)[j],
    decreases n,
{
    if n > 0 {
        heads_rise(s, n - 1);
    }
}

/// The lines of an index of a text rise from zero.
pub proof fn indexed_rises(index: LineIndex, s: Seq<char>)
    requires
        indexes(index, s),
    ensures
        rising(line_starts(index)),
        line_starts(index).len() == line_heads(s).len(),
        forall|k: int|
            0 <= k < line_heads(s).len() ==> #[trigger] line_starts(index)[k] == size(
                s,
                line_heads(s)[k],
            ),
{
    let all = line_heads(s);
    let starts = starts_of(s);
    heads_rise(s, s.len() as int);
    assert forall|k: int| 0 <= k < all.len() implies #[trigger] starts[k] == size(s, all[k]) by {
        assert(0 <= all[k] <= s.len());
        if all[k] < s.len() {
            sizes_rise(s, all[k], s.len() as int);
        }
    }
    assert forall|i: int, j: int| 0 <= i < j < starts.len() implies starts[i] < starts[j] by {
        assert(0 <= all[i] <= s.len() && 0 <= all[j] <= s.len());
        assert(all[i] < all[j]);
        sizes_rise(s, all[i], all[j]);
        assert(starts[i] == size(s, all[i]));
        assert(starts[j] == size(s, all[j]));
    }
    assert(starts[0] == size(s, all[0]));
}

/// The bytes of the text behind its first character.
proof fn size_behind_first(s: Seq<char>, i: int)
    requires
        0 < i <= s.len(),
    ensures
        size(s, i) == utf8_len(s[0]) + size(s.drop_first(), i - 1),
    decreases i,
{
    if i > 1 {
        size_behind_first(s, i - 1);
        assert(s.drop_first()[i - 2] == s[i - 1]);
    } else {
        assert(size(s, 0) == 0);
        assert(size(s.drop_first(), 0) == 0);
    }
}

/// A character has as many bytes as its encoding.
proof fn char_has_bytes(c: char)
    ensures
        vstd::utf8::encode_scalar(c as u32).len() == utf8_len(c),
{
    vstd::utf8::char_is_scalar(c);
}

/// The size of a text is the number of its bytes.
pub proof fn size_is_bytes(s: Seq<char>)
    ensures
        size(s, s.len() as int) == vstd::utf8::encode_utf8(s).len(),
    decreases s.len(),
{
    if s.len() > 0 {
        size_behind_first(s, s.len() as int);
        char_has_bytes(s[0]);
        size_is_bytes(s.drop_first());
    }
}

/// The index of the lines of a text. A text of 4 GiB or more has none.
pub fn line_index(text: &str) -> (r: Option<LineIndex>)
    ensures
        match r {
            Some(index) => indexes(index, text@) && rising(line_starts(index)),
            None => size(text@, text@.len() as int) > u32::MAX,
        },
{
    proof {
        size_is_bytes(text@);
    }
    if text.as_bytes().len() > u32::MAX as usize {
        return None;
    }
    let index = line_index_of(text);
    proof {
        indexed_rises(index, text@);
    }
    Some(index)
}

} // verus!
