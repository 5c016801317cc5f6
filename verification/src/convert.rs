//! Positions as an editor counts them, and what is sent in them.

use ruff_source_file::LineIndex;

use vstd::prelude::*;

use crate::positions::{
    ends_line, heads, heads_rise, indexed_rises, indexes, is_line_of, line_end, line_heads,
    line_starts, reach, size, size_is_one, sizes_rise, units, utf8_len,
};

verus! {

/// A place in a text: the line, and the units in UTF-16 before it in the line.
#[derive(Clone, Copy, Debug, PartialEq, Eq, Structural)]
pub struct Position {
    pub line: u32,
    pub character: u32,
}

/// Two places in a text.
#[derive(Clone, Copy, Debug, PartialEq, Eq, Structural)]
pub struct Range {
    pub start: Position,
    pub end: Position,
}

/// The line of a character, and the units before it in the line.
pub open spec fn place(s: Seq<char>, i: int) -> (int, int) {
    (heads(s, i).len() - 1, units(s, i) - units(s, heads(s, i).last()))
}

/// The character with an offset.
pub open spec fn is_char_at(s: Seq<char>, offset: u32, i: int) -> bool {
    0 <= i <= s.len() && size(s, i) == offset
}

/// The end of a line without its line break.
pub open spec fn text_end(s: Seq<char>, head: int, end: int) -> int
    decreases end - head,
{
    if end <= head || !(s[end - 1] == '\r' || s[end - 1] == '\n') {
        end
    } else {
        text_end(s, head, end - 1)
    }
}

/// The end of the text of a line.
pub open spec fn line_text_end(s: Seq<char>, line: int) -> int {
    text_end(s, line_heads(s)[line], line_end(s, line))
}

/// Whether the character `m` of a line has `column` units before it in the line.
pub open spec fn is_column(s: Seq<char>, line: int, column: int, m: int) -> bool {
    &&& line_heads(s)[line] <= m <= line_text_end(s, line)
    &&& units(s, m) - units(s, line_heads(s)[line]) == column
}

/// Whether `r` is the character at a position: one with that many units before it
/// in the line, or the end of the text of a shorter line. A position in a line
/// that is not there, or inside a character, has none.
pub open spec fn is_place(s: Seq<char>, line: int, column: int, r: Option<int>) -> bool {
    let head = line_heads(s)[line];
    let end = line_text_end(s, line);
    if line >= line_heads(s).len() {
        r is None
    } else {
        match r {
            Some(m) => {
                ||| is_column(s, line, column, m)
                ||| m == end && units(s, end) - units(s, head) < column
            },
            None => {
                &&& units(s, end) - units(s, head) >= column
                &&& forall|m: int| !#[trigger] is_column(s, line, column, m)
            },
        }
    }
}

/// Whether `r` is the offset of a position.
pub open spec fn is_offset(s: Seq<char>, pos: Position, r: Option<u32>) -> bool {
    match r {
        Some(offset) => exists|m: int|
            is_char_at(s, offset, m) && #[trigger] is_place(
                s,
                pos.line as int,
                pos.character as int,
                Some(m),
            ),
        None => is_place(s, pos.line as int, pos.character as int, None),
    }
}

/// Whether `r` is the position of an offset.
pub open spec fn is_position(s: Seq<char>, offset: u32, r: Option<Position>) -> bool {
    match r {
        Some(p) => exists|i: int| #[trigger]
            is_char_at(s, offset, i) && place(s, i) == (p.line as int, p.character as int),
        None => forall|i: int| !#[trigger] is_char_at(s, offset, i),
    }
}

/// The lines that start in a part of a text are the first of those of the text.
pub proof fn heads_first(s: Seq<char>, n: int, m: int)
    requires
        0 <= n <= m <= s.len(),
    ensures
        heads(s, n).len() <= heads(s, m).len(),
        forall|k: int| 0 <= k < heads(s, n).len() ==> #[trigger] heads(s, n)[k] == heads(s, m)[k],
        forall|k: int| heads(s, n).len() <= k < heads(s, m).len() ==> #[trigger] heads(s, m)[k] > n,
    decreases m - n,
{
    if n < m {
        heads_first(s, n, m - 1);
    }
}

/// A character is in the last line that does not start behind it.
pub proof fn line_is(s: Seq<char>, i: int, line: int)
    requires
        0 <= i <= s.len(),
        0 <= line < line_heads(s).len(),
        line_heads(s)[line] <= i,
        line + 1 < line_heads(s).len() ==> i < line_heads(s)[line + 1],
    ensures
        heads(s, i).len() == line + 1,
        heads(s, i).last() == line_heads(s)[line],
{
    let all = line_heads(s);
    let some = heads(s, i);
    heads_first(s, i, s.len() as int);
    heads_rise(s, i);
    heads_rise(s, s.len() as int);
    if some.len() <= line {
        assert(all[line] > i);
    }
    if some.len() > line + 1 {
        assert(some[line + 1] == all[line + 1]);
        assert(some[line + 1] <= i);
    }
}

/// A line that is not the first starts behind a line break.
pub proof fn head_follows_break(s: Seq<char>, n: int, k: int)
    requires
        0 <= n <= s.len(),
        0 < k < heads(s, n).len(),
    ensures
        heads(s, n)[k] > 0,
        ends_line(s, heads(s, n)[k] - 1),
    decreases n,
{
    if n > 0 {
        if !(ends_line(s, n - 1) && k == heads(s, n).len() - 1) {
            head_follows_break(s, n - 1, k);
        }
    }
}

/// The end of the text of a line is inside the line.
pub proof fn text_end_inside(s: Seq<char>, head: int, end: int)
    requires
        0 <= head <= end <= s.len(),
    ensures
        head <= text_end(s, head, end) <= end,
        end > head && (s[end - 1] == '\r' || s[end - 1] == '\n') ==> text_end(s, head, end) < end,
    decreases end - head,
{
    if end > head && (s[end - 1] == '\r' || s[end - 1] == '\n') {
        text_end_inside(s, head, end - 1);
    }
}

/// A line and its text are inside the text, and the text of a line ends before
/// the next line starts.
pub proof fn line_inside(s: Seq<char>, line: int)
    requires
        0 <= line < line_heads(s).len(),
    ensures
        0 <= line_heads(s)[line] <= line_text_end(s, line) <= line_end(s, line) <= s.len(),
        line + 1 < line_heads(s).len() ==> line_text_end(s, line) < line_heads(s)[line + 1],
{
    let all = line_heads(s);
    heads_rise(s, s.len() as int);
    assert(0 <= all[line] <= s.len());
    if line + 1 < all.len() {
        assert(all[line] < all[line + 1]);
        assert(0 <= all[line + 1] <= s.len());
        head_follows_break(s, s.len() as int, line + 1);
    }
    text_end_inside(s, all[line], line_end(s, line));
}

/// A character in the text of a line has its place in that line.
pub proof fn place_in_line(s: Seq<char>, line: int, m: int)
    requires
        0 <= line < line_heads(s).len(),
        line_heads(s)[line] <= m <= line_text_end(s, line),
    ensures
        0 <= m <= s.len(),
        place(s, m) == (line, units(s, m) - units(s, line_heads(s)[line])),
{
    line_inside(s, line);
    line_is(s, m, line);
}

/// The place of a character leads back to it, unless the character is part of a
/// line break behind its first.
pub proof fn places_lead_back(s: Seq<char>, i: int, r: Option<int>)
    requires
        0 <= i <= s.len(),
        i <= line_text_end(s, place(s, i).0),
        is_place(s, place(s, i).0, place(s, i).1, r),
    ensures
        r == Some(i),
{
    let line = place(s, i).0;
    let column = place(s, i).1;
    let all = line_heads(s);
    heads_rise(s, i);
    heads_first(s, i, s.len() as int);
    assert(heads(s, i)[line] == all[line]);
    line_inside(s, line);
    assert(is_column(s, line, column, i));
    let end = line_text_end(s, line);
    if i < end {
        sizes_rise(s, i, end);
    }
    match r {
        Some(m) => {
            if is_column(s, line, column, m) {
                if m < i {
                    sizes_rise(s, m, i);
                } else if i < m {
                    sizes_rise(s, i, m);
                }
            }
        },
        None => {},
    }
}

/// A position that is there is the place of its character.
pub proof fn positions_lead_back(s: Seq<char>, line: int, column: int, m: int)
    requires
        0 <= line < line_heads(s).len(),
        is_column(s, line, column, m),
    ensures
        is_place(s, line, column, Some(m)),
        place(s, m) == (line, column),
{
    place_in_line(s, line, m);
}

/// The index of the character with an offset.
pub fn char_at(chars: &Vec<char>, offset: u32) -> (r: Option<usize>)
    requires
        size(chars@, chars@.len() as int) <= u32::MAX,
    ensures
        match r {
            Some(i) => is_char_at(chars@, offset, i as int),
            None => forall|i: int| !#[trigger] is_char_at(chars@, offset, i),
        },
{
    let mut i: usize = 0;
    let mut at: u32 = 0;
    while i < chars.len() && at < offset
        invariant
            i <= chars@.len(),
            at == size(chars@, i as int),
            size(chars@, chars@.len() as int) <= u32::MAX,
            forall|k: int| 0 <= k < i ==> #[trigger] size(chars@, k) < offset,
        decreases chars@.len() - i,
    {
        proof {
            sizes_rise(chars@, i as int, i + 1);
            if i + 1 < chars@.len() {
                sizes_rise(chars@, i + 1, chars@.len() as int);
            }
        }
        at = at + char_len(chars[i]);
        i = i + 1;
    }
    if at == offset {
        return Some(i);
    }
    proof {
        assert forall|k: int| !#[trigger] is_char_at(chars@, offset, k) by {
            if is_char_at(chars@, offset, k) {
                if k < i {
                    assert(size(chars@, k) < offset);
                } else if i < k {
                    sizes_rise(chars@, i as int, k);
                }
            }
        }
    }
    None
}

/// The bytes of a character in UTF-8.
fn char_len(c: char) -> (r: u32)
    ensures
        r == utf8_len(c),
{
    let code = c as u32;
    if code < 0x80 {
        1
    } else if code < 0x800 {
        2
    } else if code < 0x10000 {
        3
    } else {
        4
    }
}

/// The position of an offset. An offset inside a character, or behind the text,
/// has none.
pub fn lsp_position_from_offset(text: &str, index: &LineIndex, offset: u32) -> (r: Option<Position>)
    requires
        indexes(*index, text@),
    ensures
        is_position(text@, offset, r),
{
    let chars = crate::text::chars_of(text);
    let i = match char_at(&chars, offset) {
        Some(i) => i,
        None => {
            return None;
        },
    };
    proof {
        assert(is_char_at(text@, offset, i as int));
        assert(size(text@, i as int) == offset);
    }
    let (line, character) = crate::positions::source_location(index, text, offset);
    proof {
        located(*index, text@, i as int, line as int);
        let head = line_heads(text@)[line as int];
        if head < i {
            sizes_rise(text@, head, i as int);
        }
    }
    Some(Position { line: line as u32, character: character as u32 })
}

/// The line in which an index finds a character is its line.
proof fn located(index: LineIndex, s: Seq<char>, i: int, line: int)
    requires
        indexes(index, s),
        0 <= i <= s.len(),
        size(s, i) <= u32::MAX,
        is_line_of(line_starts(index), size(s, i) as u32, line),
    ensures
        0 <= line < line_heads(s).len(),
        0 <= line_heads(s)[line] <= i,
        place(s, i) == (line, units(s, i) - units(s, line_heads(s)[line])),
        line <= size(s, i),
{
    let all = line_heads(s);
    indexed_rises(index, s);
    heads_rise(s, s.len() as int);
    assert(line_starts(index)[line] == size(s, all[line]));
    if i < all[line] {
        sizes_rise(s, i, all[line]);
    }
    if line + 1 < all.len() {
        assert(line_starts(index)[line + 1] == size(s, all[line + 1]));
        if all[line + 1] < i {
            sizes_rise(s, all[line + 1], i);
        }
    }
    line_is(s, i, line);
    heads_are_apart(s, line);
    if 0 < i {
        sizes_rise(s, 0, i);
    }
}

/// A line does not start before the characters that end the lines before it.
proof fn heads_are_apart(s: Seq<char>, line: int)
    requires
        0 <= line < line_heads(s).len(),
    ensures
        line <= line_heads(s)[line],
    decreases line,
{
    heads_rise(s, s.len() as int);
    if line > 0 {
        heads_are_apart(s, line - 1);
        assert(line_heads(s)[line - 1] < line_heads(s)[line]);
    }
}

/// The offset of a position. A column behind the text of its line is that of the
/// end of the text.
pub fn offset_from_lsp_position(text: &str, index: &LineIndex, pos: Position) -> (r: Option<u32>)
    requires
        indexes(*index, text@),
    ensures
        is_offset(text@, pos, r),
{
    proof {
        indexed_rises(*index, text@);
    }
    if pos.line as usize >= crate::positions::line_count(index) {
        return None;
    }
    let line: usize = pos.line as usize;
    let chars = crate::text::chars_of(text);
    let ghost s = text@;
    let ghost head = line_heads(s)[line as int];
    let ghost end = line_end(s, line as int);
    let ghost stop = line_text_end(s, line as int);
    let (start, _) = crate::positions::line_range(index, text, line);
    proof {
        line_inside(s, line as int);
    }
    let text_stop = line_text_stop(&chars, start, line);
    let reached = crate::positions::offset_in_line(index, text, line, pos.character);
    let offset = if reached < text_stop {
        reached
    } else {
        text_stop
    };
    let ghost k = reach(s, head, end, pos.character as nat, head);
    let ghost m = if k < stop {
        k
    } else {
        stop
    };
    proof {
        reach_is(s, head, end, pos.character as nat, head);
        if k < stop {
            sizes_rise(s, k, stop);
        } else if stop < k {
            sizes_rise(s, stop, k);
        }
        assert(size(s, m) == offset);
        place_in_line(s, line as int, m);
        assert(is_char_at(s, offset, m));
    }
    let (found, character) = crate::positions::source_location(index, text, offset);
    proof {
        located(*index, s, m, found as int);
        assert(found == line);
        assert(character == units(s, m) - units(s, head));
    }
    if character > pos.character as usize {
        proof {
            // The column is reached in the middle of the last character.
            assert(m == k || m == stop);
            assert forall|x: int| !#[trigger] is_column(
                s,
                line as int,
                pos.character as int,
                x,
            ) by {
                if is_column(s, line as int, pos.character as int, x) {
                    reach_is_first(s, head, end, pos.character as nat, head, x);
                    if m < x {
                        sizes_rise(s, m, x);
                    }
                    if x < m {
                        sizes_rise(s, x, m);
                    }
                }
            }
            if m < stop {
                sizes_rise(s, m, stop);
            }
        }
        return None;
    }
    proof {
        if m == k && k < end {
            assert(units(s, k) - units(s, head) >= pos.character);
        }
        if m == stop && units(s, stop) - units(s, head) < pos.character {
        } else {
            assert(is_column(s, line as int, pos.character as int, m)) by {
                if m < k {
                    reach_not_before(s, head, end, pos.character as nat, head, m);
                }
            }
        }
        assert(is_place(s, pos.line as int, pos.character as int, Some(m)));
    }
    let r = Some(offset);
    proof {
        assert(is_offset(text@, pos, r));
    }
    r
}

/// A column is reached in its line, and not before there are that many units.
proof fn reach_is(s: Seq<char>, head: int, end: int, column: nat, k: int)
    requires
        0 <= head <= k <= end <= s.len(),
    ensures
        k <= reach(s, head, end, column, k) <= end,
        reach(s, head, end, column, k) < end ==> units(s, reach(s, head, end, column, k)) - units(
            s,
            head,
        ) >= column,
    decreases end - k,
{
    if k < end && units(s, k) - units(s, head) < column {
        reach_is(s, head, end, column, k + 1);
    }
}

/// Before a column is reached there are fewer units.
proof fn reach_not_before(s: Seq<char>, head: int, end: int, column: nat, k: int, m: int)
    requires
        0 <= head <= k <= m < reach(s, head, end, column, k),
        k <= end <= s.len(),
    ensures
        units(s, m) - units(s, head) < column,
    decreases end - k,
{
    if k < m {
        if k < end && units(s, k) - units(s, head) < column {
            reach_not_before(s, head, end, column, k + 1, m);
        }
    }
}

/// Where there are exactly as many units, the column is reached.
proof fn reach_is_first(s: Seq<char>, head: int, end: int, column: nat, k: int, x: int)
    requires
        0 <= head <= k <= x <= end <= s.len(),
        units(s, x) - units(s, head) == column,
    ensures
        reach(s, head, end, column, k) <= x,
    decreases end - k,
{
    if k < end && units(s, k) - units(s, head) < column {
        reach_is_first(s, head, end, column, k + 1, x);
    }
}

/// The offset of the end of the text of a line that starts at an offset.
fn line_text_stop(chars: &Vec<char>, start: u32, line: usize) -> (r: u32)
    requires
        size(chars@, chars@.len() as int) <= u32::MAX,
        line < line_heads(chars@).len(),
        start == size(chars@, line_heads(chars@)[line as int]),
    ensures
        r == size(chars@, line_text_end(chars@, line as int)),
{
    let ghost s = chars@;
    let ghost head = line_heads(s)[line as int];
    let ghost end = line_end(s, line as int);
    proof {
        line_inside(s, line as int);
        assert(is_char_at(s, start, head));
    }
    let from = match char_at(chars, start) {
        Some(i) => i,
        None => 0,
    };
    proof {
        size_is_one(s, from as int, head);
    }
    // The text of a line holds no line break.
    let mut i: usize = from;
    let mut at: u32 = start;
    while i < chars.len() && chars[i] != '\r' && chars[i] != '\n'
        invariant
            head <= i <= s.len(),
            0 <= head,
            s == chars@,
            at == size(s, i as int),
            size(s, s.len() as int) <= u32::MAX,
            forall|k: int| head <= k < i ==> s[k] != '\r' && s[k] != '\n',
        decreases s.len() - i,
    {
        proof {
            sizes_rise(s, i as int, i + 1);
            if i + 1 < s.len() {
                sizes_rise(s, i + 1, s.len() as int);
            }
        }
        at = at + char_len(chars[i]);
        i = i + 1;
    }
    proof {
        text_of_line(s, line as int, i as int);
    }
    at
}

/// The text of a line ends at the first character of its line break.
pub proof fn text_of_line(s: Seq<char>, line: int, i: int)
    requires
        0 <= line < line_heads(s).len(),
        line_heads(s)[line] <= i <= s.len(),
        forall|k: int| line_heads(s)[line] <= k < i ==> s[k] != '\r' && s[k] != '\n',
        i < s.len() ==> s[i] == '\r' || s[i] == '\n',
    ensures
        line_text_end(s, line) == i,
{
    let all = line_heads(s);
    let head = all[line];
    let end = line_end(s, line);
    line_inside(s, line);
    heads_rise(s, s.len() as int);
    // No line starts inside the text without a line break.
    if line + 1 < all.len() {
        head_follows_break(s, s.len() as int, line + 1);
        if all[line + 1] <= i {
            assert(s[all[line + 1] - 1] == '\r' || s[all[line + 1] - 1] == '\n');
        }
    }
    if i < s.len() {
        // The line break is one character, or a carriage return and a line feed.
        let last = if ends_line(s, i) {
            i + 1
        } else {
            i + 2
        };
        assert(ends_line(s, last - 1));
        break_starts_line(s, s.len() as int, last);
        let k = choose|k: int| 0 <= k < all.len() && all[k] == last;
        if k <= line {
            assert(all[k] <= all[line]);
        } else if k > line + 1 {
            assert(all[line + 1] < all[k]);
            head_follows_break(s, s.len() as int, line + 1);
        }
        assert(end == last);
        if last == i + 2 {
            assert(text_end(s, head, end) == text_end(s, head, end - 1));
        }
        assert(text_end(s, head, i + 1) == text_end(s, head, i));
    }
    assert(text_end(s, head, i) == i);
}

/// Behind a line break a line starts.
proof fn break_starts_line(s: Seq<char>, n: int, at: int)
    requires
        0 < at <= n <= s.len(),
        ends_line(s, at - 1),
    ensures
        exists|k: int| 0 <= k < heads(s, n).len() && heads(s, n)[k] == at,
    decreases n,
{
    if at < n {
        break_starts_line(s, n - 1, at);
        let before = heads(s, n - 1);
        let k = choose|k: int| 0 <= k < before.len() && before[k] == at;
        assert(heads(s, n)[k] == at);
    } else {
        let k = heads(s, n).len() - 1;
        assert(heads(s, n)[k] == at);
    }
}

} // verus!
