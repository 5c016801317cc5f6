//! Changes of a text, given as an editor counts positions.

use ruff_source_file::LineIndex;

use vstd::prelude::*;

use crate::convert::{
    char_at, is_char_at, is_offset, is_place, is_position, lsp_position_from_offset,
    offset_from_lsp_position, Position, Range,
};
use crate::positions::{indexes, size, size_is_one, sizes_rise};
use crate::syntax::Span;

verus! {

/// Whether `r` is a range of offsets in positions. Both ends have to have one.
pub open spec fn is_range(s: Seq<char>, span: Span, r: Option<Range>) -> bool {
    match r {
        Some(range) => is_position(s, span.start, Some(range.start)) && is_position(
            s,
            span.end,
            Some(range.end),
        ),
        None => is_position(s, span.start, None) || is_position(s, span.end, None),
    }
}

/// A range of offsets in positions.
pub fn lsp_range_from_text_range(span: Span, text: &str, index: &LineIndex) -> (r: Option<Range>)
    requires
        indexes(*index, text@),
    ensures
        is_range(text@, span, r),
{
    match lsp_position_from_offset(text, index, span.start) {
        Some(start) => match lsp_position_from_offset(text, index, span.end) {
            Some(end) => Some(Range { start, end }),
            None => None,
        },
        None => None,
    }
}

/// Whether `r` is a range of positions in offsets. Both ends have to have one, and
/// the range must not end before it starts.
pub open spec fn is_span(s: Seq<char>, range: Range, r: Option<Span>) -> bool {
    match r {
        Some(span) => {
            &&& is_offset(s, range.start, Some(span.start))
            &&& is_offset(s, range.end, Some(span.end))
            &&& span.start <= span.end
        },
        None => {
            ||| is_offset(s, range.start, None)
            ||| is_offset(s, range.end, None)
            ||| exists|start: u32, end: u32|
                #![trigger is_offset(s, range.start, Some(start)), is_offset(s, range.end, Some(end))]
                is_offset(s, range.start, Some(start)) && is_offset(s, range.end, Some(end)) && start
                    > end
        },
    }
}

/// A range of positions in offsets.
pub fn text_range_from_lsp_range(range: Range, text: &str, index: &LineIndex) -> (r: Option<Span>)
    requires
        indexes(*index, text@),
    ensures
        is_span(text@, range, r),
{
    match offset_from_lsp_position(text, index, range.start) {
        Some(start) => match offset_from_lsp_position(text, index, range.end) {
            Some(end) => {
                if start <= end {
                    Some(Span { start, end })
                } else {
                    None
                }
            },
            None => None,
        },
        None => None,
    }
}

/// A change of a text: of a part of it, or of the whole.
#[derive(Debug)]
pub struct ContentChange {
    pub range: Option<Range>,
    pub text: String,
}

/// A text with the part between two characters replaced.
pub open spec fn replaced(s: Seq<char>, from: int, to: int, text: Seq<char>) -> Seq<char> {
    s.take(from) + text + s.skip(to)
}

/// Whether `t` is the text `s` with a change. A change whose range is not there
/// changes nothing.
pub open spec fn is_edit(s: Seq<char>, change: ContentChange, t: Seq<char>) -> bool {
    match change.range {
        None => t == change.text@,
        Some(range) => exists|from: Option<int>, to: Option<int>|
            #![trigger is_place(s, range.start.line as int, range.start.character as int, from),
                is_place(s, range.end.line as int, range.end.character as int, to)]
            is_place(s, range.start.line as int, range.start.character as int, from) && is_place(
                s,
                range.end.line as int,
                range.end.character as int,
                to,
            ) && t == match (from, to) {
                (Some(from), Some(to)) if from <= to => replaced(s, from, to, change.text@),
                _ => s,
            },
    }
}

/// Whether `t` is the text `s` with the first changes of a list, one after the
/// other.
pub open spec fn are_edits(s: Seq<char>, changes: Seq<ContentChange>, n: int, t: Seq<char>) -> bool
    decreases n,
{
    if n <= 0 {
        t == s
    } else {
        exists|before: Seq<char>|
            are_edits(s, changes, n - 1, before) && #[trigger] is_edit(before, changes[n - 1], t)
    }
}

/// The bytes of a text.
pub open spec fn bytes(s: Seq<char>) -> nat {
    size(s, s.len() as int)
}

/// The bytes of the texts of the first changes.
pub open spec fn bytes_added(changes: Seq<ContentChange>, n: int) -> nat
    decreases n,
{
    if n <= 0 {
        0
    } else {
        bytes_added(changes, n - 1) + bytes(changes[n - 1].text@)
    }
}

/// The offset of a character does not depend on what follows it.
proof fn size_of_start(a: Seq<char>, b: Seq<char>, i: int)
    requires
        0 <= i <= a.len(),
    ensures
        size(a + b, i) == size(a, i),
    decreases i,
{
    if i > 0 {
        size_of_start(a, b, i - 1);
        assert((a + b)[i - 1] == a[i - 1]);
    }
}

/// The bytes of two texts are those of both.
pub proof fn bytes_of_both(a: Seq<char>, b: Seq<char>)
    ensures
        bytes(a + b) == bytes(a) + bytes(b),
    decreases b.len(),
{
    if b.len() == 0 {
        assert(a + b =~= a);
    } else {
        let rest = b.drop_last();
        bytes_of_both(a, rest);
        let whole = a + b;
        assert(whole =~= (a + rest).push(b.last()));
        assert(whole =~= (a + rest) + seq![b.last()]);
        size_of_start(a + rest, seq![b.last()], whole.len() - 1);
        assert(b =~= rest + seq![b.last()]);
        size_of_start(rest, seq![b.last()], b.len() - 1);
    }
}

/// A text with a change has at most the bytes of both.
proof fn edit_is_bounded(s: Seq<char>, change: ContentChange, t: Seq<char>)
    requires
        is_edit(s, change, t),
    ensures
        bytes(t) <= bytes(s) + bytes(change.text@),
{
    if let Some(range) = change.range {
        let (from, to) = choose|from: Option<int>, to: Option<int>|
            #![trigger is_place(s, range.start.line as int, range.start.character as int, from),
                is_place(s, range.end.line as int, range.end.character as int, to)]
            is_place(s, range.start.line as int, range.start.character as int, from) && is_place(
                s,
                range.end.line as int,
                range.end.character as int,
                to,
            ) && t == match (from, to) {
                (Some(from), Some(to)) if from <= to => replaced(s, from, to, change.text@),
                _ => s,
            };
        match (from, to) {
            (Some(a), Some(b)) => {
                if a <= b {
                    places_are_inside(s, range.start, a);
                    places_are_inside(s, range.end, b);
                    replaced_is_bounded(s, a, b, change.text@);
                }
            },
            _ => {},
        }
    }
}

/// The character of a position is inside the text.
pub proof fn places_are_inside(s: Seq<char>, pos: Position, m: int)
    requires
        is_place(s, pos.line as int, pos.character as int, Some(m)),
    ensures
        0 <= m <= s.len(),
{
    crate::convert::line_inside(s, pos.line as int);
}

/// A text with a part replaced has at most the bytes of both.
proof fn replaced_is_bounded(s: Seq<char>, from: int, to: int, text: Seq<char>)
    requires
        0 <= from <= to <= s.len(),
    ensures
        bytes(replaced(s, from, to, text)) <= bytes(s) + bytes(text),
{
    bytes_of_both(s.take(from), text);
    bytes_of_both(s.take(from) + text, s.skip(to));
    let middle = s.subrange(from, to);
    assert(s =~= s.take(from) + middle + s.skip(to));
    bytes_of_both(s.take(from), middle);
    bytes_of_both(s.take(from) + middle, s.skip(to));
}

/// A change leads to one text.
pub proof fn edit_is_one(s: Seq<char>, change: ContentChange, a: Seq<char>, b: Seq<char>)
    requires
        is_edit(s, change, a),
        is_edit(s, change, b),
    ensures
        a == b,
{
    if let Some(range) = change.range {
        assert forall|x: Option<int>, y: Option<int>|
            #![trigger is_place(s, range.start.line as int, range.start.character as int, x),
                is_place(s, range.start.line as int, range.start.character as int, y)]
            is_place(s, range.start.line as int, range.start.character as int, x) && is_place(
                s,
                range.start.line as int,
                range.start.character as int,
                y,
            ) implies x == y by {
            place_is_one(s, range.start, x, y);
        }
        assert forall|x: Option<int>, y: Option<int>|
            #![trigger is_place(s, range.end.line as int, range.end.character as int, x),
                is_place(s, range.end.line as int, range.end.character as int, y)]
            is_place(s, range.end.line as int, range.end.character as int, x) && is_place(
                s,
                range.end.line as int,
                range.end.character as int,
                y,
            ) implies x == y by {
            place_is_one(s, range.end, x, y);
        }
    }
}

/// A position has one character, or none.
pub proof fn place_is_one(s: Seq<char>, pos: Position, a: Option<int>, b: Option<int>)
    requires
        is_place(s, pos.line as int, pos.character as int, a),
        is_place(s, pos.line as int, pos.character as int, b),
    ensures
        a == b,
{
    let line = pos.line as int;
    if line < crate::positions::line_heads(s).len() {
        crate::convert::line_inside(s, line);
        let end = crate::convert::line_text_end(s, line);
        match (a, b) {
            (Some(x), Some(y)) => {
                if x < y {
                    sizes_rise(s, x, y);
                    if y < end {
                        sizes_rise(s, y, end);
                    }
                } else if y < x {
                    sizes_rise(s, y, x);
                    if x < end {
                        sizes_rise(s, x, end);
                    }
                }
            },
            (Some(x), None) => {
                assert(crate::convert::is_column(s, line, pos.character as int, x) || x == end);
            },
            (None, Some(y)) => {
                assert(crate::convert::is_column(s, line, pos.character as int, y) || y == end);
            },
            _ => {},
        }
    }
}

/// A text with a change.
fn apply_change(contents: &str, change: &ContentChange) -> (r: String)
    requires
        bytes(contents@) <= u32::MAX,
    ensures
        is_edit(contents@, *change, r@),
        bytes(r@) <= bytes(contents@) + bytes(change.text@),
{
    let range = match change.range {
        None => {
            return change.text.clone();
        },
        Some(range) => range,
    };
    let ghost s = contents@;
    let index = crate::positions::line_index_of(contents);
    let start = offset_from_lsp_position(contents, &index, range.start);
    let end = offset_from_lsp_position(contents, &index, range.end);
    let chars = crate::text::chars_of(contents);
    let from = start_char(&chars, range.start, start);
    let to = start_char(&chars, range.end, end);
    let r = match (from, to) {
        (Some(from), Some(to)) => {
            if from <= to {
                let before = crate::text::string_of(chars.as_slice(), 0, from);
                let after = crate::text::string_of(chars.as_slice(), to, chars.len());
                proof {
                    assert(s.subrange(0, from as int) =~= s.take(from as int));
                    assert(s.subrange(to as int, s.len() as int) =~= s.skip(to as int));
                }
                crate::text::join3(before.as_str(), change.text.as_str(), after.as_str())
            } else {
                contents.to_owned()
            }
        },
        _ => contents.to_owned(),
    };
    proof {
        let a = match from {
            Some(i) => Some(i as int),
            None => None,
        };
        let b = match to {
            Some(i) => Some(i as int),
            None => None,
        };
        assert(is_place(s, range.start.line as int, range.start.character as int, a));
        assert(is_place(s, range.end.line as int, range.end.character as int, b));
        assert(is_edit(s, *change, r@));
        edit_is_bounded(s, *change, r@);
    }
    r
}

/// The character of a position, given its offset.
fn start_char(chars: &Vec<char>, pos: Position, offset: Option<u32>) -> (r: Option<usize>)
    requires
        bytes(chars@) <= u32::MAX,
        is_offset(chars@, pos, offset),
    ensures
        is_place(
            chars@,
            pos.line as int,
            pos.character as int,
            match r {
                Some(i) => Some(i as int),
                None => None,
            },
        ),
        r is Some ==> r->0 <= chars@.len(),
{
    match offset {
        Some(offset) => {
            let r = char_at(chars, offset);
            proof {
                let m = choose|m: int|
                    is_char_at(chars@, offset, m) && #[trigger] is_place(
                        chars@,
                        pos.line as int,
                        pos.character as int,
                        Some(m),
                    );
                assert(is_char_at(chars@, offset, m));
                size_is_one(chars@, m, r->0 as int);
            }
            r
        },
        None => None,
    }
}

/// A text with changes, each counted in the text that those before it left.
pub fn apply_document_content_changes(contents: String, content_changes: &Vec<ContentChange>) -> (r:
    String)
    requires
        bytes(contents@) + bytes_added(content_changes@, content_changes@.len() as int) <= u32::MAX,
    ensures
        are_edits(contents@, content_changes@, content_changes@.len() as int, r@),
{
    let ghost start = contents@;
    let mut current = contents;
    let mut i: usize = 0;
    while i < content_changes.len()
        invariant
            i <= content_changes@.len(),
            are_edits(start, content_changes@, i as int, current@),
            bytes(current@) <= bytes(start) + bytes_added(content_changes@, i as int),
            bytes(start) + bytes_added(content_changes@, content_changes@.len() as int) <= u32::MAX,
        decreases content_changes@.len() - i,
    {
        let ghost before = current@;
        proof {
            added_rises(content_changes@, i as int, content_changes@.len() as int);
        }
        current = apply_change(current.as_str(), &content_changes[i]);
        proof {
            assert(are_edits(start, content_changes@, i as int, before));
            assert(is_edit(before, content_changes@[(i + 1) - 1], current@));
        }
        i = i + 1;
    }
    current
}

/// More changes add more.
proof fn added_rises(changes: Seq<ContentChange>, i: int, j: int)
    requires
        0 <= i <= j <= changes.len(),
    ensures
        bytes_added(changes, i) <= bytes_added(changes, j),
    decreases j - i,
{
    if i < j {
        added_rises(changes, i, j - 1);
    }
}

/// Changes lead to one text.
pub proof fn edits_are_one(
    s: Seq<char>,
    changes: Seq<ContentChange>,
    n: int,
    a: Seq<char>,
    b: Seq<char>,
)
    requires
        are_edits(s, changes, n, a),
        are_edits(s, changes, n, b),
    ensures
        a == b,
    decreases n,
{
    if n > 0 {
        let x = choose|x: Seq<char>|
            are_edits(s, changes, n - 1, x) && #[trigger] is_edit(x, changes[n - 1], a);
        let y = choose|y: Seq<char>|
            are_edits(s, changes, n - 1, y) && #[trigger] is_edit(y, changes[n - 1], b);
        edits_are_one(s, changes, n - 1, x, y);
        edit_is_one(x, changes[n - 1], a, b);
    }
}

/// The first changes of two lists are the first changes of both in a row.
proof fn edits_of_start(
    s: Seq<char>,
    first: Seq<ContentChange>,
    second: Seq<ContentChange>,
    n: int,
    t: Seq<char>,
)
    requires
        0 <= n <= first.len(),
        are_edits(s, first, n, t),
    ensures
        are_edits(s, first + second, n, t),
    decreases n,
{
    if n > 0 {
        let x = choose|x: Seq<char>|
            are_edits(s, first, n - 1, x) && #[trigger] is_edit(x, first[n - 1], t);
        edits_of_start(s, first, second, n - 1, x);
        assert((first + second)[n - 1] == first[n - 1]);
        assert(are_edits(s, first + second, n - 1, x) && is_edit(x, (first + second)[n - 1], t));
    }
}

/// Two lists of changes, one after the other, do what they do in a row.
proof fn edits_in_a_row(
    s: Seq<char>,
    first: Seq<ContentChange>,
    second: Seq<ContentChange>,
    n: int,
    middle: Seq<char>,
    t: Seq<char>,
)
    requires
        0 <= n <= second.len(),
        are_edits(s, first, first.len() as int, middle),
        are_edits(middle, second, n, t),
    ensures
        are_edits(s, first + second, first.len() + n, t),
    decreases n,
{
    if n == 0 {
        edits_of_start(s, first, second, first.len() as int, middle);
    } else {
        let x = choose|x: Seq<char>|
            are_edits(middle, second, n - 1, x) && #[trigger] is_edit(x, second[n - 1], t);
        edits_in_a_row(s, first, second, n - 1, middle, x);
        let all = first + second;
        let k = first.len() + n;
        assert(all[k - 1] == second[n - 1]);
        assert(are_edits(s, all, k - 1, x) && is_edit(x, all[k - 1], t));
    }
}

/// Applying two lists of changes in turn is applying both in a row.
pub proof fn edits_compose(
    s: Seq<char>,
    first: Seq<ContentChange>,
    second: Seq<ContentChange>,
    middle: Seq<char>,
    end: Seq<char>,
    whole: Seq<char>,
)
    requires
        are_edits(s, first, first.len() as int, middle),
        are_edits(middle, second, second.len() as int, end),
        are_edits(s, first + second, (first + second).len() as int, whole),
    ensures
        whole == end,
{
    edits_in_a_row(s, first, second, second.len() as int, middle, end);
    edits_are_one(s, first + second, (first + second).len() as int, whole, end);
}

/// No changes change nothing, and behind a change of the whole text that text is
/// left, whatever was changed before.
pub proof fn whole_text_is_left(
    s: Seq<char>,
    changes: Seq<ContentChange>,
    last: ContentChange,
    t: Seq<char>,
)
    requires
        last.range is None,
        are_edits(s, changes.push(last), changes.len() as int + 1, t),
    ensures
        t == last.text@,
        forall|same: Seq<char>| #[trigger] are_edits(s, Seq::empty(), 0, same) ==> same == s,
{
    let all = changes.push(last);
    let x = choose|x: Seq<char>|
            are_edits(s, all, changes.len() as int, x) && #[trigger] is_edit(x, all[changes.len() as int], t);
    assert(all[changes.len() as int] == last);
}

} // verus!
