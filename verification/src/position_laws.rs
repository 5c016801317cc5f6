//! What holds of offsets and positions, and of what is shown at them.

use vstd::prelude::*;

use crate::convert::{
    is_char_at, is_offset, is_place, is_position, line_text_end, place, places_lead_back, Position,
    Range,
};
use crate::edits::{edit_is_one, is_edit, is_range, is_span, ContentChange};
use crate::protocol::{
    are_highlights, are_places, completion_number, highlight_number, is_completion, is_diagnostic,
    is_link, is_location, is_reached, severity_number, CompletionItem, CompletionMode, Diagnostic,
    DocumentHighlight, Location, LocationLink, LspCompletionItem, LspDiagnostic, LspLocationLink,
    Reference, Target,
};
use crate::syntax::Span;
use crate::tokens::{line_units, pieces_to, Piece, SemanticToken};

verus! {

/// Whether an offset is that of a character, and not inside a line break.
pub open spec fn is_clean(s: Seq<char>, offset: u32, i: int) -> bool {
    is_char_at(s, offset, i) && i <= line_text_end(s, place(s, i).0)
}

/// The position of an offset leads back to it.
pub proof fn offsets_lead_back(s: Seq<char>, offset: u32, i: int, p: Position, back: Option<u32>)
    requires
        is_clean(s, offset, i),
        is_position(s, offset, Some(p)),
        is_offset(s, p, back),
    ensures
        back == Some(offset),
{
    let j = choose|j: int| #[trigger]
        is_char_at(s, offset, j) && place(s, j) == (p.line as int, p.character as int);
    crate::positions::size_is_one(s, i, j);
    match back {
        Some(found) => {
            let m = choose|m: int|
                is_char_at(s, found, m) && #[trigger] is_place(
                    s,
                    p.line as int,
                    p.character as int,
                    Some(m),
                );
            places_lead_back(s, i, Some(m));
        },
        None => {
            places_lead_back(s, i, None);
        },
    }
}

/// Every offset of a character has a position, and no other offset has.
pub proof fn characters_have_positions(s: Seq<char>, offset: u32, r: Option<Position>)
    requires
        is_position(s, offset, r),
    ensures
        r is Some <==> exists|i: int| #[trigger] is_char_at(s, offset, i),
{
}

/// A range of offsets leads to a range of positions, and that back to the offsets.
pub proof fn ranges_lead_back(
    s: Seq<char>,
    span: Span,
    i: int,
    j: int,
    range: Range,
    back: Option<Span>,
)
    requires
        span.start <= span.end,
        is_clean(s, span.start, i),
        is_clean(s, span.end, j),
        is_range(s, span, Some(range)),
        is_span(s, range, back),
    ensures
        back == Some(span),
{
    match back {
        Some(found) => {
            offsets_lead_back(s, span.start, i, range.start, Some(found.start));
            offsets_lead_back(s, span.end, j, range.end, Some(found.end));
        },
        None => {
            if is_offset(s, range.start, None) {
                offsets_lead_back(s, span.start, i, range.start, None);
            } else if is_offset(s, range.end, None) {
                offsets_lead_back(s, span.end, j, range.end, None);
            } else {
                let (start, end) = choose|start: u32, end: u32|
                    #![trigger is_offset(s, range.start, Some(start)), is_offset(s, range.end, Some(end))]
                    is_offset(s, range.start, Some(start)) && is_offset(s, range.end, Some(end))
                        && start > end;
                offsets_lead_back(s, span.start, i, range.start, Some(start));
                offsets_lead_back(s, span.end, j, range.end, Some(end));
            }
        },
    }
}

/// A diagnostic is shown at its range with its message, as bad as it is, exactly if both
/// ends of the range are there.
pub proof fn diagnostics_are_shown_as_they_are(
    s: Seq<char>,
    d: Diagnostic,
    r: Option<LspDiagnostic>,
)
    requires
        is_diagnostic(s, d, r),
    ensures
        r is Some <==> (d.range matches Some(span) && (exists|i: int| #[trigger]
            is_char_at(s, span.start, i)) && (exists|j: int| #[trigger]
            is_char_at(s, span.end, j))),
        r matches Some(lsp) ==> lsp.message@ == d.message@ && lsp.severity == severity_number(
            d.severity,
        ) && (lsp.tags is Some <==> d.tags@.len() > 0),
{
    if let Some(span) = d.range {
        match r {
            Some(lsp) => {
                characters_have_positions(s, span.start, Some(lsp.range.start));
                characters_have_positions(s, span.end, Some(lsp.range.end));
            },
            None => {},
        }
    }
}

/// A place that something leads to is shown exactly if its file and its range could be
/// found, with these.
pub proof fn targets_are_shown_if_found(target: Target, r: Option<Location>)
    requires
        is_location(target, r),
    ensures
        r is Some <==> target.uri is Some && target.range is Some,
        r matches Some(location) ==> Some(location.uri) == target.uri && Some(location.range)
            == target.range,
{
}

/// The places where a name is used are those of the targets that could be found.
pub proof fn found_targets_are_listed(
    targets: Seq<Target>,
    n: int,
    out: Seq<Location>,
    location: Location,
)
    requires
        0 <= n <= targets.len(),
        are_places(targets, n, out),
    ensures
        out.contains(location) <==> exists|k: int|
            0 <= k < n && (#[trigger] targets[k]).uri == Some(location.uri) && targets[k].range
                == Some(location.range),
    decreases n,
{
    if n > 0 {
        let target = targets[n - 1];
        let found = target.uri is Some && target.range is Some;
        let fewer = if found {
            out.drop_last()
        } else {
            out
        };
        found_targets_are_listed(targets, n - 1, fewer, location);
        if found {
            assert(out[out.len() - 1] == out.last());
            if fewer.contains(location) {
                let k = choose|k: int| 0 <= k < fewer.len() && fewer[k] == location;
                assert(out[k] == location);
            }
            if out.contains(location) {
                let k = choose|k: int| 0 <= k < out.len() && out[k] == location;
                if k < fewer.len() {
                    assert(fewer[k] == location);
                }
            }
        }
    }
}

/// A link to a range of a file that is analyzed leads to that range, and one to another
/// file to the start of the file. It leads nowhere without the file.
pub proof fn links_lead_to_their_targets(s: Seq<char>, link: LocationLink, r: LspLocationLink)
    requires
        is_link(s, link, r),
    ensures
        is_reached(link),
        link matches LocationLink::Local { origin: _, target } ==> target.uri == Some(r.target_uri)
            && target.range == Some(r.target_range),
        link matches LocationLink::External { origin: _, uri } ==> uri == Some(r.target_uri)
            && r.target_range.start.line == 0 && r.target_range.start.character == 0
            && r.target_range.end == r.target_range.start,
{
}

/// Every use of a name that is there is highlighted as what it is, and nothing else.
pub proof fn uses_are_highlighted(
    s: Seq<char>,
    references: Seq<Reference>,
    n: int,
    out: Seq<DocumentHighlight>,
    k: int,
    j: int,
)
    requires
        0 <= n <= references.len(),
        are_highlights(s, references, n, out),
    ensures
        0 <= k < n && !is_range(s, references[k].range, None) ==> exists|i: int|
            0 <= i < out.len() && #[trigger] highlights(s, references[k], out[i]),
        0 <= j < out.len() ==> exists|i: int|
            0 <= i < n && #[trigger] highlights(s, references[i], out[j]),
    decreases n,
{
    if n > 0 {
        let last = references[n - 1];
        if is_range(s, last.range, None) && are_highlights(s, references, n - 1, out) {
            uses_are_highlighted(s, references, n - 1, out, k, j);
        } else {
            let fewer = out.drop_last();
            uses_are_highlighted(s, references, n - 1, fewer, k, j);
            assert(highlights(s, last, out[out.len() - 1]));
            if 0 <= k < n && !is_range(s, references[k].range, None) && k < n - 1 {
                let i = choose|i: int|
                    0 <= i < fewer.len() && #[trigger] highlights(s, references[k], fewer[i]);
                assert(highlights(s, references[k], out[i]));
            }
            if 0 <= j < out.len() && j < fewer.len() {
                assert(fewer[j] == out[j]);
            }
        }
    }
}

/// Whether a highlight is that of a use of a name.
pub open spec fn highlights(s: Seq<char>, reference: Reference, h: DocumentHighlight) -> bool {
    is_range(s, reference.range, Some(h.range)) && h.kind == highlight_number(reference.kind)
}

/// A completion is sent with its label and kind, exactly if its ranges are there and the
/// client knows how to insert and replace if it does both.
pub proof fn completions_keep_what_they_say(
    s: Seq<char>,
    item: CompletionItem,
    insert_replace: bool,
    r: Option<LspCompletionItem>,
)
    requires
        is_completion(s, item, insert_replace, r),
    ensures
        r matches Some(lsp) ==> lsp.label == item.label && lsp.kind == completion_number(item.kind)
            && lsp.sort_text == item.sort_text && lsp.filter_text == item.filter_text,
        item.mode is None ==> r is Some,
        item.mode matches Some(CompletionMode::InsertText(text)) ==> r is Some
            && r->0.insert_text == Some(text),
        item.mode matches Some(CompletionMode::InsertReplaceEdit { .. }) && !insert_replace ==> r
            is None,
        item.mode matches Some(CompletionMode::TextEdit { range, new_text }) ==> (r is Some
            <==> !is_range(s, range, None)),
{
}

/// A change of a range leaves what is before the range and what is behind it, and
/// puts its text between them.
pub proof fn a_change_keeps_what_is_around_its_range(
    before: Seq<char>,
    inside: Seq<char>,
    behind: Seq<char>,
    change: ContentChange,
    range: Range,
    t: Seq<char>,
)
    requires
        change.range == Some(range),
        is_place(
            before + inside + behind,
            range.start.line as int,
            range.start.character as int,
            Some(before.len() as int),
        ),
        is_place(
            before + inside + behind,
            range.end.line as int,
            range.end.character as int,
            Some((before + inside).len() as int),
        ),
        is_edit(before + inside + behind, change, t),
    ensures
        t == before + change.text@ + behind,
{
    let s = before + inside + behind;
    let from = Some(before.len() as int);
    let to = Some((before + inside).len() as int);
    assert(s.take(before.len() as int) =~= before);
    assert(s.skip((before + inside).len() as int) =~= behind);
    let u = before + change.text@ + behind;
    assert(is_place(s, range.start.line as int, range.start.character as int, from) && is_place(
        s,
        range.end.line as int,
        range.end.character as int,
        to,
    ));
    assert(is_edit(s, change, u));
    edit_is_one(s, change, t, u);
}

/// A change without a range is the whole text, and one with a range that is not
/// there, or that ends before it starts, changes nothing.
pub proof fn a_change_without_its_range(
    s: Seq<char>,
    change: ContentChange,
    from: Option<int>,
    to: Option<int>,
    t: Seq<char>,
)
    requires
        is_edit(s, change, t),
    ensures
        change.range is None ==> t == change.text@,
        change.range is Some && is_place(
            s,
            change.range->Some_0.start.line as int,
            change.range->Some_0.start.character as int,
            from,
        ) && is_place(
            s,
            change.range->Some_0.end.line as int,
            change.range->Some_0.end.character as int,
            to,
        ) && (from is None || to is None || from->Some_0 > to->Some_0) ==> t == s,
{
    if let Some(range) = change.range {
        if is_place(s, range.start.line as int, range.start.character as int, from) && is_place(
            s,
            range.end.line as int,
            range.end.character as int,
            to,
        ) && (from is None || to is None || from->Some_0 > to->Some_0) {
            assert(is_edit(s, change, s));
            edit_is_one(s, change, t, s);
        }
    }
}

/// Whether a part of a token holds a unit of a line.
pub open spec fn is_part_with(p: Piece, line: int, unit: int) -> bool {
    p.line == line && p.start <= unit < p.start + p.length
}

/// Whether some part holds a unit of a line.
pub open spec fn is_in_parts(pieces: Seq<Piece>, line: int, unit: int) -> bool {
    exists|k: int| 0 <= k < pieces.len() && is_part_with(#[trigger] pieces[k], line, unit)
}

/// The parts of a token hold exactly what is from its start on and before its end,
/// without the line breaks between them.
pub proof fn parts_hold_what_the_token_holds(
    s: Seq<char>,
    token: SemanticToken,
    from: (int, int),
    to: (int, int),
    stop: int,
    line: int,
    unit: int,
)
    requires
        0 <= from.1,
        0 <= unit,
        stop <= to.0 + 1,
    ensures
        is_in_parts(pieces_to(s, token, from, to, stop), line, unit) <==> {
            &&& line < stop
            &&& from.0 < line || from.0 == line && from.1 <= unit
            &&& line < to.0 && unit < line_units(s, line) || line == to.0 && unit < to.1
        },
        forall|k: int|
            0 <= k < pieces_to(s, token, from, to, stop).len() ==> (#[trigger] pieces_to(
                s,
                token,
                from,
                to,
                stop,
            )[k]).token == token && pieces_to(s, token, from, to, stop)[k].length > 0,
    decreases stop - from.0,
{
    if stop > from.0 {
        parts_hold_what_the_token_holds(s, token, from, to, stop - 1, line, unit);
        let rest = pieces_to(s, token, from, to, stop - 1);
        let all = pieces_to(s, token, from, to, stop);
        if is_in_parts(rest, line, unit) {
            let k = choose|k: int|
                0 <= k < rest.len() && is_part_with(#[trigger] rest[k], line, unit);
            assert(is_part_with(all[k], line, unit));
        }
        if all.len() > rest.len() {
            let last = all.last();
            assert(all[all.len() - 1] == last);
            if is_in_parts(all, line, unit) && !is_part_with(last, line, unit) {
                let k = choose|k: int|
                    0 <= k < all.len() && is_part_with(#[trigger] all[k], line, unit);
                assert(rest[k] == all[k]);
                assert(is_in_parts(rest, line, unit));
            }
        }
    }
}

} // verus!
