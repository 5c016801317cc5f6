//! Semantic tokens as an editor takes them: each in one line, and counted from
//! the one before.

use ruff_source_file::LineIndex;

use vstd::prelude::*;

use crate::convert::{
    char_at, is_char_at, line_inside, line_text_end, place, Position, Range,
};
use crate::edits::lsp_range_from_text_range;
use crate::positions::{heads, indexes, line_heads, size, size_is_one, sizes_rise, units};
use crate::syntax::Span;

verus! {

/// A token of a text.
#[derive(Clone, Copy, Debug, PartialEq, Eq, Structural)]
pub struct SemanticToken {
    pub range: Span,
    pub token_type: u32,
    pub modifiers: u32,
}

/// A token in one line, counted from the one before.
#[derive(Clone, Copy, Debug, PartialEq, Eq, Structural)]
pub struct EncodedToken {
    pub delta_line: u32,
    pub delta_start: u32,
    pub length: u32,
    pub token_type: u32,
    pub token_modifiers_bitset: u32,
}

/// A part of a token in one line.
pub struct Piece {
    pub line: int,
    pub start: int,
    pub length: int,
    pub token: SemanticToken,
}

/// The units of the text of a line.
pub open spec fn line_units(s: Seq<char>, line: int) -> int {
    units(s, line_text_end(s, line)) - units(s, line_heads(s)[line])
}

/// The part of a token from one place to another in a line between them. It has
/// no part of a line break.
pub open spec fn piece_of(
    s: Seq<char>,
    token: SemanticToken,
    from: (int, int),
    to: (int, int),
    line: int,
) -> Piece {
    let start = if line == from.0 {
        from.1
    } else {
        0
    };
    let end = if line == to.0 {
        to.1
    } else {
        line_units(s, line)
    };
    Piece { line, start, length: end - start, token }
}

/// The parts of a token from one place to another in the lines before `stop`.
pub open spec fn pieces_to(
    s: Seq<char>,
    token: SemanticToken,
    from: (int, int),
    to: (int, int),
    stop: int,
) -> Seq<Piece>
    decreases stop - from.0,
{
    if stop <= from.0 {
        seq![]
    } else {
        let rest = pieces_to(s, token, from, to, stop - 1);
        let piece = piece_of(s, token, from, to, stop - 1);
        if piece.length > 0 {
            rest.push(piece)
        } else {
            rest
        }
    }
}

/// The character with an offset.
pub open spec fn char_of(s: Seq<char>, offset: u32) -> int {
    choose|i: int| is_char_at(s, offset, i)
}

/// Whether a token starts and ends at characters.
pub open spec fn is_placed(s: Seq<char>, token: SemanticToken) -> bool {
    (exists|i: int| #[trigger] is_char_at(s, token.range.start, i)) && (exists|i: int| #[trigger]
        is_char_at(s, token.range.end, i))
}

/// The parts of a token in its lines.
pub open spec fn token_pieces(s: Seq<char>, token: SemanticToken) -> Seq<Piece> {
    let from = place(s, char_of(s, token.range.start));
    let to = place(s, char_of(s, token.range.end));
    if is_placed(s, token) {
        pieces_to(s, token, from, to, to.0 + 1)
    } else {
        seq![]
    }
}

/// The parts of the first tokens of a list.
pub open spec fn all_pieces(s: Seq<char>, tokens: Seq<SemanticToken>, n: int) -> Seq<Piece>
    decreases n,
{
    if n <= 0 {
        seq![]
    } else {
        all_pieces(s, tokens, n - 1) + token_pieces(s, tokens[n - 1])
    }
}

/// Whether a part does not start before another.
pub open spec fn follows(before: Piece, after: Piece) -> bool {
    before.line < after.line || (before.line == after.line && before.start <= after.start)
}

/// Whether no part starts before the one before it.
pub open spec fn in_sequence(pieces: Seq<Piece>) -> bool {
    forall|k: int| 0 < k < pieces.len() ==> follows(pieces[k - 1], #[trigger] pieces[k])
}

/// Where the part before the `k`-th starts, or the start of the text.
pub open spec fn start_before(pieces: Seq<Piece>, k: int) -> (int, int) {
    if k <= 0 {
        (0, 0)
    } else {
        (pieces[k - 1].line, pieces[k - 1].start)
    }
}

/// Whether a token is the `k`-th part, counted from the one before.
pub open spec fn is_encoded(pieces: Seq<Piece>, k: int, e: EncodedToken) -> bool {
    let before = start_before(pieces, k);
    let piece = pieces[k];
    &&& e.delta_line == piece.line - before.0
    &&& e.delta_start == if piece.line == before.0 {
        piece.start - before.1
    } else {
        piece.start
    }
    &&& e.length == piece.length
    &&& e.token_type == piece.token.token_type
    &&& e.token_modifiers_bitset == piece.token.modifiers
}

/// Whether tokens are parts, each counted from the one before.
pub open spec fn are_encoded(pieces: Seq<Piece>, encoded: Seq<EncodedToken>) -> bool {
    &&& encoded.len() == pieces.len()
    &&& forall|k: int| 0 <= k < pieces.len() ==> is_encoded(pieces, k, #[trigger] encoded[k])
}

/// Where a part starts, from what the tokens up to it say.
pub open spec fn decoded(encoded: Seq<EncodedToken>, n: int) -> (int, int)
    decreases n,
{
    if n <= 0 {
        (0, 0)
    } else {
        let before = decoded(encoded, n - 1);
        let e = encoded[n - 1];
        (
            before.0 + e.delta_line,
            if e.delta_line == 0 {
                before.1 + e.delta_start
            } else {
                e.delta_start as int
            },
        )
    }
}

/// What is counted from the one before can be counted back.
pub proof fn encoding_leads_back(pieces: Seq<Piece>, encoded: Seq<EncodedToken>, n: int)
    requires
        are_encoded(pieces, encoded),
        0 <= n <= pieces.len(),
    ensures
        decoded(encoded, n) == start_before(pieces, n),
    decreases n,
{
    if n > 0 {
        encoding_leads_back(pieces, encoded, n - 1);
        assert(is_encoded(pieces, n - 1, encoded[n - 1]));
    }
}

/// One offset is that of one character.
proof fn char_of_is(s: Seq<char>, offset: u32, i: int)
    requires
        is_char_at(s, offset, i),
    ensures
        char_of(s, offset) == i,
{
    size_is_one(s, i, char_of(s, offset));
}

/// The units of the text of a line.
fn units_of_line(chars: &Vec<char>, text: &str, index: &LineIndex, line: usize) -> (r: u32)
    requires
        chars@ == text@,
        indexes(*index, text@),
        line < line_heads(text@).len(),
    ensures
        r == line_units(text@, line as int),
{
    let ghost s = text@;
    let ghost head = line_heads(s)[line as int];
    let (start, _) = crate::positions::line_range(index, text, line);
    proof {
        line_inside(s, line as int);
        assert(is_char_at(s, start, head));
    }
    let from = match char_at(chars, start) {
        Some(i) => i,
        None => 0,
    };
    proof {
        size_is_one(s, from as int, head);
        if head > 0 {
            sizes_rise(s, 0, head);
        }
    }
    let mut i: usize = from;
    let mut count: u32 = 0;
    while i < chars.len() && chars[i] != '\r' && chars[i] != '\n'
        invariant
            head <= i <= s.len(),
            0 <= head,
            s == chars@,
            count == units(s, i as int) - units(s, head),
            size(s, s.len() as int) <= u32::MAX,
            forall|k: int| head <= k < i ==> s[k] != '\r' && s[k] != '\n',
        decreases s.len() - i,
    {
        proof {
            sizes_rise(s, head, i + 1);
            if i + 1 < s.len() {
                sizes_rise(s, i + 1, s.len() as int);
            }
        }
        let code = chars[i] as u32;
        if code < 0x10000 {
            count = count + 1;
        } else {
            count = count + 2;
        }
        i = i + 1;
    }
    proof {
        crate::convert::text_of_line(s, line as int, i as int);
    }
    count
}

/// A part of a token in one line.
#[derive(Clone, Copy, Debug)]
pub struct Part {
    pub line: u32,
    pub start: u32,
    pub length: u32,
    pub token: SemanticToken,
}

impl View for Part {
    type V = Piece;

    open spec fn view(&self) -> Piece {
        Piece {
            line: self.line as int,
            start: self.start as int,
            length: self.length as int,
            token: self.token,
        }
    }
}

/// The contents of parts.
pub open spec fn parts_shown(parts: Seq<Part>) -> Seq<Piece> {
    Seq::new(parts.len(), |i: int| parts[i]@)
}

/// Adds the parts of a token that stands between two positions.
fn add_parts(
    chars: &Vec<char>,
    text: &str,
    index: &LineIndex,
    token: SemanticToken,
    range: Range,
    parts: &mut Vec<Part>,
)
    requires
        chars@ == text@,
        indexes(*index, text@),
        range.end.line < line_heads(text@).len(),
    ensures
        parts_shown(final(parts)@) == parts_shown(old(parts)@) + pieces_to(
            text@,
            token,
            (range.start.line as int, range.start.character as int),
            (range.end.line as int, range.end.character as int),
            range.end.line + 1,
        ),
{
    let ghost s = text@;
    let ghost from = (range.start.line as int, range.start.character as int);
    let ghost to = (range.end.line as int, range.end.character as int);
    let ghost start = parts_shown(parts@);
    if range.end.line < range.start.line {
        proof {
            assert(start =~= start + pieces_to(s, token, from, to, range.end.line + 1));
        }
        return;
    }
    let mut line: u32 = range.start.line;
    let mut done = false;
    proof {
        assert(start =~= start + pieces_to(s, token, from, to, line as int));
    }
    while !done
        invariant
            chars@ == text@,
            s == text@,
            indexes(*index, text@),
            range.end.line < line_heads(text@).len(),
            from == (range.start.line as int, range.start.character as int),
            to == (range.end.line as int, range.end.character as int),
            range.start.line <= line <= range.end.line,
            parts_shown(parts@) == start + pieces_to(
                s,
                token,
                from,
                to,
                if done {
                    line + 1
                } else {
                    line as int
                },
            ),
            done ==> line == range.end.line,
        decreases
            range.end.line - line,
            if done {
                0int
            } else {
                1int
            },
    {
        let ghost before = parts_shown(parts@);
        let first = if line == range.start.line {
            range.start.character
        } else {
            0
        };
        let end = if line == range.end.line {
            range.end.character
        } else {
            units_of_line(chars, text, index, line as usize)
        };
        if end > first {
            parts.push(Part { line, start: first, length: end - first, token });
            proof {
                assert(parts_shown(parts@) =~= before.push(
                    piece_of(s, token, from, to, line as int),
                ));
            }
        }
        proof {
            let rest = pieces_to(s, token, from, to, line as int);
            let more = pieces_to(s, token, from, to, line + 1);
            assert(piece_of(s, token, from, to, line as int).length == end - first);
            assert(parts_shown(parts@) =~= start + more);
        }
        if line < range.end.line {
            line = line + 1;
        } else {
            done = true;
        }
    }
}

/// The parts of tokens in their lines. A token that starts or ends inside a
/// character, or behind the text, has none.
pub fn parts_of(tokens: &Vec<SemanticToken>, text: &str, index: &LineIndex) -> (parts: Vec<Part>)
    requires
        indexes(*index, text@),
    ensures
        parts_shown(parts@) == all_pieces(text@, tokens@, tokens@.len() as int),
{
    let ghost s = text@;
    let chars = crate::text::chars_of(text);
    let mut parts: Vec<Part> = Vec::new();
    let mut i: usize = 0;
    proof {
        assert(parts_shown(parts@) =~= all_pieces(s, tokens@, 0));
    }
    while i < tokens.len()
        invariant
            i <= tokens@.len(),
            chars@ == text@,
            s == text@,
            indexes(*index, text@),
            parts_shown(parts@) == all_pieces(s, tokens@, i as int),
        decreases tokens@.len() - i,
    {
        let token = tokens[i];
        let ghost before = parts_shown(parts@);
        match lsp_range_from_text_range(token.range, text, index) {
            Some(range) => {
                proof {
                    range_is_placed(s, token, range);
                }
                add_parts(&chars, text, index, token, range, &mut parts);
            },
            None => {
                proof {
                    assert(!is_placed(s, token));
                    assert(before =~= before + token_pieces(s, token));
                }
            },
        }
        i = i + 1;
    }
    parts
}

/// The positions of a token are the places of its ends.
proof fn range_is_placed(s: Seq<char>, token: SemanticToken, range: Range)
    requires
        crate::edits::is_range(s, token.range, Some(range)),
    ensures
        is_placed(s, token),
        place(s, char_of(s, token.range.start)) == (
            range.start.line as int,
            range.start.character as int,
        ),
        place(s, char_of(s, token.range.end)) == (
            range.end.line as int,
            range.end.character as int,
        ),
        range.end.line < line_heads(s).len(),
{
    let a = choose|i: int| #[trigger]
        is_char_at(s, token.range.start, i) && place(s, i) == (
            range.start.line as int,
            range.start.character as int,
        );
    let b = choose|i: int| #[trigger]
        is_char_at(s, token.range.end, i) && place(s, i) == (
            range.end.line as int,
            range.end.character as int,
        );
    char_of_is(s, token.range.start, a);
    char_of_is(s, token.range.end, b);
    crate::convert::heads_first(s, b, s.len() as int);
}

/// The tokens of a text as an editor takes them. They have to come in order.
pub fn lsp_semantic_tokens(tokens: &Vec<SemanticToken>, text: &str, index: &LineIndex) -> (result: Vec<
    EncodedToken,
>)
    requires
        indexes(*index, text@),
        in_sequence(all_pieces(text@, tokens@, tokens@.len() as int)),
    ensures
        are_encoded(all_pieces(text@, tokens@, tokens@.len() as int), result@),
{
    let parts = parts_of(tokens, text, index);
    let ghost pieces = parts_shown(parts@);
    let mut result: Vec<EncodedToken> = Vec::new();
    let mut previous = Position { line: 0, character: 0 };
    let mut i: usize = 0;
    while i < parts.len()
        invariant
            i <= parts@.len(),
            pieces == parts_shown(parts@),
            in_sequence(pieces),
            result@.len() == i,
            (previous.line as int, previous.character as int) == start_before(pieces, i as int),
            forall|k: int| 0 <= k < i ==> is_encoded(pieces, k, #[trigger] result@[k]),
        decreases parts@.len() - i,
    {
        let part = parts[i];
        proof {
            assert(pieces[i as int] == part@);
            if i > 0 {
                assert(follows(pieces[i - 1], pieces[i as int]));
            }
        }
        let delta_line = part.line - previous.line;
        let delta_start = if delta_line == 0 {
            part.start - previous.character
        } else {
            part.start
        };
        result.push(
            EncodedToken {
                delta_line,
                delta_start,
                length: part.length,
                token_type: part.token.token_type,
                token_modifiers_bitset: part.token.modifiers,
            },
        );
        previous = Position { line: part.line, character: part.start };
        i = i + 1;
    }
    result
}

/// Whether a place does not come behind another.
pub open spec fn not_behind(a: (int, int), b: (int, int)) -> bool {
    a.0 < b.0 || (a.0 == b.0 && a.1 <= b.1)
}

/// A later character does not have an earlier place.
proof fn places_rise(s: Seq<char>, i: int, j: int)
    requires
        0 <= i <= j <= s.len(),
    ensures
        not_behind(place(s, i), place(s, j)),
        0 <= place(s, i).1,
{
    crate::convert::heads_first(s, i, j);
    crate::positions::heads_rise(s, i);
    let head = heads(s, i).last();
    if head < i {
        sizes_rise(s, head, i);
    }
    if heads(s, i).len() == heads(s, j).len() {
        assert(heads(s, j).last() == head);
        if i < j {
            sizes_rise(s, i, j);
        }
    }
}

/// Where a part starts.
pub open spec fn piece_start(p: Piece) -> (int, int) {
    (p.line, p.start)
}

/// The parts of a token come in order, between its ends.
proof fn pieces_between(
    s: Seq<char>,
    token: SemanticToken,
    from: (int, int),
    to: (int, int),
    stop: int,
)
    requires
        stop <= to.0 + 1,
        0 <= from.1,
    ensures
        ({
            let pieces = pieces_to(s, token, from, to, stop);
            &&& in_sequence(pieces)
            &&& forall|k: int|
                0 <= k < pieces.len() ==> not_behind(from, piece_start(#[trigger] pieces[k]))
                    && not_behind(piece_start(pieces[k]), to) && pieces[k].line < stop
        }),
    decreases stop - from.0,
{
    if stop > from.0 {
        pieces_between(s, token, from, to, stop - 1);
        let rest = pieces_to(s, token, from, to, stop - 1);
        let pieces = pieces_to(s, token, from, to, stop);
        assert forall|k: int| 0 < k < pieces.len() implies follows(
            pieces[k - 1],
            #[trigger] pieces[k],
        ) by {
            if k < rest.len() {
                assert(pieces[k] == rest[k] && pieces[k - 1] == rest[k - 1]);
                assert(follows(rest[k - 1], rest[k]));
            } else {
                assert(pieces[k - 1] == rest[k - 1]);
                assert(rest[k - 1].line < stop - 1);
            }
        }
        assert forall|k: int| 0 <= k < pieces.len() implies not_behind(
            from,
            piece_start(#[trigger] pieces[k]),
        ) && not_behind(piece_start(pieces[k]), to) && pieces[k].line < stop by {
            if k < rest.len() {
                assert(pieces[k] == rest[k]);
            }
        }
    }
}

/// Whether every part starts before some character that is not behind an offset.
pub open spec fn are_before(s: Seq<char>, pieces: Seq<Piece>, offset: nat) -> bool {
    forall|k: int|
        0 <= k < pieces.len() ==> is_before(s, #[trigger] pieces[k], offset)
}

/// Whether a part starts before some character that is not behind an offset.
pub open spec fn is_before(s: Seq<char>, piece: Piece, offset: nat) -> bool {
    exists|c: int|
        0 <= c <= s.len() && #[trigger] size(s, c) <= offset && not_behind(
            piece_start(piece),
            place(s, c),
        )
}

/// Tokens that do not overlap and come in the order of their offsets have parts in
/// sequence.
pub proof fn ordered_tokens_are_in_sequence(s: Seq<char>, tokens: Seq<SemanticToken>, n: int)
    requires
        0 <= n <= tokens.len(),
        forall|i: int|
            0 <= i < tokens.len() ==> (#[trigger] tokens[i]).range.start <= tokens[i].range.end,
        forall|i: int, j: int|
            0 <= i < j < tokens.len() ==> (#[trigger] tokens[i]).range.end <= (
            #[trigger] tokens[j]).range.start,
    ensures
        in_sequence(all_pieces(s, tokens, n)),
        n > 0 ==> are_before(s, all_pieces(s, tokens, n), tokens[n - 1].range.end as nat),
        n == 0 ==> all_pieces(s, tokens, n).len() == 0,
    decreases n,
{
    if n > 0 {
        ordered_tokens_are_in_sequence(s, tokens, n - 1);
        let token = tokens[n - 1];
        let before = all_pieces(s, tokens, n - 1);
        let own = token_pieces(s, token);
        let all = all_pieces(s, tokens, n);
        assert(token.range.start <= token.range.end);
        if n > 1 {
            assert(tokens[n - 2].range.end <= tokens[n - 1].range.start);
        }
        own_pieces(s, token);
        assert forall|k: int| 0 < k < all.len() implies follows(all[k - 1], #[trigger] all[k]) by {
            if k < before.len() {
                assert(all[k] == before[k] && all[k - 1] == before[k - 1]);
                assert(follows(before[k - 1], before[k]));
            } else if k == before.len() {
                assert(all[k] == own[0]);
                assert(all[k - 1] == before[k - 1]);
                assert(is_before(s, before[k - 1], tokens[n - 2].range.end as nat));
                before_then_own(s, before[k - 1], tokens[n - 2].range.end as nat, token, 0);
            } else {
                assert(all[k] == own[k - before.len()]);
                assert(all[k - 1] == own[k - 1 - before.len()]);
                assert(follows(own[k - 1 - before.len()], own[k - before.len()]));
            }
        }
        assert forall|k: int| 0 <= k < all.len() implies is_before(
            s,
            #[trigger] all[k],
            token.range.end as nat,
        ) by {
            if k < before.len() {
                assert(all[k] == before[k]);
                assert(is_before(s, before[k], tokens[n - 2].range.end as nat));
                let c = choose|c: int|
                    0 <= c <= s.len() && #[trigger] size(s, c) <= tokens[n - 2].range.end
                        && not_behind(piece_start(before[k]), place(s, c));
                assert(size(s, c) <= token.range.end);
            } else {
                assert(all[k] == own[k - before.len()]);
                let b = char_of(s, token.range.end);
                assert(is_char_at(s, token.range.end, b));
                assert(size(s, b) <= token.range.end);
            }
        }
    }
}

/// The parts of a token come in order, between the places of its ends.
proof fn own_pieces(s: Seq<char>, token: SemanticToken)
    requires
        token.range.start <= token.range.end,
    ensures
        in_sequence(token_pieces(s, token)),
        forall|k: int|
            0 <= k < token_pieces(s, token).len() ==> not_behind(
                place(s, char_of(s, token.range.start)),
                piece_start(#[trigger] token_pieces(s, token)[k]),
            ) && not_behind(
                piece_start(token_pieces(s, token)[k]),
                place(s, char_of(s, token.range.end)),
            ),
        token_pieces(s, token).len() > 0 ==> is_char_at(
            s,
            token.range.start,
            char_of(s, token.range.start),
        ) && is_char_at(s, token.range.end, char_of(s, token.range.end)),
{
    if is_placed(s, token) {
        let a = char_of(s, token.range.start);
        let b = char_of(s, token.range.end);
        assert(is_char_at(s, token.range.start, a));
        assert(is_char_at(s, token.range.end, b));
        places_rise(s, a, a);
        pieces_between(s, token, place(s, a), place(s, b), place(s, b).0 + 1);
    }
}

/// A part before a token does not start behind a part of it.
proof fn before_then_own(s: Seq<char>, piece: Piece, offset: nat, token: SemanticToken, k: int)
    requires
        is_before(s, piece, offset),
        offset <= token.range.start <= token.range.end,
        0 <= k < token_pieces(s, token).len(),
    ensures
        follows(piece, token_pieces(s, token)[k]),
{
    own_pieces(s, token);
    let a = char_of(s, token.range.start);
    let c = choose|c: int|
        0 <= c <= s.len() && #[trigger] size(s, c) <= offset && not_behind(
            piece_start(piece),
            place(s, c),
        );
    assert(is_char_at(s, token.range.start, a));
    if a < c {
        sizes_rise(s, a, c);
    }
    places_rise(s, c, a);
    let own = token_pieces(s, token)[k];
    assert(not_behind(place(s, a), piece_start(own)));
}

} // verus!
