//! What holds of texts that are cut up.

use vstd::prelude::*;

use crate::system::{decisive, Attempt};
use crate::text::{
    find_in, find_in_finds, first_index, lines_from, occurs_at, pieces, trimmed, trimmed_end,
    trimmed_start, white_space, without_leading, without_return,
};

verus! {

/// Texts with a separator between them.
pub open spec fn joined_by(parts: Seq<Seq<char>>, sep: Seq<char>) -> Seq<char>
    decreases parts.len(),
{
    if parts.len() == 0 {
        seq![]
    } else if parts.len() == 1 {
        parts[0]
    } else {
        parts[0] + sep + joined_by(parts.drop_first(), sep)
    }
}

/// The pieces of a text, with the separators between them, are the text.
pub proof fn pieces_make_up_the_text(s: Seq<char>, sep: Seq<char>)
    requires
        sep.len() > 0,
    ensures
        joined_by(pieces(s, sep), sep) == s,
        pieces(s, sep).len() > 0,
    decreases s.len(),
{
    find_in_finds(s, sep, 0);
    let i = find_in(s, sep, 0);
    let all = pieces(s, sep);
    if i < 0 || i + sep.len() > s.len() {
        assert(all =~= seq![s]);
    } else {
        let rest = s.subrange(i + sep.len(), s.len() as int);
        pieces_make_up_the_text(rest, sep);
        assert(all.drop_first() =~= pieces(rest, sep));
        assert(occurs_at(s, sep, i));
        assert(s =~= s.subrange(0, i) + s.subrange(i, i + sep.len()) + rest);
    }
}

/// The first index of a character is the first place where it stands, or the end.
pub proof fn the_first_index_is_the_first(s: Seq<char>, c: char, from: int)
    requires
        0 <= from <= s.len(),
    ensures
        from <= first_index(s, c, from) <= s.len(),
        first_index(s, c, from) < s.len() ==> s[first_index(s, c, from)] == c,
        forall|k: int| from <= k < first_index(s, c, from) ==> s[k] != c,
    decreases s.len() - from,
{
    if from < s.len() && s[from] != c {
        the_first_index_is_the_first(s, c, from + 1);
    }
}

proof fn start_is_cut(s: Seq<char>)
    ensures
        exists|n: int| #[trigger]
            is_start_space(s, n) && trimmed_start(s) == s.skip(n) && (n < s.len()
                ==> !white_space(s[n])),
    decreases s.len(),
{
    if s.len() > 0 && white_space(s[0]) {
        let rest = s.drop_first();
        start_is_cut(rest);
        let n = choose|n: int| #[trigger]
            is_start_space(rest, n) && trimmed_start(rest) == rest.skip(n) && (n < rest.len()
                ==> !white_space(rest[n]));
        assert(s.skip(n + 1) =~= rest.skip(n));
        assert forall|i: int| 0 <= i < n + 1 implies white_space(#[trigger] s[i]) by {
            if i > 0 {
                assert(s[i] == rest[i - 1]);
            }
        }
        if n + 1 < s.len() {
            assert(s[n + 1] == rest[n]);
        }
        assert(is_start_space(s, n + 1));
    } else {
        assert(s.skip(0) =~= s);
        assert(is_start_space(s, 0));
    }
}

/// Whether the first characters of a text are white space.
pub open spec fn is_start_space(s: Seq<char>, n: int) -> bool {
    0 <= n <= s.len() && forall|i: int| 0 <= i < n ==> white_space(#[trigger] s[i])
}

proof fn end_is_cut(s: Seq<char>)
    ensures
        trimmed_end(s).len() <= s.len(),
        trimmed_end(s) == s.take(trimmed_end(s).len() as int),
        forall|i: int| trimmed_end(s).len() <= i < s.len() ==> white_space(#[trigger] s[i]),
        trimmed_end(s).len() > 0 ==> !white_space(trimmed_end(s).last()),
    decreases s.len(),
{
    if s.len() > 0 && white_space(s.last()) {
        let rest = s.drop_last();
        end_is_cut(rest);
        let n = trimmed_end(rest).len() as int;
        assert(s.take(n) =~= rest.take(n));
        assert forall|i: int| n <= i < s.len() implies white_space(#[trigger] s[i]) by {
            if i < rest.len() {
                assert(s[i] == rest[i]);
            }
        }
    } else {
        assert(s.take(s.len() as int) =~= s);
    }
}

/// A trimmed text is a part of the text, with white space before and behind it, and
/// starts and ends with something else.
pub proof fn trimming_cuts_white_space_alone(s: Seq<char>)
    ensures
        exists|n: int| #[trigger]
            is_start_space(s, n) && n + trimmed(s).len() <= s.len() && trimmed(s) == s.subrange(
                n,
                n + trimmed(s).len(),
            ) && forall|i: int| n + trimmed(s).len() <= i < s.len() ==> white_space(#[trigger] s[i]),
        trimmed(s).len() > 0 ==> !white_space(trimmed(s)[0]) && !white_space(trimmed(s).last()),
{
    start_is_cut(s);
    let n = choose|n: int| #[trigger]
        is_start_space(s, n) && trimmed_start(s) == s.skip(n) && (n < s.len() ==> !white_space(
            s[n],
        ));
    let rest = s.skip(n);
    end_is_cut(rest);
    let m = trimmed(s).len() as int;
    assert(trimmed(s) =~= s.subrange(n, n + m));
    assert forall|i: int| n + m <= i < s.len() implies white_space(#[trigger] s[i]) by {
        assert(s[i] == rest[i - n]);
    }
    if m > 0 {
        assert(trimmed(s)[0] == s[n]);
    }
}

/// A text of lines that end in line feeds, and of a last one that does not, has these
/// lines, without the carriage returns before the line feeds.
pub proof fn lines_end_at_line_feeds(line: Seq<char>, rest: Seq<char>, before: Seq<char>)
    requires
        !line.contains('\n'),
    ensures
        lines_from(before + line + seq!['\n'] + rest, before.len() as int) == seq![
            without_return(line),
        ] + lines_from(
            before + line + seq!['\n'] + rest,
            (before.len() + line.len() + 1) as int,
        ),
        line.len() > 0 ==> lines_from(before + line, before.len() as int) == seq![line],
{
    let s = before + line + seq!['\n'] + rest;
    let from = before.len() as int;
    let end = from + line.len();
    assert(s[end] == '\n');
    the_first_index_is_the_first(s, '\n', from);
    let found = first_index(s, '\n', from);
    if found < end {
        assert(line[found - from] == '\n');
    }
    assert(found == end);
    assert(s.subrange(from, end) =~= line);
    if line.len() > 0 {
        let t = before + line;
        the_first_index_is_the_first(t, '\n', from);
        let at = first_index(t, '\n', from);
        if at < t.len() {
            assert(line[at - from] == '\n');
        }
        assert(t.subrange(from, t.len() as int) =~= line);
    }
}

/// What is left of a text without the run of a character at its beginning starts with
/// another one, and only that character is left out.
pub proof fn only_the_run_is_left_out(s: Seq<char>, c: char)
    ensures
        without_leading(s, c).len() <= s.len(),
        without_leading(s, c) == s.skip(s.len() - without_leading(s, c).len()),
        forall|i: int| 0 <= i < s.len() - without_leading(s, c).len() ==> #[trigger] s[i] == c,
        without_leading(s, c).len() > 0 ==> without_leading(s, c)[0] != c,
    decreases s.len(),
{
    if s.len() > 0 && s[0] == c {
        let rest = s.drop_first();
        only_the_run_is_left_out(rest, c);
        let left = without_leading(rest, c);
        assert(s.skip(s.len() - left.len()) =~= rest.skip(rest.len() - left.len()));
        assert forall|i: int| 0 <= i < s.len() - left.len() implies #[trigger] s[i] == c by {
            if i > 0 {
                assert(s[i] == rest[i - 1]);
            }
        }
    } else {
        assert(s.skip(0) =~= s);
    }
}

/// Whether an attempt decides where a path leads: it found something or failed, and all
/// before it, which are nearer to the path, found nothing.
pub open spec fn decides(attempts: Seq<Attempt>, k: int) -> bool {
    &&& 0 <= k < attempts.len()
    &&& !(attempts[k].canonical is NotFound)
    &&& forall|j: int| 0 <= j < k ==> (#[trigger] attempts[j]).canonical is NotFound
}

/// Where a path leads on disk is decided by the nearest directory of it that is there, or
/// that cannot be looked at.
pub proof fn the_nearest_directory_decides(attempts: Seq<Attempt>, k: int)
    requires
        decides(attempts, k),
    ensures
        decisive(attempts, 0) == k,
{
    decision_is_behind(attempts, k, 0);
}

proof fn decision_is_behind(attempts: Seq<Attempt>, k: int, j: int)
    requires
        decides(attempts, k),
        0 <= j <= k,
    ensures
        decisive(attempts, j) == k,
    decreases k - j,
{
    if j < k {
        assert(attempts[j].canonical is NotFound);
        decision_is_behind(attempts, k, j + 1);
    }
}

} // verus!
