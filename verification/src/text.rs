//! Strings as sequences of characters: the few operations on which the rest of
//! the library builds, each stated over the view of a string.

use std::path::Path;

use vstd::prelude::*;
use vstd::string::StringSliceAdditionalSpecFns;
use vstd::utf8::encode_utf8_decode_utf8;

verus! {

/// `String::push` appends one character.
pub assume_specification[ String::push ](s: &mut String, c: char)
    ensures
        final(s)@ == old(s)@.push(c),
;

/// Whether `s` begins with `prefix`.
pub open spec fn has_prefix(s: Seq<char>, prefix: Seq<char>) -> bool {
    prefix.len() <= s.len() && s.subrange(0, prefix.len() as int) == prefix
}

/// Whether `s` ends with `suffix`.
pub open spec fn has_suffix(s: Seq<char>, suffix: Seq<char>) -> bool {
    suffix.len() <= s.len() && s.subrange(s.len() - suffix.len(), s.len() as int) == suffix
}

/// Whether `part` stands in `s` starting at index `at`.
pub open spec fn occurs_at(s: Seq<char>, part: Seq<char>, at: int) -> bool {
    0 <= at && at + part.len() <= s.len() && s.subrange(at, at + part.len()) == part
}

/// Whether `part` stands anywhere in `s`.
pub open spec fn has_part(s: Seq<char>, part: Seq<char>) -> bool {
    exists|at: int| occurs_at(s, part, at)
}

/// The characters of a string, in order.
pub fn chars_of(s: &str) -> (r: Vec<char>)
    ensures
        r@ == s@,
{
    let mut out: Vec<char> = Vec::new();
    for c in iter: s.chars()
        invariant
            iter.seq() == s@,
            out@ == s@.take(iter.index() as int),
    {
        out.push(c);
        proof {
            assert(s@.take(iter.index() + 1) =~= s@.take(iter.index() as int).push(c));
        }
    }
    proof {
        assert(s@.take(s@.len() as int) =~= s@);
    }
    out
}

/// The string with the characters `chars[from..to]`.
pub fn string_of(chars: &[char], from: usize, to: usize) -> (r: String)
    requires
        from <= to <= chars@.len(),
    ensures
        r@ == chars@.subrange(from as int, to as int),
{
    let mut out = String::new();
    let mut i: usize = from;
    while i < to
        invariant
            from <= i <= to <= chars@.len(),
            out@ == chars@.subrange(from as int, i as int),
        decreases to - i,
    {
        out.push(chars[i]);
        i = i + 1;
        proof {
            assert(chars@.subrange(from as int, i as int) =~= chars@.subrange(
                from as int,
                i - 1,
            ).push(chars@[i - 1]));
        }
    }
    out
}

/// Whether `part` stands in `chars` starting at index `at`.
pub fn chars_at(chars: &[char], part: &[char], at: usize) -> (r: bool)
    ensures
        r == occurs_at(chars@, part@, at as int),
{
    if at > chars.len() || part.len() > chars.len() - at {
        return false;
    }
    let mut i: usize = 0;
    while i < part.len()
        invariant
            i <= part@.len(),
            at + part@.len() <= chars@.len() <= usize::MAX,
            forall|k: int| 0 <= k < i ==> chars@[at + k] == part@[k],
        decreases part@.len() - i,
    {
        if chars[at + i] != part[i] {
            proof {
                assert(chars@.subrange(at as int, at + part@.len())[i as int] != part@[i as int]);
            }
            return false;
        }
        i = i + 1;
    }
    proof {
        assert(chars@.subrange(at as int, at + part@.len()) =~= part@);
    }
    true
}

/// Whether two strings hold the same characters.
pub fn same(a: &str, b: &str) -> (r: bool)
    ensures
        r == (a@ == b@),
{
    let left = a.as_bytes();
    let right = b.as_bytes();
    if left.len() != right.len() {
        return false;
    }
    let mut i: usize = 0;
    while i < left.len()
        invariant
            i <= left@.len(),
            left@.len() == right@.len(),
            left@ == a.spec_bytes(),
            right@ == b.spec_bytes(),
            forall|k: int| 0 <= k < i ==> left@[k] == right@[k],
        decreases left@.len() - i,
    {
        if left[i] != right[i] {
            return false;
        }
        i = i + 1;
    }
    proof {
        assert(left@ =~= right@);
        encode_utf8_decode_utf8(a@);
        encode_utf8_decode_utf8(b@);
    }
    true
}

/// Whether `s` begins with `prefix`.
pub fn starts_with(s: &str, prefix: &str) -> (r: bool)
    ensures
        r == has_prefix(s@, prefix@),
{
    chars_at(chars_of(s).as_slice(), chars_of(prefix).as_slice(), 0)
}

/// Whether `s` ends with `suffix`.
pub fn ends_with(s: &str, suffix: &str) -> (r: bool)
    ensures
        r == has_suffix(s@, suffix@),
{
    let text = chars_of(s);
    let tail = chars_of(suffix);
    if tail.len() > text.len() {
        return false;
    }
    chars_at(text.as_slice(), tail.as_slice(), text.len() - tail.len())
}

/// The first index from `from` on at which `part` stands in `chars`.
pub fn find_from(chars: &[char], part: &[char], from: usize) -> (r: Option<usize>)
    ensures
        match r {
            Some(at) => from <= at && occurs_at(chars@, part@, at as int) && forall|k: int|
                from <= k < at ==> !#[trigger] occurs_at(chars@, part@, k),
            None => forall|k: int| from <= k ==> !#[trigger] occurs_at(chars@, part@, k),
        },
{
    let mut at: usize = from;
    while at <= chars.len()
        invariant
            from <= at,
            at <= chars@.len() + 1 || at == from,
            forall|k: int| from <= k < at ==> !#[trigger] occurs_at(chars@, part@, k),
        decreases chars@.len() + 1 - at,
    {
        if chars_at(chars, part, at) {
            return Some(at);
        }
        if at == chars.len() {
            return None;
        }
        at = at + 1;
    }
    None
}

/// Whether `part` stands anywhere in `s`.
pub fn contains(s: &str, part: &str) -> (r: bool)
    ensures
        r == has_part(s@, part@),
{
    let text = chars_of(s);
    let wanted = chars_of(part);
    match find_from(text.as_slice(), wanted.as_slice(), 0) {
        Some(at) => {
            proof {
                assert(occurs_at(s@, part@, at as int));
            }
            true
        },
        None => false,
    }
}

/// `a` followed by `b`.
pub fn join(a: &str, b: &str) -> (r: String)
    ensures
        r@ == a@ + b@,
{
    let mut out = a.to_owned();
    out.append(b);
    out
}

/// `a`, `b` and `c` one after another.
pub fn join3(a: &str, b: &str, c: &str) -> (r: String)
    ensures
        r@ == a@ + b@ + c@,
{
    let mut out = a.to_owned();
    out.append(b);
    out.append(c);
    out
}

/// Whether a character has the Unicode property `White_Space`.
pub uninterp spec fn white_space(c: char) -> bool;

/// `char::is_whitespace` tests the Unicode property `White_Space`, which depends
/// on the character alone. Which characters have it is left unsaid.
pub assume_specification[ char::is_whitespace ](c: char) -> (r: bool)
    ensures
        r == white_space(c),
;

/// `s` without the white space at its beginning.
pub open spec fn trimmed_start(s: Seq<char>) -> Seq<char>
    decreases s.len(),
{
    if s.len() > 0 && white_space(s[0]) {
        trimmed_start(s.drop_first())
    } else {
        s
    }
}

/// `s` without the white space at its end.
pub open spec fn trimmed_end(s: Seq<char>) -> Seq<char>
    decreases s.len(),
{
    if s.len() > 0 && white_space(s.last()) {
        trimmed_end(s.drop_last())
    } else {
        s
    }
}

/// `s` without the white space around it.
pub open spec fn trimmed(s: Seq<char>) -> Seq<char> {
    trimmed_end(trimmed_start(s))
}

/// `s` without the run of `c` at its beginning.
pub open spec fn without_leading(s: Seq<char>, c: char) -> Seq<char>
    decreases s.len(),
{
    if s.len() > 0 && s[0] == c {
        without_leading(s.drop_first(), c)
    } else {
        s
    }
}

/// The index of the first `c` in `s` from `from` on, or the length of `s`.
pub open spec fn first_index(s: Seq<char>, c: char, from: int) -> int
    decreases s.len() - from,
{
    if from < 0 || from >= s.len() || s[from] == c {
        if from < s.len() {
            from
        } else {
            s.len() as int
        }
    } else {
        first_index(s, c, from + 1)
    }
}

/// A line without the carriage return that belongs to its line break.
pub open spec fn without_return(s: Seq<char>) -> Seq<char> {
    if s.len() > 0 && s.last() == '\r' {
        s.drop_last()
    } else {
        s
    }
}

/// The lines of `s` from index `from` on, without their line breaks. A line
/// ends with a line feed, or a carriage return and a line feed; a break at the
/// very end opens no further line.
pub open spec fn lines_from(s: Seq<char>, from: int) -> Seq<Seq<char>>
    decreases s.len() - from,
{
    if from < 0 || from >= s.len() {
        Seq::empty()
    } else {
        let end = first_index(s, '\n', from);
        if from <= end < s.len() {
            seq![without_return(s.subrange(from, end))] + lines_from(s, end + 1)
        } else {
            seq![s.subrange(from, s.len() as int)]
        }
    }
}

/// Finds the first `c` from `from` on.
pub fn index_of(chars: &[char], c: char, from: usize) -> (r: usize)
    requires
        from <= chars@.len(),
    ensures
        r == first_index(chars@, c, from as int),
        from <= r <= chars@.len(),
        r < chars@.len() ==> chars@[r as int] == c,
        forall|k: int| from <= k < r ==> chars@[k] != c,
{
    let mut i: usize = from;
    while i < chars.len()
        invariant
            from <= i <= chars@.len(),
            first_index(chars@, c, i as int) == first_index(chars@, c, from as int),
            forall|k: int| from <= k < i ==> chars@[k] != c,
        decreases chars@.len() - i,
    {
        if chars[i] == c {
            return i;
        }
        i = i + 1;
    }
    i
}

/// The start of `chars[from..to]` without leading white space.
pub fn skip_space(chars: &[char], from: usize, to: usize) -> (r: usize)
    requires
        from <= to <= chars@.len(),
    ensures
        from <= r <= to,
        chars@.subrange(r as int, to as int) == trimmed_start(
            chars@.subrange(from as int, to as int),
        ),
{
    let mut i: usize = from;
    while i < to && chars[i].is_whitespace()
        invariant
            from <= i <= to <= chars@.len(),
            trimmed_start(chars@.subrange(i as int, to as int)) == trimmed_start(
                chars@.subrange(from as int, to as int),
            ),
        decreases to - i,
    {
        proof {
            assert(chars@.subrange(i as int, to as int).drop_first() =~= chars@.subrange(
                i + 1,
                to as int,
            ));
        }
        i = i + 1;
    }
    i
}

/// The end of `chars[from..to]` without trailing white space.
pub fn drop_space(chars: &[char], from: usize, to: usize) -> (r: usize)
    requires
        from <= to <= chars@.len(),
    ensures
        from <= r <= to,
        chars@.subrange(from as int, r as int) == trimmed_end(
            chars@.subrange(from as int, to as int),
        ),
{
    let mut i: usize = to;
    while i > from && chars[i - 1].is_whitespace()
        invariant
            from <= i <= to <= chars@.len(),
            trimmed_end(chars@.subrange(from as int, i as int)) == trimmed_end(
                chars@.subrange(from as int, to as int),
            ),
        decreases i,
    {
        proof {
            assert(chars@.subrange(from as int, i as int).drop_last() =~= chars@.subrange(
                from as int,
                i - 1,
            ));
        }
        i = i - 1;
    }
    i
}

/// The start of `chars[from..to]` without leading characters `c`.
pub fn skip_char(chars: &[char], c: char, from: usize, to: usize) -> (r: usize)
    requires
        from <= to <= chars@.len(),
    ensures
        from <= r <= to,
        chars@.subrange(r as int, to as int) == without_leading(
            chars@.subrange(from as int, to as int),
            c,
        ),
{
    let mut i: usize = from;
    while i < to && chars[i] == c
        invariant
            from <= i <= to <= chars@.len(),
            without_leading(chars@.subrange(i as int, to as int), c) == without_leading(
                chars@.subrange(from as int, to as int),
                c,
            ),
        decreases to - i,
    {
        proof {
            assert(chars@.subrange(i as int, to as int).drop_first() =~= chars@.subrange(
                i + 1,
                to as int,
            ));
        }
        i = i + 1;
    }
    i
}

/// `s` without the white space around it.
pub fn trim(s: &str) -> (r: String)
    ensures
        r@ == trimmed(s@),
{
    let chars = chars_of(s);
    let start = skip_space(chars.as_slice(), 0, chars.len());
    let end = drop_space(chars.as_slice(), start, chars.len());
    proof {
        assert(s@.subrange(0, s@.len() as int) =~= s@);
    }
    string_of(chars.as_slice(), start, end)
}

/// The lines of a text, without their line breaks.
pub fn lines(s: &str) -> (r: Vec<String>)
    ensures
        r@.len() == lines_from(s@, 0).len(),
        forall|i: int| 0 <= i < r@.len() ==> (#[trigger] r@[i])@ == lines_from(s@, 0)[i],
{
    let chars = chars_of(s);
    let mut out: Vec<String> = Vec::new();
    let mut from: usize = 0;
    while from < chars.len()
        invariant
            chars@ == s@,
            from <= chars@.len(),
            lines_from(s@, 0).len() == out@.len() + lines_from(s@, from as int).len(),
            forall|i: int| 0 <= i < out@.len() ==> (#[trigger] out@[i])@ == lines_from(s@, 0)[i],
            forall|i: int|
                0 <= i < lines_from(s@, from as int).len() ==> #[trigger] lines_from(
                    s@,
                    from as int,
                )[i] == lines_from(s@, 0)[out@.len() + i],
        decreases chars@.len() - from,
    {
        let ghost before = lines_from(s@, from as int);
        let end = index_of(chars.as_slice(), '\n', from);
        if end < chars.len() {
            let stop: usize = if end > from && chars[end - 1] == '\r' {
                end - 1
            } else {
                end
            };
            let line = string_of(chars.as_slice(), from, stop);
            proof {
                assert(line@ =~= without_return(s@.subrange(from as int, end as int)));
                assert(before[0] == line@);
                assert(forall|i: int|
                    0 <= i < lines_from(s@, end + 1).len() ==> #[trigger] lines_from(
                        s@,
                        end + 1,
                    )[i] == before[i + 1]);
                assert(before[0] == lines_from(s@, 0)[out@.len() as int]);
            }
            out.push(line);
            from = end + 1;
        } else {
            let line = string_of(chars.as_slice(), from, end);
            proof {
                assert(before[0] == line@);
                assert(before[0] == lines_from(s@, 0)[out@.len() as int]);
            }
            out.push(line);
            from = chars.len();
        }
    }
    out
}

/// The texts of a list of strings.
pub open spec fn views(v: Seq<String>) -> Seq<Seq<char>> {
    Seq::new(v.len(), |i: int| v[i]@)
}

/// The first index from `from` on at which `part` stands in `s`, or -1.
pub open spec fn find_in(s: Seq<char>, part: Seq<char>, from: int) -> int
    decreases s.len() + 1 - from,
{
    if from < 0 || from > s.len() {
        -1
    } else if occurs_at(s, part, from) {
        from
    } else {
        find_in(s, part, from + 1)
    }
}

/// What `find_in` finds.
pub proof fn find_in_finds(s: Seq<char>, part: Seq<char>, from: int)
    requires
        0 <= from,
    ensures
        find_in(s, part, from) >= 0 ==> from <= find_in(s, part, from) && occurs_at(
            s,
            part,
            find_in(s, part, from),
        ),
        find_in(s, part, from) < 0 ==> find_in(s, part, from) == -1 && forall|k: int|
            from <= k ==> !#[trigger] occurs_at(s, part, k),
        forall|k: int|
            from <= k < find_in(s, part, from) ==> !#[trigger] occurs_at(s, part, k),
    decreases s.len() + 1 - from,
{
    if from <= s.len() && !occurs_at(s, part, from) {
        find_in_finds(s, part, from + 1);
    }
}

/// The pieces of `s` between the places where `sep` stands, from the left.
pub open spec fn pieces(s: Seq<char>, sep: Seq<char>) -> Seq<Seq<char>>
    decreases s.len(),
{
    let i = find_in(s, sep, 0);
    if sep.len() == 0 || i < 0 || i + sep.len() > s.len() {
        seq![s]
    } else {
        seq![s.subrange(0, i)] + pieces(s.subrange(i + sep.len(), s.len() as int), sep)
    }
}

/// There is a piece, and none is longer than the whole; with two or more, each
/// is shorter by the separator.
pub proof fn pieces_short(s: Seq<char>, sep: Seq<char>)
    ensures
        pieces(s, sep).len() >= 1,
        forall|k: int|
            0 <= k < pieces(s, sep).len() ==> (#[trigger] pieces(s, sep)[k]).len() <= s.len(),
        pieces(s, sep).len() >= 2 ==> forall|k: int|
            0 <= k < pieces(s, sep).len() ==> (#[trigger] pieces(s, sep)[k]).len() + sep.len()
                <= s.len(),
    decreases s.len(),
{
    let i = find_in(s, sep, 0);
    if !(sep.len() == 0 || i < 0 || i + sep.len() > s.len()) {
        let rest = s.subrange(i + sep.len(), s.len() as int);
        pieces_short(rest, sep);
        let all = pieces(s, sep);
        assert forall|k: int| 0 <= k < all.len() implies (#[trigger] all[k]).len() + sep.len()
            <= s.len() by {
            if k > 0 {
                assert(all[k] == pieces(rest, sep)[k - 1]);
            }
        }
    }
}

/// Splits `s` at each place where `sep` stands, from the left.
pub fn split(s: &str, sep: &str) -> (r: Vec<String>)
    requires
        sep@.len() > 0,
    ensures
        views(r@) == pieces(s@, sep@),
{
    let chars = chars_of(s);
    let mark = chars_of(sep);
    let mut out: Vec<String> = Vec::new();
    let mut from: usize = 0;
    proof {
        assert(s@.subrange(0, s@.len() as int) =~= s@);
        assert(views(out@) + pieces(s@, sep@) =~= pieces(s@, sep@));
    }
    loop
        invariant
            chars@ == s@,
            mark@ == sep@,
            sep@.len() > 0,
            from <= chars@.len(),
            views(out@) + pieces(s@.subrange(from as int, s@.len() as int), sep@) == pieces(
                s@,
                sep@,
            ),
        decreases chars@.len() - from,
    {
        let ghost rest = s@.subrange(from as int, s@.len() as int);
        let ghost done = views(out@);
        let found = find_from(chars.as_slice(), mark.as_slice(), from);
        proof {
            find_in_finds(rest, sep@, 0);
            assert forall|k: int| 0 <= k implies #[trigger] occurs_at(rest, sep@, k) == occurs_at(
                s@,
                sep@,
                from + k,
            ) by {
                if k + sep@.len() <= rest.len() {
                    assert(rest.subrange(k, k + sep@.len()) =~= s@.subrange(
                        from + k,
                        from + k + sep@.len(),
                    ));
                }
            }
        }
        match found {
            Some(at) => {
                proof {
                    let i = find_in(rest, sep@, 0);
                    assert(occurs_at(rest, sep@, at - from));
                    assert(i == at - from) by {
                        if i < at - from {
                            assert(!occurs_at(s@, sep@, from + i));
                        }
                    }
                }
                let piece = string_of(chars.as_slice(), from, at);
                let ghost text = piece@;
                out.push(piece);
                proof {
                    let i = at - from;
                    let next = s@.subrange(at + sep@.len(), s@.len() as int);
                    assert(text =~= rest.subrange(0, i));
                    assert(rest.subrange(i + sep@.len(), rest.len() as int) =~= next);
                    assert(views(out@) =~= done.push(text));
                    assert(views(out@) + pieces(next, sep@) =~= done + (seq![text] + pieces(
                        next,
                        sep@,
                    )));
                }
                let total: usize = chars.len();
                assert(at + mark@.len() <= total);
                from = at + mark.len();
            },
            None => {
                proof {
                    let i = find_in(rest, sep@, 0);
                    if i >= 0 {
                        assert(!occurs_at(s@, sep@, from + i));
                    }
                }
                let piece = string_of(chars.as_slice(), from, chars.len());
                out.push(piece);
                proof {
                    assert(views(out@) =~= done + seq![rest]);
                }
                return out;
            },
        }
    }
}

/// The text that `Debug` writes for a string.
pub uninterp spec fn debug_text(text: Seq<char>) -> Seq<char>;

/// The text that `Debug` writes for a path.
pub uninterp spec fn debug_path(path: Seq<char>) -> Seq<char>;

/// `Debug` of `str`: the text in quotation marks, with escapes. Which characters
/// are escaped is not stated.
#[verifier::external_body]
pub(crate) fn in_quotes(text: &str) -> (r: String)
    ensures
        r@ == debug_text(text@),
{
    format!("{:?}", text)
}

/// `Debug` of `std::path::Path`: the path in quotation marks, with escapes. Which
/// characters are escaped is not stated.
#[verifier::external_body]
pub(crate) fn path_in_quotes(path: &str) -> (r: String)
    ensures
        r@ == debug_path(path@),
{
    format!("{:?}", Path::new(path))
}

} // verus!
