//! Paths with `/` between their parts.

use vstd::prelude::*;

use crate::text::{pieces, views};

verus! {

/// Whether piece `k` of a path is a part of it: not empty, and not the directory
/// itself, unless the path starts with that.
pub open spec fn is_part(all: Seq<Seq<char>>, k: int) -> bool {
    all[k].len() > 0 && (all[k] != "."@ || k == 0)
}

/// The first `n` pieces that are parts.
pub open spec fn kept_parts(all: Seq<Seq<char>>, n: nat) -> Seq<Seq<char>>
    decreases n,
{
    if n == 0 {
        Seq::empty()
    } else if is_part(all, n - 1) {
        kept_parts(all, (n - 1) as nat).push(all[n - 1])
    } else {
        kept_parts(all, (n - 1) as nat)
    }
}

/// The parts of a path, from the root on.
pub open spec fn path_parts(path: Seq<char>) -> Seq<Seq<char>> {
    let all = pieces(path, "/"@);
    kept_parts(all, all.len())
}

/// Whether a path starts at the root.
pub open spec fn is_rooted(path: Seq<char>) -> bool {
    path.len() > 0 && path[0] == '/'
}

/// The name of the file that a path leads to. A path that ends at the root, in
/// nothing, in the directory itself or in a parent directory names none.
pub open spec fn name_part(path: Seq<char>) -> Option<Seq<char>> {
    let parts = path_parts(path);
    if parts.len() == 0 || parts.last() == ".."@ || parts.last() == "."@ {
        None
    } else {
        Some(parts.last())
    }
}

/// The parts of a path.
pub fn parts(path: &str) -> (r: Vec<String>)
    ensures
        views(r@) == path_parts(path@),
{
    proof {
        reveal_strlit("/");
    }
    let all = crate::text::split(path, "/");
    let ghost wanted = pieces(path@, "/"@);
    let mut out: Vec<String> = Vec::new();
    let mut i: usize = 0;
    proof {
        assert(views(out@) =~= kept_parts(wanted, 0));
    }
    while i < all.len()
        invariant
            i <= all@.len(),
            views(all@) == wanted,
            views(out@) == kept_parts(wanted, i as nat),
        decreases all@.len() - i,
    {
        let ghost before = views(out@);
        proof {
            assert(views(all@)[i as int] == all@[i as int]@);
        }
        if !all[i].as_str().is_empty() && (i == 0 || !crate::text::same(all[i].as_str(), ".")) {
            out.push(all[i].clone());
            proof {
                assert(views(out@) =~= before.push(all@[i as int]@));
            }
        }
        i = i + 1;
    }
    proof {
        assert(wanted.len() == all@.len());
    }
    out
}

/// The name of the file that a path leads to.
pub fn file_name(path: &str) -> (r: Option<String>)
    ensures
        crate::lower_spec::text_of(r) == name_part(path@),
{
    let found = parts(path);
    proof {
        assert(views(found@).len() == found@.len());
        if found@.len() > 0 {
            assert(views(found@).last() == found@[found@.len() - 1]@);
        }
    }
    if found.len() == 0 {
        return None;
    }
    let last = &found[found.len() - 1];
    if crate::text::same(last.as_str(), "..") || crate::text::same(last.as_str(), ".") {
        None
    } else {
        Some(last.clone())
    }
}

/// Whether two paths lead to the same place, part by part.
pub open spec fn same_place(a: Seq<char>, b: Seq<char>) -> bool {
    is_rooted(a) == is_rooted(b) && path_parts(a) == path_parts(b)
}

/// Whether a path leads to a directory or to something below it.
pub open spec fn is_under(path: Seq<char>, directory: Seq<char>) -> bool {
    &&& is_rooted(path) == is_rooted(directory)
    &&& path_parts(directory).len() <= path_parts(path).len()
    &&& path_parts(path).take(path_parts(directory).len() as int) == path_parts(directory)
}

/// The parts of a path below a directory.
pub open spec fn parts_below(path: Seq<char>, directory: Seq<char>) -> Seq<Seq<char>> {
    path_parts(path).skip(path_parts(directory).len() as int)
}

/// A path below a directory; one that starts at the root stands for itself.
pub open spec fn joined(directory: Seq<char>, path: Seq<char>) -> Seq<char> {
    if is_rooted(path) || directory.len() == 0 {
        path
    } else if directory.last() == '/' {
        directory + path
    } else {
        directory + "/"@ + path
    }
}

/// The index of the last `c` in `s`, or -1.
pub open spec fn last_index(s: Seq<char>, c: char, n: int) -> int
    decreases n,
{
    if n <= 0 || n > s.len() {
        -1
    } else if s[n - 1] == c {
        n - 1
    } else {
        last_index(s, c, n - 1)
    }
}

/// The extension of a path: what follows the last dot of its file name, unless
/// the name starts with that dot.
pub open spec fn extension_of(path: Seq<char>) -> Option<Seq<char>> {
    match name_part(path) {
        Some(name) => {
            let dot = last_index(name, '.', name.len() as int);
            if dot <= 0 {
                None
            } else {
                Some(name.subrange(dot + 1, name.len() as int))
            }
        },
        None => None,
    }
}

/// Whether a path starts at the root.
pub fn is_absolute(path: &str) -> (r: bool)
    ensures
        r == is_rooted(path@),
{
    let chars = crate::text::chars_of(path);
    chars.len() > 0 && chars[0] == '/'
}

/// A path below a directory.
pub fn join(directory: &str, path: &str) -> (r: String)
    ensures
        r@ == joined(directory@, path@),
{
    if is_absolute(path) || directory.is_empty() {
        return path.to_owned();
    }
    let chars = crate::text::chars_of(directory);
    if chars[chars.len() - 1] == '/' {
        crate::text::join(directory, path)
    } else {
        crate::text::join3(directory, "/", path)
    }
}

/// Whether the first parts of a path are those of another.
fn parts_start_with(path: &Vec<String>, start: &Vec<String>) -> (r: bool)
    ensures
        r == (start@.len() <= path@.len() && views(path@).take(start@.len() as int) == views(
            start@,
        )),
{
    if start.len() > path.len() {
        return false;
    }
    let mut i: usize = 0;
    while i < start.len()
        invariant
            i <= start@.len() <= path@.len(),
            forall|k: int| 0 <= k < i ==> path@[k]@ == start@[k]@,
        decreases start@.len() - i,
    {
        if !crate::text::same(path[i].as_str(), start[i].as_str()) {
            proof {
                assert(views(path@).take(start@.len() as int)[i as int] != views(
                    start@,
                )[i as int]);
            }
            return false;
        }
        i = i + 1;
    }
    proof {
        assert(views(path@).take(start@.len() as int) =~= views(start@));
    }
    true
}

/// Whether a path leads to a directory or to something below it.
pub fn starts_with(path: &str, directory: &str) -> (r: bool)
    ensures
        r == is_under(path@, directory@),
{
    if is_absolute(path) != is_absolute(directory) {
        return false;
    }
    let all = parts(path);
    let start = parts(directory);
    proof {
        assert(views(all@).len() == all@.len());
        assert(views(start@).len() == start@.len());
    }
    parts_start_with(&all, &start)
}

/// Whether two paths lead to the same place.
pub fn same_path(a: &str, b: &str) -> (r: bool)
    ensures
        r == same_place(a@, b@),
{
    if is_absolute(a) != is_absolute(b) {
        return false;
    }
    let left = parts(a);
    let right = parts(b);
    proof {
        assert(views(left@).len() == left@.len());
        assert(views(right@).len() == right@.len());
        assert(views(left@).take(views(left@).len() as int) =~= views(left@));
    }
    left.len() == right.len() && parts_start_with(&left, &right)
}

/// The extension of a path.
pub fn extension(path: &str) -> (r: Option<String>)
    ensures
        crate::lower_spec::text_of(r) == extension_of(path@),
{
    match file_name(path) {
        Some(name) => {
            let chars = crate::text::chars_of(name.as_str());
            let mut n: usize = chars.len();
            while n > 0 && chars[n - 1] != '.'
                invariant
                    n <= chars@.len(),
                    last_index(chars@, '.', n as int) == last_index(
                        chars@,
                        '.',
                        chars@.len() as int,
                    ),
                decreases n,
            {
                n = n - 1;
            }
            if n <= 1 {
                None
            } else {
                Some(crate::text::string_of(chars.as_slice(), n, chars.len()))
            }
        },
        None => None,
    }
}

/// The parts of a path below a directory, if it leads there.
pub fn below(path: &str, directory: &str) -> (r: Option<Vec<String>>)
    ensures
        match r {
            Some(rest) => is_under(path@, directory@) && views(rest@) == parts_below(
                path@,
                directory@,
            ),
            None => !is_under(path@, directory@),
        },
{
    if !starts_with(path, directory) {
        return None;
    }
    let all = parts(path);
    let start: usize = parts(directory).len();
    proof {
        assert(views(all@).len() == all@.len());
        assert(start == path_parts(directory@).len());
    }
    let mut out: Vec<String> = Vec::new();
    let mut i: usize = start;
    while i < all.len()
        invariant
            start <= i <= all@.len(),
            out@.len() == i - start,
            forall|k: int| 0 <= k < out@.len() ==> (#[trigger] out@[k])@ == all@[start + k]@,
        decreases all@.len() - i,
    {
        out.push(all[i].clone());
        i = i + 1;
    }
    proof {
        assert(views(out@) =~= parts_below(path@, directory@));
    }
    Some(out)
}

/// Parts with `/` between them, the first `n`.
pub open spec fn with_slashes(parts: Seq<Seq<char>>, n: nat) -> Seq<char>
    decreases n,
{
    if n == 0 {
        Seq::empty()
    } else if n == 1 {
        parts[0]
    } else {
        with_slashes(parts, (n - 1) as nat) + "/"@ + parts[n - 1]
    }
}

/// The first `n` parts with `/` between them.
pub fn join_parts(parts: &Vec<String>, n: usize) -> (r: String)
    requires
        n <= parts@.len(),
    ensures
        r@ == with_slashes(views(parts@), n as nat),
    decreases n,
{
    if n == 0 {
        String::new()
    } else if n == 1 {
        parts[0].clone()
    } else {
        let start = join_parts(parts, n - 1);
        crate::text::join3(start.as_str(), "/", parts[n - 1].as_str())
    }
}

/// A path with one slash between its parts.
pub open spec fn normal_text(path: Seq<char>) -> Seq<char> {
    let parts = path_parts(path);
    let rest = with_slashes(parts, parts.len());
    if is_rooted(path) {
        "/"@ + rest
    } else {
        rest
    }
}

/// A path with one slash between its parts.
pub fn normal(path: &str) -> (r: String)
    ensures
        r@ == normal_text(path@),
{
    let all = parts(path);
    proof {
        assert(views(all@).len() == all@.len());
    }
    let rest = join_parts(&all, all.len());
    if is_absolute(path) {
        crate::text::join("/", rest.as_str())
    } else {
        rest
    }
}

/// The directory that a path stands in. The root and nothing stand in none.
pub open spec fn parent_of(path: Seq<char>) -> Option<Seq<char>> {
    let parts = path_parts(path);
    if parts.len() == 0 {
        None
    } else {
        let rest = with_slashes(parts, (parts.len() - 1) as nat);
        Some(
            if is_rooted(path) {
                "/"@ + rest
            } else {
                rest
            },
        )
    }
}

/// The directory that a path stands in.
pub fn parent(path: &str) -> (r: Option<String>)
    ensures
        match r {
            Some(directory) => parent_of(path@) == Some(directory@),
            None => parent_of(path@) is None,
        },
{
    let all = parts(path);
    proof {
        assert(views(all@).len() == all@.len());
    }
    if all.len() == 0 {
        return None;
    }
    let rest = join_parts(&all, all.len() - 1);
    if is_absolute(path) {
        Some(crate::text::join("/", rest.as_str()))
    } else {
        Some(rest)
    }
}

/// A path without the slashes and the directories themselves at its end. The root
/// stays, and so does a directory itself at the start.
pub open spec fn without_end(path: Seq<char>) -> Seq<char>
    decreases path.len(),
{
    let slash = last_index(path, '/', path.len() as int);
    let piece = path.skip(slash + 1);
    if slash < 0 || slash >= path.len() || (piece.len() > 0 && piece != "."@) {
        path
    } else if slash == 0 {
        path.take(1)
    } else {
        without_end(path.take(slash))
    }
}

/// The text of a path up to its last part. The root and nothing have none.
pub open spec fn text_before_last(path: Seq<char>) -> Option<Seq<char>> {
    let whole = without_end(path);
    let slash = last_index(whole, '/', whole.len() as int);
    if whole.len() == 0 || slash == whole.len() - 1 {
        None
    } else if slash < 0 {
        Some(Seq::empty())
    } else {
        Some(without_end(whole.take(slash + 1)))
    }
}

/// The last slash of the first characters is found there.
proof fn last_index_of_take(s: Seq<char>, c: char, m: int, n: int)
    requires
        n <= m <= s.len(),
    ensures
        last_index(s.take(m), c, n) == last_index(s, c, n),
    decreases n,
{
    if n > 0 && s[n - 1] != c {
        last_index_of_take(s, c, m, n - 1);
    }
}

/// One more than the index of the last slash of the first `n` characters.
fn behind_slash(chars: &Vec<char>, n: usize) -> (r: usize)
    requires
        n <= chars@.len(),
    ensures
        r <= n,
        r == last_index(chars@.take(n as int), '/', n as int) + 1,
{
    let mut k: usize = n;
    while k > 0 && chars[k - 1] != '/'
        invariant
            k <= n <= chars@.len(),
            last_index(chars@, '/', k as int) == last_index(chars@, '/', n as int),
        decreases k,
    {
        k = k - 1;
    }
    proof {
        last_index_of_take(chars@, '/', n as int, n as int);
    }
    k
}

/// The end of the first `n` characters without what their end adds nothing with.
fn end_of(chars: &Vec<char>, n: usize) -> (end: usize)
    requires
        n <= chars@.len(),
    ensures
        end <= n,
        chars@.take(end as int) == without_end(chars@.take(n as int)),
    decreases n,
{
    let k = behind_slash(chars, n);
    let ghost path = chars@.take(n as int);
    proof {
        reveal_strlit(".");
        let piece = path.skip(k as int);
        assert(piece =~= chars@.subrange(k as int, n as int));
        if n == k + 1 && chars@[k as int] == '.' {
            assert(piece =~= "."@);
        }
        if piece == "."@ {
            assert(piece.len() == 1 && piece[0] == '.');
        }
    }
    if k == 0 || (k < n && !(n - k == 1 && chars[k] == '.')) {
        return n;
    }
    if k == 1 {
        proof {
            assert(path.take(1) =~= chars@.take(1));
        }
        return 1;
    }
    proof {
        assert(path.take(k - 1) =~= chars@.take(k - 1));
    }
    end_of(chars, k - 1)
}

/// The text of a path up to its last part.
pub fn before_last(path: &str) -> (r: Option<String>)
    ensures
        crate::lower_spec::text_of(r) == text_before_last(path@),
{
    let chars = crate::text::chars_of(path);
    proof {
        assert(chars@.take(chars@.len() as int) =~= chars@);
    }
    let n = end_of(&chars, chars.len());
    let k = behind_slash(&chars, n);
    if n == 0 || k == n {
        return None;
    }
    if k == 0 {
        return Some(String::new());
    }
    let end = end_of(&chars, k);
    proof {
        assert(chars@.take(n as int).take(k as int) =~= chars@.take(k as int));
        assert(chars@.subrange(0, end as int) =~= chars@.take(end as int));
    }
    Some(crate::text::string_of(chars.as_slice(), 0, end))
}

} // verus!
