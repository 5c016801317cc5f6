//! What holds of the kinds of files, by their names and places.

use vstd::prelude::*;

use crate::common::{APIContext, Dialect, FileInfo, LoadItemCandidate, LoadItemCandidateKind};
use crate::paths::{
    extension_of, is_part, is_rooted, is_under, joined, kept_parts, last_index, name_part,
    normal_text, parent_of, path_parts, with_slashes,
};
use crate::source_kind::{
    candidates_of, is_offered, is_prelude, kind_of, marks_root, opening_of, prelude_parts,
    typed_directory, without_slashes, CandidateStyle, DirEntry,
};
use crate::text::{find_in, find_in_finds, has_suffix, occurs_at, pieces};

verus! {

/// A text ends in another exactly if something stands before the other in it.
pub proof fn a_suffix_is_what_ends(s: Seq<char>, suffix: Seq<char>)
    ensures
        has_suffix(s, suffix) <==> exists|stem: Seq<char>| s == #[trigger] (stem + suffix),
{
    if has_suffix(s, suffix) {
        let stem = s.take(s.len() - suffix.len());
        assert forall|i: int| 0 <= i < s.len() implies s[i] == (stem + suffix)[i] by {
            if i >= stem.len() {
                assert(s.subrange(s.len() - suffix.len(), s.len() as int)[i - stem.len()] == s[i]);
            }
        }
        assert(s =~= stem + suffix);
    }
    if exists|stem: Seq<char>| s == #[trigger] (stem + suffix) {
        let stem = choose|stem: Seq<char>| s == #[trigger] (stem + suffix);
        assert(s.subrange(s.len() - suffix.len(), s.len() as int) =~= suffix);
    }
}

/// A character of what a text ends in stands in the text.
proof fn suffix_char(s: Seq<char>, suffix: Seq<char>, back: int)
    requires
        has_suffix(s, suffix),
        0 < back <= suffix.len(),
    ensures
        s[s.len() - back] == suffix[suffix.len() - back],
{
    assert(s.subrange(s.len() - suffix.len(), s.len() as int)[suffix.len() - back] == s[s.len()
        - back]);
}

/// Whether a name is one of the fixed names of files.
spec fn is_fixed(name: Seq<char>) -> bool {
    ||| name == "BUILD"@
    ||| name == "BUILD.bazel"@
    ||| name == "REPO.bazel"@
    ||| name == "VENDOR.bazel"@
    ||| name == "MODULE.bazel"@
    ||| name == "WORKSPACE"@
    ||| name == "WORKSPACE.bazel"@
    ||| name == "WORKSPACE.bzlmod"@
    ||| name == "prelude_bazel"@
}

/// The fixed names differ, and end in none of what names may end in.
proof fn fixed_names_differ(name: Seq<char>)
    ensures
        is_fixed(name) ==> !has_suffix(name, ".MODULE.bazel"@) && !has_suffix(
            name,
            ".BUILD.bazel"@,
        ) && !has_suffix(name, ".BUILD"@) && !has_suffix(name, ".cquery"@) && !has_suffix(
            name,
            ".query.bzl"@,
        ) && !has_suffix(name, ".bzl"@) && !has_suffix(name, ".bzli"@),
        "VENDOR.bazel"@ != "MODULE.bazel"@,
        "BUILD"@.len() == 5,
        "BUILD.bazel"@.len() == 11,
        "REPO.bazel"@.len() == 10,
        "VENDOR.bazel"@.len() == 12,
        "MODULE.bazel"@.len() == 12,
        "WORKSPACE"@.len() == 9,
        "WORKSPACE.bazel"@.len() == 15,
        "WORKSPACE.bzlmod"@.len() == 16,
        "prelude_bazel"@.len() == 13,
{
    reveal_strlit("BUILD");
    reveal_strlit("BUILD.bazel");
    reveal_strlit("REPO.bazel");
    reveal_strlit("VENDOR.bazel");
    reveal_strlit("MODULE.bazel");
    reveal_strlit("WORKSPACE");
    reveal_strlit("WORKSPACE.bazel");
    reveal_strlit("WORKSPACE.bzlmod");
    reveal_strlit("prelude_bazel");
    reveal_strlit(".MODULE.bazel");
    reveal_strlit(".BUILD.bazel");
    reveal_strlit(".BUILD");
    reveal_strlit(".cquery");
    reveal_strlit(".query.bzl");
    reveal_strlit(".bzl");
    reveal_strlit(".bzli");
    assert("VENDOR.bazel"@[0] != "MODULE.bazel"@[0]);
    if is_fixed(name) {
        assert(name[name.len() - 1] == name.last());
        if has_suffix(name, ".MODULE.bazel"@) {
            suffix_char(name, ".MODULE.bazel"@, 13);
            suffix_char(name, ".MODULE.bazel"@, 6);
            suffix_char(name, ".MODULE.bazel"@, 1);
        }
        if has_suffix(name, ".BUILD.bazel"@) {
            suffix_char(name, ".BUILD.bazel"@, 12);
            suffix_char(name, ".BUILD.bazel"@, 6);
            suffix_char(name, ".BUILD.bazel"@, 1);
        }
        if has_suffix(name, ".BUILD"@) {
            suffix_char(name, ".BUILD"@, 1);
        }
        if has_suffix(name, ".cquery"@) {
            suffix_char(name, ".cquery"@, 1);
        }
        if has_suffix(name, ".query.bzl"@) {
            suffix_char(name, ".query.bzl"@, 1);
            suffix_char(name, ".query.bzl"@, 2);
        }
        if has_suffix(name, ".bzl"@) {
            suffix_char(name, ".bzl"@, 1);
            suffix_char(name, ".bzl"@, 2);
        }
        if has_suffix(name, ".bzli"@) {
            suffix_char(name, ".bzli"@, 1);
        }
    }
}

/// What names may end in excludes each other, but for the extension of queries.
proof fn endings_differ(name: Seq<char>)
    ensures
        has_suffix(name, ".MODULE.bazel"@) ==> !has_suffix(name, ".BUILD.bazel"@) && !has_suffix(
            name,
            ".BUILD"@,
        ) && !has_suffix(name, ".cquery"@) && !has_suffix(name, ".query.bzl"@) && !has_suffix(
            name,
            ".bzl"@,
        ) && !has_suffix(name, ".bzli"@),
        has_suffix(name, ".BUILD.bazel"@) || has_suffix(name, ".BUILD"@) ==> !has_suffix(
            name,
            ".cquery"@,
        ) && !has_suffix(name, ".query.bzl"@) && !has_suffix(name, ".bzl"@) && !has_suffix(
            name,
            ".bzli"@,
        ),
        has_suffix(name, ".cquery"@) ==> !has_suffix(name, ".bzl"@) && !has_suffix(name, ".bzli"@),
        has_suffix(name, ".query.bzl"@) ==> !has_suffix(name, ".bzli"@),
{
    reveal_strlit(".MODULE.bazel");
    reveal_strlit(".BUILD.bazel");
    reveal_strlit(".BUILD");
    reveal_strlit(".cquery");
    reveal_strlit(".query.bzl");
    reveal_strlit(".bzl");
    reveal_strlit(".bzli");
    if has_suffix(name, ".MODULE.bazel"@) {
        suffix_char(name, ".MODULE.bazel"@, 7);
        suffix_char(name, ".MODULE.bazel"@, 2);
        suffix_char(name, ".MODULE.bazel"@, 1);
    }
    if has_suffix(name, ".BUILD.bazel"@) {
        suffix_char(name, ".BUILD.bazel"@, 7);
        suffix_char(name, ".BUILD.bazel"@, 2);
        suffix_char(name, ".BUILD.bazel"@, 1);
    }
    if has_suffix(name, ".BUILD"@) {
        suffix_char(name, ".BUILD"@, 1);
    }
    if has_suffix(name, ".cquery"@) {
        suffix_char(name, ".cquery"@, 1);
    }
    if has_suffix(name, ".query.bzl"@) {
        suffix_char(name, ".query.bzl"@, 2);
        suffix_char(name, ".query.bzl"@, 1);
    }
    if has_suffix(name, ".bzl"@) {
        suffix_char(name, ".bzl"@, 2);
        suffix_char(name, ".bzl"@, 1);
    }
    if has_suffix(name, ".bzli"@) {
        suffix_char(name, ".bzli"@, 1);
    }
}

proof fn last_index_finds(s: Seq<char>, c: char, n: int)
    requires
        0 <= n <= s.len(),
    ensures
        -1 <= last_index(s, c, n) < n,
        last_index(s, c, n) >= 0 ==> s[last_index(s, c, n)] == c,
        forall|k: int| last_index(s, c, n) < k < n ==> s[k] != c,
    decreases n,
{
    if n > 0 && s[n - 1] != c {
        last_index_finds(s, c, n - 1);
    }
}

/// The extension of a path is `e`, which holds no dot, exactly if its file name ends
/// in a dot and `e`, with something before the dot.
pub proof fn an_extension_is_behind_the_last_dot(path: Seq<char>, e: Seq<char>)
    requires
        !e.contains('.'),
    ensures
        extension_of(path) == Some(e) <==> exists|stem: Seq<char>|
            stem.len() > 0 && name_part(path) == Some(#[trigger] (stem + seq!['.'] + e)),
{
    if let Some(name) = name_part(path) {
        let dot = last_index(name, '.', name.len() as int);
        last_index_finds(name, '.', name.len() as int);
        if extension_of(path) == Some(e) {
            let stem = name.take(dot);
            assert(name =~= stem + seq!['.'] + e);
        }
        if exists|stem: Seq<char>|
            stem.len() > 0 && name_part(path) == Some(#[trigger] (stem + seq!['.'] + e)) {
            let stem = choose|stem: Seq<char>|
                stem.len() > 0 && name_part(path) == Some(#[trigger] (stem + seq!['.'] + e));
            assert(name[stem.len() as int] == '.');
            if dot > stem.len() {
                assert(e[dot - stem.len() - 1] == '.');
            }
            assert(dot == stem.len());
            assert(name.subrange(dot + 1, name.len() as int) =~= e);
        }
    }
}

/// A file with the extension of Starlark in Bazel has a name that ends in it.
proof fn bzl_names(path: Seq<char>)
    ensures
        extension_of(path) == Some("bzl"@) ==> name_part(path) is Some && has_suffix(
            name_part(path)->0,
            ".bzl"@,
        ),
        extension_of(path) == Some("bzli"@) ==> name_part(path) is Some && has_suffix(
            name_part(path)->0,
            ".bzli"@,
        ),
{
    reveal_strlit("bzl");
    reveal_strlit("bzli");
    reveal_strlit(".bzl");
    reveal_strlit(".bzli");
    if let Some(name) = name_part(path) {
        let dot = last_index(name, '.', name.len() as int);
        last_index_finds(name, '.', name.len() as int);
        if extension_of(path) == Some("bzl"@) {
            let tail = name.subrange(dot + 1, name.len() as int);
            assert(tail.len() == 3);
            assert forall|i: int| 0 <= i < 4 implies name.subrange(dot, name.len() as int)[i]
                == ".bzl"@[i] by {
                if i > 0 {
                    assert(tail[i - 1] == name[dot + i]);
                }
            }
            assert(name.subrange(dot, name.len() as int) =~= ".bzl"@);
        }
        if extension_of(path) == Some("bzli"@) {
            let tail = name.subrange(dot + 1, name.len() as int);
            assert(tail.len() == 4);
            assert forall|i: int| 0 <= i < 5 implies name.subrange(dot, name.len() as int)[i]
                == ".bzli"@[i] by {
                if i > 0 {
                    assert(tail[i - 1] == name[dot + i]);
                }
            }
            assert(name.subrange(dot, name.len() as int) =~= ".bzli"@);
        }
    }
}

/// The prelude has its name.
proof fn prelude_name(workspace: Seq<char>, path: Seq<char>)
    ensures
        is_prelude(workspace, path) ==> name_part(path) == Some("prelude_bazel"@),
{
    reveal_strlit("prelude_bazel");
    reveal_strlit(".");
    reveal_strlit("..");
    if is_prelude(workspace, path) {
        assert(path_parts(path).last() == prelude_parts()[2]);
    }
}

proof fn kinds_are_apart(workspace: Seq<char>, path: Seq<char>)
    ensures
        name_part(path) matches Some(name) ==> {
            &&& is_fixed(name) ==> !has_suffix(name, ".MODULE.bazel"@) && !has_suffix(
                name,
                ".BUILD.bazel"@,
            ) && !has_suffix(name, ".BUILD"@) && !has_suffix(name, ".cquery"@) && !has_suffix(
                name,
                ".query.bzl"@,
            ) && extension_of(path) != Some("bzl"@) && extension_of(path) != Some("bzli"@)
        },
        is_prelude(workspace, path) ==> name_part(path) == Some("prelude_bazel"@),
{
    if let Some(name) = name_part(path) {
        fixed_names_differ(name);
        bzl_names(path);
    }
    prelude_name(workspace, path);
}

/// A file is opened as one that Bazel builds from exactly if it is named so.
pub proof fn build_files(workspace: Seq<char>, path: Seq<char>)
    ensures
        kind_of(workspace, path) == Some((Dialect::Bazel, Some(APIContext::Build))) <==> {
            name_part(path) matches Some(name) && (name == "BUILD"@ || name == "BUILD.bazel"@
                || has_suffix(name, ".BUILD"@) || has_suffix(name, ".BUILD.bazel"@))
        },
{
    kinds_are_apart(workspace, path);
    if let Some(name) = name_part(path) {
        fixed_names_differ(name);
        endings_differ(name);
    }
}

/// A file is opened as that of a module exactly if it is named so.
pub proof fn module_files(workspace: Seq<char>, path: Seq<char>)
    ensures
        kind_of(workspace, path) == Some((Dialect::Bazel, Some(APIContext::Module))) <==> {
            name_part(path) matches Some(name) && (name == "MODULE.bazel"@ || has_suffix(
                name,
                ".MODULE.bazel"@,
            ))
        },
{
    kinds_are_apart(workspace, path);
    if let Some(name) = name_part(path) {
        fixed_names_differ(name);
    }
}

/// A file is opened as that of a workspace exactly if it is named so.
pub proof fn workspace_files(workspace: Seq<char>, path: Seq<char>)
    ensures
        kind_of(workspace, path) == Some((Dialect::Bazel, Some(APIContext::Workspace))) <==> {
            name_part(path) matches Some(name) && (name == "WORKSPACE"@ || name
                == "WORKSPACE.bazel"@ || name == "WORKSPACE.bzlmod"@)
        },
{
    kinds_are_apart(workspace, path);
    if let Some(name) = name_part(path) {
        fixed_names_differ(name);
    }
}

/// A file is opened as that of a repository, or of vendored ones, exactly if it is
/// named so.
pub proof fn repository_files(workspace: Seq<char>, path: Seq<char>)
    ensures
        kind_of(workspace, path) == Some((Dialect::Bazel, Some(APIContext::Repo))) <==> name_part(
            path,
        ) == Some("REPO.bazel"@),
        kind_of(workspace, path) == Some((Dialect::Bazel, Some(APIContext::Vendor)))
            <==> name_part(path) == Some("VENDOR.bazel"@),
{
    if let Some(name) = name_part(path) {
        fixed_names_differ(name);
    }
}

/// A file is opened as a query exactly if its name ends so.
pub proof fn query_files(workspace: Seq<char>, path: Seq<char>)
    ensures
        kind_of(workspace, path) == Some((Dialect::Bazel, Some(APIContext::Cquery))) <==> {
            name_part(path) matches Some(name) && (has_suffix(name, ".cquery"@) || has_suffix(
                name,
                ".query.bzl"@,
            ))
        },
{
    kinds_are_apart(workspace, path);
    if let Some(name) = name_part(path) {
        fixed_names_differ(name);
        endings_differ(name);
    }
}

/// A file is opened as an extension of Bazel exactly if its path has such an
/// extension and it is no query.
pub proof fn bzl_files(workspace: Seq<char>, path: Seq<char>)
    ensures
        kind_of(workspace, path) == Some((Dialect::Bazel, Some(APIContext::Bzl))) <==> {
            &&& extension_of(path) == Some("bzl"@) || extension_of(path) == Some("bzli"@)
            &&& name_part(path) matches Some(name) && !has_suffix(name, ".query.bzl"@)
        },
{
    kinds_are_apart(workspace, path);
    bzl_names(path);
    if let Some(name) = name_part(path) {
        fixed_names_differ(name);
        endings_differ(name);
    }
}

/// A file is opened as the prelude exactly if it stands at its place.
pub proof fn prelude_files(workspace: Seq<char>, path: Seq<char>)
    ensures
        kind_of(workspace, path) == Some((Dialect::Bazel, Some(APIContext::Prelude))) <==> {
            &&& is_rooted(path) == is_rooted(workspace)
            &&& path_parts(path) == path_parts(workspace) + seq![
                "tools"@,
                "build_rules"@,
                "prelude_bazel"@,
            ]
        },
{
    kinds_are_apart(workspace, path);
    fixed_names_differ("prelude_bazel"@);
    reveal_strlit("prelude_bazel");
    reveal_strlit("BUILD.bazel");
    assert(prelude_parts() =~= seq!["tools"@, "build_rules"@, "prelude_bazel"@]);
}

/// A file speaks the dialect of Bazel exactly if it is opened with a context, and
/// every path that names a file has a dialect.
pub proof fn bazel_files_have_a_context(workspace: Seq<char>, path: Seq<char>)
    ensures
        kind_of(workspace, path) is None <==> name_part(path) is None,
        kind_of(workspace, path) matches Some((dialect, context)) ==> (dialect == Dialect::Bazel
            <==> context is Some),
        opening_of(workspace, path) is None <==> name_part(path) is None,
        opening_of(workspace, path) matches Some((dialect, info)) ==> (dialect == Dialect::Bazel
            <==> info is Some),
{
}

/// A file is opened with the context of its kind, and as an external one exactly if
/// its parts do not start with those of the workspace.
pub proof fn files_are_opened_as_their_kind(
    workspace: Seq<char>,
    path: Seq<char>,
    dialect: Dialect,
    context: APIContext,
    external: bool,
)
    ensures
        opening_of(workspace, path) == Some(
            (dialect, Some(FileInfo::Bazel { api_context: context, is_external: external })),
        ) <==> {
            &&& kind_of(workspace, path) == Some((dialect, Some(context)))
            &&& external <==> !(is_rooted(path) == is_rooted(workspace) && exists|
                rest: Seq<Seq<char>>,
            |
                path_parts(path) == #[trigger] (path_parts(workspace) + rest))
        },
{
    let start = path_parts(workspace);
    let all = path_parts(path);
    if exists|rest: Seq<Seq<char>>| all == #[trigger] (start + rest) {
        let rest = choose|rest: Seq<Seq<char>>| all == #[trigger] (start + rest);
        assert(all.take(start.len() as int) =~= start);
    }
    if start.len() <= all.len() && all.take(start.len() as int) == start {
        assert(all =~= start + all.skip(start.len() as int));
    }
}

/// The first `/` behind a start without one.
proof fn slash_in(s: Seq<char>)
    ensures
        find_in(s, "/"@, 0) < 0 <==> !s.contains('/'),
        find_in(s, "/"@, 0) >= 0 ==> {
            let i = find_in(s, "/"@, 0);
            &&& i < s.len()
            &&& s[i] == '/'
            &&& forall|k: int| 0 <= k < i ==> s[k] != '/'
        },
{
    reveal_strlit("/");
    find_in_finds(s, "/"@, 0);
    let i = find_in(s, "/"@, 0);
    assert forall|k: int| 0 <= k < s.len() implies occurs_at(s, "/"@, k) == (#[trigger] s[k]
        == '/') by {
        if s[k] == '/' {
            assert(s.subrange(k, k + 1) =~= "/"@);
        }
        if occurs_at(s, "/"@, k) {
            assert(s.subrange(k, k + 1)[0] == '/');
        }
    }
    if s.contains('/') {
        let k = choose|k: int| 0 <= k < s.len() && s[k] == '/';
        assert(occurs_at(s, "/"@, k));
    }
    if i >= 0 {
        assert(occurs_at(s, "/"@, i));
        assert(s[i] == '/');
    }
}

proof fn pieces_behind(directory: Seq<char>, name: Seq<char>)
    requires
        !name.contains('/'),
    ensures
        pieces(directory + "/"@ + name, "/"@) == pieces(directory, "/"@).push(name),
    decreases directory.len(),
{
    reveal_strlit("/");
    let path = directory + "/"@ + name;
    let i = find_in(path, "/"@, 0);
    let j = find_in(directory, "/"@, 0);
    slash_in(path);
    slash_in(directory);
    slash_in(name);
    assert(path[directory.len() as int] == '/');
    assert(path.contains('/'));
    if j < 0 {
        if i < directory.len() {
            assert(directory[i] == path[i]);
            assert(directory.contains('/'));
        }
        assert(i == directory.len());
        assert(path.subrange(0, i) =~= directory);
        assert(path.subrange(i + 1, path.len() as int) =~= name);
        assert(pieces(name, "/"@) =~= seq![name]);
        assert(pieces(path, "/"@) =~= pieces(directory, "/"@).push(name));
    } else {
        assert(path[j] == directory[j]);
        assert(i <= j);
        assert(path[i] == directory[i]);
        assert(i == j);
        let rest = directory.subrange(j + 1, directory.len() as int);
        assert(path.subrange(i + 1, path.len() as int) =~= rest + "/"@ + name);
        assert(path.subrange(0, i) =~= directory.subrange(0, j));
        pieces_behind(rest, name);
        assert(pieces(path, "/"@) =~= pieces(directory, "/"@).push(name));
    }
}

proof fn kept_of_push(all: Seq<Seq<char>>, more: Seq<char>, n: nat)
    requires
        n <= all.len(),
    ensures
        kept_parts(all.push(more), n) == kept_parts(all, n),
    decreases n,
{
    if n > 0 {
        kept_of_push(all, more, (n - 1) as nat);
        assert(all.push(more)[n - 1] == all[n - 1]);
    }
}

/// A name behind a directory and `/` is a part more than the directory has, and the
/// name of the file.
pub proof fn a_name_is_behind_its_directory(directory: Seq<char>, name: Seq<char>)
    requires
        name.len() > 0,
        !name.contains('/'),
        name != "."@,
    ensures
        path_parts(directory + "/"@ + name) == path_parts(directory).push(name),
        name != ".."@ ==> name_part(directory + "/"@ + name) == Some(name),
{
    let all = pieces(directory, "/"@);
    pieces_behind(directory, name);
    kept_of_push(all, name, all.len());
    assert(all.push(name)[all.len() as int] == name);
    assert(path_parts(directory + "/"@ + name).last() == name);
}

proof fn pieces_of_both(a: Seq<char>, b: Seq<char>)
    ensures
        pieces(a + "/"@ + b, "/"@) == pieces(a, "/"@) + pieces(b, "/"@),
    decreases a.len(),
{
    reveal_strlit("/");
    let path = a + "/"@ + b;
    let i = find_in(path, "/"@, 0);
    let j = find_in(a, "/"@, 0);
    slash_in(path);
    slash_in(a);
    assert(path[a.len() as int] == '/');
    assert(path.contains('/'));
    if j < 0 {
        if i < a.len() {
            assert(a[i] == path[i]);
            assert(a.contains('/'));
        }
        assert(i == a.len());
        assert(path.subrange(0, i) =~= a);
        assert(path.subrange(i + 1, path.len() as int) =~= b);
        assert(pieces(path, "/"@) =~= pieces(a, "/"@) + pieces(b, "/"@));
    } else {
        assert(path[j] == a[j]);
        assert(i <= j);
        assert(path[i] == a[i]);
        assert(i == j);
        let rest = a.subrange(j + 1, a.len() as int);
        assert(path.subrange(i + 1, path.len() as int) =~= rest + "/"@ + b);
        assert(path.subrange(0, i) =~= a.subrange(0, j));
        pieces_of_both(rest, b);
        assert(pieces(path, "/"@) =~= pieces(a, "/"@) + pieces(b, "/"@));
    }
}

proof fn kept_of_both(a: Seq<Seq<char>>, b: Seq<Seq<char>>, n: nat)
    requires
        a.len() > 0,
        n <= b.len(),
        n > 0 ==> b[0] != "."@,
    ensures
        kept_parts(a + b, a.len() + n) == kept_parts(a, a.len()) + kept_parts(b, n),
    decreases n,
{
    let all = a + b;
    if n == 0 {
        kept_of_start(a, b, a.len());
        assert(kept_parts(a, a.len()) + kept_parts(b, 0) =~= kept_parts(a, a.len()));
    } else {
        kept_of_both(a, b, (n - 1) as nat);
        assert(all[a.len() + n - 1] == b[n - 1]);
        assert(is_part(all, a.len() + n - 1) == is_part(b, n - 1));
        assert(kept_parts(all, a.len() + n) =~= kept_parts(a, a.len()) + kept_parts(b, n));
    }
}

proof fn kept_of_start(a: Seq<Seq<char>>, b: Seq<Seq<char>>, n: nat)
    requires
        n <= a.len(),
    ensures
        kept_parts(a + b, n) == kept_parts(a, n),
    decreases n,
{
    if n > 0 {
        kept_of_start(a, b, (n - 1) as nat);
        assert((a + b)[n - 1] == a[n - 1]);
    }
}

/// A path below a directory has the parts of the directory and then its own, and it is
/// under the directory.
pub proof fn a_joined_path_has_both_parts(directory: Seq<char>, path: Seq<char>)
    requires
        directory.len() > 0,
        !is_rooted(path),
        pieces(path, "/"@)[0] != "."@,
    ensures
        path_parts(joined(directory, path)) == path_parts(directory) + path_parts(path),
        is_under(joined(directory, path), directory),
{
    reveal_strlit("/");
    let b = pieces(path, "/"@);
    crate::text::pieces_short(path, "/"@);
    let start = if directory.last() == '/' {
        directory.drop_last()
    } else {
        directory
    };
    let a = pieces(start, "/"@);
    crate::text::pieces_short(start, "/"@);
    pieces_of_both(start, path);
    kept_of_both(a, b, b.len());
    assert(pieces(start + "/"@ + path, "/"@).len() == a.len() + b.len());
    if directory.last() == '/' {
        assert(directory =~= start + "/"@ + Seq::<char>::empty());
        assert(joined(directory, path) =~= start + "/"@ + path);
        let none = Seq::<char>::empty();
        slash_in(none);
        pieces_of_both(start, none);
        assert(pieces(none, "/"@) =~= seq![none]);
        reveal_strlit(".");
        kept_of_both(a, seq![none], 1);
        assert(kept_parts(seq![none], 1) =~= kept_parts(seq![none], 0));
        assert(path_parts(directory) =~= path_parts(start));
    }
    let whole = joined(directory, path);
    assert(whole == start + "/"@ + path);
    assert(whole[0] == directory[0]);
    assert(path_parts(whole).take(path_parts(directory).len() as int) =~= path_parts(directory));
}

proof fn pieces_hold_no_slash(s: Seq<char>)
    ensures
        forall|k: int|
            0 <= k < pieces(s, "/"@).len() ==> !(#[trigger] pieces(s, "/"@)[k]).contains('/'),
    decreases s.len(),
{
    reveal_strlit("/");
    slash_in(s);
    let i = find_in(s, "/"@, 0);
    let all = pieces(s, "/"@);
    if i >= 0 {
        let rest = s.subrange(i + 1, s.len() as int);
        pieces_hold_no_slash(rest);
        assert forall|k: int| 0 <= k < all.len() implies !(#[trigger] all[k]).contains('/') by {
            if k == 0 {
                assert(all[0] == s.subrange(0, i));
                if all[0].contains('/') {
                    let j = choose|j: int| 0 <= j < all[0].len() && all[0][j] == '/';
                    assert(s[j] == '/');
                }
            } else {
                assert(all[k] == pieces(rest, "/"@)[k - 1]);
            }
        }
    } else {
        assert(all =~= seq![s]);
    }
}

/// Whether parts are those of some path: not empty, without slashes, and none but the
/// first is the directory itself.
spec fn are_parts(parts: Seq<Seq<char>>) -> bool {
    forall|k: int|
        0 <= k < parts.len() ==> (#[trigger] parts[k]).len() > 0 && !parts[k].contains('/') && (
        parts[k] != "."@ || k == 0)
}

proof fn kept_are_parts(all: Seq<Seq<char>>, n: nat)
    requires
        n <= all.len(),
        forall|k: int| 0 <= k < all.len() ==> !(#[trigger] all[k]).contains('/'),
    ensures
        are_parts(kept_parts(all, n)),
        kept_parts(all, n).len() <= n,
    decreases n,
{
    if n > 0 {
        let rest = kept_parts(all, (n - 1) as nat);
        kept_are_parts(all, (n - 1) as nat);
        let now = kept_parts(all, n);
        assert forall|k: int| 0 <= k < now.len() implies (#[trigger] now[k]).len() > 0
            && !now[k].contains('/') && (now[k] != "."@ || k == 0) by {
            if k < rest.len() {
                assert(now[k] == rest[k]);
            }
        }
    }
}

proof fn parts_of_slashes(parts: Seq<Seq<char>>, n: nat, rooted: bool)
    requires
        are_parts(parts),
        0 < n <= parts.len(),
        rooted ==> parts[0] != "."@,
    ensures
        path_parts(
            if rooted {
                "/"@ + with_slashes(parts, n)
            } else {
                with_slashes(parts, n)
            },
        ) == parts.take(n as int),
    decreases n,
{
    reveal_strlit("/");
    let rest = with_slashes(parts, n);
    let path = if rooted {
        "/"@ + rest
    } else {
        rest
    };
    assert(parts[n - 1].len() > 0);
    assert(!parts[n - 1].contains('/'));
    if n == 1 {
        let name = parts[0];
        slash_in(name);
        assert(name.len() > 0);
        if rooted {
            let none = Seq::<char>::empty();
            slash_in(none);
            assert(path =~= none + "/"@ + name);
            pieces_behind(none, name);
            assert(pieces(none, "/"@) =~= seq![none]);
            let all = pieces(path, "/"@);
            assert(all =~= seq![none, name]);
            assert(kept_parts(all, 0) =~= Seq::empty());
            assert(kept_parts(all, 1) =~= Seq::empty());
            assert(kept_parts(all, 2) =~= seq![name]);
        } else {
            let all = pieces(name, "/"@);
            assert(all =~= seq![name]);
            assert(kept_parts(all, 0) =~= Seq::empty());
            assert(kept_parts(all, 1) =~= seq![name]);
        }
        assert(path_parts(path) =~= parts.take(1));
    } else {
        let before = with_slashes(parts, (n - 1) as nat);
        let start = if rooted {
            "/"@ + before
        } else {
            before
        };
        parts_of_slashes(parts, (n - 1) as nat, rooted);
        assert(path =~= start + "/"@ + parts[n - 1]);
        a_name_is_behind_its_directory(start, parts[n - 1]);
        assert(path_parts(path) =~= parts.take(n as int));
    }
}

/// The directory that a path stands in has all parts of the path but the last.
pub proof fn a_parent_has_all_parts_but_the_last(path: Seq<char>)
    ensures
        parent_of(path) is None <==> path_parts(path).len() == 0,
        parent_of(path) matches Some(directory) ==> path_parts(directory) == path_parts(
            path,
        ).drop_last(),
{
    reveal_strlit("/");
    reveal_strlit(".");
    let all = pieces(path, "/"@);
    let parts = path_parts(path);
    pieces_hold_no_slash(path);
    kept_are_parts(all, all.len());
    if parts.len() > 0 {
        let n = (parts.len() - 1) as nat;
        let directory = parent_of(path)->0;
        if n > 0 {
            if is_rooted(path) {
                rooted_parts(path);
            }
            parts_of_slashes(parts, n, is_rooted(path));
            assert(parts.take(n as int) =~= parts.drop_last());
        } else {
            let none = Seq::<char>::empty();
            slash_in(none);
            assert(pieces(none, "/"@) =~= seq![none]);
            assert(kept_parts(seq![none], 0) =~= Seq::empty());
            assert(kept_parts(seq![none], 1) =~= Seq::empty());
            if is_rooted(path) {
                assert(directory =~= none + "/"@ + none);
                pieces_behind(none, none);
                let both = pieces(directory, "/"@);
                assert(both =~= seq![none, none]);
                assert(kept_parts(both, 0) =~= Seq::empty());
                assert(kept_parts(both, 1) =~= Seq::empty());
                assert(kept_parts(both, 2) =~= Seq::empty());
            } else {
                assert(directory =~= none);
            }
            assert(path_parts(directory) =~= parts.drop_last());
        }
    }
}

/// A path from the root starts with no directory itself.
proof fn rooted_parts(path: Seq<char>)
    requires
        is_rooted(path),
        path_parts(path).len() > 0,
    ensures
        path_parts(path)[0] != "."@,
{
    reveal_strlit("/");
    reveal_strlit(".");
    slash_in(path);
    let all = pieces(path, "/"@);
    assert(find_in(path, "/"@, 0) == 0);
    assert(all[0].len() == 0);
    first_kept(all, all.len());
}

proof fn first_kept(all: Seq<Seq<char>>, n: nat)
    requires
        0 < n <= all.len(),
        all[0].len() == 0,
    ensures
        kept_parts(all, n).len() > 0 ==> kept_parts(all, n)[0] != "."@,
    decreases n,
{
    if n > 1 {
        first_kept(all, (n - 1) as nat);
    } else {
        assert(kept_parts(all, 1) =~= kept_parts(all, 0));
    }
}

proof fn slashes_start(parts: Seq<Seq<char>>, n: nat)
    requires
        0 < n <= parts.len(),
        parts[0].len() > 0,
    ensures
        with_slashes(parts, n).len() > 0,
        with_slashes(parts, n)[0] == parts[0][0],
    decreases n,
{
    if n > 1 {
        slashes_start(parts, (n - 1) as nat);
    }
}

/// The directory that a path stands in starts at the root exactly if the path does.
pub proof fn a_parent_starts_like_its_path(path: Seq<char>)
    ensures
        parent_of(path) matches Some(directory) ==> is_rooted(directory) == is_rooted(path),
{
    reveal_strlit("/");
    let all = pieces(path, "/"@);
    let parts = path_parts(path);
    pieces_hold_no_slash(path);
    kept_are_parts(all, all.len());
    if parts.len() > 1 && !is_rooted(path) {
        let n = (parts.len() - 1) as nat;
        assert(parts[0].len() > 0 && !parts[0].contains('/'));
        slashes_start(parts, n);
        assert(parts[0].contains(parts[0][0]));
    }
}

/// A directory is the root of a repository exactly if it holds a file of a module, of a
/// repository or of a workspace, under its own name.
pub proof fn roots_hold_files_of_repositories(workspace: Seq<char>, directory: Seq<char>, name: Seq<char>)
    requires
        name.len() > 0,
        !name.contains('/'),
        name != "."@,
        name != ".."@,
    ensures
        marks_root(name) ==> ({
            let kind = kind_of(workspace, directory + "/"@ + name);
            ||| kind == Some((Dialect::Bazel, Some(APIContext::Module)))
            ||| kind == Some((Dialect::Bazel, Some(APIContext::Repo)))
            ||| kind == Some((Dialect::Bazel, Some(APIContext::Workspace)))
        }),
        marks_root(name) <==> name == "MODULE.bazel"@ || name == "REPO.bazel"@ || name
            == "WORKSPACE"@ || name == "WORKSPACE.bazel"@,
{
    let path = directory + "/"@ + name;
    a_name_is_behind_its_directory(directory, name);
    module_files(workspace, path);
    repository_files(workspace, path);
    workspace_files(workspace, path);
}

/// Whether a candidate is an entry of a directory, under its own name or, for a target
/// among packages, behind a colon.
pub open spec fn names_entry(style: CandidateStyle, e: DirEntry, c: LoadItemCandidate) -> bool {
    &&& c.kind == LoadItemCandidateKind::Directory <==> e.is_dir && !(style is Standard)
    &&& c.path@ == if style is PackagesAndTargets && !e.is_dir {
        ":"@ + e.name@
    } else {
        e.name@
    }
}

/// Whether an entry is among the candidates.
pub open spec fn has_candidate(
    style: CandidateStyle,
    out: Seq<LoadItemCandidate>,
    e: DirEntry,
) -> bool {
    exists|j: int| 0 <= j < out.len() && names_entry(style, e, #[trigger] out[j])
}

/// Whether a candidate is an entry that is offered.
pub open spec fn has_entry(
    style: CandidateStyle,
    entries: Seq<DirEntry>,
    c: LoadItemCandidate,
) -> bool {
    exists|i: int|
        0 <= i < entries.len() && is_offered(style, #[trigger] entries[i]) && names_entry(
            style,
            entries[i],
            c,
        )
}

/// What is offered in a directory is exactly its entries that can be loaded from: in a
/// standard file those with an extension of Starlark, and else directories and `.bzl`
/// files.
pub proof fn loadable_entries_are_offered(
    style: CandidateStyle,
    entries: Seq<DirEntry>,
    out: Seq<LoadItemCandidate>,
    e: DirEntry,
    c: LoadItemCandidate,
)
    requires
        candidates_of(style, entries, out),
    ensures
        entries.contains(e) && is_offered(style, e) ==> has_candidate(style, out, e),
        out.contains(c) ==> has_entry(style, entries, c),
    decreases entries.len(),
{
    if entries.len() > 0 {
        let rest = entries.drop_last();
        let given = is_offered(style, entries.last());
        let fewer = if given {
            out.drop_last()
        } else {
            out
        };
        loadable_entries_are_offered(style, rest, fewer, e, c);
        if entries.contains(e) && is_offered(style, e) {
            let i = choose|i: int| 0 <= i < entries.len() && entries[i] == e;
            if i < rest.len() {
                assert(rest[i] == e);
                assert(rest.contains(e));
                let j = choose|j: int|
                    0 <= j < fewer.len() && names_entry(style, e, #[trigger] fewer[j]);
                assert(out[j] == fewer[j]);
            } else {
                assert(names_entry(style, e, out[out.len() - 1]));
            }
        }
        if out.contains(c) {
            let j = choose|j: int| 0 <= j < out.len() && out[j] == c;
            if j < fewer.len() {
                assert(fewer[j] == c);
                assert(fewer.contains(c));
                let i = choose|i: int|
                    0 <= i < rest.len() && is_offered(style, #[trigger] rest[i]) && names_entry(
                        style,
                        rest[i],
                        c,
                    );
                assert(entries[i] == rest[i]);
            } else {
                assert(is_offered(style, entries[entries.len() - 1]));
            }
        }
    }
}

/// In a standard file the files with an extension of Starlark are offered, for packages
/// and targets directories and `.bzl` files, and for repositories directories alone.
pub proof fn entries_are_offered_by_name(e: DirEntry, trailing_slash: bool)
    ensures
        is_offered(CandidateStyle::Standard, e) <==> e.is_file && (has_suffix(e.name@, ".star"@)
            || has_suffix(e.name@, ".sky"@)),
        is_offered(CandidateStyle::Targets, e) <==> e.is_dir || has_suffix(e.name@, ".bzl"@),
        is_offered(CandidateStyle::PackagesAndTargets { trailing_slash }, e) <==> is_offered(
            CandidateStyle::Targets,
            e,
        ),
        is_offered(CandidateStyle::Directories, e) <==> e.is_dir,
{
}

/// A path that is typed up to a slash stands in itself, without its slashes.
pub proof fn a_path_up_to_a_slash_is_a_directory(path: Seq<char>)
    requires
        path.len() == 0 || path.last() != '/',
    ensures
        typed_directory(path + "/"@) == Some((path, true)),
{
    reveal_strlit("/");
    let typed = path + "/"@;
    assert(typed.last() == '/');
    assert(typed.drop_last() =~= path);
    assert(without_slashes(typed) == without_slashes(path));
}

/// The normal text of a path has the parts of the path, and starts at the root exactly if
/// the path does, so both lead to the same place.
pub proof fn normal_paths_lead_to_the_same_place(path: Seq<char>)
    ensures
        path_parts(normal_text(path)) == path_parts(path),
        is_rooted(normal_text(path)) == is_rooted(path),
{
    reveal_strlit("/");
    reveal_strlit(".");
    let all = pieces(path, "/"@);
    let parts = path_parts(path);
    pieces_hold_no_slash(path);
    kept_are_parts(all, all.len());
    if parts.len() > 0 {
        if is_rooted(path) {
            rooted_parts(path);
        }
        parts_of_slashes(parts, parts.len(), is_rooted(path));
        assert(parts.take(parts.len() as int) =~= parts);
        assert(parts[0].len() > 0 && !parts[0].contains('/'));
        slashes_start(parts, parts.len());
        assert(parts[0].contains(parts[0][0]));
    } else {
        let none = Seq::<char>::empty();
        slash_in(none);
        assert(pieces(none, "/"@) =~= seq![none]);
        assert(kept_parts(seq![none], 0) =~= Seq::empty());
        assert(kept_parts(seq![none], 1) =~= Seq::empty());
        if is_rooted(path) {
            assert(normal_text(path) =~= none + "/"@ + none);
            pieces_behind(none, none);
            let both = pieces(normal_text(path), "/"@);
            assert(both =~= seq![none, none]);
            assert(kept_parts(both, 0) =~= Seq::empty());
            assert(kept_parts(both, 1) =~= Seq::empty());
            assert(kept_parts(both, 2) =~= Seq::empty());
        } else {
            assert(normal_text(path) =~= none);
        }
        assert(path_parts(normal_text(path)) =~= parts);
    }
}

} // verus!
