//! What kind of file a path leads to, and which entries of a directory matter.

use vstd::prelude::*;

use crate::builtin_tables::{holds, lists};
use crate::common::{APIContext, Dialect, FileInfo, LoadItemCandidate, LoadItemCandidateKind};
use crate::paths::{extension_of, is_rooted, is_under, name_part, path_parts};
use crate::text::{has_prefix, has_suffix, same, views};

verus! {

/// Whether a walk over sources enters an entry: it is not hidden, and its name
/// is none of those to ignore.
pub open spec fn is_visited(name: Seq<char>, ignored: Seq<String>) -> bool {
    !(has_prefix(name, "."@) && name != "."@) && !lists(ignored, name)
}

/// Whether a walk over sources enters an entry. A name that is not text is
/// entered unless it is ignored.
pub fn visit_source_entry(name: &str, ignore_patterns: &Vec<String>) -> (r: bool)
    ensures
        r == is_visited(name@, ignore_patterns@),
{
    !(crate::text::starts_with(name, ".") && !same(name, ".")) && !is_ignored_name(
        name,
        ignore_patterns,
    )
}

/// Whether the walk of a check enters an entry: it is not hidden, its name is none of
/// those to ignore, and it is no repository below the one where the walk started.
pub fn visit_check_entry(
    name: &str,
    ignore_patterns: &Vec<String>,
    is_nested_repository: bool,
) -> (r: bool)
    ensures
        r == (is_visited(name@, ignore_patterns@) && !is_nested_repository),
{
    visit_source_entry(name, ignore_patterns) && !is_nested_repository
}

/// Whether a name is one of those to ignore.
pub fn is_ignored_name(name: &str, patterns: &Vec<String>) -> (r: bool)
    ensures
        r == lists(patterns@, name@),
{
    holds(patterns, name)
}

/// Whether a file of this name in a directory makes it the root of a repository.
pub open spec fn marks_root(name: Seq<char>) -> bool {
    name == "MODULE.bazel"@ || name == "REPO.bazel"@ || name == "WORKSPACE"@ || name
        == "WORKSPACE.bazel"@
}

/// Whether a directory with these files is the root of a repository.
pub fn is_repository_root(files: &Vec<String>) -> (r: bool)
    ensures
        r == exists|i: int| 0 <= i < files@.len() && marks_root((#[trigger] files@[i])@),
{
    let mut i: usize = 0;
    while i < files.len()
        invariant
            i <= files@.len(),
            forall|k: int| 0 <= k < i ==> !marks_root((#[trigger] files@[k])@),
        decreases files@.len() - i,
    {
        let name = files[i].as_str();
        if same(name, "MODULE.bazel") || same(name, "REPO.bazel") || same(name, "WORKSPACE")
            || same(name, "WORKSPACE.bazel") {
            assert(marks_root(files@[i as int]@));
            return true;
        }
        i = i + 1;
    }
    false
}

/// The names of the files that say what a repository depends on.
pub fn dependency_files() -> (r: Vec<String>)
    ensures
        views(r@) == seq![
            "MODULE.bazel"@,
            "MODULE.bazel.lock"@,
            "WORKSPACE"@,
            "WORKSPACE.bazel"@,
            "WORKSPACE.bzlmod"@,
            ".bazelrc"@,
            ".bazelversion"@,
        ],
{
    let r = vec![
        "MODULE.bazel".to_owned(),
        "MODULE.bazel.lock".to_owned(),
        "WORKSPACE".to_owned(),
        "WORKSPACE.bazel".to_owned(),
        "WORKSPACE.bzlmod".to_owned(),
        ".bazelrc".to_owned(),
        ".bazelversion".to_owned(),
    ];
    proof {
        assert(views(r@) =~= seq![
            "MODULE.bazel"@,
            "MODULE.bazel.lock"@,
            "WORKSPACE"@,
            "WORKSPACE.bazel"@,
            "WORKSPACE.bzlmod"@,
            ".bazelrc"@,
            ".bazelversion"@,
        ]);
    }
    r
}

/// The parts of the path of the prelude, below the workspace.
pub open spec fn prelude_parts() -> Seq<Seq<char>> {
    seq!["tools"@, "build_rules"@, "prelude_bazel"@]
}

/// Whether a path is that of the prelude of a workspace.
pub open spec fn is_prelude(workspace: Seq<char>, path: Seq<char>) -> bool {
    &&& is_rooted(path) == is_rooted(workspace)
    &&& path_parts(path) == path_parts(workspace) + prelude_parts()
}

/// The kind of a file, by its name and place: the first rule that fits counts.
pub open spec fn kind_of(workspace: Seq<char>, path: Seq<char>) -> Option<
    (Dialect, Option<APIContext>),
> {
    match name_part(path) {
        None => None,
        Some(name) => Some(
            if name == "BUILD"@ || name == "BUILD.bazel"@ {
                (Dialect::Bazel, Some(APIContext::Build))
            } else if name == "REPO.bazel"@ {
                (Dialect::Bazel, Some(APIContext::Repo))
            } else if name == "VENDOR.bazel"@ {
                (Dialect::Bazel, Some(APIContext::Vendor))
            } else if name == "MODULE.bazel"@ || has_suffix(name, ".MODULE.bazel"@) {
                (Dialect::Bazel, Some(APIContext::Module))
            } else if name == "WORKSPACE"@ || name == "WORKSPACE.bazel"@ || name
                == "WORKSPACE.bzlmod"@ {
                (Dialect::Bazel, Some(APIContext::Workspace))
            } else if has_suffix(name, ".BUILD.bazel"@) || has_suffix(name, ".BUILD"@) {
                (Dialect::Bazel, Some(APIContext::Build))
            } else if has_suffix(name, ".cquery"@) || has_suffix(name, ".query.bzl"@) {
                (Dialect::Bazel, Some(APIContext::Cquery))
            } else if extension_of(path) == Some("bzl"@) || extension_of(path) == Some("bzli"@) {
                (Dialect::Bazel, Some(APIContext::Bzl))
            } else if is_prelude(workspace, path) {
                (Dialect::Bazel, Some(APIContext::Prelude))
            } else {
                (Dialect::Standard, None)
            },
        ),
    }
}

/// Whether a path is that of the prelude of a workspace.
fn leads_to_prelude(workspace: &str, path: &str) -> (r: bool)
    ensures
        r == is_prelude(workspace@, path@),
{
    if crate::paths::is_absolute(path) != crate::paths::is_absolute(workspace) {
        return false;
    }
    let start = crate::paths::parts(workspace);
    let all = crate::paths::parts(path);
    proof {
        assert(views(start@).len() == start@.len());
        assert(views(all@).len() == all@.len());
    }
    if all.len() < 3 || all.len() - 3 != start.len() {
        return false;
    }
    let n = start.len();
    proof {
        if path_parts(path@) == path_parts(workspace@) + prelude_parts() {
            assert(path_parts(path@)[n as int] == prelude_parts()[0]);
            assert(path_parts(path@)[n + 1] == prelude_parts()[1]);
            assert(path_parts(path@)[n + 2] == prelude_parts()[2]);
            assert(path_parts(path@).take(n as int) =~= path_parts(workspace@));
        }
        assert(views(all@)[n as int] == all@[n as int]@);
        assert(views(all@)[n + 1] == all@[n + 1]@);
        assert(views(all@)[n + 2] == all@[n + 2]@);
    }
    if !crate::paths::starts_with(path, workspace) {
        return false;
    }
    if same(all[n].as_str(), "tools") && same(all[n + 1].as_str(), "build_rules") && same(
        all[n + 2].as_str(),
        "prelude_bazel",
    ) {
        proof {
            assert(path_parts(path@) =~= path_parts(workspace@) + prelude_parts()) by {
                assert forall|i: int| 0 <= i < path_parts(path@).len() implies path_parts(
                    path@,
                )[i] == (path_parts(workspace@) + prelude_parts())[i] by {
                    if i < n {
                        assert(path_parts(path@).take(n as int)[i] == path_parts(workspace@)[i]);
                    }
                }
            }
        }
        true
    } else {
        false
    }
}

/// The dialect and the context of a file in a workspace, by its name and place.
pub fn dialect_and_api_context_for_workspace_path(workspace: &str, path: &str) -> (r: Option<
    (Dialect, Option<APIContext>),
>)
    ensures
        r == kind_of(workspace@, path@),
{
    let name = match crate::paths::file_name(path) {
        Some(name) => name,
        None => {
            return None;
        },
    };
    let name = name.as_str();
    Some(
        if same(name, "BUILD") || same(name, "BUILD.bazel") {
            (Dialect::Bazel, Some(APIContext::Build))
        } else if same(name, "REPO.bazel") {
            (Dialect::Bazel, Some(APIContext::Repo))
        } else if same(name, "VENDOR.bazel") {
            (Dialect::Bazel, Some(APIContext::Vendor))
        } else if same(name, "MODULE.bazel") || crate::text::ends_with(name, ".MODULE.bazel") {
            (Dialect::Bazel, Some(APIContext::Module))
        } else if same(name, "WORKSPACE") || same(name, "WORKSPACE.bazel") || same(
            name,
            "WORKSPACE.bzlmod",
        ) {
            (Dialect::Bazel, Some(APIContext::Workspace))
        } else if crate::text::ends_with(name, ".BUILD.bazel") || crate::text::ends_with(
            name,
            ".BUILD",
        ) {
            (Dialect::Bazel, Some(APIContext::Build))
        } else if crate::text::ends_with(name, ".cquery") || crate::text::ends_with(
            name,
            ".query.bzl",
        ) {
            (Dialect::Bazel, Some(APIContext::Cquery))
        } else {
            let is_bzl = match crate::paths::extension(path) {
                Some(extension) => same(extension.as_str(), "bzl") || same(
                    extension.as_str(),
                    "bzli",
                ),
                None => false,
            };
            if is_bzl {
                (Dialect::Bazel, Some(APIContext::Bzl))
            } else if leads_to_prelude(workspace, path) {
                (Dialect::Bazel, Some(APIContext::Prelude))
            } else {
                (Dialect::Standard, None)
            }
        },
    )
}

/// How a file of a path is opened in a workspace: in its dialect, with what is
/// known of it. A path without a file name is not.
pub open spec fn opening_of(workspace: Seq<char>, path: Seq<char>) -> Option<
    (Dialect, Option<FileInfo>),
> {
    match kind_of(workspace, path) {
        Some((dialect, Some(api_context))) => {
            let is_external = !is_under(path, workspace);
            Some((dialect, Some(FileInfo::Bazel { api_context, is_external })))
        },
        Some((dialect, None)) => Some((dialect, None)),
        None => None,
    }
}

/// How a file of a path is opened in a workspace.
pub fn opening(workspace: &str, path: &str) -> (r: Option<(Dialect, Option<FileInfo>)>)
    ensures
        r == opening_of(workspace@, path@),
{
    match dialect_and_api_context_for_workspace_path(workspace, path) {
        Some((dialect, Some(api_context))) => {
            let is_external = !crate::paths::starts_with(path, workspace);
            Some((dialect, Some(FileInfo::Bazel { api_context, is_external })))
        },
        Some((dialect, None)) => Some((dialect, None)),
        None => None,
    }
}

/// The kind of a source file: a standard file counts only with one of the
/// extensions.
pub fn source_kind(workspace: &str, path: &str, extensions: &Vec<String>) -> (r: Option<
    (Dialect, Option<APIContext>),
>)
    ensures
        r == match kind_of(workspace@, path@) {
            Some((Dialect::Standard, context)) => match extension_of(path@) {
                Some(extension) => if lists(extensions@, extension) {
                    Some((Dialect::Standard, context))
                } else {
                    None
                },
                None => None,
            },
            other => other,
        },
{
    match dialect_and_api_context_for_workspace_path(workspace, path) {
        Some((dialect, context)) => {
            if dialect == Dialect::Standard {
                let known = match crate::paths::extension(path) {
                    Some(extension) => holds(extensions, extension.as_str()),
                    None => false,
                };
                if !known {
                    return None;
                }
            }
            Some((dialect, context))
        },
        None => None,
    }
}

/// An entry of a directory.
#[derive(Debug)]
pub struct DirEntry {
    pub name: String,
    pub is_dir: bool,
    pub is_file: bool,
}

/// What entries are offered for.
#[derive(Clone, Copy, Debug, PartialEq, Eq, Structural)]
pub enum CandidateStyle {
    Standard,
    Targets,
    PackagesAndTargets { trailing_slash: bool },
    Directories,
}

/// Whether an entry is offered.
pub open spec fn is_offered(style: CandidateStyle, e: DirEntry) -> bool {
    match style {
        CandidateStyle::Standard => e.is_file && (has_suffix(e.name@, ".star"@) || has_suffix(
            e.name@,
            ".sky"@,
        )),
        CandidateStyle::Targets => e.is_dir || has_suffix(e.name@, ".bzl"@),
        CandidateStyle::PackagesAndTargets { .. } => e.is_dir || has_suffix(e.name@, ".bzl"@),
        CandidateStyle::Directories => e.is_dir,
    }
}

/// Whether `c` is what an offered entry becomes. In a list of packages a file is
/// a target, behind a colon, in place of a slash that was typed.
pub open spec fn candidate_of(style: CandidateStyle, e: DirEntry, c: LoadItemCandidate) -> bool {
    match style {
        CandidateStyle::Standard => c.kind == LoadItemCandidateKind::File && c.path@ == e.name@
            && !c.replace_trailing_slash,
        CandidateStyle::Directories => c.kind == LoadItemCandidateKind::Directory && c.path@
            == e.name@ && !c.replace_trailing_slash,
        CandidateStyle::Targets => {
            &&& c.kind == if e.is_dir {
                LoadItemCandidateKind::Directory
            } else {
                LoadItemCandidateKind::File
            }
            &&& c.path@ == e.name@
            &&& !c.replace_trailing_slash
        },
        CandidateStyle::PackagesAndTargets { trailing_slash } => if e.is_dir {
            c.kind == LoadItemCandidateKind::Directory && c.path@ == e.name@
                && !c.replace_trailing_slash
        } else {
            c.kind == LoadItemCandidateKind::File && c.path@ == ":"@ + e.name@
                && c.replace_trailing_slash == trailing_slash
        },
    }
}

/// Whether `out` are the candidates of the offered entries, in order.
pub open spec fn candidates_of(
    style: CandidateStyle,
    entries: Seq<DirEntry>,
    out: Seq<LoadItemCandidate>,
) -> bool
    decreases entries.len(),
{
    if entries.len() == 0 {
        out.len() == 0
    } else if is_offered(style, entries.last()) {
        &&& out.len() > 0
        &&& candidate_of(style, entries.last(), out.last())
        &&& candidates_of(style, entries.drop_last(), out.drop_last())
    } else {
        candidates_of(style, entries.drop_last(), out)
    }
}

/// The candidates of the entries of a directory.
pub fn candidates(style: CandidateStyle, entries: &Vec<DirEntry>) -> (out: Vec<LoadItemCandidate>)
    ensures
        candidates_of(style, entries@, out@),
{
    let mut out: Vec<LoadItemCandidate> = Vec::new();
    let mut i: usize = 0;
    while i < entries.len()
        invariant
            i <= entries@.len(),
            candidates_of(style, entries@.take(i as int), out@),
        decreases entries@.len() - i,
    {
        let e = &entries[i];
        let ghost taken = entries@.take(i + 1);
        let ghost earlier = out@;
        proof {
            assert(taken.drop_last() =~= entries@.take(i as int));
            assert(taken.last() == entries@[i as int]);
        }
        let offered = match style {
            CandidateStyle::Standard => e.is_file && (crate::text::ends_with(
                e.name.as_str(),
                ".star",
            ) || crate::text::ends_with(e.name.as_str(), ".sky")),
            CandidateStyle::Directories => e.is_dir,
            _ => e.is_dir || crate::text::ends_with(e.name.as_str(), ".bzl"),
        };
        if offered {
            let candidate = match style {
                CandidateStyle::Standard => LoadItemCandidate {
                    kind: LoadItemCandidateKind::File,
                    path: e.name.clone(),
                    replace_trailing_slash: false,
                },
                CandidateStyle::Directories => LoadItemCandidate {
                    kind: LoadItemCandidateKind::Directory,
                    path: e.name.clone(),
                    replace_trailing_slash: false,
                },
                CandidateStyle::Targets => LoadItemCandidate {
                    kind: if e.is_dir {
                        LoadItemCandidateKind::Directory
                    } else {
                        LoadItemCandidateKind::File
                    },
                    path: e.name.clone(),
                    replace_trailing_slash: false,
                },
                CandidateStyle::PackagesAndTargets { trailing_slash } => if e.is_dir {
                    LoadItemCandidate {
                        kind: LoadItemCandidateKind::Directory,
                        path: e.name.clone(),
                        replace_trailing_slash: false,
                    }
                } else {
                    LoadItemCandidate {
                        kind: LoadItemCandidateKind::File,
                        path: crate::text::join(":", e.name.as_str()),
                        replace_trailing_slash: trailing_slash,
                    }
                },
            };
            out.push(candidate);
            proof {
                assert(out@.drop_last() =~= earlier);
            }
        }
        i = i + 1;
    }
    proof {
        assert(entries@.take(i as int) =~= entries@);
    }
    out
}

/// A text without the slashes at its end.
pub open spec fn without_slashes(s: Seq<char>) -> Seq<char>
    decreases s.len(),
{
    if s.len() > 0 && s.last() == '/' {
        without_slashes(s.drop_last())
    } else {
        s
    }
}

/// The directory that a partly typed path stands in: the path itself without
/// its slashes if it ends in one, or else what stands before its last part.
/// The root and nothing stand in no directory.
pub open spec fn typed_directory(input: Seq<char>) -> Option<(Seq<char>, bool)> {
    if input.len() > 0 && input.last() == '/' {
        Some((without_slashes(input), true))
    } else {
        match crate::paths::text_before_last(input) {
            Some(directory) => Some((directory, false)),
            None => None,
        }
    }
}

/// The directory that a partly typed path stands in, and whether it ends in a
/// slash.
pub fn strip_slashes_or_pop_dir(input: &str) -> (r: Option<(String, bool)>)
    ensures
        match r {
            Some((directory, slash)) => typed_directory(input@) == Some((directory@, slash)),
            None => typed_directory(input@) is None,
        },
{
    let chars = crate::text::chars_of(input);
    let n: usize = chars.len();
    if n > 0 && chars[n - 1] == '/' {
        let end = drop_slashes(&chars, n);
        proof {
            assert(chars@.take(n as int) =~= chars@);
        }
        return Some((crate::text::string_of(chars.as_slice(), 0, end), true));
    }
    match crate::paths::before_last(input) {
        Some(directory) => Some((directory, false)),
        None => None,
    }
}

/// The end of the first `n` characters without slashes at their end.
fn drop_slashes(chars: &Vec<char>, n: usize) -> (end: usize)
    requires
        n <= chars@.len(),
    ensures
        end <= n,
        chars@.subrange(0, end as int) == without_slashes(chars@.take(n as int)),
{
    let mut end: usize = n;
    while end > 0 && chars[end - 1] == '/'
        invariant
            end <= n <= chars@.len(),
            without_slashes(chars@.take(end as int)) == without_slashes(chars@.take(n as int)),
        decreases end,
    {
        proof {
            assert(chars@.take(end as int).drop_last() =~= chars@.take(end - 1));
        }
        end = end - 1;
    }
    proof {
        assert(chars@.subrange(0, end as int) =~= chars@.take(end as int));
    }
    end
}

} // verus!
