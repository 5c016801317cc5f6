//! The files of a workspace in which a name may stand.

use vstd::prelude::*;

use crate::common::{Dialect, File, FileInfo};
use crate::paths::path_parts;
use crate::source_kind::{is_visited, kind_of};
use crate::text::{has_part, same, views};

verus! {

/// An entry of a directory that is walked.
#[derive(Debug)]
pub struct WalkEntry {
    pub path: String,
    pub name: String,
    pub depth: usize,
    pub is_dir: bool,
    pub is_file: bool,
    pub is_repository_root: bool,
}

/// What to do with an entry.
#[derive(Clone, Copy, Debug, PartialEq, Eq, Structural)]
pub enum Visit {
    Pass,
    Leave,
    Take,
}

/// The extensions of files that are not Bazel's.
pub open spec fn is_standard_source(path: Seq<char>) -> bool {
    crate::paths::extension_of(path) == Some("star"@) || crate::paths::extension_of(path) == Some(
        "sky"@,
    )
}

/// Whether a file is looked into: one of Bazel's, or one with an extension of
/// Starlark.
pub open spec fn is_source(workspace: Seq<char>, path: Seq<char>) -> bool {
    match kind_of(workspace, path) {
        Some((Dialect::Standard, _)) => is_standard_source(path),
        Some(_) => true,
        None => false,
    }
}

/// What to do with an entry: hidden and ignored ones are passed, with all that is
/// in them, and so are other repositories. Files are taken if they are sources.
pub open spec fn visit_of(entry: WalkEntry, ignored: Seq<String>, workspace: Seq<char>) -> Visit {
    if !is_visited(entry.name@, ignored) || (entry.depth > 0 && entry.is_dir
        && entry.is_repository_root) {
        if entry.is_dir {
            Visit::Leave
        } else {
            Visit::Pass
        }
    } else if entry.is_file && is_source(workspace, entry.path@) {
        Visit::Take
    } else {
        Visit::Pass
    }
}

/// How a file is looked into, if it is.
pub open spec fn looked_into(workspace: Seq<char>, path: Seq<char>) -> Option<
    (Dialect, Option<FileInfo>),
> {
    match kind_of(workspace, path) {
        Some((dialect, context)) => if is_source(workspace, path) {
            Some(
                (
                    dialect,
                    match context {
                        Some(api_context) => Some(
                            FileInfo::Bazel { api_context, is_external: false },
                        ),
                        None => None,
                    },
                ),
            )
        } else {
            None
        },
        None => None,
    }
}

/// Whether a file is looked into, and how.
pub fn source_of(workspace: &str, path: &str) -> (r: Option<(Dialect, Option<FileInfo>)>)
    ensures
        r == looked_into(workspace@, path@),
        r is Some == is_source(workspace@, path@),
{
    match crate::source_kind::dialect_and_api_context_for_workspace_path(workspace, path) {
        Some((dialect, context)) => {
            if dialect == Dialect::Standard {
                let is_source = match crate::paths::extension(path) {
                    Some(extension) => same(extension.as_str(), "star") || same(
                        extension.as_str(),
                        "sky",
                    ),
                    None => false,
                };
                if !is_source {
                    return None;
                }
            }
            let info = match context {
                Some(api_context) => Some(FileInfo::Bazel { api_context, is_external: false }),
                None => None,
            };
            Some((dialect, info))
        },
        None => None,
    }
}

/// What to do with an entry.
pub fn visit(entry: &WalkEntry, ignored: &Vec<String>, workspace: &str) -> (r: Visit)
    ensures
        r == visit_of(*entry, ignored@, workspace@),
{
    let is_other = entry.depth > 0 && entry.is_dir && entry.is_repository_root;
    if !crate::source_kind::visit_source_entry(entry.name.as_str(), ignored) || is_other {
        if entry.is_dir {
            return Visit::Leave;
        }
        return Visit::Pass;
    }
    if entry.is_file && source_of(workspace, entry.path.as_str()).is_some() {
        Visit::Take
    } else {
        Visit::Pass
    }
}

/// Whether a list of parts comes before another, part by part.
pub open spec fn parts_before(a: Seq<Seq<char>>, b: Seq<Seq<char>>) -> bool
    decreases a.len(),
{
    if b.len() == 0 {
        false
    } else if a.len() == 0 {
        true
    } else if a[0] != b[0] {
        crate::batches::name_before(a[0], b[0])
    } else {
        parts_before(a.drop_first(), b.drop_first())
    }
}

/// Whether a path comes before another.
pub open spec fn path_before(a: Seq<char>, b: Seq<char>) -> bool {
    parts_before(path_parts(a), path_parts(b))
}

/// Whether a path comes before another.
pub fn comes_first(a: &str, b: &str) -> (r: bool)
    ensures
        r == path_before(a@, b@),
{
    let x = crate::paths::parts(a);
    let y = crate::paths::parts(b);
    let ghost p = views(x@);
    let ghost q = views(y@);
    let mut i: usize = 0;
    proof {
        assert(p.skip(0) =~= p);
        assert(q.skip(0) =~= q);
    }
    while i < x.len() && i < y.len()
        invariant
            i <= x@.len(),
            i <= y@.len(),
            p == views(x@),
            q == views(y@),
            p == path_parts(a@),
            q == path_parts(b@),
            parts_before(p, q) == parts_before(p.skip(i as int), q.skip(i as int)),
        decreases x@.len() - i,
    {
        proof {
            assert(p[i as int] == x@[i as int]@);
            assert(q[i as int] == y@[i as int]@);
            assert(p.skip(i as int)[0] == p[i as int]);
            assert(q.skip(i as int)[0] == q[i as int]);
            assert(p.skip(i as int).drop_first() =~= p.skip(i + 1));
            assert(q.skip(i as int).drop_first() =~= q.skip(i + 1));
        }
        if !same(x[i].as_str(), y[i].as_str()) {
            return crate::batches::is_before(x[i].as_str(), y[i].as_str());
        }
        i = i + 1;
    }
    i < y.len()
}

/// Whether no path comes before one that stands before it, and none leads where
/// the one before it leads.
pub open spec fn paths_in_order(paths: Seq<Seq<char>>) -> bool {
    forall|i: int|
        0 <= i && i + 1 < paths.len() ==> path_before(#[trigger] paths[i], paths[i + 1])
}

/// Whether a path leads where one of a list leads.
pub open spec fn leads_to_one(paths: Seq<Seq<char>>, path: Seq<char>) -> bool {
    exists|i: int| 0 <= i < paths.len() && path_parts(#[trigger] paths[i]) == path_parts(path)
}

/// Of two different lists of parts one comes first.
proof fn parts_one_first(a: Seq<Seq<char>>, b: Seq<Seq<char>>)
    requires
        a != b,
        !parts_before(a, b),
    ensures
        parts_before(b, a),
    decreases a.len(),
{
    if a.len() == 0 && b.len() == 0 {
        assert(a =~= b);
    } else if a.len() > 0 && b.len() > 0 {
        if a[0] != b[0] {
            crate::rename::different_names(a[0], b[0]);
        } else {
            if a.drop_first() == b.drop_first() {
                assert(a =~= seq![a[0]] + a.drop_first());
                assert(b =~= seq![b[0]] + b.drop_first());
            }
            parts_one_first(a.drop_first(), b.drop_first());
        }
    }
}

/// Puts a path where it belongs, unless one that leads there is in the list.
pub fn insert_path(paths: &mut Vec<String>, path: &str)
    requires
        paths_in_order(views(old(paths)@)),
    ensures
        paths_in_order(views(final(paths)@)),
        forall|p: Seq<char>|
            #[trigger] leads_to_one(views(final(paths)@), p) <==> leads_to_one(views(old(paths)@), p)
                || path_parts(p) == path_parts(path@),
{
    let ghost before = views(paths@);
    let mut at: usize = paths.len();
    while at > 0 && comes_first(path, paths[at - 1].as_str())
        invariant
            at <= paths@.len(),
            before == views(paths@),
            at < paths@.len() ==> path_before(path@, before[at as int]),
        decreases at,
    {
        at = at - 1;
        proof {
            assert(before[at as int] == paths@[at as int]@);
        }
    }
    if at > 0 && crate::references::leads_same(path, paths[at - 1].as_str()) {
        proof {
            assert(before[at - 1] == paths@[at - 1]@);
        }
        return;
    }
    paths.insert(at, path.to_owned());
    proof {
        let after = views(paths@);
        assert(after =~= before.insert(at as int, path@));
        if at > 0 {
            assert(before[at - 1] == paths@[at - 1]@);
            parts_one_first(path_parts(path@), path_parts(before[at - 1]));
        }
        inserted_in_order(before, at as int, path@);
        assert forall|p: Seq<char>|
            #[trigger] leads_to_one(after, p) <==> leads_to_one(before, p) || path_parts(p)
                == path_parts(path@) by {
            inserted_leads(before, at as int, path@, p);
        }
    }
}

/// Paths in order stay so when one is put where it belongs.
proof fn inserted_in_order(paths: Seq<Seq<char>>, at: int, path: Seq<char>)
    requires
        paths_in_order(paths),
        0 <= at <= paths.len(),
        at > 0 ==> path_before(paths[at - 1], path),
        at < paths.len() ==> path_before(path, paths[at]),
    ensures
        paths_in_order(paths.insert(at, path)),
{
    let after = paths.insert(at, path);
    assert forall|i: int| 0 <= i && i + 1 < after.len() implies path_before(
        #[trigger] after[i],
        after[i + 1],
    ) by {
        if i + 1 < at {
            assert(path_before(paths[i], paths[i + 1]));
        } else if i > at {
            assert(path_before(paths[i - 1], paths[i]));
        }
    }
}

/// A list with a path put into it leads where it led, and where the path leads.
proof fn inserted_leads(paths: Seq<Seq<char>>, at: int, path: Seq<char>, p: Seq<char>)
    requires
        0 <= at <= paths.len(),
    ensures
        leads_to_one(paths.insert(at, path), p) <==> leads_to_one(paths, p) || path_parts(p)
            == path_parts(path),
{
    let after = paths.insert(at, path);
    if leads_to_one(after, p) {
        let i = choose|i: int|
            0 <= i < after.len() && path_parts(#[trigger] after[i]) == path_parts(p);
        if i < at {
            assert(path_parts(paths[i]) == path_parts(p));
        } else if i > at {
            assert(path_parts(paths[i - 1]) == path_parts(p));
        }
    }
    if leads_to_one(paths, p) {
        let i = choose|i: int|
            0 <= i < paths.len() && path_parts(#[trigger] paths[i]) == path_parts(p);
        let j = if i < at {
            i
        } else {
            i + 1
        };
        assert(path_parts(after[j]) == path_parts(p));
    }
    if path_parts(p) == path_parts(path) {
        assert(path_parts(after[at]) == path_parts(p));
    }
}

/// Whether two paths have the same parts.
pub fn leads_same(a: &str, b: &str) -> (r: bool)
    ensures
        r == (path_parts(a@) == path_parts(b@)),
{
    let x = crate::paths::parts(a);
    let y = crate::paths::parts(b);
    if x.len() != y.len() {
        proof {
            assert(views(x@).len() != views(y@).len());
        }
        return false;
    }
    let mut i: usize = 0;
    while i < x.len()
        invariant
            i <= x@.len() == y@.len(),
            views(x@) == path_parts(a@),
            views(y@) == path_parts(b@),
            forall|k: int| 0 <= k < i ==> views(x@)[k] == #[trigger] views(y@)[k],
        decreases x@.len() - i,
    {
        if !same(x[i].as_str(), y[i].as_str()) {
            proof {
                assert(views(x@)[i as int] != views(y@)[i as int]);
            }
            return false;
        }
        i = i + 1;
    }
    proof {
        assert(views(x@) =~= views(y@));
    }
    true
}

/// The paths of files to look into, in order and each once.
pub fn reference_paths(loaded: &Vec<String>, walked: &Vec<String>) -> (r: Vec<String>)
    ensures
        paths_in_order(views(r@)),
        forall|p: Seq<char>|
            #[trigger] leads_to_one(views(r@), p) <==> leads_to_one(views(loaded@), p)
                || leads_to_one(views(walked@), p),
{
    let mut r: Vec<String> = Vec::new();
    add_paths(&mut r, loaded);
    let ghost middle = views(r@);
    add_paths(&mut r, walked);
    proof {
        assert forall|p: Seq<char>|
            #[trigger] leads_to_one(views(r@), p) <==> leads_to_one(views(loaded@), p)
                || leads_to_one(views(walked@), p) by {
            assert(leads_to_one(middle, p) <==> leads_to_one(views(loaded@), p));
        }
    }
    r
}

/// Puts paths where they belong.
fn add_paths(paths: &mut Vec<String>, more: &Vec<String>)
    requires
        paths_in_order(views(old(paths)@)),
    ensures
        paths_in_order(views(final(paths)@)),
        forall|p: Seq<char>|
            #[trigger] leads_to_one(views(final(paths)@), p) <==> leads_to_one(views(old(paths)@), p)
                || leads_to_one(views(more@), p),
{
    let ghost start = views(paths@);
    let ghost all = views(more@);
    let mut i: usize = 0;
    while i < more.len()
        invariant
            i <= more@.len(),
            all == views(more@),
            paths_in_order(views(paths@)),
            forall|p: Seq<char>|
                #[trigger] leads_to_one(views(paths@), p) <==> leads_to_one(start, p)
                    || leads_to_one(all.take(i as int), p),
        decreases more@.len() - i,
    {
        let ghost before = views(paths@);
        insert_path(paths, more[i].as_str());
        proof {
            let taken = all.take(i as int);
            let further = all.take(i + 1);
            assert(further =~= taken.push(all[i as int]));
            assert(all[i as int] == more@[i as int]@);
            assert forall|p: Seq<char>|
                #[trigger] leads_to_one(views(paths@), p) <==> leads_to_one(start, p)
                    || leads_to_one(further, p) by {
                assert(leads_to_one(before, p) <==> leads_to_one(start, p) || leads_to_one(
                    taken,
                    p,
                ));
                if leads_to_one(taken, p) {
                    let k = choose|k: int|
                        0 <= k < taken.len() && path_parts(#[trigger] taken[k]) == path_parts(p);
                    assert(path_parts(further[k]) == path_parts(p));
                }
                if path_parts(all[i as int]) == path_parts(p) {
                    assert(path_parts(further[i as int]) == path_parts(p));
                }
                if leads_to_one(further, p) {
                    let k = choose|k: int|
                        0 <= k < further.len() && path_parts(#[trigger] further[k]) == path_parts(p);
                    if k < i {
                        assert(path_parts(taken[k]) == path_parts(p));
                    }
                }
            }
        }
        i = i + 1;
    }
    proof {
        assert(all.take(i as int) =~= all);
    }
}

/// Whether a name may stand in a text. A string with an escape may spell a name
/// without holding it.
pub fn may_hold(contents: &str, name: &str) -> (r: bool)
    ensures
        r == (has_part(contents@, name@) || has_part(contents@, "\\"@)),
{
    crate::text::contains(contents, name) || crate::text::contains(contents, "\\")
}

/// A file, and the path of its source.
#[derive(Debug)]
pub struct SourceFile {
    pub file: File,
    pub path: String,
}

/// A path that may lead to a file in which a name stands: the file, if an editor has
/// it open, else the number of its source; and what it holds, if it is there.
#[derive(Debug)]
pub struct Candidate {
    pub path: String,
    pub open: Option<File>,
    pub source: usize,
    pub source_path: String,
    pub contents: Option<String>,
}

/// Whether a name may stand in what a file holds.
pub open spec fn holds_name(contents: Option<String>, name: Seq<char>) -> bool {
    contents is Some && (has_part(contents->0@, name) || has_part(contents->0@, "\\"@))
}

/// The file of a candidate, if it is a source in which a name may stand.
pub open spec fn chosen(c: Candidate, workspace: Seq<char>, name: Seq<char>) -> Option<SourceFile> {
    match looked_into(workspace, c.path@) {
        Some((dialect, info)) => if holds_name(c.contents, name) {
            let file = match c.open {
                Some(file) => file,
                None => File { source: c.source, dialect, info },
            };
            Some(SourceFile { file, path: c.source_path })
        } else {
            None
        },
        None => None,
    }
}

/// The file of a candidate, if it is a source in which a name may stand.
fn choose_file(c: &Candidate, workspace: &str, name: &str) -> (r: Option<SourceFile>)
    ensures
        r == chosen(*c, workspace@, name@),
{
    let (dialect, info) = match source_of(workspace, c.path.as_str()) {
        Some(kind) => kind,
        None => {
            return None;
        },
    };
    let held = match &c.contents {
        Some(contents) => may_hold(contents.as_str(), name),
        None => false,
    };
    if !held {
        return None;
    }
    let file = match c.open {
        Some(file) => file,
        None => File { source: c.source, dialect, info },
    };
    Some(SourceFile { file, path: c.source_path.clone() })
}

/// The files that are known, and behind them those of the first candidates in which
/// a name may stand.
pub open spec fn gathered(
    known: Seq<SourceFile>,
    candidates: Seq<Candidate>,
    workspace: Seq<char>,
    name: Seq<char>,
    n: int,
) -> Seq<SourceFile>
    decreases n,
{
    if n <= 0 {
        known
    } else {
        let rest = gathered(known, candidates, workspace, name, n - 1);
        match chosen(candidates[n - 1], workspace, name) {
            Some(file) => rest.push(file),
            None => rest,
        }
    }
}

/// Whether a file is the first of a list with its source.
pub open spec fn is_first(files: Seq<SourceFile>, k: int) -> bool {
    &&& 0 <= k < files.len()
    &&& forall|j: int|
        0 <= j < k ==> (#[trigger] files[j]).file.source != files[k].file.source
}

/// Whether a file is among the first `n` of a list, and the first with its source.
pub open spec fn is_kept(files: Seq<SourceFile>, n: int, file: SourceFile) -> bool {
    exists|k: int| k < n && #[trigger] is_first(files, k) && files[k] == file
}

/// Whether files are in the order of their paths.
pub open spec fn in_path_order(files: Seq<SourceFile>) -> bool {
    forall|i: int| 0 <= i < files.len() - 1 ==> #[trigger] is_followed(files, i)
}

/// Whether the path of a file does not come before that of the file before it.
pub open spec fn is_followed(files: Seq<SourceFile>, i: int) -> bool {
    !path_before(files[i + 1].path@, files[i].path@)
}

/// Whether no two files have one source.
pub open spec fn have_own_sources(files: Seq<SourceFile>) -> bool {
    forall|i: int, j: int|
        0 <= i < j < files.len() ==> (#[trigger] files[i]).file.source != (
        #[trigger] files[j]).file.source
}

/// Whether a file of a list has a source.
pub open spec fn has_source(files: Seq<SourceFile>, source: usize) -> bool {
    exists|k: int| 0 <= k < files.len() && (#[trigger] files[k]).file.source == source
}

/// Whether a file of a list has a source.
fn finds_source(files: &Vec<SourceFile>, source: usize) -> (r: bool)
    ensures
        r == has_source(files@, source),
{
    let mut k: usize = 0;
    while k < files.len()
        invariant
            k <= files@.len(),
            forall|j: int| 0 <= j < k ==> (#[trigger] files@[j]).file.source != source,
        decreases files@.len() - k,
    {
        if files[k].file.source == source {
            return true;
        }
        k = k + 1;
    }
    false
}

/// Of two texts only one comes first.
proof fn one_is_before(a: Seq<u8>, b: Seq<u8>)
    requires
        crate::batches::comes_before(a, b),
    ensures
        !crate::batches::comes_before(b, a),
    decreases a.len(),
{
    if a.len() > 0 && b.len() > 0 && a[0] == b[0] {
        one_is_before(a.drop_first(), b.drop_first());
    }
}

/// Of two lists of parts only one comes first.
proof fn one_list_is_before(a: Seq<Seq<char>>, b: Seq<Seq<char>>)
    requires
        parts_before(a, b),
    ensures
        !parts_before(b, a),
    decreases a.len(),
{
    if a.len() > 0 && b.len() > 0 {
        if a[0] == b[0] {
            one_list_is_before(a.drop_first(), b.drop_first());
        } else {
            one_is_before(vstd::utf8::encode_utf8(a[0]), vstd::utf8::encode_utf8(b[0]));
        }
    }
}

/// Puts a file with a source of its own where its path belongs.
fn insert_file(files: &mut Vec<SourceFile>, file: SourceFile)
    requires
        in_path_order(old(files)@),
        have_own_sources(old(files)@),
        !has_source(old(files)@, file.file.source),
    ensures
        in_path_order(final(files)@),
        have_own_sources(final(files)@),
        exists|at: int| 0 <= at <= old(files)@.len() && final(files)@ == #[trigger] old(
            files,
        )@.insert(at, file),
{
    let ghost before = files@;
    let mut at: usize = files.len();
    while at > 0 && comes_first(file.path.as_str(), files[at - 1].path.as_str())
        invariant
            at <= files@.len(),
            files@ == before,
            at < files@.len() ==> path_before(file.path@, files@[at as int].path@),
        decreases at,
    {
        at = at - 1;
    }
    let ghost added = file;
    files.insert(at, file);
    proof {
        assert(files@ == before.insert(at as int, added));
        file_joins(before, at as int, added);
    }
}

/// A file between one that does not come behind it and one that comes behind it keeps
/// files in order.
proof fn file_joins(before: Seq<SourceFile>, n: int, added: SourceFile)
    requires
        0 <= n <= before.len(),
        in_path_order(before),
        have_own_sources(before),
        !has_source(before, added.file.source),
        n > 0 ==> !path_before(added.path@, before[n - 1].path@),
        n < before.len() ==> path_before(added.path@, before[n].path@),
    ensures
        in_path_order(before.insert(n, added)),
        have_own_sources(before.insert(n, added)),
{
    let now = before.insert(n, added);
    if n < before.len() {
        one_list_is_before(path_parts(added.path@), path_parts(before[n].path@));
    }
    assert forall|i: int| 0 <= i < now.len() - 1 implies #[trigger] is_followed(now, i) by {
        if i + 1 < n {
            assert(now[i] == before[i] && now[i + 1] == before[i + 1]);
            assert(is_followed(before, i));
        } else if i > n {
            assert(now[i] == before[i - 1] && now[i + 1] == before[i]);
            assert(is_followed(before, i - 1));
        } else if i == n {
            assert(now[i] == added && now[i + 1] == before[n]);
        } else {
            assert(now[i] == before[n - 1] && now[i + 1] == added);
        }
    }
    assert forall|i: int, j: int| 0 <= i < j < now.len() implies (
    #[trigger] now[i]).file.source != (#[trigger] now[j]).file.source by {
        let a = if i < n {
            i
        } else {
            i - 1
        };
        let b = if j < n {
            j
        } else {
            j - 1
        };
        if i != n {
            assert(now[i] == before[a]);
        }
        if j != n {
            assert(now[j] == before[b]);
        }
    }
}

/// The files in which a name may stand: those that are known, and the sources among
/// the candidates that hold the name or an escape. Of files with one source the
/// first counts. They come in the order of their paths. There is no answer while
/// the workspace is not ready.
pub fn reference_files(
    ready: Result<(), String>,
    known: Vec<SourceFile>,
    candidates: &Vec<Candidate>,
    workspace: &str,
    name: &str,
) -> (r: Result<Vec<SourceFile>, String>)
    ensures
        match ready {
            Err(error) => r == Err::<Vec<SourceFile>, String>(error),
            Ok(()) => r matches Ok(files) && {
                let all = gathered(
                    known@,
                    candidates@,
                    workspace@,
                    name@,
                    candidates@.len() as int,
                );
                &&& in_path_order(files@)
                &&& have_own_sources(files@)
                &&& forall|file: SourceFile| #[trigger]
                    files@.contains(file) <==> is_kept(all, all.len() as int, file)
            },
        },
{
    match ready {
        Ok(()) => {},
        Err(error) => {
            return Err(error);
        },
    }
    let ghost start = known@;
    let mut all = known;
    let mut i: usize = 0;
    while i < candidates.len()
        invariant
            i <= candidates@.len(),
            all@ == gathered(start, candidates@, workspace@, name@, i as int),
        decreases candidates@.len() - i,
    {
        match choose_file(&candidates[i], workspace, name) {
            Some(file) => {
                all.push(file);
            },
            None => {},
        }
        i = i + 1;
    }
    Ok(first_files(all))
}

/// The first file of each source, in the order of their paths.
fn first_files(files: Vec<SourceFile>) -> (r: Vec<SourceFile>)
    ensures
        in_path_order(r@),
        have_own_sources(r@),
        forall|file: SourceFile| #[trigger]
            r@.contains(file) <==> is_kept(files@, files@.len() as int, file),
{
    let ghost all = files@;
    let mut rest = files;
    let mut r: Vec<SourceFile> = Vec::new();
    let ghost mut n: int = 0;
    proof {
        assert(all.skip(0) =~= all);
    }
    while rest.len() > 0
        invariant
            0 <= n <= all.len(),
            rest@ == all.skip(n),
            in_path_order(r@),
            have_own_sources(r@),
            forall|file: SourceFile| #[trigger] r@.contains(file) <==> is_kept(all, n, file),
            forall|k: int| 0 <= k < n ==> has_source(r@, (#[trigger] all[k]).file.source),
        decreases rest@.len(),
    {
        let ghost before = r@;
        let file = rest.remove(0);
        let ghost added = file;
        proof {
            assert(added == all[n]);
            assert(rest@ =~= all.skip(n + 1));
        }
        if !finds_source(&r, file.file.source) {
            insert_file(&mut r, file);
            proof {
                let at = choose|at: int|
                    0 <= at <= before.len() && r@ == #[trigger] before.insert(at, added);
                assert forall|j: int| 0 <= j < n implies (#[trigger] all[j]).file.source
                    != all[n].file.source by {
                    assert(has_source(before, all[j].file.source));
                }
                assert(is_first(all, n));
                kept_after(all, n, before, at, r@);
            }
        } else {
            proof {
                assert(!is_first(all, n)) by {
                    let k = choose|k: int|
                        0 <= k < before.len() && (#[trigger] before[k]).file.source
                            == added.file.source;
                    assert(before.contains(before[k]));
                    let j = choose|j: int| j < n && #[trigger] is_first(all, j) && all[j]
                        == before[k];
                    assert(all[j].file.source == all[n].file.source);
                }
                assert forall|file: SourceFile| #[trigger]
                    r@.contains(file) <==> is_kept(all, n + 1, file) by {
                    if is_kept(all, n + 1, file) {
                        let k = choose|k: int|
                            k < n + 1 && #[trigger] is_first(all, k) && all[k] == file;
                        assert(k < n);
                        assert(is_kept(all, n, file));
                    }
                    if is_kept(all, n, file) {
                        let k = choose|k: int|
                            k < n && #[trigger] is_first(all, k) && all[k] == file;
                        assert(is_kept(all, n + 1, file));
                    }
                }
            }
        }
        proof {
            n = n + 1;
        }
    }
    r
}

/// A first file that is put in joins those that are kept.
proof fn kept_after(
    all: Seq<SourceFile>,
    n: int,
    before: Seq<SourceFile>,
    at: int,
    after: Seq<SourceFile>,
)
    requires
        0 <= n < all.len(),
        0 <= at <= before.len(),
        after == before.insert(at, all[n]),
        is_first(all, n),
        forall|file: SourceFile| #[trigger] before.contains(file) <==> is_kept(all, n, file),
        forall|k: int| 0 <= k < n ==> has_source(before, (#[trigger] all[k]).file.source),
    ensures
        forall|file: SourceFile| #[trigger] after.contains(file) <==> is_kept(all, n + 1, file),
        forall|k: int| 0 <= k < n + 1 ==> has_source(after, (#[trigger] all[k]).file.source),
{
    assert forall|file: SourceFile| #[trigger]
        after.contains(file) <==> is_kept(all, n + 1, file) by {
        if after.contains(file) {
            let i = choose|i: int| 0 <= i < after.len() && after[i] == file;
            if i == at {
                assert(is_kept(all, n + 1, file));
            } else {
                assert(before[if i < at {
                    i
                } else {
                    i - 1
                }] == file);
                assert(before.contains(file));
                let k = choose|k: int| k < n && #[trigger] is_first(all, k) && all[k] == file;
                assert(is_kept(all, n + 1, file));
            }
        }
        if is_kept(all, n + 1, file) {
            let k = choose|k: int| k < n + 1 && #[trigger] is_first(all, k) && all[k] == file;
            if k == n {
                assert(after[at] == file);
            } else {
                assert(is_kept(all, n, file));
                assert(before.contains(file));
                let i = choose|i: int| 0 <= i < before.len() && before[i] == file;
                assert(after[if i < at {
                    i
                } else {
                    i + 1
                }] == file);
            }
        }
    }
    assert forall|k: int| 0 <= k < n + 1 implies has_source(
        after,
        (#[trigger] all[k]).file.source,
    ) by {
        if k < n {
            assert(has_source(before, all[k].file.source));
            let i = choose|i: int|
                0 <= i < before.len() && (#[trigger] before[i]).file.source == all[k].file.source;
            assert(after[if i < at {
                i
            } else {
                i + 1
            }] == before[i]);
        } else {
            assert(after[at] == all[n]);
        }
    }
}

} // verus!
