//! What holds of the files that labels lead to.

use vstd::prelude::*;

use crate::client::{mapping_of, RepoMapping};
use crate::common::{APIContext, FileInfo, LoadItemCandidate, LoadItemCandidateKind};
use crate::loader::{
    batch_effect, build_file_in, crosses_from, is_offer, listing_of, load_step, mapped_names,
    nearest_root, package_from, Ancestor, ContextView, Label, LabelStep, Listing, LoadError,
    LoadStep, Loader, MappingEntry, MappingLookup, Paths, ParseError, RepoKind,
};
use crate::lower_spec::text_of;
use crate::paths::{extension_of, is_under, joined, same_place};
use crate::source_kind::DirEntry;

verus! {

/// Whether a label of a file can be followed from a repository: the file is in it, it
/// can be read, and Bazel has said what is needed.
pub open spec fn starts_in(
    l: Loader,
    label: Label,
    path: Seq<char>,
    ancestors: Seq<Ancestor>,
    root_is_dir: bool,
    name: Seq<char>,
    root: Seq<char>,
) -> bool {
    &&& l.belongs(path, ancestors) == Some(ContextView::Resolved(name, root))
    &&& l.ready()
    &&& l.ensured(name, root_is_dir)
}

/// Whether a step leads to a path in a repository.
pub open spec fn leads_to(
    r: Result<LabelStep, LoadError>,
    path: Seq<char>,
    name: Seq<char>,
    root: Seq<char>,
) -> bool {
    r matches Ok(LabelStep::Resolved { path: p, repository }) && p@ == path && repository.name@
        == name && repository.root@ == root
}

/// A label without a repository stays in the repository of its file: it leads to the
/// target below the package below the root.
pub proof fn a_label_stays_in_its_repository(
    l: Loader,
    label: Label,
    path: Seq<char>,
    ancestors: Seq<Ancestor>,
    root_is_dir: bool,
    name: Seq<char>,
    root: Seq<char>,
    r: Result<LabelStep, LoadError>,
)
    requires
        starts_in(l, label, path, ancestors, root_is_dir, name, root),
        label.kind == RepoKind::Current,
        !label.is_relative,
        l.led(label, path, ancestors, root_is_dir, r),
    ensures
        leads_to(r, joined(joined(root, label.package@), label.target@), name, root),
{
}

/// A relative label leads to the target below the package of its file: the nearest
/// directory with a build file, up to the root.
pub proof fn a_relative_label_stays_in_its_package(
    l: Loader,
    label: Label,
    path: Seq<char>,
    ancestors: Seq<Ancestor>,
    root_is_dir: bool,
    name: Seq<char>,
    root: Seq<char>,
    r: Result<LabelStep, LoadError>,
    package: Seq<char>,
)
    requires
        starts_in(l, label, path, ancestors, root_is_dir, name, root),
        label.kind == RepoKind::Current,
        label.is_relative,
        is_under(path, root),
        package_from(ancestors, root, 0) == Some(package),
        l.led(label, path, ancestors, root_is_dir, r),
    ensures
        leads_to(r, joined(package, label.target@), name, root),
{
}

/// A canonical name leads to the repository of that name, below the directory in which
/// Bazel keeps repositories; the empty one leads to the workspace.
pub proof fn a_canonical_label_leads_to_its_repository(
    l: Loader,
    label: Label,
    path: Seq<char>,
    ancestors: Seq<Ancestor>,
    root_is_dir: bool,
    name: Seq<char>,
    root: Seq<char>,
    base: Seq<char>,
    r: Result<LabelStep, LoadError>,
)
    requires
        starts_in(l, label, path, ancestors, root_is_dir, name, root),
        label.kind == RepoKind::Canonical,
        !label.is_relative,
        text_of(l.external_output_base) == Some(base),
        l.led(label, path, ancestors, root_is_dir, r),
    ensures
        ({
            let to = if label.repo@.len() == 0 {
                l.workspace@
            } else {
                joined(base, label.repo@)
            };
            leads_to(r, joined(joined(to, label.package@), label.target@), label.repo@, to)
        }),
{
}

/// With modules, an apparent name leads where the canonical name leads that the
/// repository of the file has for it.
pub proof fn an_apparent_label_leads_where_it_is_mapped(
    l: Loader,
    apparent: Label,
    canonical: Label,
    path: Seq<char>,
    ancestors: Seq<Ancestor>,
    root_is_dir: bool,
    name: Seq<char>,
    root: Seq<char>,
    entries: Seq<(String, String)>,
    r: Result<LabelStep, LoadError>,
    s: Result<LabelStep, LoadError>,
)
    requires
        starts_in(l, apparent, path, ancestors, root_is_dir, name, root),
        l.bzlmod_enabled,
        l.external_output_base is Some,
        !l.paused,
        l.repository_mappings@.contains_key(name),
        l.repository_mappings@[name] matches MappingEntry::Ready(mapping) && mapping@ == entries,
        mapping_of(entries).contains_key(apparent.repo@),
        mapping_of(entries)[apparent.repo@] == canonical.repo@,
        apparent.kind == RepoKind::Apparent,
        canonical.kind == RepoKind::Canonical,
        apparent.package@ == canonical.package@,
        apparent.target@ == canonical.target@,
        !apparent.is_relative,
        !canonical.is_relative,
        l.led(apparent, path, ancestors, root_is_dir, r),
        l.led(canonical, path, ancestors, root_is_dir, s),
    ensures
        r is Ok,
        s is Ok,
        exists|to: Seq<char>, file: Seq<char>|
            leads_to(r, file, canonical.repo@, to) && #[trigger] leads_to(
                s,
                file,
                canonical.repo@,
                to,
            ),
{
    let base = l.external_output_base->0@;
    a_canonical_label_leads_to_its_repository(
        l,
        canonical,
        path,
        ancestors,
        root_is_dir,
        name,
        root,
        base,
        s,
    );
    let to = if canonical.repo@.len() == 0 {
        l.workspace@
    } else {
        joined(base, canonical.repo@)
    };
    let file = joined(joined(to, canonical.package@), canonical.target@);
    assert(leads_to(s, file, canonical.repo@, to));
    assert(leads_to(r, file, canonical.repo@, to));
}

/// With modules, an apparent name that the repository of the file has no canonical
/// name for leads nowhere, and the error names it.
pub proof fn an_unmapped_label_is_an_error(
    l: Loader,
    label: Label,
    path: Seq<char>,
    ancestors: Seq<Ancestor>,
    root_is_dir: bool,
    name: Seq<char>,
    root: Seq<char>,
    entries: Seq<(String, String)>,
    r: Result<LabelStep, LoadError>,
)
    requires
        starts_in(l, label, path, ancestors, root_is_dir, name, root),
        l.bzlmod_enabled,
        !l.paused,
        l.repository_mappings@.contains_key(name),
        l.repository_mappings@[name] matches MappingEntry::Ready(mapping) && mapping@ == entries,
        !mapping_of(entries).contains_key(label.repo@),
        label.kind == RepoKind::Apparent,
        l.led(label, path, ancestors, root_is_dir, r),
    ensures
        r matches Err(LoadError::Unmapped { repo, from }) && repo@ == label.repo@ && from@ == name,
{
}

/// Without modules an apparent name stands for itself, but the name of the workspace
/// stands for the main repository.
pub proof fn without_modules_a_name_stands_for_itself(
    l: Loader,
    label: Label,
    path: Seq<char>,
    ancestors: Seq<Ancestor>,
    root_is_dir: bool,
    name: Seq<char>,
    root: Seq<char>,
    base: Seq<char>,
    r: Result<LabelStep, LoadError>,
)
    requires
        starts_in(l, label, path, ancestors, root_is_dir, name, root),
        !l.bzlmod_enabled,
        label.kind == RepoKind::Apparent,
        !label.is_relative,
        label.repo@.len() > 0,
        text_of(l.external_output_base) == Some(base),
        l.led(label, path, ancestors, root_is_dir, r),
    ensures
        text_of(l.workspace_name) == Some(label.repo@) ==> leads_to(
            r,
            joined(joined(l.workspace@, label.package@), label.target@),
            Seq::empty(),
            l.workspace@,
        ),
        text_of(l.workspace_name) != Some(label.repo@) ==> leads_to(
            r,
            joined(joined(joined(base, label.repo@), label.package@), label.target@),
            label.repo@,
            joined(base, label.repo@),
        ),
{
    assert(Seq::<char>::empty().len() == 0);
}

/// A file that is loaded is read as a `.bzl` file, and as an external one exactly if it
/// is not in the main repository.
pub proof fn loaded_files_are_bzl_files(
    step: Result<LabelStep, LoadError>,
    r: Result<LoadStep, LoadError>,
    path: Seq<char>,
    name: Seq<char>,
    root: Seq<char>,
)
    requires
        load_step(step, r),
        leads_to(step, path, name, root),
    ensures
        r matches Ok(LoadStep::Read(target)) && target.path@ == path && target.info == Some(
            FileInfo::Bazel { api_context: APIContext::Bzl, is_external: name.len() > 0 },
        ) && (target.repository matches Some(to) && to.name@ == name && to.root@ == root),
{
}

/// A file below the directory in which Bazel keeps repositories belongs to the one that
/// is named there. Any other in the workspace belongs to the main repository, and what
/// is outside of both belongs to none that is known.
pub proof fn files_belong_by_place(
    l: Loader,
    path: Seq<char>,
    ancestors: Seq<Ancestor>,
    base: Seq<char>,
)
    requires
        text_of(l.external_output_base) == Some(base),
        !l.repositories@.contains_key(path),
    ensures
        is_under(path, base) ==> match l.belongs(path, ancestors) {
            Some(ContextView::Resolved(name, root)) => {
                &&& crate::paths::parts_below(path, base).len() > 0
                &&& name == crate::paths::parts_below(path, base)[0]
                &&& root == joined(base, name)
            },
            Some(_) => false,
            None => crate::paths::path_parts(path).len() == crate::paths::path_parts(base).len(),
        },
        !is_under(path, base) && is_under(path, l.workspace@) ==> l.belongs(path, ancestors)
            == Some(ContextView::Resolved(Seq::empty(), l.workspace@)),
        !is_under(path, base) && !is_under(path, l.workspace@) && extension_of(path) != Some(
            "bzli"@,
        ) ==> l.belongs(path, ancestors) == Some(ContextView::Unknown),
{
}

/// Whether ancestor `k` is the nearest with a build file, or the root before that.
pub open spec fn is_package(ancestors: Seq<Ancestor>, root: Seq<char>, k: int) -> bool {
    &&& 0 <= k < ancestors.len()
    &&& ancestors[k].has_build_file || same_place(ancestors[k].path@, root)
    &&& forall|j: int|
        0 <= j < k ==> !(#[trigger] ancestors[j]).has_build_file && !same_place(
            ancestors[j].path@,
            root,
        )
}

/// The package of a file is the nearest directory above it that has a build file, and
/// the root if there is none below it.
pub proof fn the_package_is_the_nearest(ancestors: Seq<Ancestor>, root: Seq<char>, k: int)
    requires
        is_package(ancestors, root, k),
    ensures
        package_from(ancestors, root, 0) == Some(
            if ancestors[k].has_build_file {
                ancestors[k].path@
            } else {
                root
            },
        ),
{
    package_is_behind(ancestors, root, k, 0);
}

proof fn package_is_behind(ancestors: Seq<Ancestor>, root: Seq<char>, k: int, j: int)
    requires
        is_package(ancestors, root, k),
        0 <= j <= k,
    ensures
        package_from(ancestors, root, j) == package_from(ancestors, root, k),
    decreases k - j,
{
    if j < k {
        package_is_behind(ancestors, root, k, j + 1);
    }
}

/// The workspace of a directory is the nearest directory above it that is the root of
/// a repository.
pub proof fn the_workspace_is_the_nearest_root(ancestors: Seq<Ancestor>, k: int)
    requires
        0 <= k <= ancestors.len(),
        forall|j: int| 0 <= j < k ==> !(#[trigger] ancestors[j]).is_repository_root,
        k < ancestors.len() ==> ancestors[k].is_repository_root,
    ensures
        nearest_root(ancestors, 0) == if k < ancestors.len() {
            Some(ancestors[k].path@)
        } else {
            None
        },
{
    root_is_behind(ancestors, k, 0);
}

proof fn root_is_behind(ancestors: Seq<Ancestor>, k: int, j: int)
    requires
        0 <= j <= k <= ancestors.len(),
        forall|i: int| 0 <= i < k ==> !(#[trigger] ancestors[i]).is_repository_root,
    ensures
        nearest_root(ancestors, j) == nearest_root(ancestors, k),
    decreases k - j,
{
    if j < k {
        root_is_behind(ancestors, k, j + 1);
    }
}

/// A repository starts between a file and a root exactly if a directory below the root
/// is the root of a repository.
pub proof fn a_repository_is_crossed_below_the_root(ancestors: Seq<Ancestor>, root: Seq<char>)
    ensures
        crosses_from(ancestors, root, 0) <==> exists|k: int| #[trigger]
            is_crossed(ancestors, root, 0, k),
{
    crossed_from(ancestors, root, 0);
}

/// Whether ancestor `k` is the root of a repository, and none from `from` to it is
/// `root`.
pub open spec fn is_crossed(ancestors: Seq<Ancestor>, root: Seq<char>, from: int, k: int) -> bool {
    &&& from <= k < ancestors.len()
    &&& ancestors[k].is_repository_root
    &&& forall|j: int| from <= j <= k ==> !same_place((#[trigger] ancestors[j]).path@, root)
}

proof fn crossed_from(ancestors: Seq<Ancestor>, root: Seq<char>, from: int)
    requires
        0 <= from <= ancestors.len(),
    ensures
        crosses_from(ancestors, root, from) <==> exists|k: int| #[trigger]
            is_crossed(ancestors, root, from, k),
    decreases ancestors.len() - from,
{
    if from < ancestors.len() && !same_place(ancestors[from].path@, root) {
        if ancestors[from].is_repository_root {
            assert(is_crossed(ancestors, root, from, from));
        } else {
            crossed_from(ancestors, root, from + 1);
            if crosses_from(ancestors, root, from + 1) {
                let k = choose|k: int| #[trigger] is_crossed(ancestors, root, from + 1, k);
                assert(is_crossed(ancestors, root, from, k));
            }
            if exists|k: int| #[trigger] is_crossed(ancestors, root, from, k) {
                let k = choose|k: int| #[trigger] is_crossed(ancestors, root, from, k);
                assert(is_crossed(ancestors, root, from + 1, k));
            }
        }
    } else if from < ancestors.len() {
        assert forall|k: int| !#[trigger] is_crossed(ancestors, root, from, k) by {
            if is_crossed(ancestors, root, from, k) {
                assert(!same_place(ancestors[from].path@, root));
            }
        }
    }
}

/// The build file of a directory is the first of its names that is `BUILD` or
/// `BUILD.bazel`.
pub proof fn the_build_file_is_the_first(names: Seq<String>, k: int)
    requires
        0 <= k < names.len(),
        names[k]@ == "BUILD"@ || names[k]@ == "BUILD.bazel"@,
        forall|j: int|
            0 <= j < k ==> (#[trigger] names[j])@ != "BUILD"@ && names[j]@ != "BUILD.bazel"@,
    ensures
        build_file_in(names, names.len() as int) == Some(names[k]@),
{
    build_file_is_before(names, k, names.len() as int);
}

proof fn build_file_is_before(names: Seq<String>, k: int, n: int)
    requires
        0 <= n <= names.len(),
        0 <= k < names.len(),
        names[k]@ == "BUILD"@ || names[k]@ == "BUILD.bazel"@,
        forall|j: int|
            0 <= j < k ==> (#[trigger] names[j])@ != "BUILD"@ && names[j]@ != "BUILD.bazel"@,
    ensures
        build_file_in(names, n) == if k < n {
            Some(names[k]@)
        } else {
            None
        },
    decreases n,
{
    if n > 0 {
        build_file_is_before(names, k, n - 1);
    }
}

/// The files of the main repository can always be read in an editor unless fetching it
/// failed, and those of another one exactly if it was fetched.
pub proof fn other_repositories_are_fetched_first(
    l: Loader,
    name: Seq<char>,
    root_is_dir: bool,
)
    requires
        l.configuration_revision is Some,
        !l.fetch_failed(name),
    ensures
        l.ensured(name, root_is_dir) <==> name.len() == 0 || (l.repository_fetches@.contains_key(
            name,
        ) && l.repository_fetches@[name] is Ready),
{
}

/// A batch of mappings that was answered in full has the answer for each of its
/// repositories, and nothing is changed for others. One that failed is known to have
/// failed for each of its repositories.
pub proof fn a_batch_answers_each_repository(
    before: Map<Seq<char>, MappingEntry>,
    after: Map<Seq<char>, MappingEntry>,
    names: Seq<Seq<char>>,
    result: Result<Vec<RepoMapping>, String>,
    outcome: Result<(), String>,
    k: int,
    other: Seq<char>,
)
    requires
        0 <= k < names.len(),
        names.no_duplicates(),
        !names.contains(other),
        batch_effect(before, after, names, result, outcome, names[k]),
        batch_effect(before, after, names, result, outcome, other),
    ensures
        after.contains_key(names[k]),
        outcome is Ok ==> after[names[k]] == MappingEntry::Ready(result->Ok_0@[k]),
        outcome is Err ==> after[names[k]] is Failed,
        after.contains_key(other) == before.contains_key(other),
        after[other] == before[other],
{
    assert(names.contains(names[k]));
    if outcome is Ok {
        let j = choose|j: int|
            0 <= j < names.len() && #[trigger] names[j] == names[k] && after[names[k]]
                == MappingEntry::Ready(result->Ok_0@[j]) && !names.skip(j + 1).contains(names[k]);
        assert(j == k);
    }
}

/// What is known of a mapping is found: one that is there is handed out, one that failed
/// is told with its error, and one on its way is waited for. While mappings are put off
/// all are waited for.
pub proof fn known_mappings_are_found(l: Loader, name: Seq<char>, lookup: MappingLookup)
    requires
        l.mapping_known(name, lookup),
        l.repository_mappings@.contains_key(name),
    ensures
        l.paused ==> lookup is Loading,
        !l.paused ==> match l.repository_mappings@[name] {
            MappingEntry::Ready(mapping) => lookup == MappingLookup::Ready(mapping),
            MappingEntry::Failed(error) => lookup matches MappingLookup::Failed(e) && e@ == error@,
            MappingEntry::Pending => lookup is Loading,
        },
{
}

/// A package that is being typed is completed below the root of its repository, and a
/// target in the directory of its package, which for a relative label is that of the
/// file.
pub proof fn typed_labels_are_completed_in_place(
    label: Label,
    root: Seq<char>,
    package: Seq<char>,
    r: Listing,
)
    ensures
        listing_of(label, Some(ParseError::EmptyPackage), root, package, r) ==> (
        r matches Listing::Packages { directory, trailing_slash } && directory@ == root
            && !trailing_slash),
        listing_of(label, Some(ParseError::EmptyTarget), root, package, r) && !label.is_relative
            ==> (r matches Listing::Targets { directory } && directory@ == joined(
            root,
            label.package@,
        )),
        listing_of(label, Some(ParseError::EmptyTarget), root, package, r) && label.is_relative
            ==> (r matches Listing::Targets { directory } && directory@ == package),
        listing_of(label, None, root, package, r) && label.is_relative ==> (
        r matches Listing::Targets { directory } && directory@ == package),
{
}

/// With modules the repositories that a file sees are offered, each once and by the name
/// under which the file sees it.
pub proof fn seen_repositories_are_offered(
    entries: Seq<(String, String)>,
    n: int,
    name: Seq<char>,
)
    requires
        0 <= n <= entries.len(),
    ensures
        mapped_names(entries, n).contains(name) <==> exists|k: int|
            0 <= k < n && (#[trigger] entries[k]).0@ == name,
        mapped_names(entries, n).no_duplicates(),
    decreases n,
{
    if n > 0 {
        seen_repositories_are_offered(entries, n - 1, name);
        let before = mapped_names(entries, n - 1);
        let now = mapped_names(entries, n);
        let key = entries[n - 1].0@;
        if !before.contains(key) {
            assert(now[now.len() - 1] == key);
            if before.contains(name) {
                let k = choose|k: int| 0 <= k < before.len() && before[k] == name;
                assert(now[k] == name);
            }
            if now.contains(name) && name != key {
                let k = choose|k: int| 0 <= k < now.len() && now[k] == name;
                assert(before[k] == name);
            }
        } else if name == key {
            seen_repositories_are_offered(entries, n - 1, key);
        }
    }
}

/// What is offered for a mapping are its names, as directories.
pub proof fn offered_names_are_those_of_the_mapping(
    mapping: RepoMapping,
    entries: Seq<DirEntry>,
    r: Option<Vec<LoadItemCandidate>>,
    name: Seq<char>,
)
    requires
        is_offer(Listing::Mapped(mapping), entries, r),
    ensures
        r is Some,
        (exists|i: int|
            0 <= i < r->0@.len() && (#[trigger] r->0@[i]).path@ == name && r->0@[i].kind
                == LoadItemCandidateKind::Directory) <==> exists|k: int|
            0 <= k < mapping@.len() && (#[trigger] mapping@[k]).0@ == name,
{
    let n = mapping@.len() as int;
    let names = mapped_names(mapping@, n);
    seen_repositories_are_offered(mapping@, n, name);
    let out = r->0@;
    if names.contains(name) {
        let i = choose|i: int| 0 <= i < names.len() && names[i] == name;
        assert(crate::loader::is_repository_candidate(out[i], names[i]));
    }
    if exists|i: int|
        0 <= i < out.len() && (#[trigger] out[i]).path@ == name && out[i].kind
            == LoadItemCandidateKind::Directory {
        let i = choose|i: int|
            0 <= i < out.len() && (#[trigger] out[i]).path@ == name && out[i].kind
                == LoadItemCandidateKind::Directory;
        assert(crate::loader::is_repository_candidate(out[i], names[i]));
        assert(names.contains(name));
    }
}

/// What was recorded of a path counts, whatever its place says. One that was displaced
/// belongs to no repository that is known.
pub proof fn recorded_paths_stay_where_they_are(
    l: Loader,
    path: Seq<char>,
    ancestors: Seq<Ancestor>,
)
    requires
        l.repositories@.contains_key(path),
    ensures
        l.repositories@[path]@ matches ContextView::Resolved(name, root) ==> l.belongs(
            path,
            ancestors,
        ) == Some(ContextView::Resolved(name, root)),
        !(l.repositories@[path]@ is Resolved) ==> l.belongs(path, ancestors) == Some(
            ContextView::Unknown,
        ),
{
}

/// Before Bazel has said where repositories are, a label is followed without waiting
/// exactly if it stays in the main repository.
pub proof fn labels_of_other_repositories_wait(l: Loader, label: Label, from: Seq<char>)
    requires
        l.external_output_base is None,
    ensures
        !l.needs_context(label, from) <==> from.len() == 0 && label.repo@.len() == 0 && label.kind
            != RepoKind::Apparent,
{
}

/// While the name of a repository is typed, the repositories that the file sees are
/// listed with modules, and without them those that Bazel has fetched.
pub proof fn typed_repositories_are_listed(
    l: Loader,
    label: Label,
    lookup: MappingLookup,
    r: Listing,
)
    requires
        l.repositories_listed(label, lookup, r),
    ensures
        label.kind == RepoKind::Apparent && l.bzlmod_enabled ==> (r is Mapped <==> lookup is Ready),
        lookup is Ready && label.kind == RepoKind::Apparent && l.bzlmod_enabled ==> r
            == Listing::Mapped(lookup->Ready_0),
        label.kind == RepoKind::Canonical ==> (r is Repositories <==> l.external_output_base
            is Some),
        r matches Listing::Repositories { directory, workspace_name } ==> text_of(
            l.external_output_base,
        ) == Some(directory@),
{
}

/// An open document whose repository is known keeps it over a new configuration, where
/// its source still fits and nothing else is recorded for it. It is not refused.
pub proof fn open_documents_keep_their_repository(
    l: Loader,
    p: Paths,
    previous: Loader,
    path: Seq<char>,
    ancestors: Seq<Ancestor>,
    name: Seq<char>,
    root: Seq<char>,
)
    requires
        previous.repositories@.contains_key(path),
        previous.repositories@[path]@ == ContextView::Resolved(name, root),
        name.len() > 0 || previous.external_output_base is Some,
        !p.contexts.contains_key(path) || p.contexts[path] == ContextView::Resolved(name, root),
    ensures
        l.refusal_in(p, previous, path, ancestors, None) is None,
        l.restored_in(p, previous, path, ancestors, true).contexts.contains_key(path),
        l.restored_in(p, previous, path, ancestors, true).contexts[path] == ContextView::Resolved(
            name,
            root,
        ),
{
}

/// An open document that another repository has now, that was displaced before, or whose
/// source no longer fits, is displaced and refused, and belongs to no repository that is
/// known until it is opened again.
pub proof fn displaced_documents_are_refused(
    l: Loader,
    p: Paths,
    previous: Loader,
    path: Seq<char>,
    ancestors: Seq<Ancestor>,
    error: Seq<char>,
)
    ensures
        l.refusal_in(p, previous, path, ancestors, Some(error)) == Some(error),
        l.restored_in(p, previous, path, ancestors, false).contexts[path]
            == ContextView::Displaced,
        previous.repositories@.contains_key(path) && previous.repositories@[path]@ is Displaced
            ==> l.refusal_in(p, previous, path, ancestors, None) == Some(
            "repository context for open file "@ + path + " changed; close and reopen it"@,
        ) && l.restored_in(p, previous, path, ancestors, true).contexts[path]
            == ContextView::Displaced,
        l.refusal_in(p, previous, path, ancestors, None) is Some ==> l.restored_in(
            p,
            previous,
            path,
            ancestors,
            true,
        ).contexts[path] == ContextView::Displaced,
{
}

/// Taking over an open document changes nothing that is known of other paths.
pub proof fn other_documents_stay_as_they_are(
    l: Loader,
    p: Paths,
    previous: Loader,
    path: Seq<char>,
    ancestors: Seq<Ancestor>,
    valid: bool,
    other: Seq<char>,
)
    requires
        other != path,
    ensures
        ({
            let after = l.restored_in(p, previous, path, ancestors, valid).contexts;
            &&& after.contains_key(other) == p.contexts.contains_key(other)
            &&& p.contexts.contains_key(other) ==> after[other] == p.contexts[other]
        }),
{
}

} // verus!
