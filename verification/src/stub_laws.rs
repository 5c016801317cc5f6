//! What holds of packages of interfaces.

use vstd::prelude::*;

use crate::client::SelectedModule;
use crate::common::Dialect;
use crate::loader::{Paths, Repository};
use crate::paths::{is_rooted, is_under};
use crate::stubs::{
    are_registered, can_register, has_duplicate, is_accepted, is_contained, is_label, is_opened,
    is_refused, is_registered, is_unaccepted, is_usable, FileState, InterfaceFile, Manifest,
    Registration, StubError, StubFile,
};
use crate::source_kind::kind_of;
use crate::text::has_part;

verus! {

/// A package accepts a module with a version exactly if it is for that module and lists
/// that version.
pub proof fn listed_versions_are_accepted(
    module: SelectedModule,
    version: String,
    manifest: Manifest,
    allow_unversioned: bool,
)
    requires
        module.version == Some(version),
    ensures
        is_accepted(Some(module), manifest, allow_unversioned) <==> module.name@
            == manifest.module@ && exists|i: int|
            0 <= i < manifest.versions@.len() && (#[trigger] manifest.versions@[i])@ == version@,
{
}

/// Without a version a package accepts its own module, or what is no module, exactly if
/// that is allowed.
pub proof fn what_has_no_version_is_accepted_if_allowed(
    selected: Option<SelectedModule>,
    manifest: Manifest,
    allow_unversioned: bool,
)
    requires
        selected matches Some(module) ==> module.version is None,
    ensures
        is_accepted(selected, manifest, allow_unversioned) <==> allow_unversioned && (
        selected matches Some(module) ==> module.name@ == manifest.module@),
{
}

/// The reason why a module is not accepted is told: another name, a version that is not
/// listed, or none.
pub proof fn the_reason_is_told(
    selected: Option<SelectedModule>,
    manifest: Manifest,
    repository: Seq<char>,
    allow_unversioned: bool,
    error: StubError,
)
    requires
        !is_accepted(selected, manifest, allow_unversioned),
        is_unaccepted(selected, manifest, repository, error),
    ensures
        error is OtherModule <==> (selected matches Some(module) && module.name@
            != manifest.module@),
        error is OtherVersion <==> (selected matches Some(module) && module.name@
            == manifest.module@ && module.version is Some),
        error is Unversioned <==> (selected is None || (selected matches Some(module)
            && module.name@ == manifest.module@ && module.version is None)),
{
}

/// A manifest is of use exactly if it has the format that is known, names a module and
/// versions, and names a repository by an `@` and a name without slashes and colons.
pub proof fn usable_manifests_name_their_source(manifest: Manifest)
    ensures
        is_usable(manifest) <==> {
            &&& manifest.format_version == 1
            &&& manifest.module@.len() > 0
            &&& manifest.versions@.len() > 0
            &&& forall|i: int|
                0 <= i < manifest.versions@.len() ==> (#[trigger] manifest.versions@[i])@.len() > 0
            &&& manifest.repository@.len() > 0 && manifest.repository@[0] == '@'
            &&& !manifest.repository@.contains('/')
            &&& !manifest.repository@.contains(':')
        },
{
    reveal_strlit("@");
    reveal_strlit("/");
    reveal_strlit(":");
    let text = manifest.repository@;
    crate::stub_laws::part_is_char(text, "/"@, '/');
    crate::stub_laws::part_is_char(text, ":"@, ':');
    if text.len() > 0 {
        assert(text.subrange(0, 1) =~= seq![text[0]]);
        assert("@"@ =~= seq!['@']);
        assert(seq![text[0]][0] == text[0]);
        if text.subrange(0, 1) == "@"@ {
            assert(text.subrange(0, 1)[0] == '@');
        }
    }
}

/// A text of one character stands in a text exactly if the character does.
pub proof fn part_is_char(s: Seq<char>, part: Seq<char>, c: char)
    requires
        part.len() == 1,
        part[0] == c,
    ensures
        has_part(s, part) <==> s.contains(c),
{
    if has_part(s, part) {
        let at = choose|at: int| crate::text::occurs_at(s, part, at);
        assert(s.subrange(at, at + 1)[0] == c);
        assert(s[at] == c);
    }
    if s.contains(c) {
        let at = choose|at: int| 0 <= at < s.len() && s[at] == c;
        assert(s.subrange(at, at + 1) =~= part);
        assert(crate::text::occurs_at(s, part, at));
    }
}

/// A manifest is named by a label exactly if the name starts with an `@`, a colon or two
/// slashes.
pub proof fn labels_start_like_labels(manifest: Seq<char>)
    ensures
        is_label(manifest) <==> manifest.len() > 0 && (manifest[0] == '@' || manifest[0] == ':' || (
        manifest.len() > 1 && manifest[0] == '/' && manifest[1] == '/')),
{
    reveal_strlit("@");
    reveal_strlit("//");
    reveal_strlit(":");
    if manifest.len() > 0 {
        let first = manifest.subrange(0, 1);
        assert(first[0] == manifest[0]);
        assert("@"@ =~= seq!['@']);
        assert(":"@ =~= seq![':']);
        if manifest[0] == '@' {
            assert(first =~= "@"@);
        }
        if manifest[0] == ':' {
            assert(first =~= ":"@);
        }
        if manifest.len() > 1 {
            let two = manifest.subrange(0, 2);
            assert(two[0] == manifest[0] && two[1] == manifest[1]);
            if manifest[0] == '/' && manifest[1] == '/' {
                assert(two =~= "//"@);
            }
        }
    }
}

/// A file of a package is refused for the first thing that is wrong with it: a path from
/// the root, a source that is not a file in its repository, or such an interface.
pub proof fn files_are_refused_for_a_reason(
    file: StubFile,
    source_root: Seq<char>,
    root: Seq<char>,
    error: StubError,
)
    requires
        !can_register(file, source_root, root),
        is_refused(file, source_root, root, error),
    ensures
        error is AbsoluteFiles <==> is_rooted(file.source@) || is_rooted(file.interface@),
        error matches StubError::Outside { path, root: r } ==> (path@ == file.source_path@
            && !is_under(file.source_path@, source_root)) || (path@ == file.interface_path@
            && !is_under(file.interface_path@, root)),
        error matches StubError::Unresolved { path } ==> (path@ == file.source_path@
            && file.source_state == FileState::Missing) || (path@ == file.interface_path@
            && file.interface_state == FileState::Missing),
        error matches StubError::NotAFile { path } ==> (path@ == file.source_path@
            && file.source_state == FileState::Other) || (path@ == file.interface_path@
            && file.interface_state == FileState::Other),
        error is AbsoluteFiles || error is Outside || error is Unresolved || error is NotAFile,
{
}

/// A path leads to a file in a repository exactly if it is below the root and is a file.
pub proof fn contained_files_are_files_below_the_root(
    path: Seq<char>,
    root: Seq<char>,
    state: FileState,
    r: Result<(), StubError>,
)
    requires
        is_contained(path, root, state, r),
    ensures
        r is Ok <==> is_under(path, root) && state == FileState::File,
{
}

/// A package that is loaded registers each of its files: the interface at its path for
/// the source at its path.
pub proof fn each_file_has_its_registration(
    start: Paths,
    end: Paths,
    manifest: Seq<char>,
    files: Seq<StubFile>,
    source_repository: Repository,
    repository: Repository,
    registrations: Vec<Registration>,
    i: int,
)
    requires
        are_registered(
            start,
            end,
            manifest,
            files,
            source_repository,
            repository,
            Ok::<Vec<Registration>, StubError>(registrations),
        ),
        0 <= i < files.len(),
    ensures
        registrations@.len() == files.len(),
        registrations@[i].source@ == files[i].source_path@,
        registrations@[i].interface@ == files[i].interface_path@,
        can_register(files[i], source_repository.root@, repository.root@),
{
    assert(is_registered(manifest, files[i], registrations@[i]));
    assert(crate::stubs::is_loaded(start, files, source_repository, repository, i));
}

/// Interfaces are refused exactly if two are for one source.
pub proof fn a_source_has_one_interface(registrations: Seq<Registration>, n: int)
    requires
        0 <= n <= registrations.len(),
    ensures
        !has_duplicate(registrations, n) <==> forall|i: int, j: int|
            0 <= i < n && 0 <= j < n && i != j ==> (#[trigger] registrations[i]).source@ != (
            #[trigger] registrations[j]).source@,
{
    if !has_duplicate(registrations, n) {
        assert forall|i: int, j: int| 0 <= i < n && 0 <= j < n && i != j implies (
        #[trigger] registrations[i]).source@ != (#[trigger] registrations[j]).source@ by {
            if i < j {
                assert(registrations[i].source@ != registrations[j].source@);
            } else {
                assert(registrations[j].source@ != registrations[i].source@);
            }
        }
    }
}

/// The files of an interface are opened as any file at their paths is.
pub proof fn interfaces_are_opened_as_their_kind(
    workspace: Seq<char>,
    path: Seq<char>,
    file: InterfaceFile,
)
    requires
        is_opened(workspace, path, file),
    ensures
        file.path@ == path,
        crate::paths::name_part(path) is Some,
        file.dialect == Dialect::Bazel <==> file.info is Some,
        kind_of(workspace, path) matches Some((dialect, _)) && dialect == file.dialect,
{
    crate::file_laws::bazel_files_have_a_context(workspace, path);
}

} // verus!
