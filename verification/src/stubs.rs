//! Packages of interfaces: what their manifests ask for, and what they register.

use vstd::prelude::*;

use crate::client::SelectedModule;
use crate::common::{Dialect, FileInfo};
use crate::loader::{Ancestor, ContextView, LoadError, Loader, Paths, Repository};
use crate::paths::{is_rooted, is_under, joined, parent_of};
use crate::source_kind::{opening, opening_of};
use crate::text::{debug_path, debug_text, has_part, has_prefix, in_quotes, path_in_quotes, same, views};

verus! {

/// An interface that is applied to a source.
#[derive(Debug)]
pub struct TypeInterfaceMapping {
    pub source: String,
    pub interface: String,
}

impl TypeInterfaceMapping {
    /// Reads `SOURCE=INTERFACE`. Neither of the two may be empty.
    pub fn from_str(value: &str) -> (r: Result<Self, String>)
        ensures
            ({
                let at = crate::text::first_index(value@, '=', 0);
                if at >= value@.len() {
                    r matches Err(e) && e@ == "expected SOURCE=INTERFACE"@
                } else if at == 0 || at + 1 == value@.len() {
                    r matches Err(e) && e@ == "SOURCE and INTERFACE must both be nonempty paths"@
                } else {
                    r matches Ok(mapping) && mapping.source@ == value@.take(at)
                        && mapping.interface@ == value@.skip(at + 1)
                }
            }),
    {
        let chars = crate::text::chars_of(value);
        let at = crate::text::index_of(chars.as_slice(), '=', 0);
        if at >= chars.len() {
            return Err("expected SOURCE=INTERFACE".to_owned());
        }
        if at == 0 || at + 1 == chars.len() {
            return Err("SOURCE and INTERFACE must both be nonempty paths".to_owned());
        }
        let source = crate::text::string_of(chars.as_slice(), 0, at);
        let interface = crate::text::string_of(chars.as_slice(), at + 1, chars.len());
        proof {
            assert(source@ =~= value@.take(at as int));
            assert(interface@ =~= value@.skip(at + 1));
        }
        Ok(TypeInterfaceMapping { source, interface })
    }
}

/// A manifest of a package of interfaces: what it is for, and its files.
#[derive(Debug)]
pub struct Manifest {
    pub format_version: u32,
    pub repository: String,
    pub module: String,
    pub versions: Vec<String>,
    pub files: Vec<(String, String)>,
}

/// A source and the interface that is applied to it.
#[derive(Debug)]
pub struct Registration {
    pub source: String,
    pub interface: String,
    pub origin: String,
}

/// Why a package of interfaces cannot be used.
#[derive(Debug)]
pub enum StubError {
    AbsoluteManifest,
    FormatVersion(u32),
    EmptySource,
    NotARepository,
    OtherModule { repository: String, selected: String, module: String },
    OtherVersion { module: String, version: String, accepted: String },
    Unversioned { repository: String },
    AbsoluteFiles,
    Outside { path: String, root: String },
    Unresolved { path: String },
    NotAFile { path: String },
    Load(LoadError),
    Duplicate { source: String, first: String, second: String },
    Unclassified { path: String },
    NoDirectory,
}

/// Where a manifest is: named by a label, or by a path below the workspace.
#[derive(Debug)]
pub enum ManifestPlace {
    Label,
    Path(String),
}

/// Whether a manifest is named by a label.
pub open spec fn is_label(manifest: Seq<char>) -> bool {
    has_prefix(manifest, "@"@) || has_prefix(manifest, "//"@) || has_prefix(manifest, ":"@)
}

/// Where a manifest is.
pub fn manifest_place(manifest: &str, workspace: &str) -> (r: Result<ManifestPlace, StubError>)
    ensures
        if is_label(manifest@) {
            r matches Ok(ManifestPlace::Label)
        } else if is_rooted(manifest@) {
            r matches Err(StubError::AbsoluteManifest)
        } else {
            r matches Ok(ManifestPlace::Path(path)) && path@ == joined(workspace@, manifest@)
        },
{
    if crate::text::starts_with(manifest, "@") || crate::text::starts_with(manifest, "//")
        || crate::text::starts_with(manifest, ":") {
        return Ok(ManifestPlace::Label);
    }
    if crate::paths::is_absolute(manifest) {
        return Err(StubError::AbsoluteManifest);
    }
    Ok(ManifestPlace::Path(crate::paths::join(workspace, manifest)))
}

/// Whether a name is missing among those of a source.
pub open spec fn lacks_names(manifest: Manifest) -> bool {
    manifest.module@.len() == 0 || manifest.versions@.len() == 0 || exists|i: int|
        0 <= i < manifest.versions@.len() && (#[trigger] manifest.versions@[i])@.len() == 0
}

/// Whether a text names a repository, such as `@rules_foo`.
pub open spec fn is_repository_name(text: Seq<char>) -> bool {
    has_prefix(text, "@"@) && !has_part(text, "/"@) && !has_part(text, ":"@)
}

/// The label by which the source of a manifest is resolved.
pub open spec fn source_label(repository: Seq<char>) -> Seq<char> {
    repository + "//:__stub_source__"@
}

/// Whether a manifest can be used.
pub open spec fn is_usable(manifest: Manifest) -> bool {
    manifest.format_version == 1 && !lacks_names(manifest) && is_repository_name(
        manifest.repository@,
    )
}

/// Why a manifest cannot be used.
pub open spec fn is_unusable(manifest: Manifest, error: StubError) -> bool {
    if manifest.format_version != 1 {
        error matches StubError::FormatVersion(version) && version == manifest.format_version
    } else if lacks_names(manifest) {
        error is EmptySource
    } else {
        error is NotARepository
    }
}

/// Whether a manifest is one that can be used. It gives the label of its source.
pub fn check_manifest(manifest: &Manifest) -> (r: Result<String, StubError>)
    ensures
        match r {
            Ok(label) => is_usable(*manifest) && label@ == source_label(manifest.repository@),
            Err(error) => !is_usable(*manifest) && is_unusable(*manifest, error),
        },
{
    if manifest.format_version != 1 {
        return Err(StubError::FormatVersion(manifest.format_version));
    }
    let mut is_empty = manifest.module.as_str().is_empty() || manifest.versions.len() == 0;
    let mut i: usize = 0;
    while i < manifest.versions.len()
        invariant
            i <= manifest.versions@.len(),
            is_empty == (manifest.module@.len() == 0 || manifest.versions@.len() == 0 || exists|
                k: int,
            | 0 <= k < i && (#[trigger] manifest.versions@[k])@.len() == 0),
        decreases manifest.versions@.len() - i,
    {
        if manifest.versions[i].as_str().is_empty() {
            is_empty = true;
            proof {
                assert(manifest.versions@[i as int]@.len() == 0);
            }
        }
        i = i + 1;
    }
    if is_empty {
        return Err(StubError::EmptySource);
    }
    let repository = manifest.repository.as_str();
    if !crate::text::starts_with(repository, "@") || crate::text::contains(repository, "/")
        || crate::text::contains(repository, ":") {
        return Err(StubError::NotARepository);
    }
    Ok(crate::text::join(repository, "//:__stub_source__"))
}

/// The version that was selected for a module.
pub open spec fn version_of(selected: Option<SelectedModule>) -> Option<Seq<char>> {
    match selected {
        Some(module) => match module.version {
            Some(version) => Some(version@),
            None => None,
        },
        None => None,
    }
}

/// Whether a package accepts the module that was selected: the one that it is for,
/// in a version that it lists. Without a version it has to be let through.
pub open spec fn is_accepted(
    selected: Option<SelectedModule>,
    manifest: Manifest,
    allow_unversioned: bool,
) -> bool {
    &&& selected is Some ==> selected->0.name@ == manifest.module@
    &&& match version_of(selected) {
        Some(version) => crate::builtin_tables::lists(manifest.versions@, version),
        None => allow_unversioned,
    }
}

/// Why a package does not accept the module that was selected.
pub open spec fn is_unaccepted(
    selected: Option<SelectedModule>,
    manifest: Manifest,
    repository: Seq<char>,
    error: StubError,
) -> bool {
    if selected is Some && selected->0.name@ != manifest.module@ {
        error matches StubError::OtherModule { repository: n, selected: s, module } && n@
            == repository && s@ == selected->0.name@ && module@ == manifest.module@
    } else {
        match version_of(selected) {
            Some(version) => error matches StubError::OtherVersion { module, version: v, accepted }
                && module@ == manifest.module@ && v@ == version && accepted@
                == crate::server::with_commas(views(manifest.versions@)),
            None => error matches StubError::Unversioned { repository: n } && n@ == repository,
        }
    }
}

/// Whether a package accepts the module that was selected.
pub fn check_selection(
    selected: &Option<SelectedModule>,
    manifest: &Manifest,
    allow_unversioned: bool,
    repository: &str,
) -> (r: Result<(), StubError>)
    ensures
        match r {
            Ok(()) => is_accepted(*selected, *manifest, allow_unversioned),
            Err(error) => !is_accepted(*selected, *manifest, allow_unversioned) && is_unaccepted(
                *selected,
                *manifest,
                repository@,
                error,
            ),
        },
{
    let mut version: Option<String> = None;
    match selected {
        Some(module) => {
            if !same(module.name.as_str(), manifest.module.as_str()) {
                return Err(
                    StubError::OtherModule {
                        repository: repository.to_owned(),
                        selected: module.name.clone(),
                        module: manifest.module.clone(),
                    },
                );
            }
            match &module.version {
                Some(v) => {
                    version = Some(v.clone());
                },
                None => {},
            }
        },
        None => {},
    }
    match version {
        Some(version) => {
            if !crate::builtin_tables::holds(&manifest.versions, version.as_str()) {
                return Err(
                    StubError::OtherVersion {
                        module: manifest.module.clone(),
                        version,
                        accepted: crate::server::join_names(&manifest.versions),
                    },
                );
            }
        },
        None => {
            if !allow_unversioned {
                return Err(StubError::Unversioned { repository: repository.to_owned() });
            }
        },
    }
    Ok(())
}

/// What is at a path.
#[derive(Clone, Copy, Debug, PartialEq, Eq, Structural)]
pub enum FileState {
    Missing,
    Other,
    File,
}

/// Whether `r` says whether a path leads to a file in a repository.
pub open spec fn is_contained(
    path: Seq<char>,
    root: Seq<char>,
    state: FileState,
    r: Result<(), StubError>,
) -> bool {
    if !is_under(path, root) {
        r matches Err(StubError::Outside { path: p, root: d }) && p@ == path && d@ == root
    } else {
        match state {
            FileState::Missing => r matches Err(StubError::Unresolved { path: p }) && p@ == path,
            FileState::Other => r matches Err(StubError::NotAFile { path: p }) && p@ == path,
            FileState::File => r is Ok,
        }
    }
}

/// Whether a path leads to a file in a repository.
pub fn contained_file(path: &str, root: &str, state: FileState) -> (r: Result<(), StubError>)
    ensures
        is_contained(path@, root@, state, r),
{
    if !crate::paths::starts_with(path, root) {
        return Err(StubError::Outside { path: path.to_owned(), root: root.to_owned() });
    }
    match state {
        FileState::Missing => Err(StubError::Unresolved { path: path.to_owned() }),
        FileState::Other => Err(StubError::NotAFile { path: path.to_owned() }),
        FileState::File => Ok(()),
    }
}

/// A file of a manifest: its source and its interface, and what is at the paths
/// that they have.
#[derive(Debug)]
pub struct StubFile {
    pub source: String,
    pub interface: String,
    pub source_path: String,
    pub interface_path: String,
    pub source_state: FileState,
    pub interface_state: FileState,
}

/// Whether a file of a package can be registered: its paths are relative, and
/// lead to files in their repositories.
pub open spec fn can_register(file: StubFile, source_root: Seq<char>, root: Seq<char>) -> bool {
    &&& !is_rooted(file.source@)
    &&& !is_rooted(file.interface@)
    &&& is_under(file.source_path@, source_root)
    &&& file.source_state == FileState::File
    &&& is_under(file.interface_path@, root)
    &&& file.interface_state == FileState::File
}

/// Whether a registration is that of a file of the manifest at a path.
pub open spec fn is_registered(manifest: Seq<char>, file: StubFile, r: Registration) -> bool {
    &&& r.source@ == file.source_path@
    &&& r.interface@ == file.interface_path@
    &&& r.origin@ == manifest + " ["@ + (debug_path(file.source@) + "]"@)
}

/// Why a file of a package cannot be registered.
pub open spec fn is_refused(
    file: StubFile,
    source_root: Seq<char>,
    root: Seq<char>,
    error: StubError,
) -> bool {
    let r = Err::<(), StubError>(error);
    if is_rooted(file.source@) || is_rooted(file.interface@) {
        error is AbsoluteFiles
    } else if !is_under(file.source_path@, source_root) || file.source_state != FileState::File {
        is_contained(file.source_path@, source_root, file.source_state, r)
    } else {
        is_contained(file.interface_path@, root, file.interface_state, r)
    }
}

/// Whether a file of a package can be registered.
fn check_file(file: &StubFile, source_root: &str, root: &str) -> (r: Result<(), StubError>)
    ensures
        match r {
            Ok(()) => can_register(*file, source_root@, root@),
            Err(error) => !can_register(*file, source_root@, root@) && is_refused(
                *file,
                source_root@,
                root@,
                error,
            ),
        },
{
    if crate::paths::is_absolute(file.source.as_str()) || crate::paths::is_absolute(
        file.interface.as_str(),
    ) {
        return Err(StubError::AbsoluteFiles);
    }
    match contained_file(file.source_path.as_str(), source_root, file.source_state) {
        Ok(()) => {},
        Err(error) => {
            return Err(error);
        },
    }
    match contained_file(file.interface_path.as_str(), root, file.interface_state) {
        Ok(()) => {},
        Err(error) => {
            return Err(error);
        },
    }
    Ok(())
}

/// Where a file of a package and the interface for it are to be found.
#[derive(Debug)]
pub struct StubPlace {
    pub source: String,
    pub interface: String,
}

/// Whether a place is that of file `i` of a manifest: the source below the root of
/// its repository, the interface below the directory of the manifest.
pub open spec fn is_place(
    manifest: Manifest,
    i: int,
    source_root: Seq<char>,
    directory: Seq<char>,
    place: StubPlace,
) -> bool {
    &&& place.source@ == joined(source_root, manifest.files@[i].0@)
    &&& place.interface@ == joined(directory, manifest.files@[i].1@)
}

/// Where the files of a package are to be found. The package at `path` has to be
/// usable, and to accept the module that was selected.
pub fn package_places(
    path: &str,
    manifest: &Manifest,
    selected: &Option<SelectedModule>,
    allow_unversioned: bool,
    source_repository: &Repository,
) -> (r: Result<Vec<StubPlace>, StubError>)
    ensures
        match r {
            Ok(places) => {
                &&& is_usable(*manifest)
                &&& is_accepted(*selected, *manifest, allow_unversioned)
                &&& parent_of(path@) is Some
                &&& places@.len() == manifest.files@.len()
                &&& forall|i: int|
                    0 <= i < places@.len() ==> is_place(
                        *manifest,
                        i,
                        source_repository.root@,
                        parent_of(path@)->0,
                        #[trigger] places@[i],
                    )
            },
            Err(error) => if !is_usable(*manifest) {
                is_unusable(*manifest, error)
            } else if !is_accepted(*selected, *manifest, allow_unversioned) {
                is_unaccepted(*selected, *manifest, source_repository.name@, error)
            } else {
                parent_of(path@) is None && error is NoDirectory
            },
        },
{
    match check_manifest(manifest) {
        Ok(_) => {},
        Err(error) => {
            return Err(error);
        },
    }
    match check_selection(selected, manifest, allow_unversioned, source_repository.name.as_str()) {
        Ok(()) => {},
        Err(error) => {
            return Err(error);
        },
    }
    let directory = match crate::paths::parent(path) {
        Some(directory) => directory,
        None => {
            return Err(StubError::NoDirectory);
        },
    };
    let mut places: Vec<StubPlace> = Vec::new();
    let mut i: usize = 0;
    while i < manifest.files.len()
        invariant
            i <= manifest.files@.len(),
            places@.len() == i,
            forall|k: int|
                0 <= k < i ==> is_place(
                    *manifest,
                    k,
                    source_repository.root@,
                    directory@,
                    #[trigger] places@[k],
                ),
        decreases manifest.files@.len() - i,
    {
        let source = crate::paths::join(
            source_repository.root.as_str(),
            manifest.files[i].0.as_str(),
        );
        let interface = crate::paths::join(directory.as_str(), manifest.files[i].1.as_str());
        places.push(StubPlace { source, interface });
        i = i + 1;
    }
    Ok(places)
}

/// What was found at the places of a file of a package: the absolute paths, and what
/// is there.
#[derive(Debug)]
pub struct FoundFile {
    pub source_path: String,
    pub interface_path: String,
    pub source_state: FileState,
    pub interface_state: FileState,
}

/// The files of a package, with what was found of each.
pub open spec fn stub_files(manifest: Manifest, found: Seq<FoundFile>) -> Seq<StubFile> {
    Seq::new(
        found.len(),
        |i: int|
            StubFile {
                source: manifest.files@[i].0,
                interface: manifest.files@[i].1,
                source_path: found[i].source_path,
                interface_path: found[i].interface_path,
                source_state: found[i].source_state,
                interface_state: found[i].interface_state,
            },
    )
}

/// Loads a package: it has to be usable and to accept the module that was selected;
/// then each of its files is registered in its repository.
pub fn load_package(
    loader: &mut Loader,
    path: &str,
    manifest: &Manifest,
    selected: &Option<SelectedModule>,
    allow_unversioned: bool,
    found: &Vec<FoundFile>,
    source_repository: &Repository,
    repository: &Repository,
) -> (r: Result<Vec<Registration>, StubError>)
    requires
        found@.len() == manifest.files@.len(),
    ensures
        crate::loader::same_but_paths(*old(loader), *final(loader)),
        r is Ok == (is_usable(*manifest) && is_accepted(*selected, *manifest, allow_unversioned)
            && all_loaded(
            old(loader).paths(),
            stub_files(*manifest, found@),
            *source_repository,
            *repository,
            found@.len() as int,
        )),
        if !is_usable(*manifest) {
            &&& *final(loader) == *old(loader)
            &&& r matches Err(error) && is_unusable(*manifest, error)
        } else if !is_accepted(*selected, *manifest, allow_unversioned) {
            &&& *final(loader) == *old(loader)
            &&& r matches Err(error) && is_unaccepted(
                *selected,
                *manifest,
                source_repository.name@,
                error,
            )
        } else {
            are_registered(
                old(loader).paths(),
                final(loader).paths(),
                path@,
                stub_files(*manifest, found@),
                *source_repository,
                *repository,
                r,
            )
        },
{
    match check_manifest(manifest) {
        Ok(_) => {},
        Err(error) => {
            return Err(error);
        },
    }
    match check_selection(selected, manifest, allow_unversioned, source_repository.name.as_str()) {
        Ok(()) => {},
        Err(error) => {
            return Err(error);
        },
    }
    let mut files: Vec<StubFile> = Vec::new();
    let mut i: usize = 0;
    while i < found.len()
        invariant
            i <= found@.len() == manifest.files@.len(),
            files@.len() == i,
            forall|k: int|
                0 <= k < i ==> #[trigger] files@[k] == stub_files(*manifest, found@)[k],
        decreases found@.len() - i,
    {
        files.push(
            StubFile {
                source: manifest.files[i].0.clone(),
                interface: manifest.files[i].1.clone(),
                source_path: found[i].source_path.clone(),
                interface_path: found[i].interface_path.clone(),
                source_state: found[i].source_state,
                interface_state: found[i].interface_state,
            },
        );
        i = i + 1;
    }
    proof {
        assert(files@ =~= stub_files(*manifest, found@));
    }
    register_files(loader, path, &files, source_repository, repository)
}

/// The context of the paths in a repository.
pub open spec fn context_in(repository: Repository) -> ContextView {
    ContextView::Resolved(repository.name@, repository.root@)
}

/// What is known of paths once a file of a package is registered.
pub open spec fn file_paths(
    p: Paths,
    file: StubFile,
    source_repository: Repository,
    repository: Repository,
) -> Paths {
    p.recorded(file.source_path@, context_in(source_repository)).recorded(
        file.interface_path@,
        context_in(repository),
    )
}

/// What is known of paths once the first files of a package are registered.
pub open spec fn package_paths(
    p: Paths,
    files: Seq<StubFile>,
    source_repository: Repository,
    repository: Repository,
    n: int,
) -> Paths
    decreases n,
{
    if n <= 0 {
        p
    } else {
        file_paths(
            package_paths(p, files, source_repository, repository, n - 1),
            files[n - 1],
            source_repository,
            repository,
        )
    }
}

/// Whether file `i` of a package is loaded: it can be registered, and neither of its
/// paths is recorded as something else, be it before or by an earlier file.
pub open spec fn is_loaded(
    p: Paths,
    files: Seq<StubFile>,
    source_repository: Repository,
    repository: Repository,
    i: int,
) -> bool {
    let known = package_paths(p, files, source_repository, repository, i);
    &&& can_register(files[i], source_repository.root@, repository.root@)
    &&& known.takes(files[i].source_path@, context_in(source_repository))
    &&& known.recorded(files[i].source_path@, context_in(source_repository)).takes(
        files[i].interface_path@,
        context_in(repository),
    )
}

/// Whether the first files of a package are loaded.
pub open spec fn all_loaded(
    p: Paths,
    files: Seq<StubFile>,
    source_repository: Repository,
    repository: Repository,
    n: int,
) -> bool {
    forall|i: int|
        0 <= i < n ==> #[trigger] is_loaded(p, files, source_repository, repository, i)
}

/// Whether an error is a conflict over a path that is recorded as something else.
pub open spec fn is_conflict(
    error: StubError,
    p: Paths,
    path: Seq<char>,
    context: ContextView,
) -> bool {
    error matches StubError::Load(LoadError::Conflict { path: named, known, found }) && named@
        == path && known@ == p.contexts[path] && found@ == context
}

/// Whether an error says why a file stops a package, given what is known of paths, and
/// `end` is what is known of them then.
pub open spec fn is_stopped(
    p: Paths,
    end: Paths,
    file: StubFile,
    source_repository: Repository,
    repository: Repository,
    error: StubError,
) -> bool {
    let source = context_in(source_repository);
    let recorded = p.recorded(file.source_path@, source);
    if !can_register(file, source_repository.root@, repository.root@) {
        &&& is_refused(file, source_repository.root@, repository.root@, error)
        &&& end == p
    } else if !p.takes(file.source_path@, source) {
        &&& is_conflict(error, p, file.source_path@, source)
        &&& end == recorded
    } else {
        &&& is_conflict(error, recorded, file.interface_path@, context_in(repository))
        &&& end == file_paths(p, file, source_repository, repository)
    }
}

/// Whether `r` is what registering the files of the manifest at a path gives: each
/// registered in its repository, or why the first that is not loaded is not. Nothing
/// is recorded but the paths of the files up to there.
pub open spec fn are_registered(
    start: Paths,
    end: Paths,
    manifest: Seq<char>,
    files: Seq<StubFile>,
    source_repository: Repository,
    repository: Repository,
    r: Result<Vec<Registration>, StubError>,
) -> bool {
    match r {
        Ok(registrations) => {
            &&& registrations@.len() == files.len()
            &&& all_loaded(start, files, source_repository, repository, files.len() as int)
            &&& forall|i: int|
                0 <= i < files.len() ==> is_registered(
                    manifest,
                    #[trigger] files[i],
                    registrations@[i],
                )
            &&& end == package_paths(
                start,
                files,
                source_repository,
                repository,
                files.len() as int,
            )
        },
        Err(error) => exists|i: int|
            {
                &&& 0 <= i < files.len()
                &&& all_loaded(start, files, source_repository, repository, i)
                &&& !is_loaded(start, files, source_repository, repository, i)
                &&& #[trigger] is_stopped(
                    package_paths(start, files, source_repository, repository, i),
                    end,
                    files[i],
                    source_repository,
                    repository,
                    error,
                )
            },
    }
}

/// Registers the files of a package, each in its repository. The first that cannot
/// be registered, or that another repository has, is an error.
fn register_files(
    loader: &mut Loader,
    manifest: &str,
    files: &Vec<StubFile>,
    source_repository: &Repository,
    repository: &Repository,
) -> (r: Result<Vec<Registration>, StubError>)
    ensures
        crate::loader::same_but_paths(*old(loader), *final(loader)),
        are_registered(
            old(loader).paths(),
            final(loader).paths(),
            manifest@,
            files@,
            *source_repository,
            *repository,
            r,
        ),
{
    let ghost start = loader.paths();
    let mut registrations: Vec<Registration> = Vec::new();
    let mut i: usize = 0;
    while i < files.len()
        invariant
            i <= files@.len(),
            crate::loader::same_but_paths(*old(loader), *loader),
            registrations@.len() == i,
            start == old(loader).paths(),
            loader.paths() == package_paths(
                start,
                files@,
                *source_repository,
                *repository,
                i as int,
            ),
            all_loaded(start, files@, *source_repository, *repository, i as int),
            forall|k: int|
                0 <= k < i ==> is_registered(manifest@, #[trigger] files@[k], registrations@[k]),
        decreases files@.len() - i,
    {
        let file = &files[i];
        let ghost known = loader.paths();
        match register_file(loader, file, source_repository, repository) {
            Ok(()) => {},
            Err(error) => {
                proof {
                    assert(!is_loaded(
                        start,
                        files@,
                        *source_repository,
                        *repository,
                        i as int,
                    ));
                    assert(is_stopped(
                        package_paths(start, files@, *source_repository, *repository, i as int),
                        loader.paths(),
                        files@[i as int],
                        *source_repository,
                        *repository,
                        error,
                    ));
                }
                return Err(error);
            },
        }
        proof {
            assert(is_loaded(start, files@, *source_repository, *repository, i as int));
        }
        let quoted = path_in_quotes(file.source.as_str());
        let first = crate::text::join(manifest, " [");
        let end = crate::text::join(quoted.as_str(), "]");
        let origin = crate::text::join(first.as_str(), end.as_str());
        registrations.push(
            Registration {
                source: file.source_path.clone(),
                interface: file.interface_path.clone(),
                origin,
            },
        );
        i = i + 1;
    }
    Ok(registrations)
}

/// Registers a file of a package.
fn register_file(
    loader: &mut Loader,
    file: &StubFile,
    source_repository: &Repository,
    repository: &Repository,
) -> (r: Result<(), StubError>)
    ensures
        crate::loader::same_but_paths(*old(loader), *final(loader)),
        ({
            let p = old(loader).paths();
            let source = context_in(*source_repository);
            let loaded = can_register(*file, source_repository.root@, repository.root@) && p.takes(
                file.source_path@,
                source,
            ) && p.recorded(file.source_path@, source).takes(
                file.interface_path@,
                context_in(*repository),
            );
            match r {
                Ok(()) => {
                    &&& loaded
                    &&& final(loader).paths() == file_paths(
                        p,
                        *file,
                        *source_repository,
                        *repository,
                    )
                },
                Err(error) => {
                    &&& !loaded
                    &&& is_stopped(
                        p,
                        final(loader).paths(),
                        *file,
                        *source_repository,
                        *repository,
                        error,
                    )
                },
            }
        }),
{
    match check_file(file, source_repository.root.as_str(), repository.root.as_str()) {
        Ok(()) => {},
        Err(error) => {
            return Err(error);
        },
    }
    let recorded = Some(source_repository.dup());
    match loader.record_repository(file.source_path.as_str(), &recorded) {
        Ok(()) => {},
        Err(error) => {
            return Err(StubError::Load(error));
        },
    }
    let recorded = Some(repository.dup());
    match loader.record_repository(file.interface_path.as_str(), &recorded) {
        Ok(()) => {},
        Err(error) => {
            return Err(StubError::Load(error));
        },
    }
    Ok(())
}

/// Whether nothing else is known of the paths of a package: none is recorded as
/// something else, and none is one of both repositories.
pub open spec fn are_untaken(
    p: Paths,
    files: Seq<StubFile>,
    source_repository: Repository,
    repository: Repository,
) -> bool {
    &&& forall|i: int|
        0 <= i < files.len() ==> p.takes(
            (#[trigger] files[i]).source_path@,
            context_in(source_repository),
        ) && p.takes(files[i].interface_path@, context_in(repository))
    &&& forall|i: int, j: int|
        0 <= i < files.len() && 0 <= j < files.len() ==> (#[trigger] files[i]).source_path@ != (
        #[trigger] files[j]).interface_path@
}

/// The paths of a package stay untaken while its files are registered.
proof fn stay_untaken(
    p: Paths,
    files: Seq<StubFile>,
    source_repository: Repository,
    repository: Repository,
    n: int,
)
    requires
        are_untaken(p, files, source_repository, repository),
        0 <= n <= files.len(),
    ensures
        are_untaken(
            package_paths(p, files, source_repository, repository, n),
            files,
            source_repository,
            repository,
        ),
    decreases n,
{
    if n > 0 {
        stay_untaken(p, files, source_repository, repository, n - 1);
        let before = package_paths(p, files, source_repository, repository, n - 1);
        let file = files[n - 1];
        let after = package_paths(p, files, source_repository, repository, n);
        assert forall|i: int| 0 <= i < files.len() implies after.takes(
            (#[trigger] files[i]).source_path@,
            context_in(source_repository),
        ) && after.takes(files[i].interface_path@, context_in(repository)) by {
            assert(files[i].source_path@ != file.interface_path@);
            assert(file.source_path@ != files[i].interface_path@);
        }
    }
}

/// A package whose files are all there, in their repositories, and of whose paths
/// nothing else is known, is loaded as a whole.
pub proof fn fitting_packages_are_loaded(
    p: Paths,
    files: Seq<StubFile>,
    source_repository: Repository,
    repository: Repository,
)
    requires
        are_untaken(p, files, source_repository, repository),
        forall|i: int|
            0 <= i < files.len() ==> can_register(
                #[trigger] files[i],
                source_repository.root@,
                repository.root@,
            ),
    ensures
        all_loaded(p, files, source_repository, repository, files.len() as int),
{
    assert forall|i: int| 0 <= i < files.len() implies #[trigger] is_loaded(
        p,
        files,
        source_repository,
        repository,
        i,
    ) by {
        stay_untaken(p, files, source_repository, repository, i);
        assert(files[i].source_path@ != files[i].interface_path@);
    }
}

/// Whether two registrations before the `n`-th are for one source.
pub open spec fn has_duplicate(registrations: Seq<Registration>, n: int) -> bool {
    exists|i: int, j: int|
        0 <= i < j < n && (#[trigger] registrations[i]).source@ == (
        #[trigger] registrations[j]).source@
}

/// Whether an error names the first source with a second interface, and where both
/// come from.
pub open spec fn is_duplicate(registrations: Seq<Registration>, error: StubError) -> bool {
    error matches StubError::Duplicate { source, first, second } && exists|i: int, j: int|
        0 <= i < j < registrations.len() && !has_duplicate(registrations, j) && (
        #[trigger] registrations[i]).source@ == (#[trigger] registrations[j]).source@ && source@
            == registrations[i].source@ && first@ == registrations[i].origin@ && second@
            == registrations[j].origin@
}

/// Whether every source has one interface at most. The error names the first
/// source with a second one.
pub fn check_duplicates(registrations: &Vec<Registration>) -> (r: Result<(), StubError>)
    ensures
        match r {
            Ok(()) => !has_duplicate(registrations@, registrations@.len() as int),
            Err(error) => is_duplicate(registrations@, error),
        },
{
    let mut j: usize = 0;
    while j < registrations.len()
        invariant
            j <= registrations@.len(),
            !has_duplicate(registrations@, j as int),
        decreases registrations@.len() - j,
    {
        let mut i: usize = 0;
        while i < j
            invariant
                i <= j < registrations@.len(),
                !has_duplicate(registrations@, j as int),
                forall|k: int|
                    0 <= k < i ==> (#[trigger] registrations@[k]).source@
                        != registrations@[j as int].source@,
            decreases j - i,
        {
            if same(registrations[i].source.as_str(), registrations[j].source.as_str()) {
                return Err(
                    StubError::Duplicate {
                        source: registrations[i].source.clone(),
                        first: registrations[i].origin.clone(),
                        second: registrations[j].origin.clone(),
                    },
                );
            }
            i = i + 1;
        }
        j = j + 1;
    }
    Ok(())
}

impl StubError {
    /// The message for an error.
    pub fn message(&self) -> (r: String)
        ensures
            r@ == match *self {
                StubError::AbsoluteManifest => "manifest path must be relative to starpls.toml"@,
                StubError::FormatVersion(version) => "unsupported stub manifest format-version "@
                    + crate::client::digits(version as nat) + "; expected 1"@,
                StubError::EmptySource =>
                    "source.module and source.versions must contain nonempty names and versions"@,
                StubError::NotARepository =>
                    "source.repository must name a Bazel repository, such as @rules_foo"@,
                StubError::OtherModule { repository, selected, module } => "repository @@"@
                    + repository@ + " selects module "@ + (debug_text(selected@)
                    + ", but the stub package requires "@ + debug_text(module@)),
                StubError::OtherVersion { module, version, accepted } => "module "@ + module@
                    + " selected version "@ + (version@ + ", but the stub package accepts "@
                    + accepted@),
                StubError::Unversioned { repository } => "repository @@"@ + repository@
                    + " has no selected module version; set allow-unversioned = true for this stub package to accept it"@,
                StubError::AbsoluteFiles => "stub file mappings must use relative paths"@,
                StubError::Outside { path, root } => path@ + " is outside repository "@ + root@,
                StubError::Unresolved { path } => "cannot resolve "@ + path@,
                StubError::NotAFile { path } => path@ + " must be a file"@,
                StubError::Load(error) => error.text(),
                StubError::Duplicate { source, first, second } => "duplicate type interface for "@
                    + source@ + ": "@ + (first@ + " and "@ + second@),
                StubError::Unclassified { path } => "cannot classify type interface path "@ + path@,
                StubError::NoDirectory => "manifest has no parent directory"@,
            },
    {
        match self {
            StubError::AbsoluteManifest =>
                "manifest path must be relative to starpls.toml".to_owned(),
            StubError::FormatVersion(version) => {
                let number = crate::client::decimal(*version as usize);
                crate::text::join3(
                    "unsupported stub manifest format-version ",
                    number.as_str(),
                    "; expected 1",
                )
            },
            StubError::EmptySource =>
                "source.module and source.versions must contain nonempty names and versions".to_owned(),
            StubError::NotARepository =>
                "source.repository must name a Bazel repository, such as @rules_foo".to_owned(),
            StubError::OtherModule { repository, selected, module } => {
                let start = crate::text::join3(
                    "repository @@",
                    repository.as_str(),
                    " selects module ",
                );
                let end = crate::text::join3(
                    in_quotes(selected.as_str()).as_str(),
                    ", but the stub package requires ",
                    in_quotes(module.as_str()).as_str(),
                );
                crate::text::join(start.as_str(), end.as_str())
            },
            StubError::OtherVersion { module, version, accepted } => {
                let start = crate::text::join3("module ", module.as_str(), " selected version ");
                let end = crate::text::join3(
                    version.as_str(),
                    ", but the stub package accepts ",
                    accepted.as_str(),
                );
                crate::text::join(start.as_str(), end.as_str())
            },
            StubError::Unversioned { repository } => crate::text::join3(
                "repository @@",
                repository.as_str(),
                " has no selected module version; set allow-unversioned = true for this stub package to accept it",
            ),
            StubError::AbsoluteFiles => "stub file mappings must use relative paths".to_owned(),
            StubError::Outside { path, root } => crate::text::join3(
                path.as_str(),
                " is outside repository ",
                root.as_str(),
            ),
            StubError::Unresolved { path } => crate::text::join("cannot resolve ", path.as_str()),
            StubError::NotAFile { path } => crate::text::join(path.as_str(), " must be a file"),
            StubError::Load(error) => error.message(),
            StubError::Duplicate { source, first, second } => {
                let start = crate::text::join3(
                    "duplicate type interface for ",
                    source.as_str(),
                    ": ",
                );
                let end = crate::text::join3(first.as_str(), " and ", second.as_str());
                crate::text::join(start.as_str(), end.as_str())
            },
            StubError::Unclassified { path } => crate::text::join(
                "cannot classify type interface path ",
                path.as_str(),
            ),
            StubError::NoDirectory => "manifest has no parent directory".to_owned(),
        }
    }
}

/// A file that an option names: its path below the workspace, and the directories
/// that it is in.
#[derive(Debug)]
pub struct NamedFile {
    pub path: String,
    pub ancestors: Vec<Ancestor>,
}

/// Whether a file is where repositories are, but in none.
pub open spec fn is_homeless(loader: Loader, file: NamedFile) -> bool {
    loader.belongs(file.path@, file.ancestors@) is None
}

/// Whether one of the first files is in no repository.
pub open spec fn some_homeless(loader: Loader, files: Seq<NamedFile>, n: int) -> bool {
    exists|i: int| 0 <= i < n && is_homeless(loader, #[trigger] files[i])
}

/// Whether the same files are in repositories for two loaders.
pub open spec fn keeps_homes(a: Loader, b: Loader) -> bool {
    forall|file: NamedFile| #[trigger] is_homeless(a, file) == is_homeless(b, file)
}

/// Where a file is asked for depends on what does not change.
proof fn same_places(a: Loader, b: Loader, file: NamedFile)
    requires
        crate::loader::same_but_paths(a, b),
    ensures
        forall|p: Paths|
            a.asked_in(p, file.path@, file.ancestors@) == #[trigger] b.asked_in(
                p,
                file.path@,
                file.ancestors@,
            ),
{
    assert(a.placed(file.path@, file.ancestors@) == b.placed(file.path@, file.ancestors@));
}

/// Finds and records the repository of a file.
fn find_home(loader: &mut Loader, file: &NamedFile) -> (r: Result<(), LoadError>)
    ensures
        crate::loader::same_but_paths(*old(loader), *final(loader)),
        keeps_homes(*old(loader), *final(loader)),
        final(loader).paths() == old(loader).asked_in(
            old(loader).paths(),
            file.path@,
            file.ancestors@,
        ),
        match r {
            Ok(()) => !is_homeless(*old(loader), *file),
            Err(LoadError::MissingName) => is_homeless(*old(loader), *file),
            Err(_) => false,
        },
{
    let ghost before = *loader;
    let r = loader.repository_for_path(file.path.as_str(), &file.ancestors);
    proof {
        assert forall|other: NamedFile| #[trigger] is_homeless(before, other) == is_homeless(
            *loader,
            other,
        ) by {
            assert(before.placed(other.path@, other.ancestors@) == loader.placed(
                other.path@,
                other.ancestors@,
            ));
        }
    }
    match r {
        Ok(_) => Ok(()),
        Err(error) => Err(error),
    }
}

/// The interfaces that options name.
#[derive(Debug)]
pub struct TypeInterfaceOptions {
    pub mappings: Vec<TypeInterfaceMapping>,
}

/// Whether a registration is that of an option.
pub open spec fn is_option(
    mapping: TypeInterfaceMapping,
    source: NamedFile,
    interface: NamedFile,
    r: Registration,
) -> bool {
    &&& r.source@ == source.path@
    &&& r.interface@ == interface.path@
    &&& r.origin@ == "--type_interface "@ + mapping.source@ + "="@ + mapping.interface@
}

/// What is known of paths once the repositories of the first sources and interfaces
/// were asked for, in turn.
pub open spec fn named_paths(
    loader: Loader,
    sources: Seq<NamedFile>,
    interfaces: Seq<NamedFile>,
    n: int,
) -> Paths
    decreases n,
{
    if n <= 0 {
        loader.paths()
    } else {
        let before = named_paths(loader, sources, interfaces, n - 1);
        let source = sources[n - 1];
        let interface = interfaces[n - 1];
        loader.asked_in(
            loader.asked_in(before, source.path@, source.ancestors@),
            interface.path@,
            interface.ancestors@,
        )
    }
}

/// Whether option `i` is the first that names a file in no repository, and `end` is what
/// is known of paths then.
pub open spec fn stops_at(
    loader: Loader,
    end: Paths,
    sources: Seq<NamedFile>,
    interfaces: Seq<NamedFile>,
    i: int,
) -> bool {
    let before = named_paths(loader, sources, interfaces, i);
    &&& 0 <= i < sources.len()
    &&& !some_homeless(loader, sources, i)
    &&& !some_homeless(loader, interfaces, i)
    &&& if is_homeless(loader, sources[i]) {
        end == before
    } else {
        &&& is_homeless(loader, interfaces[i])
        &&& end == loader.asked_in(before, sources[i].path@, sources[i].ancestors@)
    }
}

impl TypeInterfaceOptions {
    /// Whether an option names an interface.
    pub fn is_configured(&self) -> (r: bool)
        ensures
            r == (self.mappings@.len() > 0),
    {
        self.mappings.len() > 0
    }

    /// Whether registrations are those of packages, and behind them those of the
    /// first options.
    pub open spec fn are_prepared(
        self,
        packages: Seq<Registration>,
        sources: Seq<NamedFile>,
        interfaces: Seq<NamedFile>,
        n: int,
        registrations: Seq<Registration>,
    ) -> bool {
        &&& registrations.len() == packages.len() + n
        &&& forall|i: int|
            0 <= i < packages.len() ==> #[trigger] registrations[i] == packages[i]
        &&& forall|i: int|
            0 <= i < n ==> is_option(
                #[trigger] self.mappings@[i],
                sources[i],
                interfaces[i],
                registrations[packages.len() + i],
            )
    }

    /// The interfaces of packages and those that options name, one for a source at
    /// most. Nothing is prepared where one cannot be.
    pub fn prepare(
        &self,
        loader: &mut Loader,
        packages: Vec<Registration>,
        sources: &Vec<NamedFile>,
        interfaces: &Vec<NamedFile>,
    ) -> (r: Result<Vec<Registration>, StubError>)
        requires
            sources@.len() == self.mappings@.len(),
            interfaces@.len() == self.mappings@.len(),
        ensures
            crate::loader::same_but_paths(*old(loader), *final(loader)),
            ({
                let lost = some_homeless(*old(loader), sources@, sources@.len() as int)
                    || some_homeless(*old(loader), interfaces@, interfaces@.len() as int);
                match r {
                    Ok(registrations) => {
                        &&& !lost
                        &&& self.are_prepared(
                            packages@,
                            sources@,
                            interfaces@,
                            self.mappings@.len() as int,
                            registrations@,
                        )
                        &&& !has_duplicate(registrations@, registrations@.len() as int)
                        &&& final(loader).paths() == named_paths(
                            *old(loader),
                            sources@,
                            interfaces@,
                            sources@.len() as int,
                        )
                    },
                    Err(StubError::Load(LoadError::MissingName)) => lost && exists|i: int|
                        #[trigger] stops_at(
                            *old(loader),
                            final(loader).paths(),
                            sources@,
                            interfaces@,
                            i,
                        ),
                    Err(error) => {
                        &&& !lost
                        &&& final(loader).paths() == named_paths(
                            *old(loader),
                            sources@,
                            interfaces@,
                            sources@.len() as int,
                        )
                        &&& exists|registrations: Seq<Registration>| #[trigger]
                            self.are_prepared(
                                packages@,
                                sources@,
                                interfaces@,
                                self.mappings@.len() as int,
                                registrations,
                            ) && is_duplicate(registrations, error)
                    },
                }
            }),
    {
        let ghost start = packages@;
        let mut registrations = packages;
        let mut i: usize = 0;
        while i < self.mappings.len()
            invariant
                i <= self.mappings@.len(),
                sources@.len() == self.mappings@.len(),
                interfaces@.len() == self.mappings@.len(),
                crate::loader::same_but_paths(*old(loader), *loader),
                keeps_homes(*old(loader), *loader),
                !some_homeless(*old(loader), sources@, i as int),
                !some_homeless(*old(loader), interfaces@, i as int),
                loader.paths() == named_paths(*old(loader), sources@, interfaces@, i as int),
                self.are_prepared(start, sources@, interfaces@, i as int, registrations@),
            decreases self.mappings@.len() - i,
        {
            let source = &sources[i];
            let interface = &interfaces[i];
            proof {
                same_places(*old(loader), *loader, *source);
                same_places(*old(loader), *loader, *interface);
            }
            match find_home(loader, source) {
                Ok(()) => {},
                Err(error) => {
                    proof {
                        assert(is_homeless(*old(loader), sources@[i as int]));
                        assert(stops_at(
                            *old(loader),
                            loader.paths(),
                            sources@,
                            interfaces@,
                            i as int,
                        ));
                    }
                    return Err(StubError::Load(error));
                },
            }
            proof {
                same_places(*old(loader), *loader, *interface);
            }
            match find_home(loader, interface) {
                Ok(()) => {},
                Err(error) => {
                    proof {
                        assert(is_homeless(*old(loader), interfaces@[i as int]));
                        assert(stops_at(
                            *old(loader),
                            loader.paths(),
                            sources@,
                            interfaces@,
                            i as int,
                        ));
                    }
                    return Err(StubError::Load(error));
                },
            }
            let mapping = &self.mappings[i];
            let named = crate::text::join("--type_interface ", mapping.source.as_str());
            let origin = crate::text::join3(named.as_str(), "=", mapping.interface.as_str());
            let ghost before = registrations@;
            registrations.push(
                Registration {
                    source: source.path.clone(),
                    interface: interface.path.clone(),
                    origin,
                },
            );
            proof {
                assert forall|k: int| 0 <= k < i implies is_option(
                    #[trigger] self.mappings@[k],
                    sources@[k],
                    interfaces@[k],
                    registrations@[start.len() + k],
                ) by {
                    assert(registrations@[start.len() + k] == before[start.len() + k]);
                }
            }
            i = i + 1;
        }
        proof {
            assert(self.are_prepared(start, sources@, interfaces@, i as int, registrations@));
        }
        match check_duplicates(&registrations) {
            Ok(()) => Ok(registrations),
            Err(error) => Err(error),
        }
    }
}

/// A file that takes part in an interface, and how it is opened.
#[derive(Debug)]
pub struct InterfaceFile {
    pub path: String,
    pub dialect: Dialect,
    pub info: Option<FileInfo>,
}

/// Whether `file` is the file of a path, opened in a workspace.
pub open spec fn is_opened(workspace: Seq<char>, path: Seq<char>, file: InterfaceFile) -> bool {
    &&& file.path@ == path
    &&& opening_of(workspace, path) == Some((file.dialect, file.info))
}

/// The file of a path, opened in a workspace.
fn open_interface_file(workspace: &str, path: &String) -> (r: Result<InterfaceFile, StubError>)
    ensures
        match r {
            Ok(file) => is_opened(workspace@, path@, file),
            Err(StubError::Unclassified { path: named }) => {
                &&& opening_of(workspace@, path@) is None
                &&& named@ == path@
            },
            Err(_) => false,
        },
{
    match opening(workspace, path.as_str()) {
        Some((dialect, info)) => Ok(InterfaceFile { path: path.clone(), dialect, info }),
        None => Err(StubError::Unclassified { path: path.clone() }),
    }
}

/// The interfaces of a workspace, ready to be installed.
#[derive(Debug)]
pub struct PreparedInterfaces {
    pub registrations: Vec<Registration>,
}

/// Whether both files of a registration can be opened in a workspace.
pub open spec fn can_be_opened(workspace: Seq<char>, registration: Registration) -> bool {
    &&& opening_of(workspace, registration.source@) is Some
    &&& opening_of(workspace, registration.interface@) is Some
}

/// The path of a registration that is looked at first and cannot be opened.
pub open spec fn refused_path(workspace: Seq<char>, registration: Registration) -> Seq<char> {
    if opening_of(workspace, registration.source@) is None {
        registration.source@
    } else {
        registration.interface@
    }
}

impl PreparedInterfaces {
    /// Whether `files` are the files of the first registrations, opened.
    pub open spec fn are_opened(
        self,
        workspace: Seq<char>,
        n: int,
        files: Seq<(InterfaceFile, InterfaceFile)>,
    ) -> bool {
        &&& files.len() == n
        &&& forall|i: int|
            0 <= i < n ==> {
                &&& is_opened(workspace, (#[trigger] self.registrations@[i]).source@, files[i].0)
                &&& is_opened(workspace, self.registrations@[i].interface@, files[i].1)
            }
    }

    /// The sources and their interfaces, opened in a workspace. The error names
    /// the first path that cannot be.
    pub fn install(&self, workspace: &str) -> (r: Result<
        Vec<(InterfaceFile, InterfaceFile)>,
        StubError,
    >)
        ensures
            match r {
                Ok(files) => self.are_opened(
                    workspace@,
                    self.registrations@.len() as int,
                    files@,
                ),
                Err(StubError::Unclassified { path }) => exists|i: int|
                    {
                        &&& 0 <= i < self.registrations@.len()
                        &&& !can_be_opened(workspace@, #[trigger] self.registrations@[i])
                        &&& path@ == refused_path(workspace@, self.registrations@[i])
                        &&& forall|k: int|
                            0 <= k < i ==> can_be_opened(
                                workspace@,
                                #[trigger] self.registrations@[k],
                            )
                    },
                Err(_) => false,
            },
    {
        let mut files: Vec<(InterfaceFile, InterfaceFile)> = Vec::new();
        let mut i: usize = 0;
        while i < self.registrations.len()
            invariant
                i <= self.registrations@.len(),
                self.are_opened(workspace@, i as int, files@),
            decreases self.registrations@.len() - i,
        {
            let ghost before = files@;
            proof {
                assert forall|k: int| 0 <= k < i implies can_be_opened(
                    workspace@,
                    #[trigger] self.registrations@[k],
                ) by {}
            }
            let source = match open_interface_file(workspace, &self.registrations[i].source) {
                Ok(source) => source,
                Err(error) => {
                    return Err(error);
                },
            };
            let interface = match open_interface_file(
                workspace,
                &self.registrations[i].interface,
            ) {
                Ok(interface) => interface,
                Err(error) => {
                    return Err(error);
                },
            };
            files.push((source, interface));
            proof {
                assert forall|k: int| 0 <= k < i + 1 implies {
                    &&& is_opened(
                        workspace@,
                        (#[trigger] self.registrations@[k]).source@,
                        files@[k].0,
                    )
                    &&& is_opened(workspace@, self.registrations@[k].interface@, files@[k].1)
                } by {
                    if k < i {
                        assert(files@[k] == before[k]);
                    }
                }
            }
            i = i + 1;
        }
        Ok(files)
    }
}

} // verus!
