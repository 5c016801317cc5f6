//! The repositories that files belong to, and what is known of each: whether it
//! is fetched, and how it sees the others.
//!
//! The loader holds what was learned and decides what is missing. What it asks
//! for is asked outside.

use vstd::prelude::*;

use crate::batches::{
    batch_size, first_batch, in_order, insert_name, MAPPING_EXTRA, MAPPING_LIMIT,
};
use crate::builtin_tables::lists;
use crate::client::{mapping_of, RepoMapping};
use crate::common::{APIContext, Dialect, FileInfo, LoadItemCandidate, LoadItemCandidateKind};
use crate::lower_spec::text_of;
use crate::name_map::{map_of, NameMap};
use crate::paths::{extension_of, is_under, joined, parts_below, same_place, with_slashes};
use crate::source_kind::{
    candidates, candidates_of, strip_slashes_or_pop_dir, typed_directory, CandidateStyle, DirEntry,
};
use crate::text::{debug_path, debug_text, has_suffix, same, views};

verus! {

/// How a label names its repository.
#[derive(Clone, Copy, Debug, PartialEq, Eq, Structural)]
pub enum RepoKind {
    Current,
    Canonical,
    Apparent,
}

/// A label, as far as it could be read.
#[derive(Debug)]
pub struct Label {
    pub kind: RepoKind,
    pub repo: String,
    pub package: String,
    pub target: String,
    pub has_leading_slashes: bool,
    pub is_relative: bool,
    pub has_target_shorthand: bool,
}

/// What is wrong with a label that is not complete.
#[derive(Clone, Copy, Debug, PartialEq, Eq, Structural)]
pub enum ParseError {
    EmptyPackage,
    EmptyTarget,
    InvalidPackageEndingSlash,
    InvalidRepo,
    Other,
}

/// A repository: its canonical name, empty for the main one, and its directory.
#[derive(Debug)]
pub struct Repository {
    pub name: String,
    pub root: String,
}

impl Repository {
    /// Another value of the same repository.
    pub fn dup(&self) -> (r: Repository)
        ensures
            r == *self,
    {
        Repository { name: self.name.clone(), root: self.root.clone() }
    }
}

/// What is known of the repository of a path. A displaced path had one that
/// changed under an open document.
#[derive(Debug)]
pub enum RepositoryContext {
    Resolved(Repository),
    Unknown,
    Displaced,
}

/// The content of a context.
pub enum ContextView {
    Resolved(Seq<char>, Seq<char>),
    Unknown,
    Displaced,
}

impl View for RepositoryContext {
    type V = ContextView;

    open spec fn view(&self) -> ContextView {
        match *self {
            RepositoryContext::Resolved(r) => ContextView::Resolved(r.name@, r.root@),
            RepositoryContext::Unknown => ContextView::Unknown,
            RepositoryContext::Displaced => ContextView::Displaced,
        }
    }
}

impl ContextView {
    /// A context in words.
    pub open spec fn described(self) -> Seq<char> {
        match self {
            ContextView::Resolved(name, root) => "Resolved(Repository { name: "@ + debug_text(name)
                + ", root: "@ + (debug_path(root) + " })"@),
            ContextView::Unknown => "Unknown"@,
            ContextView::Displaced => "Displaced"@,
        }
    }
}

impl RepositoryContext {
    /// A context in words.
    pub fn describe(&self) -> (r: String)
        ensures
            r@ == self@.described(),
    {
        match self {
            RepositoryContext::Resolved(repository) => {
                let name = crate::text::in_quotes(repository.name.as_str());
                let root = crate::text::path_in_quotes(repository.root.as_str());
                let start = crate::text::join3(
                    "Resolved(Repository { name: ",
                    name.as_str(),
                    ", root: ",
                );
                let end = crate::text::join(root.as_str(), " })");
                crate::text::join(start.as_str(), end.as_str())
            },
            RepositoryContext::Unknown => "Unknown".to_owned(),
            RepositoryContext::Displaced => "Displaced".to_owned(),
        }
    }

    /// Another value of the same context.
    pub fn dup(&self) -> (r: RepositoryContext)
        ensures
            r == *self,
    {
        match self {
            RepositoryContext::Resolved(repository) => RepositoryContext::Resolved(
                repository.dup(),
            ),
            RepositoryContext::Unknown => RepositoryContext::Unknown,
            RepositoryContext::Displaced => RepositoryContext::Displaced,
        }
    }
}

/// The context that an optional repository is.
pub open spec fn context_of(repository: Option<Repository>) -> ContextView {
    match repository {
        Some(r) => ContextView::Resolved(r.name@, r.root@),
        None => ContextView::Unknown,
    }
}

/// Whether a repository is fetched.
#[derive(Debug)]
pub enum RepositoryFetch {
    Pending,
    Ready,
    Failed(String),
}

/// How a repository sees the others.
#[derive(Debug)]
pub enum MappingEntry {
    Pending,
    Ready(RepoMapping),
    Failed(String),
}

/// What is known of the repositories of a workspace.
pub struct Loader {
    pub workspace: String,
    pub workspace_name: Option<String>,
    pub external_output_base: Option<String>,
    pub bzlmod_enabled: bool,
    pub repositories: NameMap<RepositoryContext>,
    pub repository_roots: Vec<String>,
    pub configuration_revision: Option<u64>,
    pub defer_mappings: bool,
    pub repository_fetches: NameMap<RepositoryFetch>,
    pub repository_mappings: NameMap<MappingEntry>,
    pub paused: bool,
}

/// The content of a loader.
pub struct LoaderView {
    pub workspace: Seq<char>,
    pub workspace_name: Option<Seq<char>>,
    pub external: Option<Seq<char>>,
    pub bzlmod: bool,
    pub repositories: Map<Seq<char>, RepositoryContext>,
    pub roots: Seq<Seq<char>>,
    pub revision: Option<u64>,
    pub defer: bool,
    pub fetches: Map<Seq<char>, RepositoryFetch>,
    pub mappings: Map<Seq<char>, MappingEntry>,
    pub paused: bool,
}

impl View for Loader {
    type V = LoaderView;

    open spec fn view(&self) -> LoaderView {
        LoaderView {
            workspace: self.workspace@,
            workspace_name: text_of(self.workspace_name),
            external: text_of(self.external_output_base),
            bzlmod: self.bzlmod_enabled,
            repositories: self.repositories@,
            roots: views(self.repository_roots@),
            revision: self.configuration_revision,
            defer: self.defer_mappings,
            fetches: self.repository_fetches@,
            mappings: self.repository_mappings@,
            paused: self.paused,
        }
    }
}

/// What is known of paths: the contexts that are recorded for them, and the roots of
/// the repositories that were reached, in the order in which they were.
#[verifier::ext_equal]
pub struct Paths {
    pub contexts: Map<Seq<char>, ContextView>,
    pub roots: Seq<Seq<char>>,
}

impl Paths {
    /// A root is reached.
    pub open spec fn watched(self, root: Seq<char>) -> Paths {
        if self.roots.contains(root) {
            self
        } else {
            Paths { roots: self.roots.push(root), ..self }
        }
    }

    /// A path has a context, whatever it had.
    pub open spec fn holding(self, path: Seq<char>, context: ContextView) -> Paths {
        Paths { contexts: self.contexts.insert(path, context), ..self }
    }

    /// Whether a path can be recorded with a context: it has that one, or none.
    pub open spec fn takes(self, path: Seq<char>, context: ContextView) -> bool {
        !self.contexts.contains_key(path) || self.contexts[path] == context
    }

    /// A path is recorded with a context, unless it has one; its root is reached.
    pub open spec fn recorded(self, path: Seq<char>, context: ContextView) -> Paths {
        let reached = match context {
            ContextView::Resolved(_, root) => self.watched(root),
            _ => self,
        };
        if self.contexts.contains_key(path) {
            reached
        } else {
            reached.holding(path, context)
        }
    }
}

impl Loader {
    /// What is known of paths.
    pub open spec fn paths(self) -> Paths {
        Paths {
            contexts: Map::new(
                |path: Seq<char>| self.repositories@.contains_key(path),
                |path: Seq<char>| self.repositories@[path]@,
            ),
            roots: views(self.repository_roots@),
        }
    }
}

/// A root that is reached is among the roots, and the others stay.
proof fn watched_holds(p: Paths, root: Seq<char>)
    ensures
        p.watched(root).roots.contains(root),
        forall|other: Seq<char>| #[trigger]
            p.roots.contains(other) ==> p.watched(root).roots.contains(other),
{
    let after = p.watched(root).roots;
    if !p.roots.contains(root) {
        assert(after[p.roots.len() as int] == root);
        assert forall|other: Seq<char>| #[trigger] p.roots.contains(other) implies after.contains(
            other,
        ) by {
            let k = choose|k: int| 0 <= k < p.roots.len() && p.roots[k] == other;
            assert(after[k] == other);
        }
    }
}

/// A list of texts lists what it holds.
proof fn lists_is_contains(names: Seq<String>, name: Seq<char>)
    ensures
        lists(names, name) == views(names).contains(name),
{
    if lists(names, name) {
        let k = choose|k: int| 0 <= k < names.len() && (#[trigger] names[k])@ == name;
        assert(views(names)[k] == name);
    }
    if views(names).contains(name) {
        let k = choose|k: int| 0 <= k < views(names).len() && views(names)[k] == name;
        assert(names[k]@ == name);
    }
}

/// Why something cannot be loaded now.
#[derive(Debug)]
pub enum LoadError {
    ConfigurationLoading,
    MappingLoading,
    MappingFailed(String),
    Unmapped { repo: String, from: String },
    FetchFailed { name: String, error: String },
    FetchRequired { name: String },
    Conflict { path: String, known: RepositoryContext, found: RepositoryContext },
    Displaced { path: String },
    MissingName,
    NotBzl,
    Outside { path: String, root: String },
}

impl LoadError {
    /// The message for an error.
    pub open spec fn text(self) -> Seq<char> {
        match self {
            LoadError::ConfigurationLoading => "Bazel configuration is loading"@,
            LoadError::MappingLoading => "Bazel repository mapping is loading"@,
            LoadError::MappingFailed(error) => error@,
            LoadError::Unmapped { repo, from } => "cannot resolve repository @"@ + repo@
                + "// from @@"@ + (from@ + "//"@),
            LoadError::FetchFailed { name, error } => "failed to fetch repository @@"@ + name@
                + ": "@ + error@,
            LoadError::FetchRequired { name } => "repository @@"@ + name@
                + " must be fetched after the dependency change"@,
            LoadError::Conflict { path, known, found } => conflict_text(path@, known@, found@),
            LoadError::Displaced { path } => displaced_text(path@),
            LoadError::MissingName => missing_name_text(),
            LoadError::NotBzl => "cannot load a non-bzl file"@,
            LoadError::Outside { path, root } => path@ + " is outside repository "@ + root@,
        }
    }

    /// The message for an error.
    pub fn message(&self) -> (r: String)
        ensures
            r@ == self.text(),
    {
        match self {
            LoadError::ConfigurationLoading => "Bazel configuration is loading".to_owned(),
            LoadError::MappingLoading => "Bazel repository mapping is loading".to_owned(),
            LoadError::MappingFailed(error) => error.clone(),
            LoadError::Unmapped { repo, from } => {
                let start = crate::text::join3(
                    "cannot resolve repository @",
                    repo.as_str(),
                    "// from @@",
                );
                let end = crate::text::join(from.as_str(), "//");
                crate::text::join(start.as_str(), end.as_str())
            },
            LoadError::FetchFailed { name, error } => {
                let start = crate::text::join3(
                    "failed to fetch repository @@",
                    name.as_str(),
                    ": ",
                );
                crate::text::join(start.as_str(), error.as_str())
            },
            LoadError::FetchRequired { name } => crate::text::join3(
                "repository @@",
                name.as_str(),
                " must be fetched after the dependency change",
            ),
            LoadError::Conflict { path, known, found } => {
                let start = crate::text::join3(
                    "conflicting Bazel repositories for ",
                    path.as_str(),
                    ": ",
                );
                let end = crate::text::join3(
                    known.describe().as_str(),
                    " and ",
                    found.describe().as_str(),
                );
                crate::text::join(start.as_str(), end.as_str())
            },
            LoadError::Displaced { path } => crate::text::join3(
                "repository context for open file ",
                path.as_str(),
                " changed; close and reopen it",
            ),
            LoadError::MissingName => "missing Bazel repository name".to_owned(),
            LoadError::NotBzl => "cannot load a non-bzl file".to_owned(),
            LoadError::Outside { path, root } => crate::text::join3(
                path.as_str(),
                " is outside repository ",
                root.as_str(),
            ),
        }
    }
}

/// The message for a path that is recorded with another context.
pub open spec fn conflict_text(path: Seq<char>, known: ContextView, found: ContextView) -> Seq<char> {
    "conflicting Bazel repositories for "@ + path + ": "@ + (known.described() + " and "@
        + found.described())
}

/// The message for a document whose repository changed under it.
pub open spec fn displaced_text(path: Seq<char>) -> Seq<char> {
    "repository context for open file "@ + path + " changed; close and reopen it"@
}

/// The message for a path that names no repository.
pub open spec fn missing_name_text() -> Seq<char> {
    "missing Bazel repository name"@
}

/// What is known of a mapping: it is there, it is on its way, it failed, it was
/// just requested, or the caller has to query it.
#[derive(Debug)]
pub enum MappingLookup {
    Ready(RepoMapping),
    Loading,
    Failed(String),
    Requested,
    Query,
}

/// Whether a mapping is on its way.
pub open spec fn is_pending(m: Map<Seq<char>, MappingEntry>, name: Seq<char>) -> bool {
    m.contains_key(name) && m[name] is Pending
}

/// The part of a loader that learning about mappings leaves alone.
pub open spec fn same_but_mappings(a: Loader, b: Loader) -> bool {
    &&& a.workspace == b.workspace
    &&& a.workspace_name == b.workspace_name
    &&& a.external_output_base == b.external_output_base
    &&& a.bzlmod_enabled == b.bzlmod_enabled
    &&& a.repositories == b.repositories
    &&& a.repository_roots == b.repository_roots
    &&& a.configuration_revision == b.configuration_revision
    &&& a.defer_mappings == b.defer_mappings
    &&& a.repository_fetches == b.repository_fetches
    &&& a.paused == b.paused
}

/// The part of a loader that does not change once it is made.
pub open spec fn same_setup(a: Loader, b: Loader) -> bool {
    &&& a.workspace@ == b.workspace@
    &&& text_of(a.workspace_name) == text_of(b.workspace_name)
    &&& text_of(a.external_output_base) == text_of(b.external_output_base)
    &&& a.bzlmod_enabled == b.bzlmod_enabled
}

/// The same optional text.
fn dup_text(s: &Option<String>) -> (r: Option<String>)
    ensures
        r == *s,
{
    match s {
        Some(s) => Some(s.clone()),
        None => None,
    }
}

impl Loader {
    /// A loader that knows nothing but its workspace.
    pub fn new(
        workspace: String,
        workspace_name: Option<String>,
        external_output_base: Option<String>,
        bzlmod_enabled: bool,
    ) -> (r: Self)
        ensures
            r.workspace == workspace,
            r.workspace_name == workspace_name,
            r.external_output_base == external_output_base,
            r.bzlmod_enabled == bzlmod_enabled,
            r.is_fresh(),
    {
        let mut roots: Vec<String> = Vec::new();
        roots.push(workspace.clone());
        let r = Loader {
            workspace,
            workspace_name,
            external_output_base,
            bzlmod_enabled,
            repositories: NameMap::new(),
            repository_roots: roots,
            configuration_revision: None,
            defer_mappings: false,
            repository_fetches: NameMap::new(),
            repository_mappings: NameMap::new(),
            paused: false,
        };
        proof {
            assert(views(r.repository_roots@) =~= seq![r.workspace@]);
        }
        r
    }

    /// Whether nothing was learned yet.
    pub open spec fn is_fresh(self) -> bool {
        &&& self.repositories@ == Map::<Seq<char>, RepositoryContext>::empty()
        &&& self.repository_fetches@ == Map::<Seq<char>, RepositoryFetch>::empty()
        &&& self.repository_mappings@ == Map::<Seq<char>, MappingEntry>::empty()
        &&& views(self.repository_roots@) == seq![self.workspace@]
        &&& self.configuration_revision is None
        &&& !self.defer_mappings
        &&& !self.paused
    }

    /// A loader for the same workspace that knows nothing else.
    pub fn fresh(&self) -> (r: Self)
        ensures
            same_setup(*self, r),
            r.is_fresh(),
    {
        Self::new(
            self.workspace.clone(),
            dup_text(&self.workspace_name),
            dup_text(&self.external_output_base),
            self.bzlmod_enabled,
        )
    }

    /// A loader for the same workspace in a Bazel context.
    pub fn with_context(
        &self,
        workspace_name: Option<String>,
        external: String,
        bzlmod: bool,
    ) -> (r: Self)
        ensures
            r.workspace == self.workspace,
            r.workspace_name == workspace_name,
            r.external_output_base == Some(external),
            r.bzlmod_enabled == bzlmod,
            r.is_fresh(),
    {
        Self::new(self.workspace.clone(), workspace_name, Some(external), bzlmod)
    }

    /// A loader that asks for what it lacks and does not wait.
    pub fn for_editor(self, revision: u64) -> (r: Self)
        ensures
            r == (Loader { configuration_revision: Some(revision), ..self }),
    {
        Loader { configuration_revision: Some(revision), ..self }
    }

    /// A loader that collects the mappings it lacks.
    pub fn with_deferred_mappings(self) -> (r: Self)
        ensures
            r == (Loader { defer_mappings: true, ..self }),
    {
        Loader { defer_mappings: true, ..self }
    }

    /// Whether Bazel said where it puts repositories.
    pub fn has_bazel_context(&self) -> (r: bool)
        ensures
            r == self.external_output_base is Some,
    {
        self.external_output_base.is_some()
    }

    /// Whether labels of other repositories can be resolved.
    pub open spec fn ready(self) -> bool {
        self.external_output_base is Some && !self.paused
    }

    pub fn is_ready(&self) -> (r: bool)
        ensures
            r == self.ready(),
    {
        self.has_bazel_context() && !self.paused
    }

    pub fn pause(&mut self, paused: bool)
        ensures
            *final(self) == (Loader { paused, ..*old(self) }),
    {
        self.paused = paused;
    }

    /// Whether every mapping that was asked for is there.
    pub fn mappings_ready(&self) -> (r: bool)
        ensures
            r == forall|name: Seq<char>| #[trigger]
                self.repository_mappings@.contains_key(name)
                    ==> self.repository_mappings@[name] is Ready,
    {
        let names = self.mapping_names();
        let mut i: usize = 0;
        while i < names.len()
            invariant
                i <= names@.len(),
                forall|name: Seq<char>| #[trigger]
                    views(names@).contains(name) <==> self.repository_mappings@.contains_key(name),
                forall|k: int|
                    0 <= k < i ==> self.repository_mappings@[(#[trigger] names@[k])@] is Ready,
            decreases names@.len() - i,
        {
            proof {
                assert(views(names@)[i as int] == names@[i as int]@);
                assert(views(names@).contains(names@[i as int]@));
            }
            match self.repository_mappings.get(names[i].as_str()) {
                Some(MappingEntry::Ready(_)) => {},
                _ => {
                    return false;
                },
            }
            i = i + 1;
        }
        proof {
            assert forall|name: Seq<char>| #[trigger]
                self.repository_mappings@.contains_key(name) implies self.repository_mappings@[name] is Ready by {
                assert(views(names@).contains(name));
                let k = choose|k: int| 0 <= k < views(names@).len() && views(names@)[k] == name;
                assert(names@[k]@ == name);
            }
        }
        true
    }

    /// The repositories of which a mapping was asked for, in order.
    fn mapping_names(&self) -> (names: Vec<String>)
        ensures
            in_order(views(names@)),
            forall|name: Seq<char>| #[trigger]
                views(names@).contains(name) <==> self.repository_mappings@.contains_key(name),
    {
        let mut names: Vec<String> = Vec::new();
        let entries = &self.repository_mappings.entries;
        let mut i: usize = 0;
        while i < entries.len()
            invariant
                i <= entries@.len(),
                *entries == self.repository_mappings.entries,
                in_order(views(names@)),
                forall|name: Seq<char>| #[trigger]
                    views(names@).contains(name) <==> map_of(entries@.take(i as int)).contains_key(
                        name,
                    ),
            decreases entries@.len() - i,
        {
            let ghost before = views(names@);
            let ghost taken = entries@.take(i + 1);
            insert_name(&mut names, entries[i].0.as_str());
            proof {
                assert(taken.drop_last() =~= entries@.take(i as int));
                assert(taken.last() == entries@[i as int]);
                assert forall|name: Seq<char>| #[trigger]
                    views(names@).contains(name) <==> map_of(taken).contains_key(name) by {
                    assert(before.contains(name) <==> map_of(
                        entries@.take(i as int),
                    ).contains_key(name));
                }
            }
            i = i + 1;
        }
        proof {
            assert(entries@.take(i as int) =~= entries@);
        }
        names
    }

    /// Whether `all` are the names of the mappings that are on their way, in order.
    pub open spec fn pending_names(self, all: Seq<Seq<char>>) -> bool {
        &&& in_order(all)
        &&& forall|name: Seq<char>| #[trigger]
            all.contains(name) <==> is_pending(self.repository_mappings@, name)
    }

    /// The next batch of mappings to ask for: the first names that are on their
    /// way, in order, as many as fit into a command and at least one.
    pub fn pending_repository_mappings(&self) -> (r: Vec<String>)
        ensures
            exists|all: Seq<Seq<char>>| #[trigger]
                self.pending_names(all) && views(r@) == all.take(
                    batch_size(all, MAPPING_EXTRA as nat, MAPPING_LIMIT as nat) as int,
                ),
    {
        let known = self.mapping_names();
        let mut pending: Vec<String> = Vec::new();
        let mut i: usize = 0;
        while i < known.len()
            invariant
                i <= known@.len(),
                in_order(views(pending@)),
                forall|name: Seq<char>| #[trigger]
                    views(known@).contains(name) <==> self.repository_mappings@.contains_key(name),
                forall|name: Seq<char>| #[trigger]
                    views(pending@).contains(name) <==> (views(known@).take(i as int).contains(name)
                        && is_pending(self.repository_mappings@, name)),
            decreases known@.len() - i,
        {
            let ghost before = views(pending@);
            let ghost name = known@[i as int]@;
            proof {
                assert(views(known@)[i as int] == name);
                assert(views(known@).contains(name));
            }
            if let Some(MappingEntry::Pending) = self.repository_mappings.get(known[i].as_str()) {
                insert_name(&mut pending, known[i].as_str());
            }
            proof {
                let taken = views(known@).take(i as int);
                let more = views(known@).take(i + 1);
                assert(more =~= taken.push(name));
                assert forall|n: Seq<char>| #[trigger] views(pending@).contains(n) <==> (
                more.contains(n) && is_pending(self.repository_mappings@, n)) by {
                    assert(before.contains(n) <==> (taken.contains(n) && is_pending(
                        self.repository_mappings@,
                        n,
                    )));
                    if more.contains(n) {
                        let k = choose|k: int| 0 <= k < more.len() && more[k] == n;
                        if k < taken.len() {
                            assert(taken[k] == n);
                        }
                    }
                    if taken.contains(n) {
                        let k = choose|k: int| 0 <= k < taken.len() && taken[k] == n;
                        assert(more[k] == n);
                    }
                    if n == name {
                        assert(more[i as int] == n);
                    }
                }
            }
            i = i + 1;
        }
        let ghost all = views(pending@);
        proof {
            assert(views(known@).take(i as int) =~= views(known@));
            assert forall|name: Seq<char>| #[trigger]
                all.contains(name) <==> is_pending(self.repository_mappings@, name) by {
                assert(views(known@).contains(name)
                    <==> self.repository_mappings@.contains_key(name));
            }
            assert(self.pending_names(all));
            assert(all.skip(0) =~= all);
        }
        let count = first_batch(&pending, 0, MAPPING_EXTRA, MAPPING_LIMIT);
        pending.truncate(count);
        proof {
            assert(views(pending@) =~= all.take(count as int));
        }
        pending
    }

    /// What is known of how a repository sees the others. An unknown mapping is
    /// requested in an editor, collected where mappings are deferred, and else
    /// left to the caller to query.
    pub fn repository_mapping(&mut self, repository: &str) -> (r: MappingLookup)
        ensures
            same_but_mappings(*old(self), *final(self)),
            ({
                let known = old(self).repository_mappings@;
                let new = final(self).repository_mappings@;
                if old(self).paused {
                    r is Loading && new == known
                } else if known.contains_key(repository@) {
                    &&& new == known
                    &&& match known[repository@] {
                        MappingEntry::Pending => r is Loading,
                        MappingEntry::Ready(mapping) => r == MappingLookup::Ready(mapping),
                        MappingEntry::Failed(error) => r matches MappingLookup::Failed(e) && e@
                            == error@,
                    }
                } else if old(self).configuration_revision is Some {
                    r is Requested && new == known.insert(repository@, MappingEntry::Pending)
                } else if old(self).defer_mappings {
                    r is Loading && new == known.insert(repository@, MappingEntry::Pending)
                } else {
                    r is Query && new == known
                }
            }),
    {
        if self.paused {
            return MappingLookup::Loading;
        }
        match self.repository_mappings.get(repository) {
            Some(MappingEntry::Pending) => {
                return MappingLookup::Loading;
            },
            Some(MappingEntry::Ready(mapping)) => {
                return MappingLookup::Ready(mapping.clone());
            },
            Some(MappingEntry::Failed(error)) => {
                return MappingLookup::Failed(error.clone());
            },
            None => {},
        }
        if self.configuration_revision.is_some() {
            self.repository_mappings.insert(repository.to_owned(), MappingEntry::Pending);
            return MappingLookup::Requested;
        }
        if self.defer_mappings {
            self.repository_mappings.insert(repository.to_owned(), MappingEntry::Pending);
            return MappingLookup::Loading;
        }
        MappingLookup::Query
    }

    /// Publishes the outcome of a query for one mapping.
    pub fn finish_mapping(&mut self, repository: String, result: Result<RepoMapping, String>)
        ensures
            same_but_mappings(*old(self), *final(self)),
            final(self).repository_mappings@ == old(self).repository_mappings@.insert(
                repository@,
                match result {
                    Ok(mapping) => MappingEntry::Ready(mapping),
                    Err(error) => MappingEntry::Failed(error),
                },
            ),
    {
        let entry = match result {
            Ok(mapping) => MappingEntry::Ready(mapping),
            Err(error) => MappingEntry::Failed(error),
        };
        self.repository_mappings.insert(repository, entry);
    }

    /// Publishes the outcome of a batch of mappings. A batch with the wrong
    /// number of answers failed as a whole, and the message of a failure goes to
    /// every repository of the batch.
    pub fn finish_repository_mappings(
        &mut self,
        repositories: &Vec<String>,
        result: Result<Vec<RepoMapping>, String>,
    ) -> (r: Result<(), String>)
        ensures
            same_but_mappings(*old(self), *final(self)),
            ({
                let old_map = old(self).repository_mappings@;
                let new_map = final(self).repository_mappings@;
                let names = views(repositories@);
                &&& r is Ok == (result is Ok && result->Ok_0@.len() == repositories@.len())
                &&& r is Err ==> r->Err_0@ == match result {
                    Ok(_) => "repository mapping batch returned an unexpected result count"@,
                    Err(error) => error@,
                }
                &&& forall|name: Seq<char>|
                    #[trigger] batch_effect(old_map, new_map, names, result, r, name)
            }),
    {
        let ghost names = views(repositories@);
        let ghost given = result;
        let ghost start = self.repository_mappings@;
        match result {
            Ok(mappings) => {
                if mappings.len() == repositories.len() {
                    self.publish_batch(repositories, &mappings);
                    let r: Result<(), String> = Ok(());
                    proof {
                        let end = self.repository_mappings@;
                        assert forall|name: Seq<char>| #[trigger]
                            batch_effect(start, end, names, given, r, name) by {
                            assert(published(start, end, names, mappings@, name));
                        }
                    }
                    r
                } else {
                    let error =
                        "repository mapping batch returned an unexpected result count".to_owned();
                    self.fail_batch(repositories, error.as_str());
                    let r: Result<(), String> = Err(error);
                    proof {
                        let end = self.repository_mappings@;
                        assert forall|name: Seq<char>| #[trigger]
                            batch_effect(start, end, names, given, r, name) by {
                            assert(failed(start, end, names, r->Err_0@, name));
                        }
                    }
                    r
                }
            },
            Err(error) => {
                self.fail_batch(repositories, error.as_str());
                let r: Result<(), String> = Err(error);
                proof {
                    let end = self.repository_mappings@;
                    assert forall|name: Seq<char>| #[trigger]
                        batch_effect(start, end, names, given, r, name) by {
                        assert(failed(start, end, names, r->Err_0@, name));
                    }
                }
                r
            },
        }
    }

    fn publish_batch(&mut self, repositories: &Vec<String>, mappings: &Vec<RepoMapping>)
        requires
            mappings@.len() == repositories@.len(),
        ensures
            same_but_mappings(*old(self), *final(self)),
            forall|name: Seq<char>|
                #[trigger] published(
                    old(self).repository_mappings@,
                    final(self).repository_mappings@,
                    views(repositories@),
                    mappings@,
                    name,
                ),
    {
        let ghost names = views(repositories@);
        let ghost start = self.repository_mappings@;
        let mut i: usize = 0;
        while i < repositories.len()
            invariant
                i <= repositories@.len() == mappings@.len(),
                names == views(repositories@),
                same_but_mappings(*old(self), *self),
                forall|name: Seq<char>|
                    #[trigger] published(
                        start,
                        self.repository_mappings@,
                        names.take(i as int),
                        mappings@,
                        name,
                    ),
            decreases repositories@.len() - i,
        {
            let ghost before = self.repository_mappings@;
            self.repository_mappings.insert(
                repositories[i].clone(),
                MappingEntry::Ready(mappings[i].clone()),
            );
            proof {
                let now = self.repository_mappings@;
                let taken = names.take(i as int);
                let more = names.take(i + 1);
                taken_grows(names, i as int);
                assert(names[i as int] == repositories@[i as int]@);
                assert(more[i as int] == names[i as int]);
                assert forall|name: Seq<char>| #[trigger]
                    published(start, now, more, mappings@, name) by {
                    assert(published(start, before, taken, mappings@, name));
                    assert(more.contains(name) <==> taken.contains(name) || name
                        == names[i as int]);
                    if name == names[i as int] {
                        assert(more.skip(i + 1) =~= Seq::empty());
                        assert(more[i as int] == name && now[name] == MappingEntry::Ready(
                            mappings@[i as int],
                        ));
                    } else if taken.contains(name) {
                        let k = choose|k: int|
                            0 <= k < taken.len() && #[trigger] taken[k] == name && before[name]
                                == MappingEntry::Ready(mappings@[k]) && !taken.skip(k + 1).contains(
                                name,
                            );
                        assert(more.skip(k + 1) =~= taken.skip(k + 1).push(names[i as int]));
                        if more.skip(k + 1).contains(name) {
                            let rest = more.skip(k + 1);
                            let j = choose|j: int| 0 <= j < rest.len() && rest[j] == name;
                            assert(taken.skip(k + 1)[j] == name);
                        }
                        assert(more[k] == name && now[name] == MappingEntry::Ready(mappings@[k]));
                    }
                }
            }
            i = i + 1;
        }
        proof {
            assert(names.take(i as int) =~= names);
        }
    }

    fn fail_batch(&mut self, repositories: &Vec<String>, error: &str)
        ensures
            same_but_mappings(*old(self), *final(self)),
            forall|name: Seq<char>|
                #[trigger] failed(
                    old(self).repository_mappings@,
                    final(self).repository_mappings@,
                    views(repositories@),
                    error@,
                    name,
                ),
    {
        let ghost names = views(repositories@);
        let ghost start = self.repository_mappings@;
        let message = crate::text::join("repository mapping batch failed: ", error);
        let mut i: usize = 0;
        while i < repositories.len()
            invariant
                i <= repositories@.len(),
                names == views(repositories@),
                message@ == "repository mapping batch failed: "@ + error@,
                same_but_mappings(*old(self), *self),
                forall|name: Seq<char>|
                    #[trigger] failed(
                        start,
                        self.repository_mappings@,
                        names.take(i as int),
                        error@,
                        name,
                    ),
            decreases repositories@.len() - i,
        {
            let ghost before = self.repository_mappings@;
            self.repository_mappings.insert(
                repositories[i].clone(),
                MappingEntry::Failed(message.clone()),
            );
            proof {
                let now = self.repository_mappings@;
                let taken = names.take(i as int);
                let more = names.take(i + 1);
                taken_grows(names, i as int);
                assert(names[i as int] == repositories@[i as int]@);
                assert forall|name: Seq<char>| #[trigger] failed(start, now, more, error@, name) by {
                    assert(failed(start, before, taken, error@, name));
                    assert(more.contains(name) <==> taken.contains(name) || name
                        == names[i as int]);
                }
            }
            i = i + 1;
        }
        proof {
            assert(names.take(i as int) =~= names);
        }
    }
}

/// One more of the first names is one more.
proof fn taken_grows(names: Seq<Seq<char>>, i: int)
    requires
        0 <= i < names.len(),
    ensures
        forall|n: Seq<char>| #[trigger]
            names.take(i + 1).contains(n) <==> names.take(i).contains(n) || n == names[i],
{
    let more = names.take(i + 1);
    let taken = names.take(i);
    assert forall|n: Seq<char>| #[trigger] more.contains(n) <==> taken.contains(n) || n
        == names[i] by {
        if more.contains(n) {
            let k = choose|k: int| 0 <= k < more.len() && more[k] == n;
            if k < i {
                assert(taken[k] == n);
            }
        }
        if taken.contains(n) {
            let k = choose|k: int| 0 <= k < taken.len() && taken[k] == n;
            assert(more[k] == n);
        }
        if n == names[i] {
            assert(more[i] == n);
        }
    }
}

/// Whether an entry is the answer for a name of a batch, the last one where it
/// occurs more than once.
pub open spec fn is_ready_from(
    names: Seq<Seq<char>>,
    mappings: Seq<RepoMapping>,
    name: Seq<char>,
    entry: MappingEntry,
) -> bool {
    exists|k: int|
        0 <= k < names.len() && #[trigger] names[k] == name && entry == MappingEntry::Ready(
            mappings[k],
        ) && !names.skip(k + 1).contains(name)
}

/// Whether an entry says that a batch failed.
pub open spec fn is_batch_failure(error: Seq<char>, entry: MappingEntry) -> bool {
    entry matches MappingEntry::Failed(message) && message@ == "repository mapping batch failed: "@
        + error
}

/// Whether a name of a batch has one of its answers, and another what it had.
pub open spec fn published(
    old_map: Map<Seq<char>, MappingEntry>,
    new_map: Map<Seq<char>, MappingEntry>,
    names: Seq<Seq<char>>,
    mappings: Seq<RepoMapping>,
    name: Seq<char>,
) -> bool {
    if names.contains(name) {
        new_map.contains_key(name) && is_ready_from(names, mappings, name, new_map[name])
    } else {
        new_map.contains_key(name) == old_map.contains_key(name) && new_map[name] == old_map[name]
    }
}

/// Whether a name of a batch has its failure, and another what it had.
pub open spec fn failed(
    old_map: Map<Seq<char>, MappingEntry>,
    new_map: Map<Seq<char>, MappingEntry>,
    names: Seq<Seq<char>>,
    error: Seq<char>,
    name: Seq<char>,
) -> bool {
    if names.contains(name) {
        new_map.contains_key(name) && is_batch_failure(error, new_map[name])
    } else {
        new_map.contains_key(name) == old_map.contains_key(name) && new_map[name] == old_map[name]
    }
}

/// What a batch leaves at a name.
pub open spec fn batch_effect(
    old_map: Map<Seq<char>, MappingEntry>,
    new_map: Map<Seq<char>, MappingEntry>,
    names: Seq<Seq<char>>,
    result: Result<Vec<RepoMapping>, String>,
    r: Result<(), String>,
    name: Seq<char>,
) -> bool {
    match r {
        Ok(()) => published(old_map, new_map, names, result->Ok_0@, name),
        Err(error) => failed(old_map, new_map, names, error@, name),
    }
}

/// The part of a loader that learning about fetches leaves alone.
pub open spec fn same_but_fetches(a: Loader, b: Loader) -> bool {
    &&& a.workspace == b.workspace
    &&& a.workspace_name == b.workspace_name
    &&& a.external_output_base == b.external_output_base
    &&& a.bzlmod_enabled == b.bzlmod_enabled
    &&& a.repositories == b.repositories
    &&& a.repository_roots == b.repository_roots
    &&& a.configuration_revision == b.configuration_revision
    &&& a.defer_mappings == b.defer_mappings
    &&& a.repository_mappings == b.repository_mappings
    &&& a.paused == b.paused
}

/// The part of a loader that learning about the repositories of paths leaves
/// alone.
pub open spec fn same_but_paths(a: Loader, b: Loader) -> bool {
    &&& a.workspace == b.workspace
    &&& a.workspace_name == b.workspace_name
    &&& a.external_output_base == b.external_output_base
    &&& a.bzlmod_enabled == b.bzlmod_enabled
    &&& a.configuration_revision == b.configuration_revision
    &&& a.defer_mappings == b.defer_mappings
    &&& a.repository_fetches == b.repository_fetches
    &&& a.repository_mappings == b.repository_mappings
    &&& a.paused == b.paused
}

/// The part of a loader that resolving a label leaves alone.
pub open spec fn same_but_learned(a: Loader, b: Loader) -> bool {
    &&& a.workspace == b.workspace
    &&& a.workspace_name == b.workspace_name
    &&& a.external_output_base == b.external_output_base
    &&& a.bzlmod_enabled == b.bzlmod_enabled
    &&& a.configuration_revision == b.configuration_revision
    &&& a.defer_mappings == b.defer_mappings
    &&& a.repository_fetches == b.repository_fetches
    &&& a.paused == b.paused
}

/// Whether `new` holds the roots of `old` and maybe `root`.
pub open spec fn root_added(old: Seq<String>, new: Seq<String>, root: Seq<char>) -> bool {
    if lists(old, root) {
        new == old
    } else {
        views(new) == views(old).push(root)
    }
}

/// An ancestor directory of a file, nearest first, and what is in it.
#[derive(Debug)]
pub struct Ancestor {
    pub path: String,
    pub is_repository_root: bool,
    pub has_build_file: bool,
}

/// Whether one of the directories before `root`, from the `k`-th on, is the root
/// of another repository.
pub open spec fn crosses_from(ancestors: Seq<Ancestor>, root: Seq<char>, k: int) -> bool
    decreases ancestors.len() - k,
{
    if k < 0 || k >= ancestors.len() || same_place(ancestors[k].path@, root) {
        false
    } else {
        ancestors[k].is_repository_root || crosses_from(ancestors, root, k + 1)
    }
}

/// Whether a repository starts between a file and `root`.
pub fn crosses_repository(ancestors: &Vec<Ancestor>, root: &str) -> (r: bool)
    ensures
        r == crosses_from(ancestors@, root@, 0),
{
    let mut k: usize = 0;
    while k < ancestors.len()
        invariant
            k <= ancestors@.len(),
            crosses_from(ancestors@, root@, k as int) == crosses_from(ancestors@, root@, 0),
        decreases ancestors@.len() - k,
    {
        if crate::paths::same_path(ancestors[k].path.as_str(), root) {
            return false;
        }
        if ancestors[k].is_repository_root {
            return true;
        }
        k = k + 1;
    }
    false
}

/// The nearest directory that is the root of a repository, the `k`-th or later.
pub open spec fn nearest_root(ancestors: Seq<Ancestor>, k: int) -> Option<Seq<char>>
    decreases ancestors.len() - k,
{
    if k < 0 || k >= ancestors.len() {
        None
    } else if ancestors[k].is_repository_root {
        Some(ancestors[k].path@)
    } else {
        nearest_root(ancestors, k + 1)
    }
}

/// The workspace of a directory: the nearest root of a repository around it, or the
/// directory itself. `ancestors` starts with the directory.
pub fn workspace_of(directory: &str, ancestors: &Vec<Ancestor>) -> (r: String)
    ensures
        r@ == match nearest_root(ancestors@, 0) {
            Some(root) => root,
            None => directory@,
        },
{
    let mut k: usize = 0;
    while k < ancestors.len()
        invariant
            k <= ancestors@.len(),
            nearest_root(ancestors@, k as int) == nearest_root(ancestors@, 0),
        decreases ancestors@.len() - k,
    {
        if ancestors[k].is_repository_root {
            return ancestors[k].path.clone();
        }
        k = k + 1;
    }
    directory.to_owned()
}

/// The package of a file, from the `k`-th ancestor on: the nearest directory
/// with a build file, but not beyond the root.
pub open spec fn package_from(ancestors: Seq<Ancestor>, root: Seq<char>, k: int) -> Option<Seq<char>>
    decreases ancestors.len() - k,
{
    if k < 0 || k >= ancestors.len() {
        None
    } else if ancestors[k].has_build_file {
        Some(ancestors[k].path@)
    } else if same_place(ancestors[k].path@, root) {
        Some(root)
    } else {
        package_from(ancestors, root, k + 1)
    }
}

/// The package of a file in a repository.
pub fn package_for_path(path: &str, root: &str, ancestors: &Vec<Ancestor>) -> (r: Result<
    String,
    LoadError,
>)
    ensures
        match r {
            Ok(package) => is_under(path@, root@) && package_from(ancestors@, root@, 0) == Some(
                package@,
            ),
            Err(LoadError::Outside { path: p, root: d }) => {
                &&& p@ == path@
                &&& d@ == root@
                &&& !is_under(path@, root@) || package_from(ancestors@, root@, 0) is None
            },
            Err(_) => false,
        },
{
    if crate::paths::starts_with(path, root) {
        let mut k: usize = 0;
        while k < ancestors.len()
            invariant
                k <= ancestors@.len(),
                is_under(path@, root@),
                package_from(ancestors@, root@, k as int) == package_from(ancestors@, root@, 0),
            decreases ancestors@.len() - k,
        {
            if ancestors[k].has_build_file {
                return Ok(ancestors[k].path.clone());
            }
            if crate::paths::same_path(ancestors[k].path.as_str(), root) {
                return Ok(root.to_owned());
            }
            k = k + 1;
        }
    }
    Err(LoadError::Outside { path: path.to_owned(), root: root.to_owned() })
}

impl Loader {
    /// Marks a repository as one that is being fetched, unless it is known.
    pub fn begin_fetch(&mut self, repository: String) -> (r: bool)
        ensures
            same_but_fetches(*old(self), *final(self)),
            r == !old(self).repository_fetches@.contains_key(repository@),
            final(self).repository_fetches@ == if r {
                old(self).repository_fetches@.insert(repository@, RepositoryFetch::Pending)
            } else {
                old(self).repository_fetches@
            },
    {
        if self.repository_fetches.contains_key(repository.as_str()) {
            false
        } else {
            self.repository_fetches.insert(repository, RepositoryFetch::Pending);
            true
        }
    }

    /// Publishes the outcome of fetching a repository.
    pub fn finish_fetch(&mut self, repository: String, result: Result<(), String>)
        ensures
            same_but_fetches(*old(self), *final(self)),
            final(self).repository_fetches@ == old(self).repository_fetches@.insert(
                repository@,
                match result {
                    Ok(()) => RepositoryFetch::Ready,
                    Err(error) => RepositoryFetch::Failed(error),
                },
            ),
    {
        let state = match result {
            Ok(()) => RepositoryFetch::Ready,
            Err(error) => RepositoryFetch::Failed(error),
        };
        self.repository_fetches.insert(repository, state);
    }

    /// Remembers the root of a repository, to be watched.
    pub fn watch_repository(&mut self, root: &str) -> (new: bool)
        ensures
            same_but_paths(*old(self), *final(self)),
            final(self).repositories == old(self).repositories,
            new == !lists(old(self).repository_roots@, root@),
            root_added(old(self).repository_roots@, final(self).repository_roots@, root@),
            final(self).paths() == old(self).paths().watched(root@),
    {
        proof {
            lists_is_contains(self.repository_roots@, root@);
        }
        if crate::builtin_tables::holds(&self.repository_roots, root) {
            false
        } else {
            let ghost before = views(self.repository_roots@);
            self.repository_roots.push(root.to_owned());
            proof {
                assert(views(self.repository_roots@) =~= before.push(root@));
                assert(self.paths() =~= old(self).paths().watched(root@));
            }
            true
        }
    }

    /// Records the repository of a path. What was recorded before has to be the
    /// same; a conflict leaves it as it was.
    pub fn record_repository(&mut self, path: &str, repository: &Option<Repository>) -> (r: Result<
        (),
        LoadError,
    >)
        ensures
            same_but_paths(*old(self), *final(self)),
            match *repository {
                Some(repository) => root_added(
                    old(self).repository_roots@,
                    final(self).repository_roots@,
                    repository.root@,
                ),
                None => final(self).repository_roots == old(self).repository_roots,
            },
            final(self).paths() == old(self).paths().recorded(path@, context_of(*repository)),
            r is Ok == old(self).paths().takes(path@, context_of(*repository)),
            ({
                let known = old(self).repositories@;
                let new = final(self).repositories@;
                if known.contains_key(path@) {
                    &&& new == known
                    &&& r is Ok == (known[path@]@ == context_of(*repository))
                } else {
                    &&& r is Ok
                    &&& new == known.insert(path@, new[path@])
                    &&& new[path@]@ == context_of(*repository)
                }
            }),
            r is Err ==> (r->Err_0 matches LoadError::Conflict { path: p, known, found } && p@
                == path@ && known == old(self).repositories@[path@] && found@ == context_of(
                *repository,
            )),
    {
        if let Some(repository) = repository {
            self.watch_repository(repository.root.as_str());
        }
        match self.repositories.get(path) {
            Some(known) => {
                let agrees = match (known, repository) {
                    (RepositoryContext::Resolved(a), Some(b)) => same(
                        a.name.as_str(),
                        b.name.as_str(),
                    ) && same(a.root.as_str(), b.root.as_str()),
                    (RepositoryContext::Unknown, None) => true,
                    _ => false,
                };
                if agrees {
                    return Ok(());
                }
                let found = match repository {
                    Some(repository) => RepositoryContext::Resolved(repository.dup()),
                    None => RepositoryContext::Unknown,
                };
                return Err(LoadError::Conflict { path: path.to_owned(), known: known.dup(), found });
            },
            None => {},
        }
        let context = match repository {
            Some(repository) => RepositoryContext::Resolved(repository.dup()),
            None => RepositoryContext::Unknown,
        };
        let ghost before = self.repositories@;
        self.repositories.insert(path.to_owned(), context);
        proof {
            assert(self.repositories@ =~= before.insert(path@, self.repositories@[path@]));
            assert(self.paths() =~= old(self).paths().recorded(path@, context_of(*repository)));
        }
        Ok(())
    }

    /// The main repository.
    pub fn main_repository(&self) -> (r: Repository)
        ensures
            r.name@.len() == 0,
            r.root@ == self.workspace@,
    {
        Repository { name: String::new(), root: self.workspace.clone() }
    }

    /// The repository of a path by its place: below the directory for other
    /// repositories the first part names it; in the workspace, and for interface
    /// files anywhere, it is the main one, unless another one starts in between
    /// and Bazel has not said what that is. `None` is an error.
    pub open spec fn placed(self, path: Seq<char>, ancestors: Seq<Ancestor>) -> Option<ContextView> {
        if self.external_output_base is Some && is_under(path, self.external_output_base->0@) {
            let base = self.external_output_base->0@;
            let rest = parts_below(path, base);
            if rest.len() == 0 {
                None
            } else {
                Some(ContextView::Resolved(rest[0], joined(base, rest[0])))
            }
        } else if is_under(path, self.workspace@) || extension_of(path) == Some("bzli"@) {
            if self.external_output_base is None && crosses_from(ancestors, self.workspace@, 0) {
                Some(ContextView::Unknown)
            } else {
                Some(ContextView::Resolved(Seq::empty(), self.workspace@))
            }
        } else {
            Some(ContextView::Unknown)
        }
    }

    /// The repository of a path: what was recorded, and else what its place says.
    /// A displaced path has none.
    pub open spec fn belongs(self, path: Seq<char>, ancestors: Seq<Ancestor>) -> Option<
        ContextView,
    > {
        if self.repositories@.contains_key(path) {
            match self.repositories@[path]@ {
                ContextView::Resolved(name, root) => Some(ContextView::Resolved(name, root)),
                _ => Some(ContextView::Unknown),
            }
        } else {
            self.placed(path, ancestors)
        }
    }

    /// The repository of a path, given what is known of paths.
    pub open spec fn belongs_in(self, p: Paths, path: Seq<char>, ancestors: Seq<Ancestor>) -> Option<
        ContextView,
    > {
        if p.contexts.contains_key(path) {
            match p.contexts[path] {
                ContextView::Resolved(name, root) => Some(ContextView::Resolved(name, root)),
                _ => Some(ContextView::Unknown),
            }
        } else {
            self.placed(path, ancestors)
        }
    }

    /// What is known of paths once the repository of one was asked for: its place is
    /// recorded, unless something is.
    pub open spec fn asked_in(self, p: Paths, path: Seq<char>, ancestors: Seq<Ancestor>) -> Paths {
        if p.contexts.contains_key(path) {
            p
        } else {
            match self.placed(path, ancestors) {
                Some(context) => p.recorded(path, context),
                None => p,
            }
        }
    }

    /// What is recorded once the repository of a path was asked for.
    pub open spec fn recorded(self, new: Loader, path: Seq<char>, ancestors: Seq<Ancestor>) -> bool {
        if self.repositories@.contains_key(path) || self.placed(path, ancestors) is None {
            new == self
        } else {
            &&& same_but_paths(self, new)
            &&& new.repositories@ == self.repositories@.insert(path, new.repositories@[path])
            &&& Some(new.repositories@[path]@) == self.placed(path, ancestors)
            &&& match self.placed(path, ancestors) {
                Some(ContextView::Resolved(_, root)) => root_added(
                    self.repository_roots@,
                    new.repository_roots@,
                    root,
                ),
                _ => new.repository_roots == self.repository_roots,
            }
        }
    }

    /// The repository of a path by its place.
    fn place(&self, path: &str, ancestors: &Vec<Ancestor>) -> (r: Option<Option<Repository>>)
        ensures
            match r {
                Some(repository) => self.placed(path@, ancestors@) == Some(context_of(repository)),
                None => self.placed(path@, ancestors@) is None,
            },
    {
        if let Some(base) = &self.external_output_base {
            if let Some(rest) = crate::paths::below(path, base.as_str()) {
                proof {
                    assert(views(rest@).len() == rest@.len());
                }
                if rest.len() == 0 {
                    return None;
                }
                proof {
                    assert(views(rest@)[0] == rest@[0]@);
                }
                let name = rest[0].clone();
                let root = crate::paths::join(base.as_str(), name.as_str());
                return Some(Some(Repository { name, root }));
            }
        }
        let is_interface = match crate::paths::extension(path) {
            Some(extension) => same(extension.as_str(), "bzli"),
            None => false,
        };
        if crate::paths::starts_with(path, self.workspace.as_str()) || is_interface {
            let nested = crosses_repository(ancestors, self.workspace.as_str());
            if !self.has_bazel_context() && nested {
                Some(None)
            } else {
                let main = self.main_repository();
                proof {
                    assert(main.name@ =~= Seq::empty());
                }
                Some(Some(main))
            }
        } else {
            Some(None)
        }
    }

    /// The repository of an absolute path. What was recorded counts first; a
    /// displaced path has none. Otherwise its place decides, which is recorded.
    pub fn repository_for_path(&mut self, path: &str, ancestors: &Vec<Ancestor>) -> (r: Result<
        Option<Repository>,
        LoadError,
    >)
        ensures
            old(self).recorded(*final(self), path@, ancestors@),
            same_but_paths(*old(self), *final(self)),
            final(self).paths() == old(self).asked_in(old(self).paths(), path@, ancestors@),
            match r {
                Ok(repository) => old(self).belongs(path@, ancestors@) == Some(
                    context_of(repository),
                ),
                Err(LoadError::MissingName) => old(self).belongs(path@, ancestors@) is None,
                Err(_) => false,
            },
    {
        match self.repositories.get(path) {
            Some(RepositoryContext::Resolved(repository)) => {
                return Ok(Some(repository.dup()));
            },
            Some(_) => {
                return Ok(None);
            },
            None => {},
        }
        match self.place(path, ancestors) {
            Some(repository) => {
                let recorded = self.record_repository(path, &repository);
                match recorded {
                    Ok(()) => Ok(repository),
                    Err(error) => Err(error),
                }
            },
            None => Err(LoadError::MissingName),
        }
    }

    /// Whether a label says more than the file system knows: it leads to another
    /// repository, or from one. Before the configuration is there an apparent
    /// name may need a mapping even if it is empty.
    pub open spec fn needs_context(self, label: Label, from: Seq<char>) -> bool {
        from.len() > 0 || label.repo@.len() > 0 || (label.kind == RepoKind::Apparent && (
        self.external_output_base is None || self.bzlmod_enabled))
    }

    pub fn label_needs_bazel_context(&self, label: &Label, from: &Repository) -> (r: bool)
        ensures
            r == self.needs_context(*label, from.name@),
    {
        !from.name.as_str().is_empty() || !label.repo.as_str().is_empty() || (label.kind
            == RepoKind::Apparent && (!self.has_bazel_context() || self.bzlmod_enabled))
    }

    /// The root of a repository, once Bazel has said where repositories are.
    pub open spec fn root_of(self, name: Seq<char>) -> Option<Seq<char>> {
        if name.len() == 0 {
            Some(self.workspace@)
        } else {
            match self.external_output_base {
                Some(base) => Some(joined(base@, name)),
                None => None,
            }
        }
    }

    /// What is known of paths once a repository was reached by its canonical name.
    pub open spec fn named_in(self, p: Paths, name: Seq<char>) -> Paths {
        match self.root_of(name) {
            Some(root) => p.watched(root),
            None => p,
        }
    }

    /// The repository with a canonical name.
    pub fn canonical_repository(&mut self, name: String) -> (r: Result<Repository, LoadError>)
        ensures
            same_but_paths(*old(self), *final(self)),
            final(self).repositories == old(self).repositories,
            match (old(self).root_of(name@), r) {
                (Some(root), Ok(repository)) => {
                    &&& repository.name@ == name@
                    &&& repository.root@ == root
                    &&& root_added(
                        old(self).repository_roots@,
                        final(self).repository_roots@,
                        root,
                    )
                },
                (None, Err(LoadError::ConfigurationLoading)) => *final(self) == *old(self),
                _ => false,
            },
            final(self).paths() == old(self).named_in(old(self).paths(), name@),
    {
        let root = if name.as_str().is_empty() {
            self.workspace.clone()
        } else {
            match &self.external_output_base {
                Some(base) => crate::paths::join(base.as_str(), name.as_str()),
                None => {
                    return Err(LoadError::ConfigurationLoading);
                },
            }
        };
        self.watch_repository(root.as_str());
        Ok(Repository { name, root })
    }

    /// The canonical name that a label has for its repository, given what is
    /// known of how the repository `from` sees the others. A label without a
    /// repository stays in `from`. Without modules a name stands for itself, but
    /// that of the workspace for the main repository. `None` is an error.
    pub open spec fn named(self, label: Label, from: Seq<char>, mapping: MappingLookup) -> Option<
        Seq<char>,
    > {
        if !self.ready() && self.needs_context(label, from) {
            None
        } else {
            match label.kind {
                RepoKind::Current => Some(from),
                RepoKind::Canonical => Some(label.repo@),
                RepoKind::Apparent => if self.bzlmod_enabled {
                    match mapping {
                        MappingLookup::Ready(entries) => if mapping_of(entries@).contains_key(
                            label.repo@,
                        ) {
                            Some(mapping_of(entries@)[label.repo@])
                        } else {
                            None
                        },
                        _ => None,
                    }
                } else if text_of(self.workspace_name) == Some(label.repo@) {
                    Some(Seq::empty())
                } else {
                    Some(label.repo@)
                },
            }
        }
    }

    /// Why a label has no repository.
    pub open spec fn not_named(
        self,
        label: Label,
        from: Seq<char>,
        mapping: MappingLookup,
        error: LoadError,
    ) -> bool {
        if !self.ready() && self.needs_context(label, from) {
            error is ConfigurationLoading
        } else {
            match mapping {
                MappingLookup::Ready(_) => error matches LoadError::Unmapped { repo, from: f }
                    && repo@ == label.repo@ && f@ == from,
                MappingLookup::Failed(e) => error matches LoadError::MappingFailed(message)
                    && message@ == e@,
                _ => error is MappingLoading,
            }
        }
    }

    /// The canonical name of the repository of a label, none for that of `from`.
    fn label_repository(&self, label: &Label, from: &Repository, mapping: &MappingLookup) -> (r:
        Result<Option<String>, LoadError>)
        ensures
            match r {
                Ok(name) => {
                    &&& name is None == (label.kind == RepoKind::Current)
                    &&& self.named(*label, from.name@, *mapping) == Some(
                        match name {
                            Some(name) => name@,
                            None => from.name@,
                        },
                    )
                },
                Err(error) => {
                    &&& self.named(*label, from.name@, *mapping) is None
                    &&& self.not_named(*label, from.name@, *mapping, error)
                },
            },
    {
        if !self.is_ready() && self.label_needs_bazel_context(label, from) {
            return Err(LoadError::ConfigurationLoading);
        }
        match label.kind {
            RepoKind::Current => Ok(None),
            RepoKind::Canonical => Ok(Some(label.repo.clone())),
            RepoKind::Apparent => {
                if self.bzlmod_enabled {
                    match mapping {
                        MappingLookup::Ready(entries) => {
                            match mapped_name(entries, label.repo.as_str()) {
                                Some(name) => Ok(Some(name)),
                                None => Err(
                                    LoadError::Unmapped {
                                        repo: label.repo.clone(),
                                        from: from.name.clone(),
                                    },
                                ),
                            }
                        },
                        MappingLookup::Failed(error) => Err(LoadError::MappingFailed(error.clone())),
                        _ => Err(LoadError::MappingLoading),
                    }
                } else {
                    let is_workspace = match &self.workspace_name {
                        Some(name) => same(name.as_str(), label.repo.as_str()),
                        None => false,
                    };
                    if is_workspace {
                        let main = String::new();
                        proof {
                            assert(main@ =~= Seq::<char>::empty());
                        }
                        Ok(Some(main))
                    } else {
                        Ok(Some(label.repo.clone()))
                    }
                }
            },
        }
    }

    /// Whether the fetch of a repository failed.
    pub open spec fn fetch_failed(self, name: Seq<char>) -> bool {
        self.repository_fetches@.contains_key(name) && self.repository_fetches@[name] is Failed
    }

    /// Whether the files of a repository can be read.
    pub open spec fn ensured(self, name: Seq<char>, root_is_dir: bool) -> bool {
        if self.fetch_failed(name) {
            !self.bzlmod_enabled && self.configuration_revision is None && root_is_dir
        } else {
            name.len() == 0 || self.configuration_revision is None || (
            self.repository_fetches@.contains_key(name) && self.repository_fetches@[name] is Ready)
        }
    }

    /// Why the files of a repository cannot be read.
    pub open spec fn not_ensured(self, name: Seq<char>, error: LoadError) -> bool {
        if self.fetch_failed(name) {
            error matches LoadError::FetchFailed { name: n, error: e } && n@ == name
                && Some(e@) == match self.repository_fetches@[name] {
                RepositoryFetch::Failed(e) => Some(e@),
                _ => None,
            }
        } else {
            error matches LoadError::FetchRequired { name: n } && n@ == name
        }
    }

    /// Whether the files of a repository can be read. One that failed
    /// fails again, but without modules, outside an editor, a directory that is
    /// there is good enough. In an editor a repository other than the main one
    /// has to be fetched first, which the error asks for.
    pub fn ensure_repository(&self, repository: &Repository, root_is_dir: bool) -> (r: Result<
        (),
        LoadError,
    >)
        ensures
            match r {
                Ok(()) => self.ensured(repository.name@, root_is_dir),
                Err(error) => {
                    &&& !self.ensured(repository.name@, root_is_dir)
                    &&& self.not_ensured(repository.name@, error)
                },
            },
    {
        let state = self.repository_fetches.get(repository.name.as_str());
        let mut is_ready = false;
        match state {
            Some(RepositoryFetch::Failed(error)) => {
                if !self.bzlmod_enabled && self.configuration_revision.is_none() && root_is_dir {
                    return Ok(());
                }
                return Err(
                    LoadError::FetchFailed {
                        name: repository.name.clone(),
                        error: error.clone(),
                    },
                );
            },
            Some(RepositoryFetch::Ready) => {
                is_ready = true;
            },
            _ => {},
        }
        if !repository.name.as_str().is_empty() && self.configuration_revision.is_some()
            && !is_ready {
            return Err(LoadError::FetchRequired { name: repository.name.clone() });
        }
        Ok(())
    }

    /// The repository that a label leads to from another one, given what is known
    /// of how that one sees the others.
    pub fn resolve_repository(
        &mut self,
        label: &Label,
        from: &Repository,
        mapping: &MappingLookup,
    ) -> (r: Result<Repository, LoadError>)
        ensures
            same_but_paths(*old(self), *final(self)),
            final(self).repositories == old(self).repositories,
            final(self).paths() == old(self).reached_in(
                old(self).paths(),
                *label,
                from.name@,
                from.root@,
                *mapping,
            ),
            old(self).reached(*label, *from, *mapping, r),
    {
        self.watch_repository(from.root.as_str());
        match self.label_repository(label, from, mapping) {
            Ok(None) => Ok(from.dup()),
            Ok(Some(name)) => self.canonical_repository(name),
            Err(error) => Err(error),
        }
    }

    /// What is known of paths once a label was followed from a repository: its root is
    /// reached, and that of the repository that the label leads to.
    pub open spec fn reached_in(
        self,
        p: Paths,
        label: Label,
        name: Seq<char>,
        root: Seq<char>,
        mapping: MappingLookup,
    ) -> Paths {
        let from = p.watched(root);
        match self.named(label, name, mapping) {
            Some(to) if label.kind != RepoKind::Current => self.named_in(from, to),
            _ => from,
        }
    }

    /// Whether `r` is the repository that a label leads to from another one.
    pub open spec fn reached(
        self,
        label: Label,
        from: Repository,
        mapping: MappingLookup,
        r: Result<Repository, LoadError>,
    ) -> bool {
        match self.named(label, from.name@, mapping) {
            Some(name) => if label.kind == RepoKind::Current {
                r matches Ok(repository) && repository == from
            } else {
                match r {
                    Ok(repository) => repository.name@ == name && self.root_of(name) == Some(
                        repository.root@,
                    ),
                    Err(error) => self.root_of(name) is None && error is ConfigurationLoading,
                }
            },
            None => r matches Err(error) && self.not_named(label, from.name@, mapping, error),
        }
    }

    /// What is known of how a repository sees the others, before it is asked for.
    pub open spec fn mapping_known(self, name: Seq<char>, lookup: MappingLookup) -> bool {
        let known = self.repository_mappings@;
        if self.paused {
            lookup is Loading
        } else if known.contains_key(name) {
            match known[name] {
                MappingEntry::Pending => lookup is Loading,
                MappingEntry::Ready(mapping) => lookup == MappingLookup::Ready(mapping),
                MappingEntry::Failed(error) => lookup matches MappingLookup::Failed(e) && e@
                    == error@,
            }
        } else if self.configuration_revision is Some {
            lookup is Requested
        } else if self.defer_mappings {
            lookup is Loading
        } else {
            lookup is Query
        }
    }

    /// Whether `r` is how far a label of a file can be followed: into the
    /// repository of the file, with what is known of how it sees the others.
    pub open spec fn entered(
        self,
        label: Label,
        path: Seq<char>,
        ancestors: Seq<Ancestor>,
        root_is_dir: bool,
        r: Result<Entry, LoadError>,
    ) -> bool {
        match self.belongs(path, ancestors) {
            None => r matches Err(LoadError::MissingName),
            Some(ContextView::Resolved(name, root)) => {
                if !self.ready() && self.needs_context(label, name) {
                    r matches Ok(Entry::Stop(LabelStep::Unknown))
                } else if !self.ensured(name, root_is_dir) {
                    r matches Err(error) && self.not_ensured(name, error)
                } else if self.bzlmod_enabled && label.kind == RepoKind::Apparent {
                    exists|lookup: MappingLookup| #[trigger]
                        self.mapping_known(name, lookup) && entry_of(name, root, lookup, r)
                } else {
                    r matches Ok(Entry::From(from, lookup)) && from.name@ == name && from.root@
                        == root
                }
            },
            Some(_) => r matches Ok(Entry::Stop(LabelStep::Unknown)),
        }
    }

    /// Enters the repository of a file.
    fn enter(
        &mut self,
        label: &Label,
        path: &str,
        ancestors: &Vec<Ancestor>,
        root_is_dir: bool,
    ) -> (r: Result<Entry, LoadError>)
        ensures
            old(self).entered(*label, path@, ancestors@, root_is_dir, r),
            same_but_learned(*old(self), *final(self)),
            final(self).paths() == old(self).asked_in(old(self).paths(), path@, ancestors@),
            final(self).repository_mappings@ == old(self).mappings_asked(
                *label,
                path@,
                ancestors@,
                root_is_dir,
            ),
            match r {
                Ok(Entry::From(from, lookup)) => old(self).goes_on(
                    *label,
                    path@,
                    ancestors@,
                    root_is_dir,
                ) == Some((from.name@, from.root@)) && lookup == old(self).lookup_for(
                    *label,
                    from.name@,
                ),
                _ => old(self).goes_on(*label, path@, ancestors@, root_is_dir) is None,
            },
    {
        let ghost start = *self;
        let from = match self.repository_for_path(path, ancestors) {
            Ok(Some(from)) => from,
            Ok(None) => {
                return Ok(Entry::Stop(LabelStep::Unknown));
            },
            Err(error) => {
                return Err(error);
            },
        };
        proof {
            assert(self.ready() == start.ready());
            assert(self.needs_context(*label, from.name@) == start.needs_context(
                *label,
                from.name@,
            ));
            assert(self.ensured(from.name@, root_is_dir) == start.ensured(from.name@, root_is_dir));
        }
        if !self.is_ready() && self.label_needs_bazel_context(label, &from) {
            return Ok(Entry::Stop(LabelStep::Unknown));
        }
        match self.ensure_repository(&from, root_is_dir) {
            Ok(()) => {},
            Err(error) => {
                return Err(error);
            },
        }
        if self.bzlmod_enabled && label.kind == RepoKind::Apparent {
            let lookup = self.repository_mapping(from.name.as_str());
            proof {
                assert(start.mapping_known(from.name@, lookup));
            }
            let ghost known = lookup;
            match lookup {
                MappingLookup::Loading => Ok(Entry::Stop(LabelStep::Unknown)),
                MappingLookup::Requested => Ok(Entry::Stop(LabelStep::MappingRequested)),
                MappingLookup::Query => Ok(Entry::Stop(LabelStep::QueryMapping(from.name))),
                MappingLookup::Failed(error) => Err(LoadError::MappingFailed(error)),
                MappingLookup::Ready(mapping) => Ok(
                    Entry::From(from, MappingLookup::Ready(mapping)),
                ),
            }
        } else {
            Ok(Entry::From(from, MappingLookup::Loading))
        }
    }

    /// Whether the mapping of the repository of a file is asked for to follow a label:
    /// the name of that repository.
    pub open spec fn asks_mapping(
        self,
        label: Label,
        path: Seq<char>,
        ancestors: Seq<Ancestor>,
        root_is_dir: bool,
    ) -> Option<Seq<char>> {
        match self.belongs(path, ancestors) {
            Some(ContextView::Resolved(name, _)) => if (self.ready() || !self.needs_context(
                label,
                name,
            )) && self.ensured(name, root_is_dir) && self.bzlmod_enabled && label.kind
                == RepoKind::Apparent {
                Some(name)
            } else {
                None
            },
            _ => None,
        }
    }

    /// The mappings once a label of a file was followed: where the one that is needed
    /// is unknown, it is on its way, if this loader requests or collects mappings.
    pub open spec fn mappings_asked(
        self,
        label: Label,
        path: Seq<char>,
        ancestors: Seq<Ancestor>,
        root_is_dir: bool,
    ) -> Map<Seq<char>, MappingEntry> {
        match self.asks_mapping(label, path, ancestors, root_is_dir) {
            Some(name) => if !self.paused && !self.repository_mappings@.contains_key(name) && (
            self.configuration_revision is Some || self.defer_mappings) {
                self.repository_mappings@.insert(name, MappingEntry::Pending)
            } else {
                self.repository_mappings@
            },
            None => self.repository_mappings@,
        }
    }

    /// The repository from which a label of a file is followed, by name and root. It
    /// is not while something is missing.
    pub open spec fn goes_on(
        self,
        label: Label,
        path: Seq<char>,
        ancestors: Seq<Ancestor>,
        root_is_dir: bool,
    ) -> Option<(Seq<char>, Seq<char>)> {
        match self.belongs(path, ancestors) {
            Some(ContextView::Resolved(name, root)) => if (self.ready() || !self.needs_context(
                label,
                name,
            )) && self.ensured(name, root_is_dir) && (
            self.asks_mapping(label, path, ancestors, root_is_dir) is None || (!self.paused
                && self.repository_mappings@.contains_key(name)
                && self.repository_mappings@[name] is Ready)) {
                Some((name, root))
            } else {
                None
            },
            _ => None,
        }
    }

    /// What is known of the mapping with which a label is followed.
    pub open spec fn lookup_for(self, label: Label, name: Seq<char>) -> MappingLookup {
        if self.bzlmod_enabled && label.kind == RepoKind::Apparent {
            match self.repository_mappings@[name] {
                MappingEntry::Ready(mapping) => MappingLookup::Ready(mapping),
                _ => MappingLookup::Loading,
            }
        } else {
            MappingLookup::Loading
        }
    }

    /// What is known of paths once a label of a file was followed, as far as it is.
    pub open spec fn paths_followed(
        self,
        label: Label,
        path: Seq<char>,
        ancestors: Seq<Ancestor>,
        root_is_dir: bool,
    ) -> Paths {
        let p = self.asked_in(self.paths(), path, ancestors);
        match self.goes_on(label, path, ancestors, root_is_dir) {
            Some((name, root)) => self.reached_in(
                p,
                label,
                name,
                root,
                self.lookup_for(label, name),
            ),
            None => p,
        }
    }

    /// What following a label taught: the repository of the file, that its mapping is
    /// needed, and the roots that were reached.
    pub open spec fn learned(
        self,
        new: Loader,
        label: Label,
        path: Seq<char>,
        ancestors: Seq<Ancestor>,
        root_is_dir: bool,
    ) -> bool {
        &&& same_but_learned(self, new)
        &&& new.repository_mappings@ == self.mappings_asked(label, path, ancestors, root_is_dir)
        &&& new.paths() == self.paths_followed(label, path, ancestors, root_is_dir)
    }

    /// A mapping that is needed to follow a label and that nothing is known of is on its
    /// way from then on, in an editor and where mappings are collected; every other
    /// mapping stays as it was.
    pub proof fn missing_mappings_are_asked_for(
        self,
        label: Label,
        path: Seq<char>,
        ancestors: Seq<Ancestor>,
        root_is_dir: bool,
        name: Seq<char>,
    )
        requires
            self.asks_mapping(label, path, ancestors, root_is_dir) == Some(name),
            !self.paused,
            !self.repository_mappings@.contains_key(name),
            self.configuration_revision is Some || self.defer_mappings,
        ensures
            is_pending(self.mappings_asked(label, path, ancestors, root_is_dir), name),
            forall|other: Seq<char>|
                other != name ==> (#[trigger] self.mappings_asked(
                    label,
                    path,
                    ancestors,
                    root_is_dir,
                ).contains_key(other) == self.repository_mappings@.contains_key(other)),
    {
    }

    /// A repository from which a label is followed and the one that it leads to are
    /// among the roots from then on, and no root is forgotten.
    pub proof fn reached_repositories_are_watched(
        self,
        label: Label,
        path: Seq<char>,
        ancestors: Seq<Ancestor>,
        root_is_dir: bool,
    )
        ensures
            ({
                let roots = self.paths_followed(label, path, ancestors, root_is_dir).roots;
                &&& forall|root: Seq<char>| #[trigger]
                    self.paths().roots.contains(root) ==> roots.contains(root)
                &&& match self.goes_on(label, path, ancestors, root_is_dir) {
                    Some((name, root)) => {
                        let to = self.named(label, name, self.lookup_for(label, name));
                        &&& roots.contains(root)
                        &&& to is Some && label.kind != RepoKind::Current && self.root_of(
                            to->0,
                        ) is Some ==> roots.contains(self.root_of(to->0)->0)
                    },
                    None => true,
                }
            }),
    {
        let asked = self.asked_in(self.paths(), path, ancestors);
        match self.placed(path, ancestors) {
            Some(ContextView::Resolved(_, root)) => {
                watched_holds(self.paths(), root);
            },
            _ => {},
        }
        match self.goes_on(label, path, ancestors, root_is_dir) {
            Some((name, root)) => {
                watched_holds(asked, root);
                match self.named(label, name, self.lookup_for(label, name)) {
                    Some(to) => match self.root_of(to) {
                        Some(reached) => {
                            watched_holds(asked.watched(root), reached);
                        },
                        None => {},
                    },
                    None => {},
                }
            },
            None => {},
        }
    }

    /// Whether `r` is where a label of a file leads.
    pub open spec fn led(
        self,
        label: Label,
        path: Seq<char>,
        ancestors: Seq<Ancestor>,
        root_is_dir: bool,
        r: Result<LabelStep, LoadError>,
    ) -> bool {
        exists|entry: Result<Entry, LoadError>| #[trigger]
            self.entered(label, path, ancestors, root_is_dir, entry) && match entry {
                Err(error) => r == Err::<LabelStep, LoadError>(error),
                Ok(Entry::Stop(step)) => r == Ok::<LabelStep, LoadError>(step),
                Ok(Entry::From(from, lookup)) => exists|reached: Result<Repository, LoadError>|
                 #[trigger]
                    self.reached(label, from, lookup, reached) && match reached {
                        Ok(repository) => lands(label, path, ancestors, repository, r),
                        Err(error) => r == Err::<LabelStep, LoadError>(error),
                    },
            }
    }

    /// Where a label of a file leads: nowhere as long as too little is known.
    /// Where a mapping is missing, the caller is told to request it, or to query
    /// it and ask again.
    pub fn resolve_label(
        &mut self,
        label: &Label,
        path: &str,
        ancestors: &Vec<Ancestor>,
        root_is_dir: bool,
    ) -> (r: Result<LabelStep, LoadError>)
        ensures
            old(self).led(*label, path@, ancestors@, root_is_dir, r),
            old(self).learned(*final(self), *label, path@, ancestors@, root_is_dir),
    {
        let ghost start = *self;
        let entry = self.enter(label, path, ancestors, root_is_dir);
        let ghost entered = entry;
        match entry {
            Err(error) => Err(error),
            Ok(Entry::Stop(step)) => Ok(step),
            Ok(Entry::From(from, lookup)) => {
                let ghost now = *self;
                let reached = self.resolve_repository(label, &from, &lookup);
                proof {
                    assert(now.named(*label, from.name@, lookup) == start.named(
                        *label,
                        from.name@,
                        lookup,
                    ));
                    assert(start.reached(*label, from, lookup, reached));
                    assert(start.entered(*label, path@, ancestors@, root_is_dir, entered));
                }
                match reached {
                    Err(error) => Err(error),
                    Ok(repository) => land(label, path, ancestors, repository),
                }
            },
        }
    }

    /// What to list for a label that is being typed in a file: the repositories
    /// while its repository is being typed, and else what is in its repository.
    pub fn list_load_candidates(
        &mut self,
        label: &Label,
        error: Option<ParseError>,
        path: &str,
        ancestors: &Vec<Ancestor>,
        root_is_dir: bool,
    ) -> (r: Result<ListStep, LoadError>)
        ensures
            old(self).lists_for(*label, error, path@, ancestors@, root_is_dir, r),
            if names_repository(*label, error) {
                &&& same_but_learned(*old(self), *final(self))
                &&& final(self).repository_mappings@ == old(self).mappings_asked(
                    *label,
                    path@,
                    ancestors@,
                    root_is_dir,
                )
                &&& final(self).paths() == old(self).asked_in(
                    old(self).paths(),
                    path@,
                    ancestors@,
                )
            } else {
                old(self).learned(*final(self), *label, path@, ancestors@, root_is_dir)
            },
    {
        let ghost start = *self;
        let entry = self.enter(label, path, ancestors, root_is_dir);
        let ghost entered = entry;
        match entry {
            Err(error) => Err(error),
            Ok(Entry::Stop(step)) => Ok(ListStep::Wait(step)),
            Ok(Entry::From(from, lookup)) => {
                proof {
                    assert(start.entered(*label, path@, ancestors@, root_is_dir, entered));
                }
                if !label.has_leading_slashes && !label.is_relative && error != Some(
                    ParseError::InvalidRepo,
                ) {
                    return Ok(ListStep::List(self.list_repositories(label, lookup)));
                }
                let ghost now = *self;
                let reached = self.resolve_repository(label, &from, &lookup);
                proof {
                    assert(now.named(*label, from.name@, lookup) == start.named(
                        *label,
                        from.name@,
                        lookup,
                    ));
                    assert(start.reached(*label, from, lookup, reached));
                }
                match reached {
                    Err(error) => Err(error),
                    Ok(repository) => Ok(ListStep::Within(repository)),
                }
            },
        }
    }

    /// Whether `r` says what to list for a label that is being typed.
    pub open spec fn lists_for(
        self,
        label: Label,
        error: Option<ParseError>,
        path: Seq<char>,
        ancestors: Seq<Ancestor>,
        root_is_dir: bool,
        r: Result<ListStep, LoadError>,
    ) -> bool {
        exists|entry: Result<Entry, LoadError>| #[trigger]
            self.entered(label, path, ancestors, root_is_dir, entry) && match entry {
                Err(error) => r == Err::<ListStep, LoadError>(error),
                Ok(Entry::Stop(step)) => r == Ok::<ListStep, LoadError>(ListStep::Wait(step)),
                Ok(Entry::From(from, lookup)) => if names_repository(label, error) {
                    r matches Ok(ListStep::List(listing)) && self.repositories_listed(
                        label,
                        lookup,
                        listing,
                    )
                } else {
                    exists|reached: Result<Repository, LoadError>| #[trigger]
                        self.reached(label, from, lookup, reached) && match reached {
                            Ok(repository) => r == Ok::<ListStep, LoadError>(
                                ListStep::Within(repository),
                            ),
                            Err(error) => r == Err::<ListStep, LoadError>(error),
                        }
                },
            }
    }

    /// Whether `r` says what to list where the repository of a label is still
    /// being typed: with modules the names that the file sees, and else all
    /// repositories.
    pub open spec fn repositories_listed(
        self,
        label: Label,
        lookup: MappingLookup,
        r: Listing,
    ) -> bool {
        if label.kind == RepoKind::Apparent && self.bzlmod_enabled {
            match lookup {
                MappingLookup::Ready(mapping) => r == Listing::Mapped(mapping),
                _ => r is Nothing,
            }
        } else if label.kind == RepoKind::Current {
            r is Nothing
        } else {
            match self.external_output_base {
                Some(base) => r matches Listing::Repositories { directory, workspace_name }
                    && directory@ == base@ && workspace_name == self.workspace_name,
                None => r is Nothing,
            }
        }
    }

    /// What to list where the repository of a label is still being typed.
    fn list_repositories(&self, label: &Label, lookup: MappingLookup) -> (r: Listing)
        ensures
            self.repositories_listed(*label, lookup, r),
    {
        if label.kind == RepoKind::Apparent && self.bzlmod_enabled {
            match lookup {
                MappingLookup::Ready(mapping) => Listing::Mapped(mapping),
                _ => Listing::Nothing,
            }
        } else if label.kind == RepoKind::Current {
            Listing::Nothing
        } else {
            match &self.external_output_base {
                Some(base) => Listing::Repositories {
                    directory: base.clone(),
                    workspace_name: dup_text(&self.workspace_name),
                },
                None => Listing::Nothing,
            }
        }
    }

    /// What to list in the repository of a label, once its files can be read.
    pub fn list_in_repository(
        &self,
        label: &Label,
        error: Option<ParseError>,
        repository: &Repository,
        root_is_dir: bool,
        path: &str,
        ancestors: &Vec<Ancestor>,
    ) -> (r: Result<Listing, LoadError>)
        ensures
            ({
                let root = repository.root@;
                let package = package_from(ancestors@, root, 0);
                if !self.ensured(repository.name@, root_is_dir) {
                    r matches Err(e) && self.not_ensured(repository.name@, e)
                } else if label.is_relative && (!is_under(path@, root) || package is None) {
                    r matches Err(LoadError::Outside { path: p, root: d }) && p@ == path@ && d@
                        == root
                } else {
                    r matches Ok(listing) && listing_of(*label, error, root, package->0, listing)
                }
            }),
    {
        match self.ensure_repository(repository, root_is_dir) {
            Ok(()) => {},
            Err(error) => {
                return Err(error);
            },
        }
        let package = if label.is_relative {
            match package_for_path(path, repository.root.as_str(), ancestors) {
                Ok(package) => package,
                Err(error) => {
                    return Err(error);
                },
            }
        } else {
            String::new()
        };
        Ok(listing(label, error, repository.root.as_str(), package.as_str()))
    }

    /// Where a load leads. In a file of another dialect it is a path below the
    /// directory of the file. In a Bazel file it is a label, of a `.bzl` file.
    pub fn load_file(
        &mut self,
        dialect: Dialect,
        load: &str,
        directory: &str,
        label: &Label,
        path: &str,
        ancestors: &Vec<Ancestor>,
        root_is_dir: bool,
    ) -> (r: Result<LoadStep, LoadError>)
        ensures
            match dialect {
                Dialect::Standard => {
                    &&& *final(self) == *old(self)
                    &&& r matches Ok(LoadStep::Read(target)) && target.path@ == joined(
                        directory@,
                        load@,
                    ) && target.info is None && target.repository is None
                },
                Dialect::Bazel => if !has_suffix(label.target@, ".bzl"@) {
                    r matches Err(LoadError::NotBzl) && *final(self) == *old(self)
                } else {
                    &&& old(self).learned(*final(self), *label, path@, ancestors@, root_is_dir)
                    &&& exists|step: Result<LabelStep, LoadError>| #[trigger]
                        old(self).led(*label, path@, ancestors@, root_is_dir, step) && load_step(
                            step,
                            r,
                        )
                },
            },
    {
        match dialect {
            Dialect::Standard => Ok(
                LoadStep::Read(
                    LoadTarget {
                        path: crate::paths::join(directory, load),
                        info: None,
                        repository: None,
                    },
                ),
            ),
            Dialect::Bazel => {
                if !crate::text::ends_with(label.target.as_str(), ".bzl") {
                    return Err(LoadError::NotBzl);
                }
                let step = self.resolve_label(label, path, ancestors, root_is_dir);
                let ghost led = step;
                let r = match step {
                    Err(error) => Err(error),
                    Ok(LabelStep::Resolved { path, repository }) => {
                        let is_external = !repository.name.as_str().is_empty();
                        let info = FileInfo::Bazel { api_context: APIContext::Bzl, is_external };
                        Ok(
                            LoadStep::Read(
                                LoadTarget { path, info: Some(info), repository: Some(repository) },
                            ),
                        )
                    },
                    Ok(step) => Ok(LoadStep::Wait(step)),
                };
                proof {
                    assert(old(self).led(*label, path@, ancestors@, root_is_dir, led) && load_step(
                        led,
                        r,
                    ));
                }
                r
            },
        }
    }

    /// Whether the repository of a path that is open changed under it.
    pub fn is_displaced(&self, path: &str) -> (r: bool)
        ensures
            r == (self.repositories@.contains_key(path@) && self.repositories@[path@] is Displaced),
    {
        match self.repositories.get(path) {
            Some(RepositoryContext::Displaced) => true,
            _ => false,
        }
    }

    /// The information on a file in a context: whether it is in another repository
    /// follows from where it belongs.
    pub fn file_info(dialect: Dialect, info: Option<FileInfo>, repository: &Option<Repository>) -> (r:
        Option<FileInfo>)
        ensures
            r == match info {
                Some(FileInfo::Bazel { api_context, is_external }) => Some(
                    FileInfo::Bazel {
                        api_context,
                        is_external: if dialect != Dialect::Bazel {
                            is_external
                        } else {
                            match *repository {
                                Some(repository) => repository.name@.len() > 0,
                                None => is_external,
                            }
                        },
                    },
                ),
                None => None,
            },
    {
        if dialect != Dialect::Bazel {
            return info;
        }
        match info {
            Some(FileInfo::Bazel { api_context, is_external }) => {
                let is_external = match repository {
                    Some(repository) => !repository.name.as_str().is_empty(),
                    None => is_external,
                };
                Some(FileInfo::Bazel { api_context, is_external })
            },
            None => None,
        }
    }

    /// What the loader before knew of an open document.
    pub open spec fn context_before(previous: Loader, path: Seq<char>) -> ContextView {
        if previous.repositories@.contains_key(path) {
            previous.repositories@[path]@
        } else {
            ContextView::Unknown
        }
    }

    /// Whether the repository of an open document is looked up again: it was only
    /// guessed before Bazel answered.
    pub open spec fn looks_again(previous: Loader, path: Seq<char>) -> bool {
        let was = Self::context_before(previous, path);
        !(was is Displaced) && previous.external_output_base is None && !(
        was matches ContextView::Resolved(name, _) && name.len() > 0)
    }

    /// The context in which an open document is read again by this loader, given
    /// the one before, and what is known of paths. What is known stays; a repository
    /// that was only guessed is looked up again. `None` is an error.
    pub open spec fn admission_in(
        self,
        p: Paths,
        previous: Loader,
        path: Seq<char>,
        ancestors: Seq<Ancestor>,
    ) -> Option<ContextView> {
        let was = Self::context_before(previous, path);
        if was is Displaced {
            None
        } else if Self::looks_again(previous, path) {
            self.belongs_in(p, path, ancestors)
        } else {
            Some(was)
        }
    }

    /// What is known of paths once the context of an open document was looked up.
    pub open spec fn admitted_in(
        self,
        p: Paths,
        previous: Loader,
        path: Seq<char>,
        ancestors: Seq<Ancestor>,
    ) -> Paths {
        if Self::looks_again(previous, path) {
            self.asked_in(p, path, ancestors)
        } else {
            p
        }
    }

    /// The context in which an open document is read again by this loader.
    pub fn document_context(
        &mut self,
        previous: &Loader,
        path: &str,
        ancestors: &Vec<Ancestor>,
    ) -> (r: Result<Option<Repository>, LoadError>)
        ensures
            same_but_paths(*old(self), *final(self)),
            final(self).paths() == old(self).admitted_in(
                old(self).paths(),
                *previous,
                path@,
                ancestors@,
            ),
            ({
                let admission = old(self).admission_in(
                    old(self).paths(),
                    *previous,
                    path@,
                    ancestors@,
                );
                match r {
                    Ok(repository) => admission == Some(context_of(repository)),
                    Err(error) => admission is None && if Self::context_before(
                        *previous,
                        path@,
                    ) is Displaced {
                        error matches LoadError::Displaced { path: p } && p@ == path@
                    } else {
                        error is MissingName
                    },
                }
            }),
    {
        let known = match previous.repositories.get(path) {
            Some(RepositoryContext::Resolved(repository)) => Some(repository.dup()),
            Some(RepositoryContext::Unknown) => {
                if previous.has_bazel_context() {
                    return Ok(None);
                }
                None
            },
            Some(RepositoryContext::Displaced) => {
                return Err(LoadError::Displaced { path: path.to_owned() });
            },
            None => None,
        };
        if !previous.has_bazel_context() {
            let is_external = match &known {
                Some(repository) => !repository.name.as_str().is_empty(),
                None => false,
            };
            if is_external {
                return Ok(known);
            }
            return self.repository_for_path(path, ancestors);
        }
        Ok(known)
    }

    /// Why an open document is not taken over, if it is not: its source no longer fits,
    /// it was displaced before, where it is there is no repository, or it is in another
    /// one.
    pub open spec fn refusal_in(
        self,
        p: Paths,
        previous: Loader,
        path: Seq<char>,
        ancestors: Seq<Ancestor>,
        source_error: Option<Seq<char>>,
    ) -> Option<Seq<char>> {
        match source_error {
            Some(error) => Some(error),
            None => match self.admission_in(p, previous, path, ancestors) {
                Some(context) => if p.takes(path, context) {
                    None
                } else {
                    Some(conflict_text(path, p.contexts[path], context))
                },
                None => if Self::context_before(previous, path) is Displaced {
                    Some(displaced_text(path))
                } else {
                    Some(missing_name_text())
                },
            },
        }
    }

    /// What is known of paths once an open document was taken over from the loader
    /// before. Where its source or its repository no longer fits, it is displaced.
    pub open spec fn restored_in(
        self,
        p: Paths,
        previous: Loader,
        path: Seq<char>,
        ancestors: Seq<Ancestor>,
        source_is_valid: bool,
    ) -> Paths {
        if !source_is_valid {
            p.holding(path, ContextView::Displaced)
        } else {
            let admitted = self.admitted_in(p, previous, path, ancestors);
            match self.admission_in(p, previous, path, ancestors) {
                Some(context) => if p.takes(path, context) {
                    admitted.recorded(path, context)
                } else {
                    admitted.recorded(path, context).holding(path, ContextView::Displaced)
                },
                None => admitted.holding(path, ContextView::Displaced),
            }
        }
    }

    /// Takes an open document over from the loader before.
    pub fn restore_document_context(
        &mut self,
        previous: &Loader,
        path: &str,
        ancestors: &Vec<Ancestor>,
        source_is_valid: bool,
    ) -> (r: Result<(), Option<LoadError>>)
        ensures
            same_but_paths(*old(self), *final(self)),
            final(self).paths() == old(self).restored_in(
                old(self).paths(),
                *previous,
                path@,
                ancestors@,
                source_is_valid,
            ),
            match r {
                Ok(()) => source_is_valid && old(self).refusal_in(
                    old(self).paths(),
                    *previous,
                    path@,
                    ancestors@,
                    None,
                ) is None,
                Err(None) => !source_is_valid,
                Err(Some(error)) => source_is_valid && old(self).refusal_in(
                    old(self).paths(),
                    *previous,
                    path@,
                    ancestors@,
                    None,
                ) == Some(error.text()),
            },
    {
        if !source_is_valid {
            self.displace(path);
            return Err(None);
        }
        let ghost start = *self;
        let admission = match self.document_context(previous, path, ancestors) {
            Ok(repository) => {
                let ghost now = *self;
                proof {
                    let p = start.paths();
                    let context = context_of(repository);
                    assert(start.admission_in(p, *previous, path@, ancestors@) == Some(context));
                    assert(now.paths().takes(path@, context) == p.takes(path@, context));
                    assert(now.paths().contexts.contains_key(path@) && !p.contexts.contains_key(
                        path@,
                    ) ==> now.paths().contexts[path@] == context);
                }
                self.record_repository(path, &repository)
            },
            Err(error) => Err(error),
        };
        match admission {
            Ok(()) => Ok(()),
            Err(error) => {
                self.displace(path);
                Err(Some(error))
            },
        }
    }

    /// The repository of an open path changed under it.
    fn displace(&mut self, path: &str)
        ensures
            same_but_paths(*old(self), *final(self)),
            final(self).paths() == old(self).paths().holding(path@, ContextView::Displaced),
    {
        self.repositories.insert(path.to_owned(), RepositoryContext::Displaced);
        proof {
            assert(self.paths() =~= old(self).paths().holding(path@, ContextView::Displaced));
        }
    }

    /// Whether an open file may be edited: it and its source are in the
    /// workspace, no repository starts in between, and it belongs to the main
    /// repository.
    pub fn is_editable(
        &mut self,
        path: &str,
        source: &str,
        physical_workspace: &str,
        ancestors: &Vec<Ancestor>,
        source_ancestors: &Vec<Ancestor>,
    ) -> (r: Result<bool, LoadError>)
        ensures
            same_but_paths(*old(self), *final(self)),
            ({
                let inside = is_under(path@, old(self).workspace@) && is_under(
                    source@,
                    physical_workspace@,
                ) && !crosses_from(ancestors@, old(self).workspace@, 0) && !crosses_from(
                    source_ancestors@,
                    physical_workspace@,
                    0,
                );
                if !inside {
                    r matches Ok(false) && *final(self) == *old(self)
                } else {
                    &&& final(self).paths() == old(self).asked_in(
                        old(self).paths(),
                        path@,
                        ancestors@,
                    )
                    &&& match old(self).belongs(path@, ancestors@) {
                        Some(w) => r matches Ok(editable) && editable == (
                        w matches ContextView::Resolved(name, _) && name.len() == 0),
                        None => r matches Err(LoadError::MissingName),
                    }
                }
            }),
    {
        if !crate::paths::starts_with(path, self.workspace.as_str()) {
            return Ok(false);
        }
        if !crate::paths::starts_with(source, physical_workspace) {
            return Ok(false);
        }
        if crosses_repository(ancestors, self.workspace.as_str()) || crosses_repository(
            source_ancestors,
            physical_workspace,
        ) {
            return Ok(false);
        }
        match self.repository_for_path(path, ancestors) {
            Ok(Some(repository)) => Ok(repository.name.as_str().is_empty()),
            Ok(None) => Ok(false),
            Err(error) => Err(error),
        }
    }

    /// The package of a build file of the workspace.
    pub fn resolve_build_file(&self, path: &str) -> (r: Option<String>)
        ensures
            ({
                let rest = parts_below(path@, self.workspace@);
                let n = rest.len();
                if is_under(path@, self.workspace@) && n > 0 && (rest.last() == "BUILD"@
                    || rest.last() == "BUILD.bazel"@) {
                    r is Some && r->0@ == with_slashes(rest, (n - 1) as nat)
                } else {
                    r is None
                }
            }),
    {
        match crate::paths::below(path, self.workspace.as_str()) {
            Some(rest) => {
                let n = rest.len();
                proof {
                    assert(views(rest@).len() == n);
                    if n > 0 {
                        assert(views(rest@).last() == rest@[n - 1]@);
                    }
                }
                if n > 0 && (same(rest[n - 1].as_str(), "BUILD") || same(
                    rest[n - 1].as_str(),
                    "BUILD.bazel",
                )) {
                    Some(crate::paths::join_parts(&rest, n - 1))
                } else {
                    None
                }
            },
            None => None,
        }
    }
}

/// The name that a mapping has for a repository.
fn mapped_name(entries: &RepoMapping, repo: &str) -> (r: Option<String>)
    ensures
        match r {
            Some(name) => mapping_of(entries@).contains_key(repo@) && mapping_of(entries@)[repo@]
                == name@,
            None => !mapping_of(entries@).contains_key(repo@),
        },
{
    let mut i: usize = entries.len();
    proof {
        assert(entries@.take(i as int) =~= entries@);
    }
    while i > 0
        invariant
            i <= entries@.len(),
            mapping_of(entries@).contains_key(repo@) == mapping_of(
                entries@.take(i as int),
            ).contains_key(repo@),
            mapping_of(entries@).contains_key(repo@) ==> mapping_of(entries@)[repo@] == mapping_of(
                entries@.take(i as int),
            )[repo@],
        decreases i,
    {
        proof {
            assert(entries@.take(i as int).drop_last() =~= entries@.take(i - 1));
            assert(entries@.take(i as int).last() == entries@[i - 1]);
        }
        i = i - 1;
        if same(entries[i].0.as_str(), repo) {
            return Some(entries[i].1.clone());
        }
    }
    None
}

/// Where a label leads.
#[derive(Debug)]
pub enum LabelStep {
    Unknown,
    MappingRequested,
    QueryMapping(String),
    Resolved { path: String, repository: Repository },
}

/// Whether `r` is the path of a label in its repository.
pub open spec fn lands(
    label: Label,
    path: Seq<char>,
    ancestors: Seq<Ancestor>,
    repository: Repository,
    r: Result<LabelStep, LoadError>,
) -> bool {
    let package = package_from(ancestors, repository.root@, 0);
    if label.is_relative && (!is_under(path, repository.root@) || package is None) {
        r matches Err(LoadError::Outside { path: p, root }) && p@ == path && root@
            == repository.root@
    } else {
        let directory = if label.is_relative {
            package->0
        } else {
            joined(repository.root@, label.package@)
        };
        r matches Ok(LabelStep::Resolved { path: p, repository: to }) && p@ == joined(
            directory,
            label.target@,
        ) && to == repository
    }
}

/// The path of a label in its repository: in its package, which for a relative
/// label is that of the file.
fn land(label: &Label, path: &str, ancestors: &Vec<Ancestor>, repository: Repository) -> (r: Result<
    LabelStep,
    LoadError,
>)
    ensures
        lands(*label, path@, ancestors@, repository, r),
{
    let directory = if label.is_relative {
        match package_for_path(path, repository.root.as_str(), ancestors) {
            Ok(package) => package,
            Err(error) => {
                return Err(error);
            },
        }
    } else {
        crate::paths::join(repository.root.as_str(), label.package.as_str())
    };
    Ok(
        LabelStep::Resolved {
            path: crate::paths::join(directory.as_str(), label.target.as_str()),
            repository,
        },
    )
}

/// What to list for a load path that is being typed.
#[derive(Debug)]
pub enum Listing {
    Nothing,
    Mapped(RepoMapping),
    Repositories { directory: String, workspace_name: Option<String> },
    Packages { directory: String, trailing_slash: bool },
    Targets { directory: String },
}

/// What to list for a label, where its repository is known.
#[derive(Debug)]
pub enum ListStep {
    Wait(LabelStep),
    List(Listing),
    Within(Repository),
}

/// Whether a label has only its repository typed.
pub open spec fn names_repository(label: Label, error: Option<ParseError>) -> bool {
    !label.has_leading_slashes && !label.is_relative && error != Some(ParseError::InvalidRepo)
}

/// Whether `r` is what to list for a label in a repository with the directory
/// `root`, typed in a file of the package `package`.
pub open spec fn listing_of(
    label: Label,
    error: Option<ParseError>,
    root: Seq<char>,
    package: Seq<char>,
    r: Listing,
) -> bool {
    match error {
        Some(ParseError::EmptyPackage) => r matches Listing::Packages { directory, trailing_slash }
            && directory@ == root && !trailing_slash,
        Some(ParseError::EmptyTarget) => r matches Listing::Targets { directory } && directory@
            == if label.is_relative {
            package
        } else {
            joined(root, label.package@)
        },
        Some(ParseError::InvalidRepo) => r is Nothing,
        Some(ParseError::Other) => r is Nothing,
        _ => if label.is_relative {
            r matches Listing::Targets { directory } && directory@ == package
        } else if label.target@.len() > 0 && !label.has_target_shorthand {
            match typed_directory(label.target@) {
                Some((directory, _)) => r matches Listing::Targets { directory: d } && d@
                    == joined(joined(root, label.package@), directory),
                None => r is Nothing,
            }
        } else {
            match typed_directory(label.package@) {
                Some((directory, slash)) => r matches Listing::Packages {
                    directory: d,
                    trailing_slash,
                } && d@ == joined(root, directory) && trailing_slash == slash,
                None => r is Nothing,
            }
        },
    }
}

/// What to list for a label whose repository is known. A label without a
/// package is about to get one, one without a target a target; a relative label
/// stays in the package of its file.
fn listing(
    label: &Label,
    error: Option<ParseError>,
    root: &str,
    package: &str,
) -> (r: Listing)
    ensures
        listing_of(*label, error, root@, package@, r),
{
    match error {
        Some(ParseError::EmptyPackage) => Listing::Packages {
            directory: root.to_owned(),
            trailing_slash: false,
        },
        Some(ParseError::EmptyTarget) => Listing::Targets {
            directory: if label.is_relative {
                package.to_owned()
            } else {
                crate::paths::join(root, label.package.as_str())
            },
        },
        Some(ParseError::InvalidRepo) => Listing::Nothing,
        Some(ParseError::Other) => Listing::Nothing,
        _ => {
            if label.is_relative {
                Listing::Targets { directory: package.to_owned() }
            } else if !label.target.as_str().is_empty() && !label.has_target_shorthand {
                let package_dir = crate::paths::join(root, label.package.as_str());
                match strip_slashes_or_pop_dir(label.target.as_str()) {
                    Some((directory, _)) => Listing::Targets {
                        directory: crate::paths::join(package_dir.as_str(), directory.as_str()),
                    },
                    None => Listing::Nothing,
                }
            } else {
                match strip_slashes_or_pop_dir(label.package.as_str()) {
                    Some((directory, trailing_slash)) => Listing::Packages {
                        directory: crate::paths::join(root, directory.as_str()),
                        trailing_slash,
                    },
                    None => Listing::Nothing,
                }
            }
        },
    }
}

/// Where a path leads: to a file, or to a target of the build file next to it.
#[derive(Debug)]
pub enum PathStep {
    Nothing,
    Source { path: String },
    BuildTarget { build_file: String, target: String },
}

/// The first build file among the names of a directory.
pub open spec fn build_file_in(names: Seq<String>, n: int) -> Option<Seq<char>>
    decreases n,
{
    if n <= 0 {
        None
    } else {
        match build_file_in(names, n - 1) {
            Some(name) => Some(name),
            None => if names[n - 1]@ == "BUILD"@ || names[n - 1]@ == "BUILD.bazel"@ {
                Some(names[n - 1]@)
            } else {
                None
            },
        }
    }
}

/// Where a label leads: to the file at its path if there is one, or else to the
/// target of the build file in the directory of the path.
pub fn resolve_path(
    target: &str,
    path: String,
    is_file: bool,
    parent: &Option<String>,
    names: &Vec<String>,
) -> (r: PathStep)
    ensures
        if is_file {
            r == (PathStep::Source { path })
        } else {
            match (*parent, build_file_in(names@, names@.len() as int)) {
                (Some(directory), Some(name)) if target@.len() > 0 => r matches
                    PathStep::BuildTarget { build_file, target: t } && build_file@ == joined(
                    directory@,
                    name,
                ) && t@ == target@,
                _ => r is Nothing,
            }
        },
{
    if is_file {
        return PathStep::Source { path };
    }
    if target.is_empty() {
        return PathStep::Nothing;
    }
    let directory = match parent {
        Some(directory) => directory,
        None => {
            return PathStep::Nothing;
        },
    };
    let mut i: usize = 0;
    while i < names.len()
        invariant
            i <= names@.len(),
            build_file_in(names@, i as int) is None,
            target@.len() > 0,
            !is_file,
            *parent == Some(*directory),
        decreases names@.len() - i,
    {
        if same(names[i].as_str(), "BUILD") || same(names[i].as_str(), "BUILD.bazel") {
            proof {
                first_build_file(names@, i as int, names@.len() as int);
            }
            return PathStep::BuildTarget {
                build_file: crate::paths::join(directory.as_str(), names[i].as_str()),
                target: target.to_owned(),
            };
        }
        i = i + 1;
    }
    PathStep::Nothing
}

/// The first build file stays the first.
proof fn first_build_file(names: Seq<String>, i: int, n: int)
    requires
        0 <= i < n,
        build_file_in(names, i + 1) is Some,
    ensures
        build_file_in(names, n) == build_file_in(names, i + 1),
    decreases n - i,
{
    if n > i + 1 {
        first_build_file(names, i, n - 1);
    }
}

/// Whether a repository has to be fetched after a file of it could not be read:
/// it is another one than the main one, and it is not there.
pub fn fetch_after_failure(loader: &Loader, repository: &Option<Repository>, root_exists: Option<bool>) -> (r:
    bool)
    ensures
        r == (root_exists == Some(false) && loader.external_output_base is Some && (
        *repository matches Some(repository) && repository.name@.len() > 0)),
{
    let is_external = match repository {
        Some(repository) => !repository.name.as_str().is_empty(),
        None => false,
    };
    let is_missing = match root_exists {
        Some(exists) => !exists,
        None => false,
    };
    is_external && is_missing && loader.has_bazel_context()
}

/// What a load leads to.
#[derive(Debug)]
pub struct LoadTarget {
    pub path: String,
    pub info: Option<FileInfo>,
    pub repository: Option<Repository>,
}

/// What to do about a load.
#[derive(Debug)]
pub enum LoadStep {
    Wait(LabelStep),
    Read(LoadTarget),
}

/// Whether `r` is what a load leads to where its label leads to `step`.
pub open spec fn load_step(
    step: Result<LabelStep, LoadError>,
    r: Result<LoadStep, LoadError>,
) -> bool {
    match step {
        Err(error) => r == Err::<LoadStep, LoadError>(error),
        Ok(LabelStep::Resolved { path, repository }) => r matches Ok(LoadStep::Read(target))
            && target.path == path && target.repository == Some(repository) && target.info == Some(
            FileInfo::Bazel { api_context: APIContext::Bzl, is_external: repository.name@.len() > 0 },
        ),
        Ok(step) => r == Ok::<LoadStep, LoadError>(LoadStep::Wait(step)),
    }
}

/// How far a label could be followed.
#[derive(Debug)]
pub enum Entry {
    Stop(LabelStep),
    From(Repository, MappingLookup),
}

/// Whether `r` is what comes of a repository with a mapping that is needed.
pub open spec fn entry_of(
    name: Seq<char>,
    root: Seq<char>,
    lookup: MappingLookup,
    r: Result<Entry, LoadError>,
) -> bool {
    match lookup {
        MappingLookup::Loading => r matches Ok(Entry::Stop(LabelStep::Unknown)),
        MappingLookup::Requested => r matches Ok(Entry::Stop(LabelStep::MappingRequested)),
        MappingLookup::Query => r matches Ok(Entry::Stop(LabelStep::QueryMapping(n))) && n@ == name,
        MappingLookup::Failed(error) => r matches Err(LoadError::MappingFailed(e)) && e@ == error@,
        MappingLookup::Ready(mapping) => r matches Ok(Entry::From(from, known)) && from.name@
            == name && from.root@ == root && known == lookup,
    }
}

/// The directory to list for a path that is being typed in a file of the standard
/// dialect: the path below the directory of the file, up to its last part unless it
/// ends in a slash.
pub open spec fn typed_below(file: Seq<char>, typed: Seq<char>) -> Option<Seq<char>> {
    let path = joined(crate::paths::parent_of(file)->0, typed);
    if has_suffix(typed, "/"@) {
        Some(path)
    } else {
        crate::paths::text_before_last(path)
    }
}

/// The directory to list for a path that is being typed in a file of the standard
/// dialect.
pub fn directory_to_list(file: &str, typed: &str) -> (r: Option<String>)
    requires
        crate::paths::parent_of(file@) is Some,
    ensures
        crate::lower_spec::text_of(r) == typed_below(file@, typed@),
{
    let directory = match crate::paths::parent(file) {
        Some(directory) => directory,
        None => {
            return None;
        },
    };
    let path = crate::paths::join(directory.as_str(), typed);
    if crate::text::ends_with(typed, "/") {
        Some(path)
    } else {
        crate::paths::before_last(path.as_str())
    }
}

/// The names in a mapping, each once.
pub open spec fn mapped_names(entries: Seq<(String, String)>, n: int) -> Seq<Seq<char>>
    decreases n,
{
    if n <= 0 {
        seq![]
    } else {
        let rest = mapped_names(entries, n - 1);
        if rest.contains(entries[n - 1].0@) {
            rest
        } else {
            rest.push(entries[n - 1].0@)
        }
    }
}

/// Whether a candidate is the repository of a name.
pub open spec fn is_repository_candidate(c: LoadItemCandidate, name: Seq<char>) -> bool {
    c.kind == LoadItemCandidateKind::Directory && c.path@ == name && !c.replace_trailing_slash
}

/// Whether candidates are the repositories of names, one by one.
pub open spec fn are_repositories(names: Seq<Seq<char>>, out: Seq<LoadItemCandidate>) -> bool {
    &&& out.len() == names.len()
    &&& forall|i: int|
        0 <= i < names.len() ==> is_repository_candidate(#[trigger] out[i], names[i])
}

/// Whether `r` is what is offered for a listing, given the entries of its directory:
/// the names of a mapping, the repositories with that of the workspace behind them,
/// or packages and targets.
pub open spec fn is_offer(
    listing: Listing,
    entries: Seq<DirEntry>,
    r: Option<Vec<LoadItemCandidate>>,
) -> bool {
    match listing {
        Listing::Nothing => r is None,
        Listing::Mapped(mapping) => r matches Some(out) && are_repositories(
            mapped_names(mapping@, mapping@.len() as int),
            out@,
        ),
        Listing::Repositories { directory: _, workspace_name } => r matches Some(out) && match workspace_name {
            Some(name) => {
                &&& out@.len() > 0
                &&& is_repository_candidate(out@.last(), name@)
                &&& candidates_of(CandidateStyle::Directories, entries, out@.drop_last())
            },
            None => candidates_of(CandidateStyle::Directories, entries, out@),
        },
        Listing::Packages { directory: _, trailing_slash } => r matches Some(out) && candidates_of(
            CandidateStyle::PackagesAndTargets { trailing_slash },
            entries,
            out@,
        ),
        Listing::Targets { directory: _ } => r matches Some(out) && candidates_of(
            CandidateStyle::Targets,
            entries,
            out@,
        ),
    }
}

/// The candidates for the names in a mapping.
fn mapped_candidates(mapping: &RepoMapping) -> (out: Vec<LoadItemCandidate>)
    ensures
        are_repositories(mapped_names(mapping@, mapping@.len() as int), out@),
{
    let mut out: Vec<LoadItemCandidate> = Vec::new();
    let mut i: usize = 0;
    while i < mapping.len()
        invariant
            i <= mapping@.len(),
            are_repositories(mapped_names(mapping@, i as int), out@),
        decreases mapping@.len() - i,
    {
        let name = mapping[i].0.as_str();
        let ghost names = mapped_names(mapping@, i as int);
        let mut known = false;
        let mut k: usize = 0;
        while k < out.len()
            invariant
                k <= out@.len(),
                are_repositories(names, out@),
                known == exists|j: int| 0 <= j < k && #[trigger] names[j] == name@,
            decreases out@.len() - k,
        {
            proof {
                assert(is_repository_candidate(out@[k as int], names[k as int]));
            }
            if same(out[k].path.as_str(), name) {
                known = true;
                proof {
                    assert(names[k as int] == name@);
                }
            }
            k = k + 1;
        }
        proof {
            if known {
                let j = choose|j: int| 0 <= j < k && #[trigger] names[j] == name@;
                assert(names.contains(name@));
            } else if names.contains(name@) {
                let j = choose|j: int| 0 <= j < names.len() && names[j] == name@;
                assert(names[j] == name@);
            }
        }
        if !known {
            let ghost before = out@;
            out.push(
                LoadItemCandidate {
                    kind: LoadItemCandidateKind::Directory,
                    path: mapping[i].0.clone(),
                    replace_trailing_slash: false,
                },
            );
            proof {
                let more = mapped_names(mapping@, i + 1);
                assert forall|j: int| 0 <= j < more.len() implies is_repository_candidate(
                    #[trigger] out@[j],
                    more[j],
                ) by {
                    if j < names.len() {
                        assert(out@[j] == before[j]);
                        assert(is_repository_candidate(before[j], names[j]));
                    }
                }
            }
        }
        i = i + 1;
    }
    out
}

/// What is offered for a listing, given the entries of its directory.
pub fn offer(listing: &Listing, entries: &Vec<DirEntry>) -> (r: Option<Vec<LoadItemCandidate>>)
    ensures
        is_offer(*listing, entries@, r),
{
    match listing {
        Listing::Nothing => None,
        Listing::Mapped(mapping) => Some(mapped_candidates(mapping)),
        Listing::Repositories { directory: _, workspace_name } => {
            let mut out = candidates(CandidateStyle::Directories, entries);
            if let Some(name) = workspace_name {
                let ghost before = out@;
                out.push(
                    LoadItemCandidate {
                        kind: LoadItemCandidateKind::Directory,
                        path: name.clone(),
                        replace_trailing_slash: false,
                    },
                );
                proof {
                    assert(out@.drop_last() =~= before);
                }
            }
            Some(out)
        },
        Listing::Packages { directory: _, trailing_slash } => Some(
            candidates(
                CandidateStyle::PackagesAndTargets { trailing_slash: *trailing_slash },
                entries,
            ),
        ),
        Listing::Targets { directory: _ } => Some(candidates(CandidateStyle::Targets, entries)),
    }
}

} // verus!
