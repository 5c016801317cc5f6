//! The state of a server, its documents and its jobs.

use std::sync::Arc;

use starpls::batches::RepositoryFetchResult;
use starpls::client::RepoMapping;
use starpls::common::{APIContext, Dialect, File, FileInfo};
use starpls::diagnostics::{AnalysisDebouncer, DiagnosticsManager};
use starpls::loader::{Label, LoadError, Loader, MappingLookup, RepoKind, Repository};
use starpls::name_map::NameMap;
use starpls::server::{
    fetch_title, Action, DiagnosticTarget, FinishedJob, PreparedConfiguration, Progress,
    RestoredDocument, Server, Session, Task,
};
use starpls::system::{disk_source_path, Attempt, Canonical, DocumentStamp, SourceSystem};
use starpls::watch::{escape_glob, is_bazel_dependency, Change};

fn options() -> Session {
    Session {
        revision: 0,
        complete: false,
        refreshing: false,
        pending: false,
        needs_reopen: false,
        restart_required: false,
        watcher_id: 0,
        is_fetching_repos: false,
        is_resolving_repo_mappings: false,
        is_refreshing_all_workspace_targets: false,
        bzlmod_enabled: false,
        analysis_changed: false,
        enable_label_completions: false,
        refreshes_tokens: false,
        refreshes_hints: false,
        registers_watchers: false,
        relative_patterns: false,
        interfaces_configured: false,
    }
}

fn server(session: Session) -> Server {
    Server {
        session,
        workspace: "/workspace".to_owned(),
        loader: Loader::new("/workspace".to_owned(), None, Some("/external".to_owned()), false),
        pending_repos: Vec::new(),
        inputs: NameMap::new(),
        watched: Vec::new(),
        analysis_requested_for_files: None,
        diagnostics_manager: DiagnosticsManager::new(),
    }
}

fn handle(server: &mut Server, task: Task) -> Vec<Action> {
    let mut out = Vec::new();
    server.handle_task(task, &mut out);
    out
}

fn refreshes(actions: &[Action]) -> Vec<&'static str> {
    actions
        .iter()
        .filter_map(|action| match action {
            Action::RefreshTokens => Some("workspace/semanticTokens/refresh"),
            Action::RefreshHints => Some("workspace/inlayHint/refresh"),
            _ => None,
        })
        .collect()
}

fn mappings_ready(revision: u64) -> Task {
    Task::RepoMappingsReady {
        repositories: vec![String::new()],
        revision,
        result: Ok(vec![Default::default()]),
    }
}

#[test]
fn semantic_refresh_follows_capabilities_and_accepted_results() {
    {
        let mut server = server(options());
        let mut out = Vec::new();
        server.refresh_editor_semantics(&mut out);
        assert!(out.is_empty());
        server.session.is_fetching_repos = true;
        handle(
            &mut server,
            Task::FetchEnd {
                revision: 1,
                results: vec![
                    RepositoryFetchResult { name: "old-success+".to_owned(), result: Ok(()) },
                    RepositoryFetchResult {
                        name: "old-failure+".to_owned(),
                        result: Err("old configuration failure".to_owned()),
                    },
                ],
                open_repository_changed: false,
            },
        );
        assert!(!server.session.is_fetching_repos);
        assert!(server.loader.begin_fetch("old-success+".to_owned()));
        assert!(server.loader.begin_fetch("old-failure+".to_owned()));
    }
    for (tokens, hints) in [
        (None, None),
        (Some(false), Some(false)),
        (Some(true), None),
        (None, Some(true)),
        (Some(true), Some(true)),
    ] {
        let mut server = server(Session {
            refreshes_tokens: tokens == Some(true),
            refreshes_hints: hints == Some(true),
            ..options()
        });
        let stale = handle(&mut server, mappings_ready(1));
        assert!(refreshes(&stale).is_empty(), "stale mapping must not refresh");
        let current = handle(&mut server, mappings_ready(0));
        let expected = [
            (tokens, "workspace/semanticTokens/refresh"),
            (hints, "workspace/inlayHint/refresh"),
        ]
        .into_iter()
        .filter_map(|(enabled, method)| (enabled == Some(true)).then_some(method))
        .collect::<Vec<_>>();
        assert_eq!(refreshes(&current), expected);
        server.invalidate_diagnostics();
        assert!(server.session.analysis_changed);
    }
}

fn request(loader: &mut Loader, name: &str) -> Result<Repository, LoadError> {
    let from = Repository { name: name.to_owned(), root: format!("/external/{name}") };
    let label = Label {
        kind: RepoKind::Apparent,
        repo: "child".to_owned(),
        package: String::new(),
        target: "defs.bzl".to_owned(),
        has_leading_slashes: true,
        is_relative: false,
        has_target_shorthand: false,
    };
    let mapping: MappingLookup = loader.repository_mapping(name);
    loader.resolve_repository(&label, &from, &mapping)
}

fn asked(out: &[Action]) -> Vec<(Vec<String>, u64)> {
    out.iter()
        .filter_map(|action| match action {
            Action::QueryMappings { repositories, revision } => {
                Some((repositories.clone(), *revision))
            }
            _ => None,
        })
        .collect()
}

fn answer(query: &(Vec<String>, u64), fail: bool) -> Task {
    let result = if fail {
        Err("blocked Bazel command failed".to_owned())
    } else {
        let mapping: RepoMapping = Arc::new(vec![("child".to_owned(), "child+".to_owned())]);
        Ok(query.0.iter().map(|_| mapping.clone()).collect())
    };
    Task::RepoMappingsReady { repositories: query.0.clone(), revision: query.1, result }
}

#[test]
fn mapping_batches_accumulate_requests_and_discard_stale_results() {
    for (stale, fail) in [(false, false), (false, true), (true, false)] {
        let mut server = server(options());
        server.loader =
            Loader::new("/workspace".to_owned(), None, Some("/external".to_owned()), true)
                .for_editor(0);
        for name in ["b+", "a+", "a+"] {
            let error = request(&mut server.loader, name).unwrap_err();
            assert!(error.message().contains("loading"));
        }
        let mut out = Vec::new();
        server.handle_task(Task::ResolveRepoMappings, &mut out);
        server.settle(&mut out);
        assert!(server.session.is_resolving_repo_mappings);
        let first = asked(&out);
        assert_eq!(first.len(), 1);
        assert_eq!(first[0].0, ["a+", "b+"]);

        if stale {
            server.session.revision = 1;
            server.loader = server.loader.fresh().for_editor(1);
        }
        for name in ["c+", "d+", "c+"] {
            assert!(request(&mut server.loader, name).is_err());
        }
        let mut out = Vec::new();
        server.handle_task(Task::ResolveRepoMappings, &mut out);
        server.settle(&mut out);
        assert!(server.session.is_resolving_repo_mappings);
        assert!(asked(&out).is_empty());
        server.session.analysis_changed = false;
        let out = handle(&mut server, answer(&first[0], fail));
        assert!(!server.session.is_resolving_repo_mappings);
        assert_eq!(server.session.analysis_changed, !stale);
        let errors = out
            .iter()
            .filter(|action| match action {
                Action::ShowError(text) => text.contains("blocked Bazel command failed"),
                _ => false,
            })
            .count();
        assert_eq!(errors, usize::from(fail && !stale));
        if !stale {
            for name in ["a+", "b+"] {
                let result = request(&mut server.loader, name);
                assert_eq!(result.is_err(), fail);
                if let Err(error) = result {
                    assert!(error.message().contains("blocked Bazel command failed"));
                }
            }
        } else {
            assert_eq!(server.loader.pending_repository_mappings(), ["c+", "d+"]);
        }
        let mut out = Vec::new();
        server.settle(&mut out);
        let second = asked(&out);
        assert_eq!(second.len(), 1);
        assert_eq!(second[0].0, ["c+", "d+"]);
        handle(&mut server, answer(&second[0], false));
        assert!(!server.session.is_resolving_repo_mappings);
        assert!(server.loader.pending_repository_mappings().is_empty());
        assert!(request(&mut server.loader, "c+").is_ok());
        assert!(request(&mut server.loader, "d+").is_ok());
    }
}

fn main_file(dialect: Dialect, info: Option<FileInfo>) -> File {
    File { source: 7, dialect, info }
}

/// The stamp of the open document at a path, and the revision of its file.
fn state(system: &mut SourceSystem, path: &str) -> (Option<DocumentStamp>, Option<u128>) {
    let stamp = system.document(path, path).map(|document| document.stamp());
    (stamp, system.path_metadata(path, path, Some(5)))
}

#[test]
fn completed_jobs_belong_to_their_requested_buffers() {
    let mut system = SourceSystem::new();
    let path = "/main.star";
    let open = |system: &mut SourceSystem, text: &str, version: i32| {
        system.open(path, path, text.to_owned(), Dialect::Standard, None, version).unwrap();
    };
    open(&mut system, "value = 1\n", 1);
    let file = main_file(Dialect::Standard, None);
    let imported = main_file(
        Dialect::Bazel,
        Some(FileInfo::Bazel { api_context: APIContext::Bzl, is_external: false }),
    );
    let mut jobs = DiagnosticsManager::new();
    let request = |jobs: &mut DiagnosticsManager, system: &mut SourceSystem, asked: File| {
        let (stamp, revision) = state(system, path);
        let open = stamp.map(|_| file);
        jobs.request(asked, open, false, stamp, revision).unwrap()
    };
    let complete = |jobs: &mut DiagnosticsManager, system: &mut SourceSystem, ticket| {
        let (stamp, revision) = state(system, path);
        jobs.complete(file, ticket, stamp, revision)
    };
    let (editor_file, _) = request(&mut jobs, &mut system, imported);
    assert_eq!(editor_file, file);
    let (_, first) = request(&mut jobs, &mut system, file);
    let (_, second) = request(&mut jobs, &mut system, file);
    assert!(!complete(&mut jobs, &mut system, first));
    assert!(complete(&mut jobs, &mut system, second));
    assert!(!complete(&mut jobs, &mut system, second));

    let (_, old) = request(&mut jobs, &mut system, file);
    open(&mut system, "value = 2\n", 2);
    let edited = system.document(path, path).unwrap().stamp();
    assert!(!complete(&mut jobs, &mut system, old));
    let (_, current) = request(&mut jobs, &mut system, file);
    assert_eq!(current.document.unwrap().version, 2);
    assert!(complete(&mut jobs, &mut system, current));

    let (_, before_close) = request(&mut jobs, &mut system, file);
    system.close(path, path).unwrap();
    assert!(!complete(&mut jobs, &mut system, before_close));
    open(&mut system, "value = 2\n", 2);
    let reopened = system.document(path, path).unwrap().stamp();
    assert_ne!(edited, reopened);
    assert!(!complete(&mut jobs, &mut system, before_close));
    let (_, current) = request(&mut jobs, &mut system, file);
    assert!(complete(&mut jobs, &mut system, current));
}

#[test]
fn a_file_that_is_not_open_has_no_job() {
    let mut jobs = DiagnosticsManager::new();
    let file = main_file(Dialect::Standard, None);
    assert!(jobs.request(file, None, false, None, Some(1)).is_none());
    assert!(jobs.request(file, None, true, None, None).is_none());
    let (_, ticket) = jobs.request(file, None, true, None, Some(1)).unwrap();
    jobs.cancel_all();
    assert!(!jobs.complete(file, ticket, None, Some(1)));
}

#[test]
fn a_source_is_open_under_one_path() {
    let mut system = SourceSystem::new();
    let open = |system: &mut SourceSystem, path: &str, text: &str| {
        system.open(path, "/real.bzl", text.to_owned(), Dialect::Bazel, None, 1)
    };
    assert_eq!(open(&mut system, "/one.bzl", "a").unwrap(), "/one.bzl");
    assert_eq!(
        open(&mut system, "/two.bzl", "b").unwrap_err(),
        "file is already open at /one.bzl"
    );
    // An open path keeps its buffer wherever it leads on disk later.
    assert_eq!(system.document("/one.bzl", "/moved.bzl").unwrap().contents, "a");
    assert_eq!(system.document("/two.bzl", "/real.bzl").unwrap().contents, "a");
    assert!(system.validate_document("/one.bzl", "/real.bzl").is_ok());
    assert_eq!(
        system.validate_document("/one.bzl", "/moved.bzl").unwrap_err(),
        "open file /one.bzl refers to /moved.bzl after the dependency change (buffer: /real.bzl); close and reopen it to use the new repository"
    );
    assert!(system.close("/one.bzl", "/real.bzl").is_some());
    assert!(system.close("/one.bzl", "/real.bzl").is_none());
    assert!(open(&mut system, "/two.bzl", "b").is_ok());
    system.set_document_info(
        "/real.bzl",
        Some(FileInfo::Bazel { api_context: APIContext::Build, is_external: true }),
    );
    assert!(system.document("/two.bzl", "/real.bzl").unwrap().info.is_some());
}

#[test]
fn paths_that_share_a_source_change_together() {
    let mut system = SourceSystem::new();
    assert_eq!(system.paths_for_change("/a", "/real"), ["/a"]);
    let mut both = system.paths_for_change("/b", "/real");
    both.sort();
    assert_eq!(both, ["/a", "/b"]);
    // A link that moved affects the paths of both of its sources.
    let mut moved = system.paths_for_change("/b", "/other");
    moved.sort();
    assert_eq!(moved, ["/a", "/b"]);
    assert_eq!(system.source_aliases("/b", "/other"), ["/b"]);
    assert_eq!(system.source_aliases("/a", "/real"), ["/a"]);
    // A revision changes with the source or with what is on disk, and never back.
    let first = system.path_metadata("/a", "/real", Some(10)).unwrap();
    assert_eq!(system.path_metadata("/a", "/real", Some(10)), Some(first));
    let second = system.path_metadata("/a", "/real", Some(11)).unwrap();
    let third = system.path_metadata("/a", "/elsewhere", Some(11)).unwrap();
    assert!(first < second && second < third);
    assert!(system.set_virtual_source("builtins", "a".to_owned()));
    assert!(!system.set_virtual_source("builtins", "a".to_owned()));
    assert!(system.set_virtual_source("builtins", "b".to_owned()));
}

#[test]
fn a_missing_file_is_found_below_the_directory_that_is_there() {
    let attempt = |ancestor: &str, canonical: Canonical| Attempt {
        ancestor: ancestor.to_owned(),
        canonical,
    };
    let attempts = vec![
        attempt("/link/dir/new.bzl", Canonical::NotFound("none".to_owned())),
        attempt("/link/dir", Canonical::NotFound("none".to_owned())),
        attempt("/link", Canonical::Found("/real".to_owned())),
    ];
    assert_eq!(disk_source_path("/link/dir/new.bzl", &attempts).unwrap(), "/real/dir/new.bzl");
    let found = vec![attempt("/link", Canonical::Found("/real".to_owned()))];
    assert_eq!(disk_source_path("/link", &found).unwrap(), "/real");
    let failed = vec![attempt("/link", Canonical::Failed("denied".to_owned()))];
    assert_eq!(disk_source_path("/link", &failed).unwrap_err(), "denied");
    let none = vec![attempt("/", Canonical::NotFound("gone".to_owned()))];
    assert_eq!(disk_source_path("/", &none).unwrap_err(), "gone");
}

#[test]
fn jobs_are_published_once() {
    let mut server = server(options());
    let file = main_file(Dialect::Standard, None);
    let target = DiagnosticTarget {
        file,
        open: Some(file),
        is_interface_root: false,
        document: None,
        revision: Some(3),
    };
    let started = server.update_diagnostics(&vec![target, DiagnosticTarget { open: None, ..target }]);
    assert_eq!(started.len(), 1);
    let done = FinishedJob { file, ticket: started[0].1, document: None, revision: Some(3) };
    let out = handle(&mut server, Task::DiagnosticsReady(vec![done, done]));
    assert!(matches!(out.as_slice(), [Action::Publish { result: 0 }]));
    let old = handle(&mut server, Task::ResponseReady { revision: 4, message: 9 });
    assert!(matches!(old.as_slice(), [Action::Handle { message: 9 }]));
    let now = handle(&mut server, Task::ResponseReady { revision: 0, message: 9 });
    assert!(matches!(now.as_slice(), [Action::Respond { message: 9 }]));
}

#[test]
fn fetches_are_reported_and_asked_for_once() {
    let mut server = server(Session { bzlmod_enabled: true, ..options() });
    for _ in 0..2 {
        handle(
            &mut server,
            Task::FetchExternalRepoRequest { repo: "b+".to_owned(), revision: 0 },
        );
    }
    handle(&mut server, Task::FetchExternalRepoRequest { repo: "old+".to_owned(), revision: 7 });
    assert_eq!(server.pending_repos, ["b+"]);
    let mut out = Vec::new();
    server.settle(&mut out);
    assert!(server.session.is_fetching_repos);
    assert!(matches!(
        out.as_slice(),
        [Action::FetchRepositories { repositories, revision: 0 }] if repositories == &["b+"]
    ));
    assert_eq!(
        fetch_title(&vec!["b+".to_owned(), "a+".to_owned()]),
        "Fetching external repositories: \"a+\", \"b+\""
    );
    let out = handle(
        &mut server,
        Task::FetchEnd {
            revision: 0,
            results: vec![
                RepositoryFetchResult { name: "b+".to_owned(), result: Err("x".to_owned()) },
                RepositoryFetchResult { name: "c+".to_owned(), result: Err("y".to_owned()) },
            ],
            open_repository_changed: false,
        },
    );
    let shown: Vec<_> = out
        .iter()
        .filter_map(|action| match action {
            Action::ShowError(text) => Some(text.as_str()),
            _ => None,
        })
        .collect();
    assert_eq!(
        shown,
        ["Failed to fetch external repositories: b+, c+. Please check the server logs for more details."]
    );
    assert!(matches!(out.last(), Some(Action::EndProgress(Progress::FetchExternalRepos))));
    assert_eq!(Progress::FetchExternalRepos.token(), "FetchExternalRepos");
}

fn prepared(inputs_changed: bool, documents: Vec<RestoredDocument>) -> PreparedConfiguration {
    PreparedConfiguration {
        loader: Loader::new("/workspace".to_owned(), None, Some("/external".to_owned()), true),
        inputs_changed,
        documents,
    }
}

#[test]
fn a_configuration_is_taken_over_by_its_revision() {
    let mut out = Vec::new();
    let mut server = Server::with_client(
        "/workspace".to_owned(),
        Session { enable_label_completions: true, ..options() },
        NameMap::new(),
        &mut out,
    );
    assert!(server.session.refreshing && server.loader.paused);
    assert!(matches!(
        out.as_slice(),
        [Action::InvalidateLoads, Action::PrepareConfiguration { revision: 0 }]
    ));
    // The inputs changed while it was prepared.
    let out = handle(
        &mut server,
        Task::ConfigurationReady { revision: 0, result: Ok(prepared(true, Vec::new())) },
    );
    assert!(matches!(out.last(), Some(Action::PrepareConfiguration { revision: 0 })));
    // It was prepared for another revision.
    server.session.pending = true;
    let out = handle(
        &mut server,
        Task::ConfigurationReady { revision: 8, result: Err("late".to_owned()) },
    );
    assert!(matches!(out.last(), Some(Action::PrepareConfiguration { revision: 0 })));
    let document = RestoredDocument {
        path: "/workspace/a.bzl".to_owned(),
        ancestors: Vec::new(),
        source_error: Some("moved".to_owned()),
    };
    let out = handle(
        &mut server,
        Task::ConfigurationReady { revision: 0, result: Ok(prepared(false, vec![document])) },
    );
    assert!(matches!(
        out.as_slice(),
        [Action::ShowError(text), Action::InstallConfiguration { error: Some(_) }] if text == "moved"
    ));
    assert!(server.session.needs_reopen && server.session.bzlmod_enabled);
    assert_eq!(server.session.revision, 1);
    let mut out = Vec::new();
    server.configuration_installed(Ok(()), NameMap::new(), &mut out);
    assert!(server.session.complete);
    assert!(matches!(out.as_slice(), [Action::QueryTargets { revision: 1 }]));
    assert!(server.ensure_workspace_ready().is_ok());
    let mut out = Vec::new();
    server.did_close_text_document(&mut out);
    assert_eq!(server.session.revision, 2);
    assert!(server.ensure_workspace_ready().is_err());
    let out = handle(
        &mut server,
        Task::ConfigurationReady { revision: 2, result: Err("no bazel".to_owned()) },
    );
    assert!(matches!(out.as_slice(), [Action::ShowError(text)] if text.ends_with("no bazel")));
    assert!(!server.loader.paused);
}

fn change(path: &str, contents: Option<&[u8]>) -> Change {
    Change { path: path.to_owned(), contents: contents.map(|bytes| bytes.to_vec()) }
}

#[test]
fn a_change_of_the_configuration_loads_it_again() {
    let mut server = server(options());
    let known = NameMap::new();
    let mut out = Vec::new();
    server.configuration_changed(vec![change("/workspace/a.bzl", Some(b"x"))], &known, &mut out);
    assert!(out.is_empty());
    let module = || vec![change("/workspace/MODULE.bazel", Some(b"module()"))];
    server.configuration_changed(module(), &known, &mut out);
    assert_eq!(server.session.revision, 1);
    assert!(matches!(out.last(), Some(Action::PrepareConfiguration { revision: 1 })));
    let mut out = Vec::new();
    server.configuration_changed(module(), &known, &mut out);
    assert!(out.is_empty(), "the same contents are no change");
    server.configuration_changed(
        vec![change("/workspace/.bazelrc", Some(b"build"))],
        &known,
        &mut out,
    );
    assert!(server.session.restart_required && !server.session.pending);
    assert!(matches!(out.last(), Some(Action::ShowError(text)) if text.contains("Restart Starpls")));
    assert!(is_bazel_dependency("/w/nodejs.MODULE.bazel"));
    assert!(!is_bazel_dependency("/w/BUILD"));
}

#[test]
fn watchers_are_registered_anew_when_paths_change() {
    let mut server = server(Session { registers_watchers: true, ..options() });
    let roots = vec!["/workspace".to_owned(), "/external/a+".to_owned()];
    let manifests = vec!["/workspace/st[u]bs.toml".to_owned()];
    let interfaces = vec!["/workspace/a.bzli".to_owned(), "/types/b.bzli".to_owned()];
    let mut out = Vec::new();
    let first = server.watch_type_interfaces(&roots, &manifests, &interfaces, &mut out).unwrap();
    assert_eq!((first.id, first.replaced), (1, None));
    assert_eq!(first.watchers.len(), 2, "without relative patterns only the workspace");
    assert_eq!(out.len(), 2);
    assert!(first.watchers.iter().any(|watcher| watcher.pattern == "st[[]u[]]bs.toml"));
    let mut out = Vec::new();
    assert!(server.watch_type_interfaces(&roots, &manifests, &interfaces, &mut out).is_none());
    // Two texts of one path are one place.
    let doubled: Vec<String> = roots.iter().map(|root| format!("{root}/./")).collect();
    assert!(server.watch_type_interfaces(&doubled, &manifests, &interfaces, &mut out).is_none());
    server.session.relative_patterns = true;
    let second = server.watch_type_interfaces(&roots, &manifests, &Vec::new(), &mut out).unwrap();
    assert_eq!((second.id, second.replaced), (2, Some(1)));
    assert_eq!(second.watchers.len(), 3);
    assert_eq!(escape_glob("a*b"), "a[*]b");
    let mut unable = self::server(options());
    let mut out = Vec::new();
    assert!(unable.watch_type_interfaces(&roots, &manifests, &interfaces, &mut out).is_none());
    assert!(matches!(out.as_slice(), [Action::ShowError(_)]));
    let mut out = Vec::new();
    server.complete_request(1, Some("late".to_owned()), Vec::new(), &NameMap::new(), &mut out);
    assert!(out.is_empty());
    server.complete_request(2, Some("no".to_owned()), Vec::new(), &NameMap::new(), &mut out);
    assert!(matches!(
        out.as_slice(),
        [Action::ShowError(text)]
            if text == "Cannot watch type interfaces: no. Changes to closed files will not be reported."
    ));
}

#[test]
fn documents_are_opened_in_their_dialect() {
    let server = server(options());
    assert_eq!(
        server.opened_as("/elsewhere/BUILD.bazel"),
        Some((
            Dialect::Bazel,
            Some(FileInfo::Bazel { api_context: APIContext::Build, is_external: true })
        ))
    );
    assert_eq!(server.opened_as("/workspace/a.star"), Some((Dialect::Standard, None)));
}

#[test]
fn targets_of_an_old_revision_are_asked_for_again() {
    let mut server = server(Session { enable_label_completions: true, ..options() });
    let mut out = Vec::new();
    server.refresh_all_workspace_targets(&mut out);
    server.refresh_all_workspace_targets(&mut out);
    assert_eq!(out.len(), 1);
    let stale = handle(
        &mut server,
        Task::TargetsEnd { revision: 5, targets: None, open_repository_changed: false },
    );
    assert!(matches!(
        stale.as_slice(),
        [Action::QueryTargets { revision: 0 }, Action::EndProgress(_)]
    ));
    let current = handle(
        &mut server,
        Task::TargetsEnd {
            revision: 0,
            targets: Some(vec!["//:a".to_owned()]),
            open_repository_changed: false,
        },
    );
    assert!(matches!(current.as_slice(), [Action::SetTargets(_), Action::InvalidateLoads, Action::EndProgress(_)]));
    let mut saved = Vec::new();
    server.did_save_text_document(change("/workspace/BUILD", None), &NameMap::new(), &mut saved);
    assert!(matches!(saved.as_slice(), [Action::QueryTargets { .. }]));
}

#[test]
fn files_wait_until_nothing_more_comes() {
    let mut waiting = AnalysisDebouncer::new();
    assert!(waiting.elapsed().is_none());
    let file = main_file(Dialect::Standard, None);
    waiting.received(&vec![file]);
    waiting.received(&vec![file, main_file(Dialect::Bazel, None)]);
    assert_eq!(waiting.elapsed().unwrap().len(), 2);
    assert!(waiting.elapsed().is_none());
}
