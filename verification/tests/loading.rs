//! Repositories, mappings and loads.

use std::sync::{Arc, Mutex};

use starpls::batches::{batch_results, fetch_repositories, insert_name};
use starpls::client::{BazelClient, BazelInfo, RepoMapping, SelectedModule};
use starpls::common::{APIContext, Dialect, FileInfo};
use starpls::loader::{
    directory_to_list, fetch_after_failure, offer, package_for_path, resolve_path, workspace_of,
    Ancestor, Label, LabelStep, ListStep, Listing, LoadError, LoadStep, Loader, MappingLookup,
    ParseError, PathStep, RepoKind, Repository,
};
use starpls::source_kind::{strip_slashes_or_pop_dir, DirEntry};

#[derive(Default)]
struct TestBazelClient {
    mapping_requests: Mutex<Vec<Vec<String>>>,
    fetch_batches: Mutex<Vec<Vec<String>>>,
    failing: Mutex<Vec<String>>,
}

impl BazelClient for TestBazelClient {
    fn build_language(&self) -> Result<Vec<u8>, String> {
        panic!("not asked for")
    }
    fn info(&self) -> Result<BazelInfo, String> {
        panic!("not asked for")
    }
    fn null_query_external_repo_targets(&self, repo: &str) -> Result<(), String> {
        self.fetch_repo(repo)
    }
    fn query_all_workspace_targets(&self) -> Result<Vec<String>, String> {
        panic!("not asked for")
    }
    fn fetch_repos(&self, repos: &Vec<String>) -> Result<(), String> {
        self.fetch_batches.lock().unwrap().push(repos.clone());
        let failing = self.failing.lock().unwrap();
        match repos.iter().find(|repo| failing.contains(repo)) {
            Some(repo) => Err(format!("cannot fetch {repo}")),
            None => Ok(()),
        }
    }
    fn dump_repo_mappings(&self, repositories: &Vec<String>) -> Result<Vec<RepoMapping>, String> {
        self.mapping_requests.lock().unwrap().push(repositories.clone());
        if repositories.iter().any(|name| name == "fail+") {
            return Err("cannot evaluate requested repository batch".to_owned());
        }
        Ok(repositories
            .iter()
            .map(|from| {
                let dep = if from == "stubs+" { "rules+" } else { "wrong+" };
                Arc::new(vec![
                    ("dep".to_owned(), dep.to_owned()),
                    ("stubs".to_owned(), "stubs+".to_owned()),
                    ("rules".to_owned(), "rules+".to_owned()),
                ])
            })
            .collect())
    }
    fn selected_module(&self, _: &str) -> Result<Option<SelectedModule>, String> {
        Ok(None)
    }
}

#[test]
fn fetch_batches_bound_arguments_and_skip_empty_requests() {
    let client = TestBazelClient::default();
    assert!(fetch_repositories(&client, &Vec::new(), true).is_empty());
    assert!(client.fetch_batches.lock().unwrap().is_empty());
    let repositories: Vec<_> = (0..600)
        .map(|index| format!("{}+{index}", "long_repo".repeat(120)))
        .collect();
    let results = fetch_repositories(&client, &repositories, true);
    assert_eq!(results.len(), repositories.len());
    assert!(results.iter().all(|result| result.result.is_ok()));
    let batches = client.fetch_batches.lock().unwrap();
    assert!(batches.len() > 1);
    assert!(batches.iter().all(|batch| batch
        .iter()
        .map(|name| name.len() + "--repo=@@".len() + 1)
        .sum::<usize>()
        <= 256 * 1024));
    assert_eq!(batches.concat(), repositories);
}

#[test]
fn a_failed_batch_is_fetched_one_by_one() {
    let client = TestBazelClient::default();
    client.failing.lock().unwrap().push("bad+".to_owned());
    let repositories = vec!["good+".to_owned(), "bad+".to_owned()];
    let results = fetch_repositories(&client, &repositories, true);
    assert_eq!(results[0].name, "good+");
    assert!(results[0].result.is_ok());
    assert_eq!(results[1].result, Err("cannot fetch bad+".to_owned()));
    assert_eq!(client.fetch_batches.lock().unwrap().len(), 3);
}

fn loader() -> Loader {
    Loader::new(String::new(), None, None, true).with_deferred_mappings()
}

fn waits(loader: &mut Loader, name: &str) -> bool {
    matches!(loader.repository_mapping(name), MappingLookup::Loading)
}

fn failure(loader: &mut Loader, name: &str) -> String {
    match loader.repository_mapping(name) {
        MappingLookup::Failed(error) => error,
        other => panic!("{other:?}"),
    }
}

fn mapped(loader: &mut Loader, name: &str, dep: &str) -> Option<String> {
    match loader.repository_mapping(name) {
        MappingLookup::Ready(mapping) => mapping
            .iter()
            .find(|(key, _)| key == dep)
            .map(|(_, value)| value.clone()),
        _ => None,
    }
}

fn resolve(loader: &mut Loader, client: &TestBazelClient, names: &Vec<String>) {
    let result = client.dump_repo_mappings(names);
    let _ = loader.finish_repository_mappings(names, result);
}

#[test]
fn deferred_mappings_batch_deduplicate_and_preserve_ready_entries() {
    let client = TestBazelClient::default();
    let mut loader = loader();
    for repository in ["stubs+", "rules+", "stubs+"] {
        assert!(waits(&mut loader, repository));
    }
    assert!(client.mapping_requests.lock().unwrap().is_empty());
    let pending = loader.pending_repository_mappings();
    assert_eq!(pending, ["rules+", "stubs+"]);
    resolve(&mut loader, &client, &pending);
    assert_eq!(client.mapping_requests.lock().unwrap().as_slice(), &[pending]);
    assert!(loader.pending_repository_mappings().is_empty());
    assert_eq!(mapped(&mut loader, "stubs+", "dep").unwrap(), "rules+");
    assert_eq!(mapped(&mut loader, "rules+", "dep").unwrap(), "wrong+");

    for repository in ["fail+", "other+"] {
        assert!(waits(&mut loader, repository));
    }
    let pending = loader.pending_repository_mappings();
    resolve(&mut loader, &client, &pending);
    for repository in ["fail+", "other+"] {
        assert!(failure(&mut loader, repository).contains("repository mapping batch failed"));
    }
    assert!(mapped(&mut loader, "stubs+", "dep").is_some());
    assert!(loader.pending_repository_mappings().is_empty());
    for repository in ["short+", "missing+"] {
        assert!(waits(&mut loader, repository));
    }
    let pending = loader.pending_repository_mappings();
    assert!(loader
        .finish_repository_mappings(&pending, Ok(vec![Default::default()]))
        .is_err());
    for repository in pending {
        assert!(failure(&mut loader, &repository).contains("unexpected result count"));
    }
    assert!(mapped(&mut loader, "stubs+", "dep").is_some());
}

#[test]
fn generated_repository_names_use_bounded_mapping_batches() {
    let client = TestBazelClient::default();
    let mut loader = loader();
    for index in 0..1000 {
        loader.repository_mapping(&format!("npm+{}+{index:04}", "x".repeat(100)));
    }
    loop {
        let batch = loader.pending_repository_mappings();
        if batch.is_empty() {
            break;
        }
        assert!(batch.iter().map(|name| name.len() + 1).sum::<usize>() <= 16 * 1024);
        resolve(&mut loader, &client, &batch);
    }
    let requests = client.mapping_requests.lock().unwrap();
    assert_eq!(requests.iter().map(Vec::len).sum::<usize>(), 1000);
    assert_eq!(requests.len(), 7);
}

#[test]
fn names_are_kept_in_order_and_once() {
    let mut names = Vec::new();
    for name in ["b", "a", "ab", "b", ""] {
        insert_name(&mut names, name);
    }
    assert_eq!(names, ["", "a", "ab", "b"]);
}

fn label(kind: RepoKind, repo: &str, package: &str, target: &str) -> Label {
    Label {
        kind,
        repo: repo.to_owned(),
        package: package.to_owned(),
        target: target.to_owned(),
        has_leading_slashes: true,
        is_relative: false,
        has_target_shorthand: false,
    }
}

fn relative(target: &str) -> Label {
    Label { is_relative: true, has_leading_slashes: false, ..label(RepoKind::Current, "", "", target) }
}

fn directory(path: &str, is_repository_root: bool, has_build_file: bool) -> Ancestor {
    Ancestor { path: path.to_owned(), is_repository_root, has_build_file }
}

fn workspace(bzlmod: bool) -> Loader {
    Loader::new("/w".to_owned(), Some("main".to_owned()), Some("/ext".to_owned()), bzlmod)
}

#[test]
fn a_path_belongs_to_the_repository_it_is_in() {
    let mut loader = workspace(true);
    let none = Vec::new();
    let repository = loader.repository_for_path("/ext/rules+/lib/a.bzl", &none).unwrap().unwrap();
    assert_eq!((repository.name.as_str(), repository.root.as_str()), ("rules+", "/ext/rules+"));
    let main = loader.repository_for_path("/w/a.bzl", &none).unwrap().unwrap();
    assert_eq!((main.name.as_str(), main.root.as_str()), ("", "/w"));
    assert!(loader.repository_for_path("/other/a.bzl", &none).unwrap().is_none());
    assert!(loader.repository_for_path("/other/a.bzli", &none).unwrap().is_some());
    assert!(matches!(
        loader.repository_for_path("/ext", &none),
        Err(LoadError::MissingName)
    ));
    // Before Bazel answered, a repository inside the workspace is not guessed.
    let mut early = Loader::new("/w".to_owned(), None, None, false);
    let inner = vec![directory("/w/inner", true, false), directory("/w", true, false)];
    assert!(early.repository_for_path("/w/inner/a.bzl", &inner).unwrap().is_none());
    let own = vec![directory("/w", true, false)];
    assert!(early.repository_for_path("/w/a.bzl", &own).unwrap().is_some());
}

#[test]
fn a_conflict_leaves_the_record_as_it_was() {
    let mut loader = workspace(true);
    let first = Some(Repository { name: "a+".to_owned(), root: "/ext/a+".to_owned() });
    let second = Some(Repository { name: "b+".to_owned(), root: "/ext/b+".to_owned() });
    loader.record_repository("/link/x.bzl", &first).unwrap();
    loader.record_repository("/link/x.bzl", &first).unwrap();
    let error = loader.record_repository("/link/x.bzl", &second).unwrap_err();
    assert_eq!(
        error.message(),
        "conflicting Bazel repositories for /link/x.bzl: Resolved(Repository { name: \"a+\", root: \"/ext/a+\" }) and Resolved(Repository { name: \"b+\", root: \"/ext/b+\" })"
    );
    let kept = loader.repository_for_path("/link/x.bzl", &Vec::new()).unwrap().unwrap();
    assert_eq!(kept.name, "a+");
}

#[test]
fn labels_follow_the_mapping_of_their_file() {
    let mut loader = workspace(true);
    let none = Vec::new();
    let wanted = label(RepoKind::Apparent, "dep", "lib", "a.bzl");
    match loader.resolve_label(&wanted, "/w/BUILD", &none, true).unwrap() {
        LabelStep::QueryMapping(name) => assert_eq!(name, ""),
        other => panic!("{other:?}"),
    }
    loader.finish_mapping(
        String::new(),
        Ok(Arc::new(vec![("dep".to_owned(), "dep+".to_owned())])),
    );
    match loader.resolve_label(&wanted, "/w/BUILD", &none, true).unwrap() {
        LabelStep::Resolved { path, repository } => {
            assert_eq!(path, "/ext/dep+/lib/a.bzl");
            assert_eq!(repository.name, "dep+");
        }
        other => panic!("{other:?}"),
    }
    let unknown = label(RepoKind::Apparent, "missing", "", "a.bzl");
    let error = loader.resolve_label(&unknown, "/w/BUILD", &none, true).unwrap_err();
    assert_eq!(error.message(), "cannot resolve repository @missing// from @@//");
    // Without modules a name stands for itself, and that of the workspace for it.
    let mut legacy = workspace(false);
    for (repo, path) in [("main", "/w/lib/a.bzl"), ("dep", "/ext/dep/lib/a.bzl")] {
        let label = label(RepoKind::Apparent, repo, "lib", "a.bzl");
        match legacy.resolve_label(&label, "/w/BUILD", &none, true).unwrap() {
            LabelStep::Resolved { path: found, .. } => assert_eq!(found, path),
            other => panic!("{other:?}"),
        }
    }
}

#[test]
fn relative_labels_stay_in_the_package_of_their_file() {
    let mut loader = workspace(false);
    let ancestors = vec![
        directory("/w/lib/sub", false, false),
        directory("/w/lib", false, true),
        directory("/w", true, true),
    ];
    match loader.resolve_label(&relative("b.bzl"), "/w/lib/sub/a.bzl", &ancestors, true).unwrap() {
        LabelStep::Resolved { path, .. } => assert_eq!(path, "/w/lib/b.bzl"),
        other => panic!("{other:?}"),
    }
    assert!(matches!(
        package_for_path("/elsewhere/a.bzl", "/w", &ancestors),
        Err(LoadError::Outside { .. })
    ));
}

#[test]
fn loads_lead_to_bzl_files() {
    let mut loader = workspace(false);
    let none = Vec::new();
    let label_a = label(RepoKind::Current, "", "lib", "a.bzl");
    match loader
        .load_file(Dialect::Bazel, "//lib:a.bzl", "/w", &label_a, "/w/BUILD", &none, true)
        .unwrap()
    {
        LoadStep::Read(target) => {
            assert_eq!(target.path, "/w/lib/a.bzl");
            assert_eq!(
                target.info,
                Some(FileInfo::Bazel { api_context: APIContext::Bzl, is_external: false })
            );
        }
        other => panic!("{other:?}"),
    }
    let text = label(RepoKind::Current, "", "lib", "a.txt");
    let error = loader
        .load_file(Dialect::Bazel, "//lib:a.txt", "/w", &text, "/w/BUILD", &none, true)
        .unwrap_err();
    assert_eq!(error.message(), "cannot load a non-bzl file");
    match loader
        .load_file(Dialect::Standard, "b.star", "/w/dir", &text, "/w/dir/a.star", &none, true)
        .unwrap()
    {
        LoadStep::Read(target) => assert_eq!(target.path, "/w/dir/b.star"),
        other => panic!("{other:?}"),
    }
}

#[test]
fn fetches_are_asked_for_once_and_their_failures_stay() {
    let mut loader = workspace(true).for_editor(3);
    let repository = Repository { name: "dep+".to_owned(), root: "/ext/dep+".to_owned() };
    let error = loader.ensure_repository(&repository, true).unwrap_err();
    assert_eq!(
        error.message(),
        "repository @@dep+ must be fetched after the dependency change"
    );
    assert!(loader.begin_fetch("dep+".to_owned()));
    assert!(!loader.begin_fetch("dep+".to_owned()));
    loader.finish_fetch("dep+".to_owned(), Ok(()));
    assert!(loader.ensure_repository(&repository, false).is_ok());
    loader.finish_fetch("dep+".to_owned(), Err("offline".to_owned()));
    let error = loader.ensure_repository(&repository, true).unwrap_err();
    assert_eq!(error.message(), "failed to fetch repository @@dep+: offline");
    // Outside an editor and without modules a directory is good enough.
    let mut legacy = workspace(false);
    legacy.finish_fetch("dep+".to_owned(), Err("offline".to_owned()));
    assert!(legacy.ensure_repository(&repository, true).is_ok());
    assert!(legacy.ensure_repository(&repository, false).is_err());
    assert!(fetch_after_failure(&legacy, &Some(repository), Some(false)));
    assert!(!fetch_after_failure(&legacy, &None, Some(false)));
}

#[test]
fn listings_follow_what_is_typed() {
    let mut loader = workspace(false);
    let none = Vec::new();
    let repo_only = Label {
        has_leading_slashes: false,
        ..label(RepoKind::Canonical, "de", "", "")
    };
    match loader.list_load_candidates(&repo_only, None, "/w/BUILD", &none, true).unwrap() {
        ListStep::List(Listing::Repositories { directory, workspace_name }) => {
            assert_eq!(directory, "/ext");
            assert_eq!(workspace_name.as_deref(), Some("main"));
        }
        other => panic!("{other:?}"),
    }
    let package = label(RepoKind::Current, "", "lib/su", "");
    let within = match loader
        .list_load_candidates(&package, None, "/w/BUILD", &none, true)
        .unwrap()
    {
        ListStep::Within(repository) => repository,
        other => panic!("{other:?}"),
    };
    let list = |label: &Label, error: Option<ParseError>| {
        loader.list_in_repository(label, error, &within, true, "/w/BUILD", &none).unwrap()
    };
    match list(&package, None) {
        Listing::Packages { directory, trailing_slash } => {
            assert_eq!(directory, "/w/lib");
            assert!(!trailing_slash);
        }
        other => panic!("{other:?}"),
    }
    match list(&package, Some(ParseError::EmptyTarget)) {
        Listing::Targets { directory } => assert_eq!(directory, "/w/lib/su"),
        other => panic!("{other:?}"),
    }
    match list(&package, Some(ParseError::EmptyPackage)) {
        Listing::Packages { directory, .. } => assert_eq!(directory, "/w"),
        other => panic!("{other:?}"),
    }
    assert!(matches!(list(&package, Some(ParseError::Other)), Listing::Nothing));
    let slash = label(RepoKind::Current, "", "lib/", "");
    match list(&slash, Some(ParseError::InvalidPackageEndingSlash)) {
        Listing::Packages { directory, trailing_slash } => {
            assert_eq!(directory, "/w/lib");
            assert!(trailing_slash);
        }
        other => panic!("{other:?}"),
    }
}

#[test]
fn paths_lead_to_files_or_to_targets() {
    let names = vec!["README".to_owned(), "BUILD.bazel".to_owned(), "BUILD".to_owned()];
    let parent = Some("/w/lib".to_owned());
    match resolve_path("a", "/w/lib/a".to_owned(), false, &parent, &names) {
        PathStep::BuildTarget { build_file, target } => {
            assert_eq!(build_file, "/w/lib/BUILD.bazel");
            assert_eq!(target, "a");
        }
        other => panic!("{other:?}"),
    }
    assert!(matches!(
        resolve_path("a", "/w/lib/a".to_owned(), true, &parent, &names),
        PathStep::Source { .. }
    ));
    assert!(matches!(
        resolve_path("", "/w/lib".to_owned(), false, &parent, &names),
        PathStep::Nothing
    ));
}

#[test]
fn open_documents_keep_their_repository_or_are_displaced() {
    let none = Vec::new();
    let mut before = workspace(true);
    let first = Some(Repository { name: "a+".to_owned(), root: "/ext/a+".to_owned() });
    before.record_repository("/link/x.bzl", &first).unwrap();
    let mut after = before.fresh();
    assert!(after.restore_document_context(&before, "/link/x.bzl", &none, true).is_ok());
    assert!(!after.is_displaced("/link/x.bzl"));
    let mut moved = before.fresh();
    let second = Some(Repository { name: "b+".to_owned(), root: "/ext/b+".to_owned() });
    moved.record_repository("/link/x.bzl", &second).unwrap();
    assert!(moved.restore_document_context(&before, "/link/x.bzl", &none, true).is_err());
    assert!(moved.is_displaced("/link/x.bzl"));
    let mut gone = before.fresh();
    assert!(matches!(
        gone.restore_document_context(&before, "/link/x.bzl", &none, false),
        Err(None)
    ));
    assert!(gone.is_displaced("/link/x.bzl"));
}

#[test]
fn only_files_of_the_main_repository_are_editable() {
    let mut loader = workspace(true);
    let none = Vec::new();
    assert!(loader.is_editable("/w/a.bzl", "/w/a.bzl", "/w", &none, &none).unwrap());
    assert!(!loader.is_editable("/ext/a+/a.bzl", "/ext/a+/a.bzl", "/w", &none, &none).unwrap());
    let inner = vec![directory("/w/inner", true, false)];
    assert!(!loader.is_editable("/w/inner/b.bzl", "/w/inner/b.bzl", "/w", &inner, &none).unwrap());
    assert_eq!(loader.resolve_build_file("/w/lib/BUILD.bazel").as_deref(), Some("lib"));
    assert_eq!(loader.resolve_build_file("/w/lib/a.bzl"), None);
    assert!(matches!(
        Loader::file_info(
            Dialect::Bazel,
            Some(FileInfo::Bazel { api_context: APIContext::Bzl, is_external: false }),
            &Some(Repository { name: "a+".to_owned(), root: "/ext/a+".to_owned() }),
        ),
        Some(FileInfo::Bazel { is_external: true, .. })
    ));
}

#[test]
fn a_workspace_is_the_nearest_repository() {
    let above = vec![
        directory("/home/ws/pkg", false, true),
        directory("/home/ws", true, false),
        directory("/home", true, false),
    ];
    assert_eq!(workspace_of("/home/ws/pkg", &above), "/home/ws");
    assert_eq!(workspace_of("/home/x", &vec![directory("/home/x", false, false)]), "/home/x");
}

#[test]
fn a_failed_batch_has_the_outcomes_of_its_retries() {
    let names = |list: &[&str]| -> Vec<String> { list.iter().map(|n| n.to_string()).collect() };
    let failed = || Err("all".to_owned());
    let alone = vec![Ok(()), Err("b alone".to_owned())];
    let results = batch_results(&names(&["a", "b"]), failed(), alone);
    assert_eq!(results[0].name, "a");
    assert_eq!(results[0].result, Ok(()));
    assert_eq!(results[1].result, Err("b alone".to_owned()));
    let single = batch_results(&names(&["a"]), failed(), Vec::new());
    assert_eq!(single[0].result, failed());
    let fine = batch_results(&names(&["a", "b"]), Ok(()), Vec::new());
    assert!(fine.len() == 2 && fine.iter().all(|result| result.result.is_ok()));
}

#[test]
fn typed_paths_stand_in_directories() {
    let typed = |input: &str| strip_slashes_or_pop_dir(input);
    let popped = |directory: &str| Some((directory.to_owned(), false));
    assert_eq!(typed("foo/bar"), popped("foo"));
    assert_eq!(typed("foo//"), Some(("foo".to_owned(), true)));
    assert_eq!(typed("foo"), popped(""));
    assert_eq!(typed("foo/."), popped(""));
    assert_eq!(typed("a/./b"), popped("a"));
    assert_eq!(typed("./b"), popped("."));
    assert_eq!(typed("/b"), popped("/"));
    assert_eq!(typed("/."), None);
    assert_eq!(typed(""), None);
    let listed = |typed: &str| directory_to_list("/w/pkg/a.star", typed);
    assert_eq!(listed("").as_deref(), Some("/w"));
    assert_eq!(listed("li").as_deref(), Some("/w/pkg"));
    assert_eq!(listed("lib/").as_deref(), Some("/w/pkg/lib/"));
    assert_eq!(listed("lib/x").as_deref(), Some("/w/pkg/lib"));
}

#[test]
fn repositories_are_offered_by_their_names() {
    let names = |listing: &Listing| -> Option<Vec<String>> {
        let entries = vec![
            DirEntry { name: "rules+".to_owned(), is_dir: true, is_file: false },
            DirEntry { name: "defs.bzl".to_owned(), is_dir: false, is_file: true },
        ];
        offer(listing, &entries).map(|found| found.into_iter().map(|item| item.path).collect())
    };
    assert!(names(&Listing::Nothing).is_none());
    let entry = |name: &str| (name.to_owned(), "target".to_owned());
    let mapping = Arc::new(vec![entry("b"), entry("a"), entry("b")]);
    assert_eq!(names(&Listing::Mapped(mapping)).unwrap(), ["b", "a"]);
    let repositories = |workspace_name: Option<&str>| Listing::Repositories {
        directory: "/ext".to_owned(),
        workspace_name: workspace_name.map(str::to_owned),
    };
    assert_eq!(names(&repositories(Some("ws"))).unwrap(), ["rules+", "ws"]);
    assert_eq!(names(&repositories(None)).unwrap(), ["rules+"]);
    let targets = Listing::Targets { directory: "/w".to_owned() };
    assert_eq!(names(&targets).unwrap(), ["rules+", "defs.bzl"]);
    let packages = Listing::Packages { directory: "/w".to_owned(), trailing_slash: true };
    assert_eq!(names(&packages).unwrap(), ["rules+", ":defs.bzl"]);
}

#[test]
fn following_a_label_asks_for_what_is_missing() {
    let none = Vec::new();
    let wanted = label(RepoKind::Apparent, "", "", "same.bzl");
    let mut loader = workspace(true).for_editor(1);
    assert!(loader.pending_repository_mappings().is_empty());
    let step = loader.load_file(Dialect::Bazel, "@//:same.bzl", "/w", &wanted, "/w/BUILD", &none, true);
    assert!(matches!(step, Ok(LoadStep::Wait(LabelStep::MappingRequested))));
    assert_eq!(loader.pending_repository_mappings(), [""]);
    // What is on its way is not asked for again.
    let step = loader.resolve_label(&wanted, "/w/BUILD", &none, true);
    assert!(matches!(step, Ok(LabelStep::Unknown)));
    assert_eq!(loader.pending_repository_mappings(), [""]);
    // A label that needs no mapping asks for none.
    let mut quiet = workspace(true).for_editor(1);
    let own = label(RepoKind::Current, "", "lib", "a.bzl");
    assert!(quiet.resolve_label(&own, "/w/BUILD", &none, true).is_ok());
    assert!(quiet.pending_repository_mappings().is_empty());
}

#[test]
fn reached_repositories_are_remembered() {
    let none = Vec::new();
    let mut loader = workspace(false);
    assert_eq!(loader.repository_roots, ["/w"]);
    let wanted = label(RepoKind::Canonical, "dep", "lib", "a.bzl");
    loader.resolve_label(&wanted, "/ext/rules/BUILD", &none, true).unwrap();
    assert_eq!(loader.repository_roots, ["/w", "/ext/rules", "/ext/dep"]);
    loader.resolve_label(&wanted, "/w/BUILD", &none, true).unwrap();
    assert_eq!(loader.repository_roots, ["/w", "/ext/rules", "/ext/dep"]);
}
