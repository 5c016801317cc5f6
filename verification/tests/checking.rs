//! Batch checking, references, renames and interfaces.

use starpls::check::{
    check_as, checked_extensions, make_trigger_characters, report_diagnostics, Checked,
    CheckedFile, Counts, LoadGraph, LoadResolution,
};
use starpls::client::SelectedModule;
use starpls::common::{APIContext, Dialect, File, FileInfo};
use starpls::convert::{Position, Range};
use starpls::environment::{common_attributes_query, CommonAttribute, Environment};
use starpls::loader::{Loader, Repository};
use starpls::protocol::Severity;
use starpls::references::{
    may_hold, reference_files, reference_paths, source_of, visit, Candidate, SourceFile, Visit,
    WalkEntry,
};
use starpls::rename::{check_rename, rename, EditPlace, RenamePlace, WorkspaceEdit};
use starpls::source_kind::visit_check_entry;
use starpls::stubs::{
    check_duplicates, check_manifest, check_selection, contained_file, load_package,
    manifest_place, package_places, FileState, FoundFile, Manifest, ManifestPlace, NamedFile,
    PreparedInterfaces, Registration, StubError, TypeInterfaceMapping, TypeInterfaceOptions,
};
use starpls::syntax::Span;
use starpls::typeck::{AttributeKind, RuleKind};

/// The command line, as far as it names interfaces.
fn cli() -> clap::Command {
    let interface = || {
        clap::Arg::new("type_interface")
            .long("type_interface")
            .action(clap::ArgAction::Append)
            .value_parser(|value: &str| {
                TypeInterfaceMapping::from_str(value)
                    .map(|mapping| (mapping.source, mapping.interface))
            })
    };
    clap::Command::new("starpls")
        .subcommand(clap::Command::new("check").arg(interface()))
        .subcommand(clap::Command::new("server").arg(interface()))
        .subcommand(clap::Command::new("version"))
}

#[test]
fn check_and_server_share_repeatable_mapping_arguments() {
    for command in ["check", "server"] {
        let parsed = cli()
            .try_get_matches_from([
                "starpls",
                command,
                "--type_interface",
                "source.bzl=one.bzli",
                "--type_interface",
                "other.bzl=two.bzli",
            ])
            .unwrap();
        let (_, options) = parsed.subcommand().unwrap();
        let mappings: Vec<&(String, String)> =
            options.get_many("type_interface").unwrap().collect();
        assert_eq!(mappings.len(), 2);
        for bad in ["missing-separator", "=empty.bzli", "empty.bzl="] {
            assert!(cli()
                .try_get_matches_from(["starpls", command, "--type_interface", bad])
                .is_err());
        }
    }
}

#[test]
fn an_interface_is_named_with_its_source() {
    let mapping = TypeInterfaceMapping::from_str("a=b=c").unwrap();
    assert_eq!((mapping.source.as_str(), mapping.interface.as_str()), ("a", "b=c"));
    assert_eq!(
        TypeInterfaceMapping::from_str("ab").unwrap_err(),
        "expected SOURCE=INTERFACE"
    );
    assert_eq!(
        TypeInterfaceMapping::from_str("=b").unwrap_err(),
        "SOURCE and INTERFACE must both be nonempty paths"
    );
}

fn manifest() -> Manifest {
    Manifest {
        format_version: 1,
        repository: "@with_cfg.bzl".to_owned(),
        module: "with_cfg.bzl".to_owned(),
        versions: vec!["0.14.5".to_owned(), "0.14.6".to_owned()],
        files: Vec::new(),
    }
}

#[test]
fn manifests_say_what_they_are_for() {
    assert!(matches!(manifest_place("@stubs//:a.toml", "/w"), Ok(ManifestPlace::Label)));
    match manifest_place("stubs/a.toml", "/w").unwrap() {
        ManifestPlace::Path(path) => assert_eq!(path, "/w/stubs/a.toml"),
        other => panic!("{other:?}"),
    }
    assert_eq!(
        manifest_place("/a.toml", "/w").unwrap_err().message(),
        "manifest path must be relative to starpls.toml"
    );
    assert_eq!(check_manifest(&manifest()).unwrap(), "@with_cfg.bzl//:__stub_source__");
    let error = |manifest: &Manifest| check_manifest(manifest).unwrap_err().message();
    assert_eq!(
        error(&Manifest { format_version: 2, ..manifest() }),
        "unsupported stub manifest format-version 2; expected 1"
    );
    let empty = "source.module and source.versions must contain nonempty names and versions";
    assert_eq!(error(&Manifest { versions: Vec::new(), ..manifest() }), empty);
    assert_eq!(error(&Manifest { versions: vec![String::new()], ..manifest() }), empty);
    assert_eq!(error(&Manifest { module: String::new(), ..manifest() }), empty);
    for repository in ["rules", "@a//b", "@a:b"] {
        assert_eq!(
            error(&Manifest { repository: repository.to_owned(), ..manifest() }),
            "source.repository must name a Bazel repository, such as @rules_foo"
        );
    }
}

#[test]
fn packages_accept_the_versions_that_they_list() {
    let selected = |name: &str, version: Option<&str>| {
        Some(SelectedModule { name: name.to_owned(), version: version.map(str::to_owned) })
    };
    let check = |selected: &Option<SelectedModule>, allow: bool| {
        check_selection(selected, &manifest(), allow, "with_cfg.bzl+")
            .map_err(|error| error.message())
    };
    assert!(check(&selected("with_cfg.bzl", Some("0.14.6")), false).is_ok());
    assert_eq!(
        check(&selected("with_cfg.bzl", Some("0.14.7")), true).unwrap_err(),
        "module with_cfg.bzl selected version 0.14.7, but the stub package accepts 0.14.5, 0.14.6"
    );
    assert_eq!(
        check(&selected("other", None), true).unwrap_err(),
        "repository @@with_cfg.bzl+ selects module \"other\", but the stub package requires \"with_cfg.bzl\""
    );
    assert!(check(&None, true).is_ok());
    assert!(check(&None, false).unwrap_err().contains("no selected module version"));
}

fn found_file(source: &str, state: FileState) -> FoundFile {
    FoundFile {
        source_path: format!("/ext/rules+/{source}"),
        interface_path: "/ext/stubs+/one.bzli".to_owned(),
        source_state: state,
        interface_state: FileState::File,
    }
}

#[test]
fn packages_register_files_of_their_repositories() {
    let mut loader = Loader::new("/w".to_owned(), None, Some("/ext".to_owned()), true);
    let rules = Repository { name: "rules+".to_owned(), root: "/ext/rules+".to_owned() };
    let stubs = Repository { name: "stubs+".to_owned(), root: "/ext/stubs+".to_owned() };
    let selected = |version: &str| {
        let name = "with_cfg.bzl".to_owned();
        Some(SelectedModule { name, version: Some(version.to_owned()) })
    };
    let package = |source: &str| Manifest {
        files: vec![(source.to_owned(), "one.bzli".to_owned())],
        ..manifest()
    };
    let path = "/ext/stubs+/m.toml";
    let places = |version: &str| {
        package_places(path, &package("one.bzl"), &selected(version), false, &rules)
            .map_err(|error| error.message())
    };
    let place = places("0.14.6").unwrap();
    assert_eq!(place[0].source, "/ext/rules+/one.bzl");
    assert_eq!(place[0].interface, "/ext/stubs+/one.bzli");
    let refused =
        "module with_cfg.bzl selected version 0.14.7, but the stub package accepts 0.14.5, 0.14.6";
    assert_eq!(places("0.14.7").unwrap_err(), refused);
    assert_eq!(
        load_package(
            &mut loader,
            path,
            &package("one.bzl"),
            &selected("0.14.7"),
            true,
            &vec![found_file("one.bzl", FileState::File)],
            &rules,
            &stubs,
        )
        .unwrap_err()
        .message(),
        refused
    );
    let mut load = |source: &str, found: FoundFile| {
        load_package(
            &mut loader,
            path,
            &package(source),
            &selected("0.14.6"),
            false,
            &vec![found],
            &rules,
            &stubs,
        )
        .map_err(|error| error.message())
    };
    let registered = load("one.bzl", found_file("one.bzl", FileState::File)).unwrap();
    assert_eq!(registered[0].source, "/ext/rules+/one.bzl");
    assert_eq!(registered[0].origin, "/ext/stubs+/m.toml [\"one.bzl\"]");
    assert_eq!(
        load("two.bzl", found_file("two.bzl", FileState::Missing)).unwrap_err(),
        "cannot resolve /ext/rules+/two.bzl"
    );
    assert_eq!(
        load("dir", found_file("dir", FileState::Other)).unwrap_err(),
        "/ext/rules+/dir must be a file"
    );
    assert_eq!(
        load("/abs.bzl", found_file("a", FileState::File)).unwrap_err(),
        "stub file mappings must use relative paths"
    );
    let outside = FoundFile {
        source_path: "/ext/other+/a.bzl".to_owned(),
        ..found_file("a", FileState::File)
    };
    assert!(load("a", outside)
    .unwrap_err()
    .contains("is outside repository"));
    assert!(contained_file("/w/a", "/w", FileState::File).is_ok());
    // The paths of the package are recorded, and its repositories are reached.
    assert_eq!(loader.repository_roots, ["/w", "/ext/rules+", "/ext/stubs+"]);
    let known = |loader: &mut Loader, path: &str| {
        loader.repository_for_path(path, &Vec::new()).unwrap().unwrap().name
    };
    assert_eq!(known(&mut loader, "/ext/rules+/one.bzl"), "rules+");
    assert_eq!(known(&mut loader, "/ext/stubs+/one.bzli"), "stubs+");
    // A path that is recorded as something else is a conflict.
    let other = Some(Repository { name: "other+".to_owned(), root: "/ext/other+".to_owned() });
    loader.record_repository("/ext/rules+/three.bzl", &other).unwrap();
    let error = load_package(
        &mut loader,
        path,
        &package("three.bzl"),
        &selected("0.14.6"),
        false,
        &vec![found_file("three.bzl", FileState::File)],
        &rules,
        &stubs,
    )
    .unwrap_err()
    .message();
    assert!(error.starts_with("conflicting Bazel repositories for /ext/rules+/three.bzl: "));
    assert_eq!(known(&mut loader, "/ext/rules+/three.bzl"), "other+");
}

#[test]
fn a_source_has_one_interface() {
    let registration = |source: &str, origin: &str| Registration {
        source: source.to_owned(),
        interface: "/i".to_owned(),
        origin: origin.to_owned(),
    };
    let twice = vec![registration("/a", "one"), registration("/b", "x"), registration("/a", "two")];
    assert_eq!(
        check_duplicates(&twice).unwrap_err().message(),
        "duplicate type interface for /a: one and two"
    );
    let mut loader = Loader::new("/w".to_owned(), None, Some("/ext".to_owned()), true);
    let options = TypeInterfaceOptions {
        mappings: vec![TypeInterfaceMapping::from_str("a.bzl=a.bzli").unwrap()],
    };
    assert!(options.is_configured());
    let named = |path: &str| vec![NamedFile { path: path.to_owned(), ancestors: Vec::new() }];
    let prepared = options
        .prepare(&mut loader, vec![registration("/b", "x")], &named("/w/a.bzl"), &named("/w/a.bzli"))
        .unwrap();
    assert_eq!(prepared.len(), 2);
    assert_eq!(prepared[1].origin, "--type_interface a.bzl=a.bzli");
    let conflict = options
        .prepare(&mut loader, vec![registration("/w/a.bzl", "x")], &named("/w/a.bzl"), &named("/i"))
        .unwrap_err();
    assert!(conflict.message().starts_with("duplicate type interface for /w/a.bzl"));
    assert!(options.prepare(&mut loader, Vec::new(), &named("/ext"), &named("/i")).is_err());
}

#[test]
fn every_loaded_file_is_visited_once_and_waiting_ones_again() {
    let mut graph = LoadGraph::new(&vec![1, 2], &vec![2, 3]);
    assert_eq!(graph.files(), [1, 2, 3]);
    let mut visited = Vec::new();
    while let Some(file) = graph.next() {
        visited.push(file);
        let loads = match file {
            3 => vec![LoadResolution::Resolved(4), LoadResolution::Resolved(1)],
            4 => vec![LoadResolution::Pending, LoadResolution::Failed],
            _ => Vec::new(),
        };
        graph.visit(&loads);
    }
    assert_eq!(visited, [3, 4, 2, 1]);
    assert_eq!(graph.files(), [1, 2, 3, 4]);
    assert_eq!(graph.unresolved(4).unwrap(), [0, 1]);
    assert!(graph.unresolved(3).unwrap().is_empty());
    assert!(graph.unresolved(9).is_none());
    graph.retry();
    assert_eq!(graph.next(), Some(4));
    graph.visit(&vec![LoadResolution::Resolved(5)]);
    assert_eq!(graph.next(), Some(5));
    assert!(graph.unresolved(4).unwrap().is_empty());
}

#[test]
fn reports_count_what_is_shown() {
    let mut graph = LoadGraph::new(&vec![1, 2], &Vec::new());
    while graph.next().is_some() {
        graph.visit(&Vec::new());
    }
    let checked = |file: usize, severities: Vec<Severity>| CheckedFile { file, severities };
    let files = vec![
        checked(1, vec![Severity::Error, Severity::Info]),
        checked(2, vec![Severity::Warning]),
    ];
    let validated = vec![checked(2, vec![Severity::Fatal, Severity::Warning])];
    let report = report_diagnostics(&graph, &vec!["a b".to_owned()], &files, &validated);
    assert_eq!(report.ignored, ["non-Starlark file \"a b\" was ignored"]);
    assert_eq!(report.shown, [1]);
    assert_eq!(report.counts, Counts { errors: 2, warnings: 2, infos: 1 });
    assert!(report.failed);
    assert_eq!(report.summary.as_deref(), Some("failed with 2 errors and 2 warnings"));
    let warned = report_diagnostics(&graph, &Vec::new(), &vec![checked(1, vec![Severity::Warning])], &Vec::new());
    assert!(!warned.failed);
    assert_eq!(warned.summary.as_deref(), Some("passed with 1 warnings"));
    let failed = report_diagnostics(&graph, &Vec::new(), &vec![checked(1, vec![Severity::Error])], &Vec::new());
    assert_eq!(failed.summary.as_deref(), Some("failed with 1 errors"));
    let passed = report_diagnostics(&graph, &Vec::new(), &Vec::new(), &Vec::new());
    assert!(!passed.failed);
    assert_eq!(passed.summary, None);
}

#[test]
fn unresolved_loads_fail_a_check() {
    let mut graph = LoadGraph::new(&vec![1], &Vec::new());
    assert!(!graph.has_unresolved());
    graph.visit(&vec![LoadResolution::Resolved(2), LoadResolution::Failed]);
    assert!(graph.has_unresolved());
    let files =
        vec![CheckedFile { file: 1, severities: vec![Severity::Warning, Severity::Info] }];
    let report = report_diagnostics(&graph, &Vec::new(), &files, &Vec::new());
    assert!(report.failed);
    assert_eq!(report.counts.errors, 0);
    assert_eq!(report.summary.as_deref(), Some("failed with 0 errors and 1 warnings"));
}

#[test]
fn files_are_checked_by_their_kind() {
    let extensions = checked_extensions(&vec![".foo".to_owned(), "bar".to_owned()]);
    assert_eq!(extensions, ["foo", "bar", "star", "sky"]);
    assert_eq!(
        check_as("/w", "/out", "/out/external/a/b.bzl", &extensions, true),
        Checked::Check {
            dialect: Dialect::Bazel,
            info: Some(FileInfo::Bazel { api_context: APIContext::Bzl, is_external: true }),
        }
    );
    assert_eq!(
        check_as("/w", "/out", "/w/a.foo", &extensions, false),
        Checked::Check { dialect: Dialect::Standard, info: None }
    );
    assert_eq!(check_as("/w", "/out", "/w/a.py", &extensions, true), Checked::Ignore);
    assert_eq!(check_as("/w", "/out", "/w/a.py", &extensions, false), Checked::Skip);
    assert_eq!(make_trigger_characters(&['.', '"']), [".", "\""]);
}

#[test]
fn a_workspace_is_walked_without_other_repositories() {
    let entry = |path: &str, is_dir: bool, is_repository_root: bool| WalkEntry {
        path: path.to_owned(),
        name: path.rsplit('/').next().unwrap().to_owned(),
        depth: 1,
        is_dir,
        is_file: !is_dir,
        is_repository_root,
    };
    let ignored = vec!["node_modules".to_owned()];
    let see = |entry: &WalkEntry| visit(entry, &ignored, "/w");
    assert_eq!(see(&entry("/w/BUILD", false, false)), Visit::Take);
    assert_eq!(see(&entry("/w/a.star", false, false)), Visit::Take);
    assert_eq!(see(&entry("/w/a.txt", false, false)), Visit::Pass);
    assert_eq!(see(&entry("/w/lib", true, false)), Visit::Pass);
    assert_eq!(see(&entry("/w/.git", true, false)), Visit::Leave);
    assert_eq!(see(&entry("/w/node_modules", true, false)), Visit::Leave);
    assert_eq!(see(&entry("/w/nested", true, true)), Visit::Leave);
    assert_eq!(see(&WalkEntry { depth: 0, ..entry("/w", true, true) }), Visit::Pass);
    assert!(source_of("/w", "/w/a.txt").is_none());
    let paths = reference_paths(
        &vec!["/w/b".to_owned(), "/w/a/c".to_owned(), "/w//b".to_owned()],
        &vec!["/w/a.b".to_owned(), "/w/b".to_owned()],
    );
    assert_eq!(paths, ["/w/a/c", "/w/a.b", "/w/b"]);
    assert!(may_hold("load(':a', 'name')", "name"));
    assert!(may_hold("'\\x6eame'", "name"));
    assert!(!may_hold("other", "name"));
    let file = |source: usize, dialect: Dialect| File { source, dialect, info: None };
    let known = || {
        vec![
            SourceFile { file: file(2, Dialect::Bazel), path: "/w/z.bzl".to_owned() },
            SourceFile { file: file(1, Dialect::Standard), path: "/w/a/x.bzl".to_owned() },
        ]
    };
    let candidate = |path: &str, source: usize, contents: Option<&str>| Candidate {
        path: path.to_owned(),
        open: None,
        source,
        source_path: path.to_owned(),
        contents: contents.map(str::to_owned),
    };
    let candidates = vec![
        candidate("/w/a/x.bzl", 1, Some("name")),
        candidate("/w/a.bzl", 3, Some("'\\x41'")),
        candidate("/w/b.bzl", 4, Some("other")),
        candidate("/w/c.bzl", 5, None),
        candidate("/w/d.txt", 6, Some("name")),
        Candidate { open: Some(file(7, Dialect::Bazel)), ..candidate("/w/m.bzl", 7, Some("name")) },
    ];
    let found = reference_files(Ok(()), known(), &candidates, "/w", "name").unwrap();
    let sources: Vec<usize> = found.iter().map(|found| found.file.source).collect();
    assert_eq!(sources, [1, 3, 7, 2]);
    // The file that was known counts, not the candidate with its source.
    assert_eq!(found[0].file.dialect, Dialect::Standard);
    assert_eq!(
        found[1].file.info,
        Some(FileInfo::Bazel { api_context: APIContext::Bzl, is_external: false })
    );
    assert_eq!(
        reference_files(Err("not ready".to_owned()), known(), &candidates, "/w", "name")
            .unwrap_err(),
        "not ready"
    );
}

#[test]
fn a_check_stops_at_nested_repositories() {
    let ignored = vec!["out".to_owned()];
    assert!(visit_check_entry("lib", &ignored, false));
    assert!(!visit_check_entry("lib", &ignored, true));
    assert!(!visit_check_entry("out", &ignored, false));
    assert!(!visit_check_entry(".git", &ignored, false));
    assert!(visit_check_entry(".", &ignored, false));
}

fn span(start: u32) -> Span {
    Span { start, end: start + 1 }
}

#[test]
fn renames_need_every_interpretation_of_a_source() {
    let place = |path: &str, is_editable: bool, aliases: &[&str]| RenamePlace {
        path: path.to_owned(),
        source: "/real".to_owned(),
        is_editable,
        aliases: aliases.iter().map(|alias| (*alias).to_owned()).collect(),
        span: span(3),
    };
    assert!(check_rename(&vec![place("/a", true, &["/a", "/b"]), place("/b", true, &["/a", "/b"])])
        .is_ok());
    assert_eq!(
        check_rename(&vec![place("/a", true, &["/a", "/b"])]).unwrap_err().message(),
        "Cannot rename shared source /real: the interpretation at /b is outside this rename"
    );
    assert_eq!(
        check_rename(&vec![place("/ext/a", false, &[])]).unwrap_err().message(),
        "Cannot rename a declaration or reference in external repository /ext/a"
    );
}

fn edit_place(path: &str, physical: &str, start: u32, version: Option<i32>) -> EditPlace {
    let position = |character: u32| Position { line: 0, character };
    EditPlace {
        path: path.to_owned(),
        physical: physical.to_owned(),
        uri_path: physical.to_owned(),
        uri: Some(format!("file://{physical}")),
        version,
        span: span(start),
        range: Some(Range { start: position(start), end: position(start + 1) }),
    }
}

fn same_place(place: &EditPlace) -> EditPlace {
    EditPlace {
        path: place.path.clone(),
        physical: place.physical.clone(),
        uri_path: place.uri_path.clone(),
        uri: place.uri.clone(),
        ..*place
    }
}

#[test]
fn renames_change_each_text_once() {
    let places = vec![
        edit_place("/b", "/b", 1, None),
        edit_place("/a", "/a", 5, Some(4)),
        edit_place("/link", "/b", 1, None),
        edit_place("/b", "/b", 9, None),
    ];
    let documents = match rename(&places, "new", true).unwrap() {
        WorkspaceEdit::DocumentChanges(documents) => documents,
        other => panic!("{other:?}"),
    };
    let shown: Vec<_> = documents
        .iter()
        .map(|document| (document.uri.as_str(), document.version, document.edits.len()))
        .collect();
    assert_eq!(shown, [("file:///a", Some(4), 1), ("file:///b", None, 2)]);
    assert_eq!(documents[1].edits[1].range.start.character, 9);
    assert!(documents
        .iter()
        .all(|document| document.edits.iter().all(|edit| edit.new_text == "new")));
    match rename(&places[..1].iter().map(same_place).collect(), "new", false).unwrap() {
        WorkspaceEdit::Changes(documents) => assert_eq!(documents[0].edits[0].new_text, "new"),
        other => panic!("{other:?}"),
    }
    assert_eq!(
        rename(&places, "new", false).unwrap_err().message(),
        "Renaming open documents requires client support for versioned document changes"
    );
    let lost = EditPlace { range: None, ..edit_place("/c", "/c", 1, None) };
    assert_eq!(
        rename(&vec![lost], "new", true).unwrap_err().message(),
        "Cannot convert a rename range in /c"
    );
    let nameless = EditPlace { uri: None, ..edit_place("/c", "/c", 1, None) };
    assert_eq!(
        rename(&vec![nameless], "new", true).unwrap_err().message(),
        "Cannot construct an editor URI for /c"
    );
}

#[test]
fn hosts_define_by_dialect() {
    let environment = Environment::initialize(Default::default());
    assert!(environment.builtin_defs(Dialect::Bazel).builtins.global.is_empty());
    assert_eq!(environment.load_revision, 0);
    let attribute = CommonAttribute {
        name: "tags".to_owned(),
        kind: AttributeKind::StringList,
        doc: "A <b>list</b>".to_owned(),
        is_mandatory: false,
        default_value: "[]".to_owned(),
    };
    let common = common_attributes_query(&vec![attribute], &Vec::new());
    let (name, found) = common.get(RuleKind::Build, 0);
    assert_eq!(name.as_str(), "tags");
    assert!(!found.doc.as_ref().unwrap().contains('<'));
}

#[test]
fn interfaces_are_opened_by_their_paths() {
    let registration = |source: &str, interface: &str| Registration {
        source: source.to_owned(),
        interface: interface.to_owned(),
        origin: "option".to_owned(),
    };
    let prepared = PreparedInterfaces {
        registrations: vec![registration("/ws/defs.bzl", "/out/defs.bzli")],
    };
    let files = prepared.install("/ws").unwrap();
    assert_eq!(files.len(), 1);
    assert_eq!(files[0].0.path, "/ws/defs.bzl");
    assert_eq!(files[0].0.dialect, Dialect::Bazel);
    let info = |is_external| Some(FileInfo::Bazel { api_context: APIContext::Bzl, is_external });
    assert_eq!(files[0].0.info, info(false));
    assert_eq!(files[0].1.path, "/out/defs.bzli");
    assert_eq!(files[0].1.info, info(true));

    let prepared = PreparedInterfaces {
        registrations: vec![
            registration("/ws/defs.bzl", "/ws/defs.bzli"),
            registration("/ws/defs.bzl", "/"),
        ],
    };
    let error = prepared.install("/ws").unwrap_err();
    assert!(matches!(&error, StubError::Unclassified { path } if path == "/"));
    assert_eq!(error.message(), "cannot classify type interface path /");
}
