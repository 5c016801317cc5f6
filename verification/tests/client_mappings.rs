//! What Bazel prints, read.

use std::sync::Arc;

use starpls::client::{
    decide_mappings, fetch_arguments, is_extension_repository, mapping_arguments,
    module_after_graph, only_mapping, parse_info, parse_repo_mappings,
    selected_module_from_graph, unsupported_compact_mapping_format, BazelCLI, InfoField,
    MappingDecision, MappingError, MappingFormat, MappingOutput, MappingState, ModuleGraph,
    ModuleStep, RepoMapping, RepositoryDescription, SelectedModule,
};

fn get<'a>(mapping: &'a RepoMapping, name: &str) -> Option<&'a str> {
    mapping
        .iter()
        .rev()
        .find(|(key, _)| key == name)
        .map(|(_, value)| value.as_str())
}

#[test]
fn equal_mapping_outputs_share_storage_across_batches() {
    let mut interner = MappingState::default();
    let output = b"{\"dep\":\"same+\"}\n{\"dep\":\"same+\"}\n";
    let first = parse_repo_mappings(output.as_slice(), 2, &mut interner).unwrap().mappings;
    let [one, two] = first.as_slice() else {
        panic!("expected two mappings");
    };
    assert!(Arc::ptr_eq(one, two));
    let second = parse_repo_mappings(output.as_slice(), 2, &mut interner).unwrap().mappings;
    assert!(Arc::ptr_eq(one, second.first().unwrap()));
    assert_eq!(interner.values.len(), 1);
    drop(first);
    drop(second);
    let third = parse_repo_mappings(b"{}\n".as_slice(), 1, &mut interner).unwrap().mappings;
    assert!(third.first().unwrap().is_empty());
    assert_eq!(interner.values.len(), 1, "obsolete JSON keys must be released");
}

#[test]
fn repository_mapping_batches_preserve_order_and_reject_invalid_records() {
    let output = b"{\"dep\":\"first+\"}\n{\"dep\":\"second+\"}\n";
    let mappings = parse_repo_mappings(output.as_slice(), 2, &mut Default::default())
        .unwrap()
        .mappings;
    let [first, second] = mappings.as_slice() else {
        panic!("expected two mappings: {mappings:?}");
    };
    assert_eq!(get(first, "dep").unwrap(), "first+");
    assert_eq!(get(second, "dep").unwrap(), "second+");
    for (output, count) in [
        (output.as_slice(), 1),
        (b"{}\nmalformed".as_slice(), 2),
        (b"{}\n{\"dep\":42}".as_slice(), 2),
    ] {
        assert!(parse_repo_mappings(output, count, &mut Default::default()).is_err());
    }
}

#[test]
fn compact_mappings_reference_only_earlier_records() {
    let output = b"{\"dep\":\"first+\"}\n0\n{\"dep\":\"second+\"}\n1\n2\n";
    let parsed = parse_repo_mappings(output.as_slice(), 5, &mut Default::default()).unwrap();
    let [first, second, third, fourth, fifth] = parsed.mappings.as_slice() else {
        panic!("expected five records");
    };
    assert!(Arc::ptr_eq(first, second));
    assert!(Arc::ptr_eq(second, fourth));
    assert!(Arc::ptr_eq(third, fifth));
    assert_eq!(get(first, "dep"), Some("first+"));
    assert_eq!(get(third, "dep"), Some("second+"));
    for invalid in [
        "0\n",
        "{}\n1\n",
        "{}\n-1\n",
        "{}\n0.0\n",
        "{}\ntrue\n",
        "{}\n[]\n",
        "{}\n18446744073709551616\n",
    ] {
        assert!(
            parse_repo_mappings(invalid.as_bytes(), 2, &mut Default::default()).is_err(),
            "{invalid}"
        );
    }
    let mut legacy = MappingState { format: MappingFormat::Json, ..Default::default() };
    assert!(parse_repo_mappings(b"{}\n0\n".as_slice(), 2, &mut legacy).is_err());
}

/// A module graph from what Bazel prints.
fn graph(output: &[u8]) -> Result<ModuleGraph, String> {
    let value: serde_json::Value = serde_json::from_slice(output).map_err(|e| e.to_string())?;
    let text = |value: &serde_json::Value, field: &str| {
        value.get(field).and_then(|v| v.as_str()).map(str::to_owned)
    };
    let keys = |field: &str| -> Result<Vec<String>, String> {
        value
            .get(field)
            .and_then(|v| v.as_array())
            .ok_or("missing dependencies")?
            .iter()
            .map(|dependency| text(dependency, "key").ok_or("missing key".to_owned()))
            .collect()
    };
    Ok(ModuleGraph {
        key: text(&value, "key").ok_or("missing key")?,
        name: text(&value, "name"),
        dependencies: keys("dependencies")?,
        indirect_dependencies: keys("indirectDependencies")?,
    })
}

fn selected(output: &[u8], repo: &str) -> Result<Option<SelectedModule>, String> {
    selected_module_from_graph(&graph(output)?, repo).map_err(|e| format!("{e:?}"))
}

#[test]
fn module_keys_identify_selected_releases_and_overrides() {
    for (edge, key, expected) in [
        ("dependencies", "rules_foo@1.4.1", Some("1.4.1")),
        ("indirectDependencies", "rules_foo@1.4.1", Some("1.4.1")),
        ("dependencies", "rules_foo@_", None),
    ] {
        let other = if edge == "dependencies" { "indirectDependencies" } else { "dependencies" };
        let output = format!(
            "{{\"key\":\"<root>\",\"{other}\":[],\"{edge}\":[{{\"key\":\"{key}\",\"version\":\"1.4.0\"}}]}}"
        );
        let module = selected(output.as_bytes(), "canonical-name").unwrap().unwrap();
        assert_eq!(module.name, "rules_foo");
        assert_eq!(module.version.as_deref(), expected);
    }
    let root = br#"{"key":"<root>","name":"main","version":"1.0.0","dependencies":[],"indirectDependencies":[]}"#;
    let main = selected(root, "").unwrap().unwrap();
    assert_eq!(main.name, "main");
    assert_eq!(main.version, None);
    assert!(selected(root, "missing").is_err());
    assert!(selected(b"{}", "missing").is_err());
    let ambiguous = br#"{"key":"<root>","dependencies":[{"key":"one@1"},{"key":"two@2"}],"indirectDependencies":[]}"#;
    assert!(selected(ambiguous, "repo").is_err());
}

fn descriptions(output: &[u8]) -> Result<Vec<RepositoryDescription>, String> {
    serde_json::Deserializer::from_slice(output)
        .into_iter::<serde_json::Value>()
        .map(|value| {
            let value = value.map_err(|e| e.to_string())?;
            let text = |field: &str| value.get(field).and_then(|v| v.as_str()).map(str::to_owned);
            Ok(RepositoryDescription {
                canonical_name: text("canonicalName").ok_or("missing name")?,
                original_name: text("originalName"),
            })
        })
        .collect()
}

fn extension(output: &[u8], repo: &str) -> Result<bool, String> {
    is_extension_repository(&descriptions(output)?, repo).map_err(|e| format!("{e:?}"))
}

#[test]
fn nonmodules_require_positive_repository_provenance() {
    assert!(extension(br#"{"canonicalName":"repo","originalName":"generated"}"#, "repo").unwrap());
    for output in [
        b"".as_slice(),
        br#"{"canonicalName":"repo"}"#,
        br#"{"canonicalName":"repo","originalName":""}"#,
    ] {
        assert!(!extension(output, "repo").unwrap());
    }
    for output in [
        b"{}".as_slice(),
        br#"{"canonicalName":"other","originalName":"generated"}"#,
        b"{\"canonicalName\":\"repo\"}\n{\"canonicalName\":\"repo\"}",
    ] {
        assert!(extension(output, "repo").is_err());
    }
}

#[test]
fn module_queries_fall_back_to_the_origin_of_a_repository() {
    assert!(matches!(module_after_graph(&None, "repo"), ModuleStep::AskOrigin));
    let found = graph(
        br#"{"key":"<root>","dependencies":[{"key":"rules@1.2.0"}],"indirectDependencies":[]}"#,
    )
    .ok();
    match module_after_graph(&found, "repo") {
        ModuleStep::Known(Some(module)) => {
            assert_eq!(module.name, "rules");
            assert_eq!(module.version.as_deref(), Some("1.2.0"));
        }
        other => panic!("{other:?}"),
    }
}

#[test]
fn fetches_name_canonical_repositories() {
    assert_eq!(fetch_arguments(&Vec::new()), None);
    assert_eq!(
        fetch_arguments(&vec!["first+".to_owned(), "rules++ext+second".to_owned()]).unwrap(),
        ["fetch", "--repo=@@first+", "--repo=@@rules++ext+second"]
    );
}

#[test]
fn mappings_are_asked_for_in_the_format_that_is_known() {
    let repos = vec![String::new(), "repo+".to_owned()];
    let compact = mapping_arguments(MappingFormat::Compact, &repos).unwrap();
    assert_eq!(compact.len(), 6);
    assert_eq!(compact[3], "--output=compact_json");
    assert_eq!(compact[4..], ["", "repo+"]);
    let json = mapping_arguments(MappingFormat::Json, &repos).unwrap();
    assert!(!json.iter().any(|argument| argument.contains("compact")));
}

#[test]
fn only_the_exact_failure_means_that_a_format_is_not_there() {
    let unsupported = b"ERROR: While parsing option --output=compact_json: Not a valid output format: 'compact_json' (should be text, json, graph, streamed_proto or streamed_jsonproto)\n";
    assert!(unsupported_compact_mapping_format(unsupported));
    assert!(!unsupported_compact_mapping_format(b"ERROR: repository evaluation failed\n"));
    let compact = b"{\"dep\":\"repo+\"}\n0\n".as_slice();
    for (output, errors, status, decision, format) in [
        (compact, b"".as_slice(), 0, MappingDecision::Accept, MappingFormat::Compact),
        (b"", unsupported, 2, MappingDecision::RetryAsJson, MappingFormat::Json),
        (b"", unsupported, 1, MappingDecision::Fail, MappingFormat::Compact),
        (b"", b"ERROR: repository evaluation failed\n", 2, MappingDecision::Fail, MappingFormat::Compact),
        (b"", b"", 0, MappingDecision::WrongCount, MappingFormat::Compact),
        (b"{}\n", b"", 0, MappingDecision::WrongCount, MappingFormat::Compact),
        (b"{}\n", unsupported, 2, MappingDecision::Fail, MappingFormat::Compact),
        (compact, b"evaluation failed\n", 2, MappingDecision::Fail, MappingFormat::Compact),
    ] {
        let mut state = MappingState::default();
        let read = parse_repo_mappings(output, 2, &mut state).unwrap();
        assert_eq!(decide_mappings(&mut state, &read, Some(status), errors, 2), decision);
        assert_eq!(state.format, format);
    }
    for output in [b"{}\n0\n0\n".as_slice(), b"{}\ninvalid\n"] {
        assert!(parse_repo_mappings(output, 2, &mut Default::default()).is_err());
    }
    let mut state = MappingState::default();
    let read = MappingOutput::new();
    assert_eq!(decide_mappings(&mut state, &read, None, b"", 0), MappingDecision::Fail);
}

#[test]
fn bazel_info_is_read_field_by_field() {
    let output = "output_base: /base\nrelease: release 7.1.0\nstarlark-semantics: {}\nworkspace: /work\n";
    let info = parse_info(output).unwrap();
    assert_eq!(info.output_base, "/base");
    assert_eq!(info.workspace, "/work");
    assert!(parse_info("").is_err());
    let error = parse_info("release: x\n").unwrap_err();
    assert!(!error.message().is_empty());
    let _: InfoField = error;
}

#[test]
fn a_single_mapping_is_expected_alone() {
    let mapping: RepoMapping = Arc::new(vec![("a".to_owned(), "b".to_owned())]);
    assert!(Arc::ptr_eq(&only_mapping(vec![mapping.clone()]).unwrap(), &mapping));
    assert_eq!(
        only_mapping(Vec::new()).unwrap_err(),
        "expected one repository mapping, received 0"
    );
    let many: Vec<RepoMapping> = (0..12).map(|_| mapping.clone()).collect();
    assert_eq!(
        only_mapping(many).unwrap_err(),
        "expected one repository mapping, received 12"
    );
    let invalid = parse_repo_mappings(b"{}\n7\n".as_slice(), 2, &mut Default::default());
    let error: MappingError = invalid.err().unwrap();
    assert_eq!(
        error.message().contains('7'),
        true,
        "a reference that is not there is named"
    );
}

#[test]
fn a_relative_executable_keeps_its_place() {
    let cli = BazelCLI::new("tools/bazel").with_working_directory("/work".to_owned(), "/home");
    assert_eq!(cli.executable, "/home/tools/bazel");
    assert_eq!(cli.working_directory.as_deref(), Some("/work"));
    let cli = BazelCLI::new("./bazel").with_working_directory("/work".to_owned(), "/home");
    assert_eq!(cli.executable, "/home/./bazel");
    let cli = BazelCLI::default().with_working_directory("/work".to_owned(), "/home");
    assert_eq!(cli.executable, "bazel");
}

#[test]
fn mappings_that_only_the_state_holds_are_forgotten() {
    let entry = |key: &str| (key.as_bytes().to_vec(), Arc::new(Vec::new()));
    let keys = |state: &MappingState| -> Vec<Vec<u8>> {
        state.values.iter().map(|(key, _)| key.clone()).collect()
    };
    let mut state = MappingState {
        values: vec![entry("a"), entry("b"), entry("c"), entry("d")],
        format: MappingFormat::Json,
    };
    state.keep_held(&vec![2, 1, 3, 1]);
    assert_eq!(keys(&state), [b"a".to_vec(), b"c".to_vec()]);
    assert_eq!(state.format, MappingFormat::Json);

    let mut state = MappingState::default();
    let first = state.intern(b"{\"one\":\"1\"}").unwrap();
    let second = state.intern(b"{\"two\":\"2\"}").unwrap();
    drop(first);
    state.release();
    assert_eq!(keys(&state), [b"{\"two\":\"2\"}".to_vec()]);
    drop(second);
    state.release();
    assert!(state.values.is_empty());
}
