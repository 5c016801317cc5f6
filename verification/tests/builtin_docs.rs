use starpls::builtin_tables::{
    builtin_globals_query, builtin_providers_query, builtin_types_query, BuiltinEnv,
};
use starpls::builtins::{normalize_doc_text, BuiltinDefs, Builtins, Callable, Type, Value};
use starpls::common::APIContext;
use starpls::resolver::resolve_name_in_builtin_globals;
use starpls::typeck::TyKind;

#[test]
fn test_normalize_doc_text() {
    assert_eq!(normalize_doc_text("int").as_str(), "int");
    assert_eq!(normalize_doc_text("<a>int</a>").as_str(), "int");
    assert_eq!(
        normalize_doc_text("<a>int</a>; or <a>string</a>").as_str(),
        "int; or string"
    )
}

fn value(name: &str, ty: &str, callable: Option<Callable>) -> Value {
    Value { name: name.to_owned(), ty: ty.to_owned(), callable, doc: String::new() }
}

fn function(name: &str) -> Value {
    value(name, "", Some(Callable { param: Vec::new(), return_type: "string".to_owned() }))
}

#[test]
fn documented_globals_and_types_are_found_by_name() {
    let defs = BuiltinDefs {
        builtins: Builtins {
            global: vec![function("glob"), value("version", "string", None), function("hidden")],
            ty: vec![
                Type {
                    name: "File".to_owned(),
                    field: vec![value("path", "string", None), function("method")],
                    doc: "A <b>file</b>".to_owned(),
                },
                Type { name: "FooInfo".to_owned(), field: Vec::new(), doc: String::new() },
            ],
        },
        rules: Builtins { global: Vec::new(), ty: Vec::new() },
    };
    let env = BuiltinEnv {
        known_provider_types: vec!["FooInfo".to_owned()],
        values_deny_list: vec!["hidden".to_owned()],
        types_deny_list: Vec::new(),
        bzl: Vec::new(),
        build: Vec::new(),
        module_bazel: vec![function("bazel_dep")],
        repo: Vec::new(),
        workspace: Vec::new(),
        cquery: Vec::new(),
        vendor: Vec::new(),
        missing_module_members: starpls::name_map::NameMap::new(),
    };
    let providers = builtin_providers_query(&defs, &env);
    assert!(providers.get("FooInfo").is_some());
    assert!(providers.get("File").is_none());
    let globals = builtin_globals_query(&defs, &env, &providers);
    assert!(globals.bzl_globals.functions.get("glob").is_some());
    assert!(globals.bzl_globals.functions.get("hidden").is_none());
    assert!(globals.bzl_globals.variables.get("version").is_some());
    assert!(globals.bzlmod_globals.functions.get("bazel_dep").is_some());
    let types = builtin_types_query(&defs, &env, &providers);
    match types.types.get("File").unwrap().as_ref() {
        TyKind::BuiltinType(data) => {
            assert_eq!(data.fields.len(), 1);
            assert_eq!(data.methods.len(), 1);
            assert!(!data.doc.contains('<'));
        }
        other => panic!("{other:?}"),
    }
    assert!(matches!(types.types.get("FooInfo").unwrap().as_ref(), TyKind::ProviderInstance(_)));
    let found = resolve_name_in_builtin_globals(&globals, Some(APIContext::Module), "bazel_dep");
    assert!(found.is_some());
    assert!(resolve_name_in_builtin_globals(&globals, Some(APIContext::Bzl), "bazel_dep").is_none());
}
