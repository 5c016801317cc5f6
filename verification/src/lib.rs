//! The analysis core of a language server for Starlark and Bazel.

pub mod batches;
pub mod bind;
pub mod build_language;
pub mod builtin_tables;
pub mod builtins;
pub mod call;
pub mod call_laws;
pub mod check;
pub mod check_laws;
pub mod client;
pub mod client_laws;
pub mod common;
pub mod convert;
pub mod def;
pub mod diagnostics;
pub mod doc_laws;
pub mod edits;
pub mod environment;
pub mod file_laws;
pub mod flow;
pub mod flow_laws;
pub mod label_laws;
pub mod loader;
pub mod lower;
pub mod lower_laws;
pub mod lower_proof;
pub mod lower_records;
pub mod lower_spec;
pub mod name_laws;
pub mod name_map;
pub mod ops;
pub mod ops_laws;
pub mod paths;
pub mod position_laws;
pub mod positions;
pub mod protocol;
pub mod protocol_laws;
pub mod reading_laws;
pub mod references;
pub mod rename;
pub mod resolver;
pub mod ret_laws;
pub mod ret_types;
pub mod rule_laws;
pub mod scope;
pub mod scope_laws;
pub mod server;
pub mod server_laws;
pub mod source;
pub mod source_kind;
pub mod source_laws;
pub mod stub_laws;
pub mod stubs;
pub mod syntax;
pub mod system;
pub mod text;
pub mod text_laws;
pub mod tokens;
pub mod typeck;
pub mod watch;
pub mod watch_laws;
