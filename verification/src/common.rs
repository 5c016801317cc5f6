//! Files and the host contexts in which they are read.

use vstd::prelude::*;

verus! {

/// The language variant of a file.
#[derive(Clone, Copy, Debug, PartialEq, Eq, Hash, Structural)]
pub enum Dialect {
    Standard,
    Bazel,
}

/// The set of globals that Bazel offers to a kind of file.
#[derive(Clone, Copy, Debug, PartialEq, Eq, Hash, Structural)]
pub enum APIContext {
    Bzl,
    Build,
    Module,
    Repo,
    Workspace,
    Prelude,
    Cquery,
    Vendor,
}

/// What a completion inside a `load` path stands for.
#[derive(Clone, Copy, Debug, PartialEq, Eq, Structural)]
pub enum LoadItemCandidateKind {
    Directory,
    File,
}

/// A completion for the path of a `load` statement.
#[derive(Clone, Debug, PartialEq, Eq)]
pub struct LoadItemCandidate {
    pub kind: LoadItemCandidateKind,
    pub path: String,
    pub replace_trailing_slash: bool,
}

/// What the host knows about a file besides its text.
#[derive(Clone, Copy, Debug, PartialEq, Eq, Hash, Structural)]
pub enum FileInfo {
    Bazel { api_context: APIContext, is_external: bool },
}

/// A physical file interpreted in a particular host context. `source` is the
/// identity of the physical file.
#[derive(Clone, Copy, Debug, PartialEq, Eq, Hash, Structural)]
pub struct File {
    pub source: usize,
    pub dialect: Dialect,
    pub info: Option<FileInfo>,
}

impl File {
    /// The context whose globals the file sees, if a host gave it one.
    pub open spec fn context(self) -> Option<APIContext> {
        match self.info {
            Some(FileInfo::Bazel { api_context, is_external: _ }) => Some(api_context),
            None => None,
        }
    }

    pub fn api_context(self) -> (r: Option<APIContext>)
        ensures
            r == self.context(),
    {
        match self.info {
            Some(FileInfo::Bazel { api_context, is_external: _ }) => Some(api_context),
            None => None,
        }
    }

    /// Whether the file belongs to another repository, if a host said so.
    pub fn is_external(self) -> (r: Option<bool>)
        ensures
            r == match self.info {
                Some(FileInfo::Bazel { api_context: _, is_external }) => Some(is_external),
                None => None,
            },
    {
        match self.info {
            Some(FileInfo::Bazel { api_context: _, is_external }) => Some(is_external),
            None => None,
        }
    }

    /// Native annotations follow the ordinary `.bzl` syntax mode: they are
    /// allowed in a Bazel file with the extension `bzl` whose context is `Bzl`
    /// or unknown. `extension` is the extension of the file's path, if any.
    pub fn allows_native_annotations(self, extension: Option<&str>) -> (r: bool)
        ensures
            r == (self.dialect == Dialect::Bazel && (self.context() is None || self.context()
                == Some(APIContext::Bzl)) && extension is Some && extension->0@ == "bzl"@),
    {
        let context_allows = match self.api_context() {
            None => true,
            Some(context) => context == APIContext::Bzl,
        };
        match extension {
            Some(text) => self.dialect == Dialect::Bazel && context_allows && crate::text::same(
                text,
                "bzl",
            ),
            None => false,
        }
    }
}

/// A value that belongs to a file.
#[derive(Clone, Copy, Debug, PartialEq, Eq, Hash, Structural)]
pub struct InFile<T> {
    pub file: File,
    pub value: T,
}

/// Switches of type inference.
#[derive(Clone, Copy, Debug, PartialEq, Eq, Structural)]
pub struct InferenceOptions {
    pub infer_ctx_attributes: bool,
    pub use_code_flow_analysis: bool,
    pub allow_unused_definitions: bool,
}

impl Default for InferenceOptions {
    fn default() -> (r: Self)
        ensures
            r == (InferenceOptions {
                infer_ctx_attributes: false,
                use_code_flow_analysis: false,
                allow_unused_definitions: false,
            }),
    {
        InferenceOptions {
            infer_ctx_attributes: false,
            use_code_flow_analysis: false,
            allow_unused_definitions: false,
        }
    }
}

} // verus!
