//! What the host gives to every analysis: its options, its definitions, and the
//! attributes that every rule has.

use vstd::prelude::*;

use crate::builtins::{normalize_doc_text, normalized, BuiltinDefs, Builtins};
use crate::common::{Dialect, File, InferenceOptions};
use crate::def::Name;
use crate::typeck::{Attribute, AttributeDefault, AttributeKind, RuleKind};

verus! {

/// What the host gives to every analysis.
pub struct Environment {
    pub options: InferenceOptions,
    pub standard_builtins: BuiltinDefs,
    pub bazel_builtins: BuiltinDefs,
    pub prelude_file: Option<File>,
    pub all_workspace_targets: Vec<String>,
    pub load_revision: u64,
    pub type_interfaces: Vec<(File, File)>,
}

/// Whether nothing is defined.
pub open spec fn is_empty(builtins: Builtins) -> bool {
    builtins.global@.len() == 0 && builtins.ty@.len() == 0
}

impl Environment {
    /// An environment in which nothing is defined yet.
    pub fn initialize(options: InferenceOptions) -> (r: Self)
        ensures
            r.options == options,
            is_empty(r.standard_builtins.builtins),
            is_empty(r.standard_builtins.rules),
            is_empty(r.bazel_builtins.builtins),
            is_empty(r.bazel_builtins.rules),
            r.prelude_file is None,
            r.all_workspace_targets@.len() == 0,
            r.load_revision == 0,
            r.type_interfaces@.len() == 0,
    {
        Environment {
            options,
            standard_builtins: no_defs(),
            bazel_builtins: no_defs(),
            prelude_file: None,
            all_workspace_targets: Vec::new(),
            load_revision: 0,
            type_interfaces: Vec::new(),
        }
    }

    /// What the host defines in a dialect.
    pub fn builtin_defs(&self, dialect: Dialect) -> (r: &BuiltinDefs)
        ensures
            *r == match dialect {
                Dialect::Standard => self.standard_builtins,
                Dialect::Bazel => self.bazel_builtins,
            },
    {
        match dialect {
            Dialect::Standard => &self.standard_builtins,
            Dialect::Bazel => &self.bazel_builtins,
        }
    }
}

/// No definitions.
fn no_defs() -> (r: BuiltinDefs)
    ensures
        is_empty(r.builtins),
        is_empty(r.rules),
{
    BuiltinDefs {
        builtins: Builtins { global: Vec::new(), ty: Vec::new() },
        rules: Builtins { global: Vec::new(), ty: Vec::new() },
    }
}

/// An attribute that every rule has, as it is documented.
#[derive(Debug)]
pub struct CommonAttribute {
    pub name: String,
    pub kind: AttributeKind,
    pub doc: String,
    pub is_mandatory: bool,
    pub default_value: String,
}

/// The attributes that every rule has.
#[derive(Debug)]
pub struct CommonAttributes {
    pub build: Vec<(Name, Attribute)>,
    pub repository: Vec<(Name, Attribute)>,
}

/// Whether an attribute is one that is documented.
pub open spec fn is_common(doc: CommonAttribute, r: (Name, Attribute)) -> bool {
    &&& r.0@ == doc.name@
    &&& r.1.kind == doc.kind
    &&& r.1.doc matches Some(text) && text@ == normalized(doc.doc@, false)
    &&& r.1.mandatory == doc.is_mandatory
    &&& r.1.default_value matches Some(AttributeDefault::Text(text)) && text@ == doc.default_value@
}

/// Whether attributes are those that are documented.
pub open spec fn are_common(docs: Seq<CommonAttribute>, r: Seq<(Name, Attribute)>) -> bool {
    &&& r.len() == docs.len()
    &&& forall|i: int| 0 <= i < docs.len() ==> is_common(#[trigger] docs[i], r[i])
}

/// Attributes from their documentation.
fn common_attributes(docs: &Vec<CommonAttribute>) -> (r: Vec<(Name, Attribute)>)
    ensures
        are_common(docs@, r@),
{
    let mut r: Vec<(Name, Attribute)> = Vec::new();
    let mut i: usize = 0;
    while i < docs.len()
        invariant
            i <= docs@.len(),
            r@.len() == i,
            forall|k: int| 0 <= k < i ==> is_common(#[trigger] docs@[k], r@[k]),
        decreases docs@.len() - i,
    {
        let doc = &docs[i];
        r.push(
            (
                Name::from_str(doc.name.as_str()),
                Attribute {
                    kind: doc.kind,
                    doc: Some(normalize_doc_text(doc.doc.as_str())),
                    mandatory: doc.is_mandatory,
                    default_value: Some(AttributeDefault::Text(doc.default_value.clone())),
                },
            ),
        );
        i = i + 1;
    }
    r
}

/// The attributes that every rule has, from their documentation.
pub fn common_attributes_query(build: &Vec<CommonAttribute>, repository: &Vec<CommonAttribute>) -> (r:
    CommonAttributes)
    ensures
        are_common(build@, r.build@),
        are_common(repository@, r.repository@),
{
    CommonAttributes { build: common_attributes(build), repository: common_attributes(repository) }
}

impl CommonAttributes {
    /// The attributes of rules of a kind.
    pub open spec fn of(self, kind: RuleKind) -> Seq<(Name, Attribute)> {
        match kind {
            RuleKind::Build => self.build@,
            RuleKind::Repository => self.repository@,
        }
    }

    pub fn get(&self, kind: RuleKind, index: usize) -> (r: (&Name, &Attribute))
        requires
            index < self.of(kind).len(),
        ensures
            *r.0 == self.of(kind)[index as int].0,
            *r.1 == self.of(kind)[index as int].1,
    {
        match kind {
            RuleKind::Build => (&self.build[index].0, &self.build[index].1),
            RuleKind::Repository => (&self.repository[index].0, &self.repository[index].1),
        }
    }
}

} // verus!
