//! The types of Starlark values.

use std::sync::Arc;

use vstd::prelude::*;

use crate::builtins::{BuiltinFunctionData, BuiltinProviderData, BuiltinTypeData};
use crate::common::InFile;
use crate::def::{ExprId, FunctionData, Name, StmtId};
use crate::syntax::Span;

verus! {

/// A type, shared between its uses.
pub type Ty = Arc<TyKind>;

/// The kinds of types that calls and definitions look into.
#[derive(Debug)]
pub enum TyKind {
    Unknown,
    Any,
    NoneType,
    Bool(Option<bool>),
    Str(Option<String>),
    Dict(Ty, Ty, Option<Arc<DictLiteral>>),
    Tuple(Tuple),
    Struct(Option<Struct>),
    Function(FunctionDef),
    IntrinsicFunction(Arc<IntrinsicFunction>),
    BuiltinFunction(Arc<BuiltinFunctionData>),
    BuiltinType(Arc<BuiltinTypeData>),
    Provider(Provider),
    ProviderInstance(Provider),
    ProviderRawConstructor(Name, Provider),
    Attribute(Option<Arc<Attribute>>),
    Rule(Rule),
    Tag(Arc<TagClass>),
    TagClass(Arc<TagClass>),
    ModuleExtension(Arc<ModuleExtension>),
    ModuleExtensionProxy(Arc<ModuleExtension>),
    Macro(Macro),
    Other,
}

/// A dictionary display, with the keys that are known.
#[derive(Debug)]
pub struct DictLiteral {
    pub expr: Option<InFile<ExprId>>,
    pub known_keys: Vec<(String, Ty)>,
}

/// The type of a tuple.
#[derive(Debug)]
pub enum Tuple {
    Simple(Vec<Ty>),
    Variable(Ty),
}

/// The type of a struct that a call makes.
#[derive(Debug)]
pub struct Struct {
    pub call_expr: InFile<ExprId>,
    pub fields: Vec<(Name, Ty)>,
}

/// A function, with the statement that defines it unless it is a lambda.
#[derive(Debug)]
pub struct FunctionDef {
    pub func: Arc<FunctionData>,
    pub stmt: Option<InFile<StmtId>>,
}

/// A function of the language itself.
#[derive(Debug)]
pub struct IntrinsicFunction {
    pub name: Name,
    pub params: Vec<IntrinsicFunctionParam>,
}

/// A parameter of an intrinsic function.
#[derive(Debug)]
pub enum IntrinsicFunctionParam {
    Positional { ty: Ty, optional: bool },
    Keyword { name: Name, ty: Ty, deprecated: bool },
    ArgsList { ty: Ty },
    KwargsDict,
}

/// A provider of the host, or one that a call makes.
#[derive(Debug)]
pub enum Provider {
    Builtin(Arc<BuiltinProviderData>),
    Custom(Arc<CustomProvider>),
}

/// A provider that a call makes.
#[derive(Debug)]
pub struct CustomProvider {
    pub name: Option<Name>,
    pub doc: Option<String>,
    pub fields: Option<CustomProviderFields>,
}

/// The fields of a provider that a call makes.
#[derive(Debug)]
pub struct CustomProviderFields {
    pub expr: Option<InFile<ExprId>>,
    pub fields: Vec<ProviderField>,
}

/// A field of a provider.
#[derive(Debug)]
pub struct ProviderField {
    pub name: Name,
    pub doc: Option<String>,
}

/// The kinds of attributes of rules.
#[derive(Clone, Copy, Debug, PartialEq, Eq, Structural)]
pub enum AttributeKind {
    Bool,
    Int,
    IntList,
    Label,
    LabelKeyedStringDict,
    LabelList,
    Output,
    OutputList,
    Str,
    StringDict,
    StringKeyedLabelDict,
    StringList,
    StringListDict,
}

/// The default value of an attribute: an expression, or its text.
#[derive(Debug)]
pub enum AttributeDefault {
    Source(InFile<Span>),
    Text(String),
}

/// An attribute of a rule.
#[derive(Debug)]
pub struct Attribute {
    pub kind: AttributeKind,
    pub doc: Option<String>,
    pub mandatory: bool,
    pub default_value: Option<AttributeDefault>,
}

/// Attributes by name; one without a value is not inherited.
#[derive(Debug)]
pub struct RuleAttributes {
    pub attrs: Vec<(Name, Option<Arc<Attribute>>)>,
    pub expr: Option<InFile<ExprId>>,
}

/// The two kinds of rules.
#[derive(Clone, Copy, Debug, PartialEq, Eq, Structural)]
pub enum RuleKind {
    Build,
    Repository,
}

/// A rule.
#[derive(Debug)]
pub struct Rule {
    pub kind: RuleKind,
    pub doc: Option<String>,
    pub attrs: Option<Arc<RuleAttributes>>,
}

/// A symbolic macro.
#[derive(Debug)]
pub struct Macro {
    pub attrs: Option<Arc<RuleAttributes>>,
    pub doc: Option<String>,
}

/// A named attribute of a tag class.
#[derive(Debug)]
pub struct AttributeData {
    pub name: Name,
    pub attr: Arc<Attribute>,
}

/// A tag class of a module extension.
#[derive(Debug)]
pub struct TagClass {
    pub attrs: Option<Vec<AttributeData>>,
    pub doc: Option<String>,
}

/// A named tag class.
#[derive(Debug)]
pub struct TagClassData {
    pub name: Name,
    pub tag_class: Arc<TagClass>,
}

/// A module extension.
#[derive(Debug)]
pub struct ModuleExtension {
    pub doc: Option<String>,
    pub tag_classes: Option<Vec<TagClassData>>,
}

} // verus!
