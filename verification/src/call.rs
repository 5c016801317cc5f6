//! Signatures of callables, the expansion of arguments, and the decisions of
//! binding the one to the other.
//!
//! Which parameter an argument goes to is the business of a structural matcher
//! outside. Binding asks it one question at a time: `bind_step` takes its last
//! answer and says what to ask next.

use std::sync::Arc;

use vstd::prelude::*;

use crate::builtins::BuiltinFunctionParam;
use crate::common::InFile;
use crate::def::{
    missing_text, shapes, texts, Argument, Expr, ExprId, Literal, Module, Name, Param, ParamId,
    StmtId, TypeRef,
};
use crate::text::{join3, same};
use crate::typeck::{
    Attribute, IntrinsicFunctionParam, Provider, ProviderField, Tuple, Ty, TyKind,
};

verus! {

/// Which arguments a parameter takes.
#[derive(Debug)]
pub enum ParameterShape {
    PositionalOnly,
    PositionalOrKeyword(Name),
    KeywordOnly(Name),
    Variadic,
    KeywordVariadic,
}

/// The type of a parameter: known, still to be substituted in, what an
/// attribute expects, or as it is declared in a scope.
#[derive(Debug)]
pub enum ParameterType {
    Resolved(Ty),
    Substituted(Ty),
    Expected(Arc<Attribute>),
    Declared { reference: Option<Arc<TypeRef>>, scope: Option<InFile<StmtId>> },
}

/// A parameter of a callable.
#[derive(Debug)]
pub struct CallParameter {
    pub shape: ParameterShape,
    pub ty: ParameterType,
    pub required: bool,
    pub deprecated: bool,
    pub display_index: usize,
}

impl CallParameter {
    /// The name of a parameter, if it has one.
    pub open spec fn label(self) -> Option<Seq<char>> {
        match self.shape {
            ParameterShape::PositionalOrKeyword(name) => Some(name@),
            ParameterShape::KeywordOnly(name) => Some(name@),
            _ => None,
        }
    }

    pub fn name(&self) -> (r: Option<&str>)
        ensures
            match r {
                Some(name) => self.label() == Some(name@),
                None => self.label() is None,
            },
    {
        match &self.shape {
            ParameterShape::PositionalOrKeyword(name) => Some(name.as_str()),
            ParameterShape::KeywordOnly(name) => Some(name.as_str()),
            _ => None,
        }
    }
}

/// What a callable takes. `attributes` says that its parameters are attributes,
/// `allow_unknown` that arguments without a parameter are no error.
#[derive(Debug)]
pub struct Signature {
    pub parameters: Vec<CallParameter>,
    pub attributes: bool,
    pub allow_unknown: bool,
    pub disallowed: Vec<Name>,
}

impl TypeRef {
    /// Another value of the same type.
    pub fn dup(&self) -> (r: TypeRef)
        ensures
            r.shape() == self.shape(),
        decreases self,
    {
        match self {
            TypeRef::Name(name, None) => TypeRef::Name(name.dup(), None),
            TypeRef::Name(name, Some(args)) => TypeRef::Name(name.dup(), Some(dup_types(args))),
            TypeRef::Path(segments, args) => {
                let mut names: Vec<Name> = Vec::new();
                let mut i: usize = 0;
                while i < segments.len()
                    invariant
                        i <= segments@.len(),
                        names@.len() == i,
                        forall|k: int| 0 <= k < i ==> (#[trigger] names@[k])@ == segments@[k]@,
                    decreases segments@.len() - i,
                {
                    names.push(segments[i].dup());
                    i = i + 1;
                }
                proof {
                    assert(texts(names@) =~= texts(segments@));
                }
                match args {
                    None => TypeRef::Path(names, None),
                    Some(args) => TypeRef::Path(names, Some(dup_types(args))),
                }
            },
            TypeRef::Union(types) => TypeRef::Union(dup_types(types)),
            TypeRef::Provider(provider) => TypeRef::Provider(provider.clone()),
            TypeRef::Ellipsis => TypeRef::Ellipsis,
            TypeRef::Unknown => TypeRef::Unknown,
        }
    }
}

/// Other values of the same types.
fn dup_types(types: &Vec<TypeRef>) -> (r: Vec<TypeRef>)
    ensures
        shapes(r@) == shapes(types@),
    decreases types,
{
    let mut out: Vec<TypeRef> = Vec::new();
    let mut i: usize = 0;
    while i < types.len()
        invariant
            i <= types@.len(),
            out@.len() == i,
            forall|k: int| 0 <= k < i ==> (#[trigger] out@[k]).shape() == types@[k].shape(),
        decreases types@.len() - i,
    {
        out.push(types[i].dup());
        i = i + 1;
    }
    proof {
        assert(shapes(out@) =~= shapes(types@));
    }
    out
}

/// Whether one of the first `n` parameters takes the remaining keywords.
pub open spec fn has_kwargs(params: Seq<Param>, n: int) -> bool {
    exists|j: int| 0 <= j < n && #[trigger] params[j] is KwargsDict
}

/// Whether one of the first `n` parameters takes the remaining positions.
pub open spec fn has_args(params: Seq<Param>, n: int) -> bool {
    exists|j: int| 0 <= j < n && #[trigger] params[j] is ArgsList
}

/// The first `n` parameters that a signature shows: not a bare star, and none
/// behind the parameter that takes the remaining keywords.
pub open spec fn shown_params(params: Seq<Param>, n: nat) -> Seq<int>
    decreases n,
{
    if n == 0 {
        Seq::empty()
    } else {
        let rest = shown_params(params, (n - 1) as nat);
        let bare = params[n - 1] is ArgsList && params[n - 1].label() == missing_text();
        if has_kwargs(params, n - 1) || bare {
            rest
        } else {
            rest.push(n - 1)
        }
    }
}

/// Whether a parameter need not be passed.
pub open spec fn is_optional(param: Param) -> bool {
    match param {
        Param::Simple { name: _, default, type_ref: _, doc: _ } => default is Some,
        _ => true,
    }
}

/// Whether `p` is parameter `k` of a function.
pub open spec fn function_parameter(
    params: Seq<Param>,
    k: int,
    scope: Option<InFile<StmtId>>,
    p: CallParameter,
) -> bool {
    let param = params[k];
    &&& match (param, p.shape) {
        (Param::Simple { .. }, ParameterShape::KeywordOnly(name)) => has_args(params, k) && name@
            == param.label(),
        (Param::Simple { .. }, ParameterShape::PositionalOrKeyword(name)) => !has_args(params, k)
            && name@ == param.label(),
        (Param::ArgsList { .. }, ParameterShape::Variadic) => true,
        (Param::KwargsDict { .. }, ParameterShape::KeywordVariadic) => true,
        _ => false,
    }
    &&& p.ty == (ParameterType::Declared {
        reference: crate::lower_spec::param_type(param),
        scope,
    })
    &&& p.required == (!is_optional(param) && param.label() != missing_text())
    &&& !p.deprecated
    &&& p.display_index == k
}

/// Whether `out` are the parameters of a function, the first `n`.
pub open spec fn function_parameters(
    params: Seq<Param>,
    n: nat,
    scope: Option<InFile<StmtId>>,
    out: Seq<CallParameter>,
) -> bool {
    let order = shown_params(params, n);
    &&& out.len() == order.len()
    &&& forall|i: int|
        0 <= i < order.len() ==> function_parameter(params, order[i], scope, #[trigger] out[i])
}

/// Whether `p` is parameter `k` of an intrinsic function.
pub open spec fn intrinsic_parameter(
    param: IntrinsicFunctionParam,
    k: int,
    p: CallParameter,
) -> bool {
    &&& p.display_index == k
    &&& match param {
        IntrinsicFunctionParam::Positional { ty, optional } => {
            &&& p.shape is PositionalOnly
            &&& p.ty == ParameterType::Substituted(ty)
            &&& p.required == !optional
            &&& !p.deprecated
        },
        IntrinsicFunctionParam::Keyword { name, ty, deprecated } => {
            &&& p.shape matches ParameterShape::KeywordOnly(n) && n@ == name@
            &&& p.ty == ParameterType::Substituted(ty)
            &&& !p.required
            &&& p.deprecated == deprecated
        },
        IntrinsicFunctionParam::ArgsList { ty } => {
            &&& p.shape is Variadic
            &&& p.ty == ParameterType::Substituted(ty)
            &&& !p.required
            &&& !p.deprecated
        },
        IntrinsicFunctionParam::KwargsDict => {
            &&& p.shape is KeywordVariadic
            &&& p.ty matches ParameterType::Substituted(ty) && *ty is Any
            &&& !p.required
            &&& !p.deprecated
        },
    }
}

/// Whether `p` is parameter `k` of a builtin function or, with `provider`, of a
/// builtin provider, which takes keywords alone.
pub open spec fn builtin_parameter(
    param: BuiltinFunctionParam,
    provider: bool,
    k: int,
    p: CallParameter,
) -> bool {
    &&& p.display_index == k
    &&& !p.deprecated
    &&& p.ty matches ParameterType::Declared { reference: Some(reference), scope: None }
        && reference.shape() == param.type_shape()
    &&& match param {
        BuiltinFunctionParam::Simple {
            name,
            type_ref: _,
            doc: _,
            default_value: _,
            positional,
            is_mandatory,
        } => {
            &&& p.required == is_mandatory
            &&& match p.shape {
                ParameterShape::PositionalOrKeyword(n) => positional && !provider && n@ == name@,
                ParameterShape::KeywordOnly(n) => !(positional && !provider) && n@ == name@,
                _ => false,
            }
        },
        BuiltinFunctionParam::ArgsList { .. } => p.shape is Variadic && !p.required,
        BuiltinFunctionParam::KwargsDict { .. } => p.shape is KeywordVariadic && !p.required,
    }
}

/// The number of builtin parameters that a signature shows: none behind the
/// first that takes the remaining keywords.
pub open spec fn shown_builtins(params: Seq<BuiltinFunctionParam>, k: nat) -> nat
    decreases params.len() - k,
{
    if k >= params.len() {
        k
    } else if params[k as int] is KwargsDict {
        k + 1
    } else {
        shown_builtins(params, k + 1)
    }
}

/// Whether `out` are the parameters of a builtin function or provider.
pub open spec fn builtin_parameters(
    params: Seq<BuiltinFunctionParam>,
    provider: bool,
    out: Seq<CallParameter>,
) -> bool {
    &&& out.len() == shown_builtins(params, 0)
    &&& forall|i: int|
        0 <= i < out.len() ==> builtin_parameter(params[i], provider, i, #[trigger] out[i])
}

/// Whether `out` are the parameters for attributes: one keyword for each, and
/// one for the remaining keywords.
pub open spec fn attribute_parameters(
    attrs: Seq<(Name, Arc<Attribute>)>,
    out: Seq<CallParameter>,
) -> bool {
    &&& out.len() == attrs.len() + 1
    &&& forall|i: int|
        0 <= i < attrs.len() ==> {
            let p = #[trigger] out[i];
            &&& p.shape matches ParameterShape::KeywordOnly(n) && n@ == attrs[i].0@
            &&& p.ty == ParameterType::Expected(attrs[i].1)
            &&& p.required == attrs[i].1.mandatory
            &&& !p.deprecated
            &&& p.display_index == i
        }
    &&& is_rest(out.last(), attrs.len() as int)
}

/// Whether `p` is an optional parameter for the remaining keywords.
pub open spec fn is_rest(p: CallParameter, k: int) -> bool {
    &&& p.shape is KeywordVariadic
    &&& p.ty matches ParameterType::Resolved(ty) && *ty is Any
    &&& !p.required
    &&& !p.deprecated
    &&& p.display_index == k
}

/// Whether `out` are the parameters for the fields of a provider.
pub open spec fn field_parameters(fields: Seq<ProviderField>, out: Seq<CallParameter>) -> bool {
    &&& out.len() == fields.len()
    &&& forall|i: int|
        0 <= i < fields.len() ==> {
            let p = #[trigger] out[i];
            &&& p.shape matches ParameterShape::KeywordOnly(n) && n@ == fields[i].name@
            &&& p.ty matches ParameterType::Resolved(ty) && *ty is Unknown
            &&& !p.required
            &&& !p.deprecated
            &&& p.display_index == i
        }
}

/// Whether `out` are the parameters of a provider.
pub open spec fn provider_parameters(provider: Provider, out: Seq<CallParameter>) -> bool {
    match provider {
        Provider::Builtin(data) => builtin_parameters(data.params@, true, out),
        Provider::Custom(data) => match data.fields {
            Some(fields) => field_parameters(fields.fields@, out),
            None => out.len() == 0,
        },
    }
}

/// The parameters with the indices `ids`.
pub open spec fn params_at(m: Module, ids: Seq<ParamId>) -> Seq<Param> {
    Seq::new(ids.len(), |i: int| m.params@[ids[i].0 as int])
}

/// What is known of a callable besides its type: the module of a function, the
/// attributes of a rule or a macro, and the attributes that a macro refuses.
pub struct CalleeContext<'a> {
    pub module: &'a Module,
    pub attrs: &'a Vec<(Name, Arc<Attribute>)>,
    pub disallowed: &'a Vec<Name>,
}

/// The attributes of a tag.
pub open spec fn tag_attrs(
    attrs: Option<Vec<crate::typeck::AttributeData>>,
) -> Seq<(Name, Arc<Attribute>)> {
    match attrs {
        Some(attrs) => Seq::new(attrs@.len(), |i: int| (attrs@[i].name, attrs@[i].attr)),
        None => Seq::empty(),
    }
}

/// Whether `s` is the signature of a callable. What cannot be called has none.
pub open spec fn signature_of(cx: CalleeContext, callee: TyKind, s: Option<Signature>) -> bool {
    match callee {
        TyKind::Function(def) => {
            let params = params_at(*cx.module, def.func.params@);
            &&& s is Some
            &&& function_parameters(params, params.len(), def.stmt, s->0.parameters@)
            &&& !s->0.attributes && !s->0.allow_unknown && s->0.disallowed@.len() == 0
        },
        TyKind::IntrinsicFunction(func) => {
            &&& s is Some
            &&& s->0.parameters@.len() == func.params@.len()
            &&& forall|i: int|
                0 <= i < func.params@.len() ==> intrinsic_parameter(
                    func.params@[i],
                    i,
                    #[trigger] s->0.parameters@[i],
                )
            &&& !s->0.attributes && !s->0.allow_unknown && s->0.disallowed@.len() == 0
        },
        TyKind::BuiltinFunction(func) => {
            &&& s is Some
            &&& builtin_parameters(func.params@, false, s->0.parameters@)
            &&& !s->0.attributes && !s->0.allow_unknown && s->0.disallowed@.len() == 0
        },
        TyKind::Rule(_) => {
            &&& s is Some
            &&& attribute_parameters(cx.attrs@, s->0.parameters@)
            &&& s->0.attributes && s->0.allow_unknown && s->0.disallowed@.len() == 0
        },
        TyKind::Tag(tag) => {
            &&& s is Some
            &&& attribute_parameters(tag_attrs(tag.attrs), s->0.parameters@)
            &&& s->0.attributes && s->0.allow_unknown && s->0.disallowed@.len() == 0
        },
        TyKind::Macro(_) => {
            &&& s is Some
            &&& attribute_parameters(cx.attrs@, s->0.parameters@)
            &&& s->0.attributes && s->0.allow_unknown
            &&& texts(s->0.disallowed@) == texts(cx.disallowed@)
        },
        TyKind::Provider(provider) => {
            &&& s is Some
            &&& provider_parameters(provider, s->0.parameters@)
            &&& !s->0.attributes && s->0.allow_unknown && s->0.disallowed@.len() == 0
        },
        TyKind::ProviderRawConstructor(_, provider) => {
            &&& s is Some
            &&& provider_parameters(provider, s->0.parameters@)
            &&& !s->0.attributes && s->0.allow_unknown && s->0.disallowed@.len() == 0
        },
        _ => s is None,
    }
}

impl Signature {
    /// The signature against which calls are checked. Providers take anything.
    pub fn for_checking(cx: &CalleeContext, callee: &TyKind) -> (s: Option<Signature>)
        requires
            callee matches TyKind::Function(def) ==> params_exist(*cx.module, def.func.params@),
        ensures
            if callee is Provider || callee is ProviderRawConstructor {
                s is None
            } else {
                signature_of(*cx, *callee, s)
            },
    {
        match callee {
            TyKind::Provider(_) => None,
            TyKind::ProviderRawConstructor(_, _) => None,
            _ => Self::new(cx, callee),
        }
    }

    /// The signature of a callable.
    pub fn new(cx: &CalleeContext, callee: &TyKind) -> (s: Option<Signature>)
        requires
            callee matches TyKind::Function(def) ==> params_exist(*cx.module, def.func.params@),
        ensures
            signature_of(*cx, *callee, s),
    {
        match callee {
            TyKind::Function(def) => Some(
                Signature {
                    parameters: function_params(cx.module, &def.func.params, def.stmt),
                    attributes: false,
                    allow_unknown: false,
                    disallowed: Vec::new(),
                },
            ),
            TyKind::IntrinsicFunction(func) => Some(
                Signature {
                    parameters: intrinsic_params(&func.params),
                    attributes: false,
                    allow_unknown: false,
                    disallowed: Vec::new(),
                },
            ),
            TyKind::BuiltinFunction(func) => Some(
                Signature {
                    parameters: builtin_params(&func.params, false),
                    attributes: false,
                    allow_unknown: false,
                    disallowed: Vec::new(),
                },
            ),
            TyKind::Rule(_) => Some(
                Signature {
                    parameters: attribute_params(cx.attrs),
                    attributes: true,
                    allow_unknown: true,
                    disallowed: Vec::new(),
                },
            ),
            TyKind::Tag(tag) => {
                let mut attrs: Vec<(Name, Arc<Attribute>)> = Vec::new();
                if let Some(data) = &tag.attrs {
                    let mut i: usize = 0;
                    while i < data.len()
                        invariant
                            i <= data@.len(),
                            attrs@.len() == i,
                            forall|k: int|
                                0 <= k < i ==> #[trigger] attrs@[k] == (
                                    data@[k].name,
                                    data@[k].attr,
                                ),
                        decreases data@.len() - i,
                    {
                        attrs.push((data[i].name.dup(), data[i].attr.clone()));
                        i = i + 1;
                    }
                }
                proof {
                    assert(attrs@ =~= tag_attrs(tag.attrs));
                }
                Some(
                    Signature {
                        parameters: attribute_params(&attrs),
                        attributes: true,
                        allow_unknown: true,
                        disallowed: Vec::new(),
                    },
                )
            },
            TyKind::Macro(_) => {
                let mut disallowed: Vec<Name> = Vec::new();
                let mut i: usize = 0;
                while i < cx.disallowed.len()
                    invariant
                        i <= cx.disallowed@.len(),
                        disallowed@.len() == i,
                        forall|k: int|
                            0 <= k < i ==> (#[trigger] disallowed@[k])@ == cx.disallowed@[k]@,
                    decreases cx.disallowed@.len() - i,
                {
                    disallowed.push(cx.disallowed[i].dup());
                    i = i + 1;
                }
                proof {
                    assert(texts(disallowed@) =~= texts(cx.disallowed@));
                }
                Some(
                    Signature {
                        parameters: attribute_params(cx.attrs),
                        attributes: true,
                        allow_unknown: true,
                        disallowed,
                    },
                )
            },
            TyKind::Provider(provider) => Some(
                Signature {
                    parameters: provider_params(provider),
                    attributes: false,
                    allow_unknown: true,
                    disallowed: Vec::new(),
                },
            ),
            TyKind::ProviderRawConstructor(_, provider) => Some(
                Signature {
                    parameters: provider_params(provider),
                    attributes: false,
                    allow_unknown: true,
                    disallowed: Vec::new(),
                },
            ),
            _ => None,
        }
    }
}

/// Whether the parameters `ids` exist.
pub open spec fn params_exist(m: Module, ids: Seq<ParamId>) -> bool {
    forall|i: int| 0 <= i < ids.len() ==> (#[trigger] ids[i]).0 < m.params@.len()
}

/// The same optional type, shared.
fn share(ty: &Option<Arc<TypeRef>>) -> (r: Option<Arc<TypeRef>>)
    ensures
        r == *ty,
{
    match ty {
        Some(ty) => Some(ty.clone()),
        None => None,
    }
}

/// The parameters of a function.
fn function_params(module: &Module, ids: &Vec<ParamId>, scope: Option<InFile<StmtId>>) -> (out: Vec<
    CallParameter,
>)
    requires
        params_exist(*module, ids@),
    ensures
        function_parameters(params_at(*module, ids@), ids@.len(), scope, out@),
{
    let ghost params = params_at(*module, ids@);
    let mut out: Vec<CallParameter> = Vec::new();
    let mut keyword_only = false;
    let mut closed = false;
    let mut k: usize = 0;
    while k < ids.len()
        invariant
            k <= ids@.len(),
            params == params_at(*module, ids@),
            params_exist(*module, ids@),
            keyword_only == has_args(params, k as int),
            closed == has_kwargs(params, k as int),
            function_parameters(params, k as nat, scope, out@),
        decreases ids@.len() - k,
    {
        let param = &module.params[ids[k].0];
        let ghost earlier = out@;
        proof {
            assert(params[k as int] == *param);
            assert(has_args(params, k + 1) == (has_args(params, k as int)
                || params[k as int] is ArgsList)) by {
                if has_args(params, k + 1) {
                    let j = choose|j: int| 0 <= j < k + 1 && #[trigger] params[j] is ArgsList;
                    assert(params[j] is ArgsList);
                }
            }
            assert(has_kwargs(params, k + 1) == (has_kwargs(params, k as int)
                || params[k as int] is KwargsDict)) by {
                if has_kwargs(params, k + 1) {
                    let j = choose|j: int| 0 <= j < k + 1 && #[trigger] params[j] is KwargsDict;
                    assert(params[j] is KwargsDict);
                }
            }
        }
        let (shape, optional, type_ref) = match param {
            Param::Simple { name, default, type_ref, doc: _ } => {
                let shape = if keyword_only {
                    ParameterShape::KeywordOnly(name.dup())
                } else {
                    ParameterShape::PositionalOrKeyword(name.dup())
                };
                (shape, default.is_some(), share(type_ref))
            },
            Param::ArgsList { name: _, type_ref, doc: _ } => {
                keyword_only = true;
                (ParameterShape::Variadic, true, share(type_ref))
            },
            Param::KwargsDict { name: _, type_ref, doc: _ } => (
                ParameterShape::KeywordVariadic,
                true,
                share(type_ref),
            ),
        };
        let unnamed = param.name().is_missing();
        let bare = match param {
            Param::ArgsList { .. } => unnamed,
            _ => false,
        };
        if !closed && !bare {
            out.push(
                CallParameter {
                    shape,
                    ty: ParameterType::Declared { reference: type_ref, scope },
                    required: !optional && !unnamed,
                    deprecated: false,
                    display_index: k,
                },
            );
        }
        if let Param::KwargsDict { .. } = param {
            closed = true;
        }
        proof {
            let order = shown_params(params, (k + 1) as nat);
            assert forall|i: int| 0 <= i < order.len() implies function_parameter(
                params,
                order[i],
                scope,
                #[trigger] out@[i],
            ) by {
                if i < earlier.len() {
                    assert(out@[i] == earlier[i]);
                }
            }
        }
        k = k + 1;
    }
    out
}

/// The parameters of an intrinsic function.
fn intrinsic_params(params: &Vec<IntrinsicFunctionParam>) -> (out: Vec<CallParameter>)
    ensures
        out@.len() == params@.len(),
        forall|i: int|
            0 <= i < params@.len() ==> intrinsic_parameter(params@[i], i, #[trigger] out@[i]),
{
    let mut out: Vec<CallParameter> = Vec::new();
    let mut k: usize = 0;
    while k < params.len()
        invariant
            k <= params@.len(),
            out@.len() == k,
            forall|i: int| 0 <= i < k ==> intrinsic_parameter(params@[i], i, #[trigger] out@[i]),
        decreases params@.len() - k,
    {
        let (shape, ty, required, deprecated) = match &params[k] {
            IntrinsicFunctionParam::Positional { ty, optional } => (
                ParameterShape::PositionalOnly,
                ty.clone(),
                !*optional,
                false,
            ),
            IntrinsicFunctionParam::Keyword { name, ty, deprecated } => (
                ParameterShape::KeywordOnly(name.dup()),
                ty.clone(),
                false,
                *deprecated,
            ),
            IntrinsicFunctionParam::ArgsList { ty } => (
                ParameterShape::Variadic,
                ty.clone(),
                false,
                false,
            ),
            IntrinsicFunctionParam::KwargsDict => (
                ParameterShape::KeywordVariadic,
                Arc::new(TyKind::Any),
                false,
                false,
            ),
        };
        out.push(
            CallParameter {
                shape,
                ty: ParameterType::Substituted(ty),
                required,
                deprecated,
                display_index: k,
            },
        );
        k = k + 1;
    }
    out
}

/// The parameters of a builtin function or, with `provider`, of a builtin provider.
fn builtin_params(params: &Vec<BuiltinFunctionParam>, provider: bool) -> (out: Vec<CallParameter>)
    ensures
        builtin_parameters(params@, provider, out@),
{
    let mut out: Vec<CallParameter> = Vec::new();
    let mut k: usize = 0;
    while k < params.len()
        invariant
            k <= params@.len(),
            out@.len() == k,
            forall|i: int|
                0 <= i < k ==> builtin_parameter(params@[i], provider, i, #[trigger] out@[i]),
            shown_builtins(params@, k as nat) == shown_builtins(params@, 0),
        decreases params@.len() - k,
    {
        let param = &params[k];
        let mut last = false;
        let shape = match param {
            BuiltinFunctionParam::Simple {
                name,
                type_ref: _,
                doc: _,
                default_value: _,
                positional,
                is_mandatory: _,
            } => if *positional && !provider {
                ParameterShape::PositionalOrKeyword(name.dup())
            } else {
                ParameterShape::KeywordOnly(name.dup())
            },
            BuiltinFunctionParam::ArgsList { .. } => ParameterShape::Variadic,
            BuiltinFunctionParam::KwargsDict { .. } => {
                last = true;
                ParameterShape::KeywordVariadic
            },
        };
        let reference = Some(Arc::new(param.type_ref().dup()));
        out.push(
            CallParameter {
                shape,
                ty: ParameterType::Declared { reference, scope: None },
                required: param.is_mandatory(),
                deprecated: false,
                display_index: k,
            },
        );
        k = k + 1;
        if last {
            return out;
        }
    }
    out
}

/// The parameters for attributes.
fn attribute_params(attrs: &Vec<(Name, Arc<Attribute>)>) -> (out: Vec<CallParameter>)
    ensures
        attribute_parameters(attrs@, out@),
{
    let mut out: Vec<CallParameter> = Vec::new();
    let mut k: usize = 0;
    while k < attrs.len()
        invariant
            k <= attrs@.len(),
            out@.len() == k,
            forall|i: int|
                0 <= i < k ==> {
                    let p = #[trigger] out@[i];
                    &&& p.shape matches ParameterShape::KeywordOnly(n) && n@ == attrs@[i].0@
                    &&& p.ty == ParameterType::Expected(attrs@[i].1)
                    &&& p.required == attrs@[i].1.mandatory
                    &&& !p.deprecated
                    &&& p.display_index == i
                },
        decreases attrs@.len() - k,
    {
        out.push(
            CallParameter {
                shape: ParameterShape::KeywordOnly(attrs[k].0.dup()),
                ty: ParameterType::Expected(attrs[k].1.clone()),
                required: attrs[k].1.mandatory,
                deprecated: false,
                display_index: k,
            },
        );
        k = k + 1;
    }
    out.push(
        CallParameter {
            shape: ParameterShape::KeywordVariadic,
            ty: ParameterType::Resolved(Arc::new(TyKind::Any)),
            required: false,
            deprecated: false,
            display_index: k,
        },
    );
    out
}

/// The parameters of a provider.
fn provider_params(provider: &Provider) -> (out: Vec<CallParameter>)
    ensures
        provider_parameters(*provider, out@),
{
    match provider {
        Provider::Builtin(data) => builtin_params(&data.params, true),
        Provider::Custom(data) => match &data.fields {
            Some(fields) => field_params(&fields.fields),
            None => Vec::new(),
        },
    }
}

/// The parameters for the fields of a provider.
fn field_params(fields: &Vec<ProviderField>) -> (out: Vec<CallParameter>)
    ensures
        field_parameters(fields@, out@),
{
    let mut out: Vec<CallParameter> = Vec::new();
    let mut k: usize = 0;
    while k < fields.len()
        invariant
            k <= fields@.len(),
            out@.len() == k,
            forall|i: int|
                0 <= i < k ==> {
                    let p = #[trigger] out@[i];
                    &&& p.shape matches ParameterShape::KeywordOnly(n) && n@ == fields@[i].name@
                    &&& p.ty matches ParameterType::Resolved(ty) && *ty is Unknown
                    &&& !p.required
                    &&& !p.deprecated
                    &&& p.display_index == i
                },
        decreases fields@.len() - k,
    {
        out.push(
            CallParameter {
                shape: ParameterShape::KeywordOnly(fields[k].name.dup()),
                ty: ParameterType::Resolved(Arc::new(TyKind::Unknown)),
                required: false,
                deprecated: false,
                display_index: k,
            },
        );
        k = k + 1;
    }
    out
}

/// The place of an argument in the order of kinds: positions, names, an unpacked
/// list, an unpacked dictionary.
pub open spec fn rank(arg: Argument) -> int {
    match arg {
        Argument::Simple { .. } => 0,
        Argument::Keyword { .. } => 1,
        Argument::UnpackedList { .. } => 2,
        Argument::UnpackedDict { .. } => 3,
    }
}

/// Whether one of the first `n` arguments has a rank.
pub open spec fn has_rank(args: Seq<Argument>, n: int, r: int) -> bool {
    exists|j: int| 0 <= j < n && rank(#[trigger] args[j]) == r
}

/// What is wrong with the place of argument `i`.
pub open spec fn order_error(args: Seq<Argument>, i: int) -> Option<Seq<char>> {
    let keyword = has_rank(args, i, 1);
    let variadic = has_rank(args, i, 2);
    let keywords = has_rank(args, i, 3);
    match args[i] {
        Argument::Simple { .. } => if keywords {
            Some("Positional argument cannot follow keyword argument unpacking"@)
        } else if variadic {
            Some("Positional argument cannot follow iterable argument unpacking"@)
        } else if keyword {
            Some("Positional argument cannot follow keyword arguments"@)
        } else {
            None
        },
        Argument::Keyword { .. } => if keywords {
            Some("Keyword argument cannot follow keyword argument unpacking"@)
        } else if variadic {
            Some("Keyword argument cannot follow iterable argument unpacking"@)
        } else {
            None
        },
        Argument::UnpackedList { .. } => if keywords {
            Some("Unpacked iterable argument cannot follow keyword argument unpacking"@)
        } else if variadic {
            Some("Only one iterable argument unpacking is allowed"@)
        } else {
            None
        },
        Argument::UnpackedDict { .. } => if keywords {
            Some("Only one keyword argument unpacking is allowed"@)
        } else {
            None
        },
    }
}

/// The errors in the order of the first `n` arguments.
pub open spec fn order_errors(args: Seq<Argument>, n: nat) -> Seq<(int, Seq<char>)>
    decreases n,
{
    if n == 0 {
        Seq::empty()
    } else {
        let rest = order_errors(args, (n - 1) as nat);
        match order_error(args, n - 1) {
            Some(message) => rest.push((n - 1, message)),
            None => rest,
        }
    }
}

/// An argument is out of order exactly where one of a later kind, or another
/// unpacking of its own kind, stands before it.
pub proof fn order_is_by_rank(args: Seq<Argument>, i: int)
    requires
        0 <= i < args.len(),
    ensures
        order_error(args, i) is Some <==> exists|j: int|
            0 <= j < i && (rank(#[trigger] args[j]) > rank(args[i]) || (rank(args[j]) == rank(
                args[i],
            ) && rank(args[i]) >= 2)),
{
    let bad = |j: int|
        rank(args[j]) > rank(args[i]) || (rank(args[j]) == rank(args[i]) && rank(args[i]) >= 2);
    if order_error(args, i) is Some {
        if has_rank(args, i, 3) {
            let j = choose|j: int| 0 <= j < i && rank(#[trigger] args[j]) == 3;
            assert(bad(j));
        } else if has_rank(args, i, 2) {
            let j = choose|j: int| 0 <= j < i && rank(#[trigger] args[j]) == 2;
            assert(bad(j));
        } else {
            let j = choose|j: int| 0 <= j < i && rank(#[trigger] args[j]) == 1;
            assert(bad(j));
        }
    }
    if exists|j: int|
        0 <= j < i && (rank(#[trigger] args[j]) > rank(args[i]) || (rank(args[j]) == rank(args[i])
            && rank(args[i]) >= 2)) {
        let j = choose|j: int|
            0 <= j < i && (rank(#[trigger] args[j]) > rank(args[i]) || (rank(args[j]) == rank(
                args[i],
            ) && rank(args[i]) >= 2));
        assert(has_rank(args, i, rank(args[j])));
    }
}

/// Validates the order of arguments apart from binding them. One `*args` is
/// allowed behind the named arguments, and at most one `**kwargs` behind it.
pub fn argument_order(args: &Vec<Argument>) -> (errors: Vec<(usize, String)>)
    ensures
        errors@.len() == order_errors(args@, args@.len()).len(),
        forall|k: int|
            0 <= k < errors@.len() ==> {
                &&& (#[trigger] errors@[k]).0 == order_errors(args@, args@.len())[k].0
                &&& errors@[k].1@ == order_errors(args@, args@.len())[k].1
            },
{
    let mut keyword = false;
    let mut variadic = false;
    let mut keywords = false;
    let mut errors: Vec<(usize, String)> = Vec::new();
    let mut i: usize = 0;
    while i < args.len()
        invariant
            i <= args@.len(),
            keyword == has_rank(args@, i as int, 1),
            variadic == has_rank(args@, i as int, 2),
            keywords == has_rank(args@, i as int, 3),
            errors@.len() == order_errors(args@, i as nat).len(),
            forall|k: int|
                0 <= k < errors@.len() ==> {
                    &&& (#[trigger] errors@[k]).0 == order_errors(args@, i as nat)[k].0
                    &&& errors@[k].1@ == order_errors(args@, i as nat)[k].1
                },
        decreases args@.len() - i,
    {
        let ghost earlier = errors@;
        proof {
            assert forall|r: int| #[trigger] has_rank(args@, i + 1, r) == (has_rank(
                args@,
                i as int,
                r,
            ) || rank(args@[i as int]) == r) by {
                if has_rank(args@, i + 1, r) {
                    let j = choose|j: int| 0 <= j < i + 1 && rank(#[trigger] args@[j]) == r;
                    assert(rank(args@[j]) == r);
                }
            }
        }
        let error = match &args[i] {
            Argument::Simple { expr: _ } => if keywords {
                Some("Positional argument cannot follow keyword argument unpacking")
            } else if variadic {
                Some("Positional argument cannot follow iterable argument unpacking")
            } else if keyword {
                Some("Positional argument cannot follow keyword arguments")
            } else {
                None
            },
            Argument::Keyword { name: _, expr: _ } => {
                keyword = true;
                if keywords {
                    Some("Keyword argument cannot follow keyword argument unpacking")
                } else if variadic {
                    Some("Keyword argument cannot follow iterable argument unpacking")
                } else {
                    None
                }
            },
            Argument::UnpackedList { expr: _ } => {
                let error = if keywords {
                    Some("Unpacked iterable argument cannot follow keyword argument unpacking")
                } else if variadic {
                    Some("Only one iterable argument unpacking is allowed")
                } else {
                    None
                };
                variadic = true;
                error
            },
            Argument::UnpackedDict { expr: _ } => {
                let error = if keywords {
                    Some("Only one keyword argument unpacking is allowed")
                } else {
                    None
                };
                keywords = true;
                error
            },
        };
        if let Some(error) = error {
            errors.push((i, error.to_owned()));
        }
        proof {
            assert forall|k: int| 0 <= k < errors@.len() implies {
                &&& (#[trigger] errors@[k]).0 == order_errors(args@, (i + 1) as nat)[k].0
                &&& errors@[k].1@ == order_errors(args@, (i + 1) as nat)[k].1
            } by {
                if k < earlier.len() {
                    assert(errors@[k] == earlier[k]);
                }
            }
        }
        i = i + 1;
    }
    errors
}

/// The expression that an argument passes.
pub fn argument_expr(arg: &Argument) -> (r: ExprId)
    ensures
        r == arg.value(),
{
    arg.expr()
}

/// What is known of the type of a passed value: it is given, it is that of its
/// expression, or it is unknown. An unknown value can satisfy a parameter
/// without proving its type.
#[derive(Debug)]
pub enum ValueType {
    Given(Ty),
    OfExpr,
    Unknown,
}

/// A passed value.
#[derive(Debug)]
pub struct CallValue {
    pub expr: ExprId,
    pub ty: ValueType,
}

/// An argument after unpacking.
#[derive(Debug)]
pub enum ExpandedArgument {
    Positional(CallValue),
    Keyword(Name, CallValue),
    Variadic(CallValue),
    Keywords(CallValue),
}

/// The expression inside parentheses.
pub open spec fn inside_parens(exprs: Seq<Expr>, id: ExprId) -> ExprId
    decreases id.0,
{
    if id.0 < exprs.len() {
        match exprs[id.0 as int] {
            Expr::Paren { expr } => if expr.0 < id.0 {
                inside_parens(exprs, expr)
            } else {
                id
            },
            _ => id,
        }
    } else {
        id
    }
}

/// Whether every key of a dictionary display is a literal string.
pub open spec fn is_closed(exprs: Seq<Expr>, entries: Seq<crate::def::DictEntry>) -> bool {
    forall|i: int|
        0 <= i < entries.len() ==> (exprs[(#[trigger] entries[i]).key.0 as int] matches Expr::Literal {
            literal: Literal::Str(_),
        })
}

/// Whether `out` are positional values with the types of their expressions.
pub open spec fn listed(exprs: Seq<ExprId>, out: Seq<ExpandedArgument>) -> bool {
    &&& out.len() == exprs.len()
    &&& forall|i: int|
        0 <= i < exprs.len() ==> #[trigger] out[i] == ExpandedArgument::Positional(
            CallValue { expr: exprs[i], ty: ValueType::OfExpr },
        )
}

/// Whether `out` is what an argument with a type passes. A list or a tuple that
/// is written out passes its elements, a tuple of known length its types, and a
/// dictionary display with literal keys its entries.
pub open spec fn expands_to(m: Module, arg: Argument, ty: Ty, out: Seq<ExpandedArgument>) -> bool {
    let expr = arg.value();
    let value = CallValue { expr, ty: ValueType::Given(ty) };
    let unknown = CallValue { expr, ty: ValueType::Unknown };
    let source = m.exprs@[inside_parens(m.exprs@, expr).0 as int];
    match arg {
        Argument::Simple { .. } => out == seq![ExpandedArgument::Positional(value)],
        Argument::Keyword { name, expr: _ } => out == seq![ExpandedArgument::Keyword(name, value)],
        Argument::UnpackedList { .. } => match source {
            Expr::List { exprs } => listed(exprs@, out),
            Expr::Tuple { exprs } => listed(exprs@, out),
            _ => match *ty {
                TyKind::Tuple(Tuple::Simple(types)) => {
                    &&& out.len() == types@.len()
                    &&& forall|i: int|
                        0 <= i < types@.len() ==> #[trigger] out[i]
                            == ExpandedArgument::Positional(
                            CallValue { expr, ty: ValueType::Given(types@[i]) },
                        )
                },
                _ => out == seq![ExpandedArgument::Variadic(unknown)],
            },
        },
        Argument::UnpackedDict { .. } => match source {
            Expr::Dict { entries } => if is_closed(m.exprs@, entries@) {
                &&& out.len() == entries@.len()
                &&& forall|i: int|
                    0 <= i < entries@.len() ==> named_entry(
                        m.exprs@,
                        entries@[i],
                        #[trigger] out[i],
                    )
            } else {
                out == seq![ExpandedArgument::Keywords(unknown)]
            },
            _ => out == seq![ExpandedArgument::Keywords(unknown)],
        },
    }
}

/// Whether `out` is what an entry with a literal key passes.
pub open spec fn named_entry(
    exprs: Seq<Expr>,
    entry: crate::def::DictEntry,
    out: ExpandedArgument,
) -> bool {
    match (exprs[entry.key.0 as int], out) {
        (
            Expr::Literal { literal: Literal::Str(key) },
            ExpandedArgument::Keyword(name, value),
        ) => name@ == key@ && value == (CallValue { expr: entry.value, ty: ValueType::OfExpr }),
        _ => false,
    }
}

/// The expression inside parentheses.
fn strip_parens(module: &Module, expr: ExprId) -> (r: ExprId)
    requires
        module.wf(),
        expr.0 < module.exprs@.len(),
    ensures
        r == inside_parens(module.exprs@, expr),
        r.0 < module.exprs@.len(),
{
    let mut source = expr;
    loop
        invariant
            module.wf(),
            source.0 < module.exprs@.len(),
            inside_parens(module.exprs@, source) == inside_parens(module.exprs@, expr),
        decreases source.0,
    {
        match &module.exprs[source.0] {
            Expr::Paren { expr: inner } => {
                assert(crate::def::expr_below(
                    module.params@,
                    module.exprs@[source.0 as int],
                    source.0 as nat,
                ));
                source = *inner;
            },
            _ => {
                return source;
            },
        }
    }
}

/// Positional values with the types of their expressions.
fn list_values(exprs: &Vec<ExprId>) -> (out: Vec<ExpandedArgument>)
    ensures
        listed(exprs@, out@),
{
    let mut out: Vec<ExpandedArgument> = Vec::new();
    let mut i: usize = 0;
    while i < exprs.len()
        invariant
            i <= exprs@.len(),
            listed(exprs@.take(i as int), out@),
        decreases exprs@.len() - i,
    {
        out.push(
            ExpandedArgument::Positional(CallValue { expr: exprs[i], ty: ValueType::OfExpr }),
        );
        i = i + 1;
    }
    proof {
        assert(exprs@.take(i as int) =~= exprs@);
    }
    out
}

/// Whether `out` is what the first arguments pass, one after the other, and `owners`
/// the numbers of the arguments that pass it.
pub open spec fn are_expanded(
    module: Module,
    args: Seq<Argument>,
    types: Seq<Ty>,
    n: int,
    out: Seq<ExpandedArgument>,
    owners: Seq<usize>,
) -> bool
    decreases n,
{
    if n <= 0 {
        out.len() == 0 && owners.len() == 0
    } else {
        exists|k: int|
            {
                &&& 0 <= k <= out.len() == owners.len()
                &&& are_expanded(module, args, types, n - 1, out.take(k), owners.take(k))
                &&& expands_to(module, args[n - 1], types[n - 1], #[trigger] out.skip(k))
                &&& forall|i: int| k <= i < owners.len() ==> #[trigger] owners[i] == n - 1
            }
    }
}

/// How many arguments have types.
pub open spec fn typed_count(args: nat, types: nat) -> nat {
    if args <= types {
        args
    } else {
        types
    }
}

/// What the arguments of a call pass, given the types of their expressions, and for
/// each value the number of the argument that passes it.
pub fn expand_all(module: &Module, args: &Vec<Argument>, types: &Vec<Ty>) -> (r: (
    Vec<ExpandedArgument>,
    Vec<usize>,
))
    requires
        module.wf(),
        forall|i: int|
            0 <= i < args@.len() ==> (#[trigger] args@[i]).value().0 < module.exprs@.len(),
    ensures
        are_expanded(
            *module,
            args@,
            types@,
            typed_count(args@.len(), types@.len()) as int,
            r.0@,
            r.1@,
        ),
{
    let mut out: Vec<ExpandedArgument> = Vec::new();
    let mut owners: Vec<usize> = Vec::new();
    let mut n: usize = 0;
    while n < args.len() && n < types.len()
        invariant
            n <= args@.len(),
            n <= types@.len(),
            module.wf(),
            forall|i: int|
                0 <= i < args@.len() ==> (#[trigger] args@[i]).value().0 < module.exprs@.len(),
            out@.len() == owners@.len(),
            are_expanded(*module, args@, types@, n as int, out@, owners@),
        decreases args@.len() - n,
    {
        let ghost before = out@;
        let ghost owned = owners@;
        let mut values = expand(module, &args[n], &types[n]);
        let ghost added = values@;
        let count: usize = values.len();
        out.append(&mut values);
        let mut i: usize = 0;
        while i < count
            invariant
                i <= count,
                owners@.len() == owned.len() + i,
                owners@.take(owned.len() as int) == owned,
                forall|j: int| owned.len() <= j < owners@.len() ==> #[trigger] owners@[j] == n,
            decreases count - i,
        {
            let ghost earlier = owners@;
            owners.push(n);
            proof {
                assert(owners@.take(owned.len() as int) =~= earlier.take(owned.len() as int));
            }
            i = i + 1;
        }
        proof {
            let k = before.len() as int;
            assert(out@ =~= before + added);
            assert(out@.take(k) =~= before);
            assert(out@.skip(k) =~= added);
            assert(are_expanded(
                *module,
                args@,
                types@,
                n as int,
                out@.take(k),
                owners@.take(k),
            ));
        }
        n = n + 1;
    }
    (out, owners)
}

/// What an argument passes, given the type of its expression.
pub fn expand(module: &Module, arg: &Argument, ty: &Ty) -> (out: Vec<ExpandedArgument>)
    requires
        module.wf(),
        arg.value().0 < module.exprs@.len(),
    ensures
        expands_to(*module, *arg, *ty, out@),
{
    let expr = argument_expr(arg);
    let mut out: Vec<ExpandedArgument> = Vec::new();
    match arg {
        Argument::Simple { expr: _ } => {
            let value = CallValue { expr, ty: ValueType::Given(ty.clone()) };
            out.push(ExpandedArgument::Positional(value));
            assert(out@ =~= seq![ExpandedArgument::Positional(value)]);
        },
        Argument::Keyword { name, expr: _ } => {
            let value = CallValue { expr, ty: ValueType::Given(ty.clone()) };
            out.push(ExpandedArgument::Keyword(name.dup(), value));
            assert(out@ =~= seq![ExpandedArgument::Keyword(*name, value)]);
        },
        Argument::UnpackedList { expr: _ } => {
            let source = strip_parens(module, expr);
            match &module.exprs[source.0] {
                Expr::List { exprs } => {
                    return list_values(exprs);
                },
                Expr::Tuple { exprs } => {
                    return list_values(exprs);
                },
                _ => {},
            }
            if let TyKind::Tuple(Tuple::Simple(types)) = &**ty {
                let mut i: usize = 0;
                while i < types.len()
                    invariant
                        i <= types@.len(),
                        out@.len() == i,
                        forall|k: int|
                            0 <= k < i ==> #[trigger] out@[k] == ExpandedArgument::Positional(
                                CallValue { expr, ty: ValueType::Given(types@[k]) },
                            ),
                    decreases types@.len() - i,
                {
                    let value = CallValue { expr, ty: ValueType::Given(types[i].clone()) };
                    out.push(ExpandedArgument::Positional(value));
                    i = i + 1;
                }
                return out;
            }
            let value = CallValue { expr, ty: ValueType::Unknown };
            out.push(ExpandedArgument::Variadic(value));
            assert(out@ =~= seq![ExpandedArgument::Variadic(value)]);
        },
        Argument::UnpackedDict { expr: _ } => {
            let source = strip_parens(module, expr);
            if let Expr::Dict { entries } = &module.exprs[source.0] {
                assert(crate::def::expr_below(
                    module.params@,
                    module.exprs@[source.0 as int],
                    source.0 as nat,
                ));
                if let Some(named) = named_values(module, entries) {
                    return named;
                }
            }
            let value = CallValue { expr, ty: ValueType::Unknown };
            out.push(ExpandedArgument::Keywords(value));
            assert(out@ =~= seq![ExpandedArgument::Keywords(value)]);
        },
    }
    out
}

/// What the entries of a dictionary display pass, if all its keys are literal
/// strings.
fn named_values(module: &Module, entries: &Vec<crate::def::DictEntry>) -> (r: Option<
    Vec<ExpandedArgument>,
>)
    requires
        forall|i: int|
            0 <= i < entries@.len() ==> (#[trigger] entries@[i]).key.0 < module.exprs@.len(),
    ensures
        match r {
            Some(out) => {
                &&& is_closed(module.exprs@, entries@)
                &&& out@.len() == entries@.len()
                &&& forall|i: int|
                    0 <= i < entries@.len() ==> named_entry(
                        module.exprs@,
                        entries@[i],
                        #[trigger] out@[i],
                    )
            },
            None => !is_closed(module.exprs@, entries@),
        },
{
    let mut out: Vec<ExpandedArgument> = Vec::new();
    let mut i: usize = 0;
    while i < entries.len()
        invariant
            i <= entries@.len(),
            out@.len() == i,
            forall|k: int|
                0 <= k < entries@.len() ==> (#[trigger] entries@[k]).key.0 < module.exprs@.len(),
            forall|k: int|
                0 <= k < i ==> (module.exprs@[(#[trigger] entries@[k]).key.0 as int] matches Expr::Literal {
                    literal: Literal::Str(_),
                }),
            forall|k: int|
                0 <= k < i ==> named_entry(module.exprs@, entries@[k], #[trigger] out@[k]),
        decreases entries@.len() - i,
    {
        match &module.exprs[entries[i].key.0] {
            Expr::Literal { literal: Literal::Str(key) } => {
                let value = CallValue { expr: entries[i].value, ty: ValueType::OfExpr };
                out.push(ExpandedArgument::Keyword(Name::from_str(key.as_str()), value));
            },
            _ => {
                assert(!(module.exprs@[entries@[i as int].key.0 as int] matches Expr::Literal {
                    literal: Literal::Str(_),
                }));
                return None;
            },
        }
        i = i + 1;
    }
    Some(out)
}

/// Where the binding of one argument stands: before it, waiting for the
/// parameter of a position or a name, for the outcome of an assignment, for the
/// next open position and whether a name claims it, for the parameter that takes
/// the remaining positions, or behind it.
#[derive(Clone, Copy, Debug, PartialEq, Eq, Structural)]
pub enum Stage {
    Start,
    Selecting,
    Assigning(usize),
    Opening,
    Reserving,
    Taking,
    Filling(usize),
    Rest,
    Finished,
}

/// An answer of the matcher.
#[derive(Clone, Copy, Debug, PartialEq, Eq, Structural)]
pub enum Reply {
    Nothing,
    Index(Option<usize>),
    Flag(bool),
}

/// What to ask the matcher: to take the next position for the argument, to find
/// the parameter of its name, for the next open position, whether a name claims
/// a parameter, for the parameter that takes the remaining positions, or to
/// assign the value. `Defer` puts an unpacked dictionary off to the end.
#[derive(Clone, Copy, Debug, PartialEq, Eq, Structural)]
pub enum Action {
    NextPositional,
    FindKeyword,
    OpenPosition,
    KeywordReserved(usize),
    VariadicIndex,
    Assign(usize),
    Defer,
    Done,
}

/// The name by which an error speaks of a parameter.
pub open spec fn spoken_name(s: Signature, parameter: usize) -> Seq<char> {
    if parameter < s.parameters@.len() && s.parameters@[parameter as int].label() is Some {
        s.parameters@[parameter as int].label()->0
    } else {
        "<positional>"@
    }
}

/// The message for a parameter that gets two arguments.
pub open spec fn multiple_message(name: Seq<char>) -> Seq<char> {
    "Multiple arguments for parameter \""@ + name + "\""@
}

/// The names that may not be set hold `name`.
pub open spec fn is_disallowed(s: Signature, name: Seq<char>) -> bool {
    exists|i: int| 0 <= i < s.disallowed@.len() && (#[trigger] s.disallowed@[i])@ == name
}

/// One step of binding an argument. `repeated` says that its name was passed
/// before.
pub open spec fn step_of(
    s: Signature,
    arg: ExpandedArgument,
    repeated: bool,
    stage: Stage,
    reply: Reply,
) -> (Stage, Action, Option<Seq<char>>) {
    match arg {
        ExpandedArgument::Positional(_) => match (stage, reply) {
            (Stage::Start, _) => (Stage::Selecting, Action::NextPositional, None),
            (Stage::Selecting, Reply::Index(Some(i))) => (
                Stage::Assigning(i),
                Action::Assign(i),
                None,
            ),
            (Stage::Selecting, Reply::Index(None)) => (
                Stage::Finished,
                Action::Done,
                if s.allow_unknown {
                    None
                } else {
                    Some("Unexpected positional argument"@)
                },
            ),
            (Stage::Assigning(i), Reply::Flag(true)) => (
                Stage::Finished,
                Action::Done,
                Some(multiple_message(spoken_name(s, i))),
            ),
            _ => (Stage::Finished, Action::Done, None),
        },
        ExpandedArgument::Keyword(name, _) => match (stage, reply) {
            (Stage::Start, _) => (
                Stage::Selecting,
                Action::FindKeyword,
                if is_disallowed(s, name@) {
                    Some("Cannot set attribute \""@ + name@ + "\""@)
                } else {
                    None
                },
            ),
            (Stage::Selecting, Reply::Index(Some(i))) => (
                Stage::Assigning(i),
                Action::Assign(i),
                None,
            ),
            (Stage::Selecting, Reply::Index(None)) => (
                Stage::Finished,
                Action::Done,
                if s.allow_unknown {
                    None
                } else {
                    Some("Unexpected keyword argument \""@ + name@ + "\""@)
                },
            ),
            (Stage::Assigning(_), Reply::Flag(duplicate)) => (
                Stage::Finished,
                Action::Done,
                if duplicate || repeated {
                    Some(multiple_message(name@))
                } else {
                    None
                },
            ),
            _ => (Stage::Finished, Action::Done, None),
        },
        ExpandedArgument::Variadic(_) => match (stage, reply) {
            (Stage::Start, _) => (Stage::Opening, Action::OpenPosition, None),
            (Stage::Opening, Reply::Index(Some(i))) => (
                Stage::Reserving,
                Action::KeywordReserved(i),
                None,
            ),
            (Stage::Opening, _) => (Stage::Rest, Action::VariadicIndex, None),
            (Stage::Reserving, Reply::Flag(false)) => (
                Stage::Taking,
                Action::NextPositional,
                None,
            ),
            (Stage::Reserving, _) => (Stage::Rest, Action::VariadicIndex, None),
            (Stage::Taking, Reply::Index(Some(i))) => (Stage::Filling(i), Action::Assign(i), None),
            (Stage::Taking, _) => (Stage::Rest, Action::VariadicIndex, None),
            (Stage::Filling(i), Reply::Flag(true)) => (
                Stage::Opening,
                Action::OpenPosition,
                Some(multiple_message(spoken_name(s, i))),
            ),
            (Stage::Filling(_), _) => (Stage::Opening, Action::OpenPosition, None),
            (Stage::Rest, Reply::Index(Some(i))) => (Stage::Assigning(i), Action::Assign(i), None),
            (Stage::Assigning(i), Reply::Flag(true)) => (
                Stage::Finished,
                Action::Done,
                Some(multiple_message(spoken_name(s, i))),
            ),
            _ => (Stage::Finished, Action::Done, None),
        },
        ExpandedArgument::Keywords(_) => match stage {
            Stage::Start => (Stage::Finished, Action::Defer, None),
            _ => (Stage::Finished, Action::Done, None),
        },
    }
}

impl Signature {
    fn speak(&self, parameter: usize) -> (r: String)
        ensures
            r@ == multiple_message(spoken_name(*self, parameter)),
    {
        if parameter < self.parameters.len() {
            if let Some(name) = self.parameters[parameter].name() {
                return join3("Multiple arguments for parameter \"", name, "\"");
            }
        }
        join3("Multiple arguments for parameter \"", "<positional>", "\"")
    }

    fn refuses(&self, name: &str) -> (r: bool)
        ensures
            r == is_disallowed(*self, name@),
    {
        let mut i: usize = 0;
        while i < self.disallowed.len()
            invariant
                i <= self.disallowed@.len(),
                forall|k: int| 0 <= k < i ==> (#[trigger] self.disallowed@[k])@ != name@,
            decreases self.disallowed@.len() - i,
        {
            if same(self.disallowed[i].as_str(), name) {
                return true;
            }
            i = i + 1;
        }
        false
    }

    /// One step of binding an argument: the next stage, what to ask the matcher,
    /// and an error about the argument.
    pub fn bind_step(
        &self,
        arg: &ExpandedArgument,
        repeated: bool,
        stage: Stage,
        reply: Reply,
    ) -> (r: (Stage, Action, Option<String>))
        ensures
            (r.0, r.1, crate::lower_spec::text_of(r.2)) == step_of(
                *self,
                *arg,
                repeated,
                stage,
                reply,
            ),
    {
        match arg {
            ExpandedArgument::Positional(_) => match (stage, reply) {
                (Stage::Start, _) => (Stage::Selecting, Action::NextPositional, None),
                (Stage::Selecting, Reply::Index(Some(i))) => (
                    Stage::Assigning(i),
                    Action::Assign(i),
                    None,
                ),
                (Stage::Selecting, Reply::Index(None)) => {
                    let error = if self.allow_unknown {
                        None
                    } else {
                        Some("Unexpected positional argument".to_owned())
                    };
                    (Stage::Finished, Action::Done, error)
                },
                (Stage::Assigning(i), Reply::Flag(true)) => (
                    Stage::Finished,
                    Action::Done,
                    Some(self.speak(i)),
                ),
                _ => (Stage::Finished, Action::Done, None),
            },
            ExpandedArgument::Keyword(name, _) => match (stage, reply) {
                (Stage::Start, _) => {
                    let error = if self.refuses(name.as_str()) {
                        Some(join3("Cannot set attribute \"", name.as_str(), "\""))
                    } else {
                        None
                    };
                    (Stage::Selecting, Action::FindKeyword, error)
                },
                (Stage::Selecting, Reply::Index(Some(i))) => (
                    Stage::Assigning(i),
                    Action::Assign(i),
                    None,
                ),
                (Stage::Selecting, Reply::Index(None)) => {
                    let error = if self.allow_unknown {
                        None
                    } else {
                        Some(join3("Unexpected keyword argument \"", name.as_str(), "\""))
                    };
                    (Stage::Finished, Action::Done, error)
                },
                (Stage::Assigning(_), Reply::Flag(duplicate)) => {
                    let error = if duplicate || repeated {
                        Some(join3("Multiple arguments for parameter \"", name.as_str(), "\""))
                    } else {
                        None
                    };
                    (Stage::Finished, Action::Done, error)
                },
                _ => (Stage::Finished, Action::Done, None),
            },
            ExpandedArgument::Variadic(_) => match (stage, reply) {
                (Stage::Start, _) => (Stage::Opening, Action::OpenPosition, None),
                (Stage::Opening, Reply::Index(Some(i))) => (
                    Stage::Reserving,
                    Action::KeywordReserved(i),
                    None,
                ),
                (Stage::Opening, _) => (Stage::Rest, Action::VariadicIndex, None),
                (Stage::Reserving, Reply::Flag(false)) => (
                    Stage::Taking,
                    Action::NextPositional,
                    None,
                ),
                (Stage::Reserving, _) => (Stage::Rest, Action::VariadicIndex, None),
                (Stage::Taking, Reply::Index(Some(i))) => (
                    Stage::Filling(i),
                    Action::Assign(i),
                    None,
                ),
                (Stage::Taking, _) => (Stage::Rest, Action::VariadicIndex, None),
                (Stage::Filling(i), Reply::Flag(true)) => (
                    Stage::Opening,
                    Action::OpenPosition,
                    Some(self.speak(i)),
                ),
                (Stage::Filling(_), _) => (Stage::Opening, Action::OpenPosition, None),
                (Stage::Rest, Reply::Index(Some(i))) => (
                    Stage::Assigning(i),
                    Action::Assign(i),
                    None,
                ),
                (Stage::Assigning(i), Reply::Flag(true)) => (
                    Stage::Finished,
                    Action::Done,
                    Some(self.speak(i)),
                ),
                _ => (Stage::Finished, Action::Done, None),
            },
            ExpandedArgument::Keywords(_) => match stage {
                Stage::Start => (Stage::Finished, Action::Defer, None),
                _ => (Stage::Finished, Action::Done, None),
            },
        }
    }

    /// Whether parameter `i` may get its value from an unpacked dictionary whose
    /// keys are unknown, given which parameters are matched.
    pub open spec fn takes_unknown(self, matched: Seq<bool>, i: int) -> bool {
        match self.parameters@[i].shape {
            ParameterShape::PositionalOrKeyword(_) => !matched[i],
            ParameterShape::KeywordOnly(_) => !matched[i],
            ParameterShape::KeywordVariadic => true,
            ParameterShape::PositionalOnly => false,
            ParameterShape::Variadic => false,
        }
    }

    /// The first `n` parameters that an unpacked dictionary may satisfy.
    pub open spec fn taking(self, matched: Seq<bool>, n: nat) -> Seq<usize>
        decreases n,
    {
        if n == 0 {
            Seq::empty()
        } else if self.takes_unknown(matched, n - 1) {
            self.taking(matched, (n - 1) as nat).push((n - 1) as usize)
        } else {
            self.taking(matched, (n - 1) as nat)
        }
    }

    /// The parameters that an unpacked dictionary with unknown keys satisfies.
    /// It fills the ones that are left and conflicts with none.
    pub fn keyword_expansion(&self, matched: &Vec<bool>) -> (r: Vec<usize>)
        requires
            matched@.len() == self.parameters@.len(),
        ensures
            r@ == self.taking(matched@, self.parameters@.len()),
    {
        let mut out: Vec<usize> = Vec::new();
        let mut i: usize = 0;
        while i < self.parameters.len()
            invariant
                i <= self.parameters@.len() == matched@.len(),
                out@ == self.taking(matched@, i as nat),
            decreases self.parameters@.len() - i,
        {
            let eligible = match &self.parameters[i].shape {
                ParameterShape::PositionalOrKeyword(_) => !matched[i],
                ParameterShape::KeywordOnly(_) => !matched[i],
                ParameterShape::KeywordVariadic => true,
                ParameterShape::PositionalOnly => false,
                ParameterShape::Variadic => false,
            };
            if eligible {
                out.push(i);
            }
            i = i + 1;
        }
        out
    }

    /// The first `n` parameters that are required and not matched.
    pub open spec fn unmatched(self, matched: Seq<bool>, n: nat) -> Seq<usize>
        decreases n,
    {
        if n == 0 {
            Seq::empty()
        } else if self.parameters@[n - 1].required && !matched[n - 1] {
            self.unmatched(matched, (n - 1) as nat).push((n - 1) as usize)
        } else {
            self.unmatched(matched, (n - 1) as nat)
        }
    }

    /// The parameters that a call has to pass and does not.
    pub fn missing(&self, matched: &Vec<bool>) -> (r: Vec<usize>)
        requires
            matched@.len() == self.parameters@.len(),
        ensures
            r@ == self.unmatched(matched@, self.parameters@.len()),
    {
        let mut out: Vec<usize> = Vec::new();
        let mut i: usize = 0;
        while i < self.parameters.len()
            invariant
                i <= self.parameters@.len() == matched@.len(),
                out@ == self.unmatched(matched@, i as nat),
            decreases self.parameters@.len() - i,
        {
            if self.parameters[i].required && !matched[i] {
                out.push(i);
            }
            i = i + 1;
        }
        out
    }

    /// What an unpacked dictionary satisfies holds the parameters that it may satisfy.
    proof fn taking_holds(self, matched: Seq<bool>, n: nat, i: int)
        requires
            0 <= i < n <= self.parameters@.len(),
            self.takes_unknown(matched, i),
        ensures
            self.taking(matched, n).contains(i as usize),
        decreases n,
    {
        let all = self.taking(matched, n);
        if i == n - 1 {
            assert(all.last() == i as usize);
            assert(all[all.len() - 1] == i as usize);
        } else {
            let rest = self.taking(matched, (n - 1) as nat);
            self.taking_holds(matched, (n - 1) as nat, i);
            let k = choose|k: int| 0 <= k < rest.len() && rest[k] == i as usize;
            assert(all[k] == i as usize);
        }
    }

    /// What is missing is not matched.
    proof fn unmatched_are_open(self, matched: Seq<bool>, n: nat, k: int)
        requires
            n <= self.parameters@.len(),
            0 <= k < self.unmatched(matched, n).len(),
        ensures
            self.unmatched(matched, n)[k] < n,
            !matched[self.unmatched(matched, n)[k] as int],
        decreases n,
    {
        assert(self.parameters.len() == self.parameters@.len());
        if n > 0 {
            let rest = self.unmatched(matched, (n - 1) as nat);
            if k < rest.len() {
                self.unmatched_are_open(matched, (n - 1) as nat, k);
            }
        }
    }

    /// Behind an unpacked dictionary with unknown keys no parameter that may be named
    /// is missing.
    pub proof fn named_are_not_missing(self, before: Seq<bool>, after: Seq<bool>, i: int)
        requires
            before.len() == self.parameters@.len(),
            after.len() == self.parameters@.len(),
            0 <= i < self.parameters@.len(),
            self.parameters@[i].shape is PositionalOrKeyword
                || self.parameters@[i].shape is KeywordOnly,
            forall|k: int|
                0 <= k < after.len() ==> #[trigger] after[k] == (before[k] || self.taking(
                    before,
                    self.parameters@.len(),
                ).contains(k as usize)),
        ensures
            !self.unmatched(after, self.parameters@.len()).contains(i as usize),
    {
        let n = self.parameters@.len();
        assert(self.parameters.len() == n);
        if !before[i] {
            self.taking_holds(before, n, i);
        }
        assert(after[i]);
        let missing = self.unmatched(after, n);
        if missing.contains(i as usize) {
            let k = choose|k: int| 0 <= k < missing.len() && missing[k] == i as usize;
            self.unmatched_are_open(after, n, k);
        }
    }

    /// The parameter to show for the argument under the cursor. Behind the last
    /// argument that is the next open position, or else the parameter that takes
    /// the remaining ones; on an argument it is the first that the argument
    /// matches.
    pub fn active_parameter(
        &self,
        active_arg: Option<usize>,
        args: usize,
        open: Option<usize>,
        variadic: Option<usize>,
        first_match: Option<usize>,
    ) -> (r: Option<usize>)
        ensures
            r == {
                let index = match active_arg {
                    Some(arg) => if arg == args {
                        if open is Some {
                            open
                        } else {
                            variadic
                        }
                    } else {
                        first_match
                    },
                    None => None,
                };
                match index {
                    Some(i) => if i < self.parameters@.len() {
                        Some(self.parameters@[i as int].display_index)
                    } else {
                        None
                    },
                    None => None,
                }
            },
    {
        let index = match active_arg {
            Some(arg) => if arg == args {
                if open.is_some() {
                    open
                } else {
                    variadic
                }
            } else {
                first_match
            },
            None => None,
        };
        match index {
            Some(i) => if i < self.parameters.len() {
                Some(self.parameters[i].display_index)
            } else {
                None
            },
            None => None,
        }
    }
}

} // verus!
