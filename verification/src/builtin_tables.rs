//! The tables of builtin providers, globals and types that the documentation
//! of the host gives rise to.

use std::sync::Arc;

use vstd::prelude::*;

use crate::builtins::{
    builtin_function, builtin_provider, field_type, function_of, normalize_doc_text, normalized,
    parse_type_ref, provider_of, BuiltinDefs, BuiltinField, BuiltinFunctionData,
    BuiltinProviderData, BuiltinTypeData, Builtins, Callable, Type, Value,
};
use crate::builtins::{documented_type, maybe_field_type_ref_override};
use crate::def::{Name, TypeRef, TypeShape};
use crate::name_map::NameMap;
use crate::text::same;
use crate::typeck::{Provider, Ty, TyKind};

verus! {

/// What the host adds to its documentation: the names of provider types, the
/// names that the analysis handles itself, and the globals of each kind of file.
pub struct BuiltinEnv {
    pub known_provider_types: Vec<String>,
    pub values_deny_list: Vec<String>,
    pub types_deny_list: Vec<String>,
    pub bzl: Vec<Value>,
    pub build: Vec<Value>,
    pub module_bazel: Vec<Value>,
    pub repo: Vec<Value>,
    pub workspace: Vec<Value>,
    pub cquery: Vec<Value>,
    pub vendor: Vec<Value>,
    pub missing_module_members: NameMap<Vec<Value>>,
}

/// The builtin providers by name.
pub type BuiltinProviders = NameMap<Arc<BuiltinProviderData>>;

/// Whether a list holds a name.
pub open spec fn lists(names: Seq<String>, name: Seq<char>) -> bool {
    exists|i: int| 0 <= i < names.len() && (#[trigger] names[i])@ == name
}

/// Whether a list holds a name.
pub fn holds(names: &Vec<String>, name: &str) -> (r: bool)
    ensures
        r == lists(names@, name@),
{
    let mut i: usize = 0;
    while i < names.len()
        invariant
            i <= names@.len(),
            forall|k: int| 0 <= k < i ==> (#[trigger] names@[k])@ != name@,
        decreases names@.len() - i,
    {
        if same(names[i].as_str(), name) {
            return true;
        }
        i = i + 1;
    }
    false
}

/// The last of the first `n` types with a name.
pub open spec fn last_type(types: Seq<Type>, name: Seq<char>, n: nat) -> Option<int>
    decreases n,
{
    if n == 0 {
        None
    } else if types[n - 1].name@ == name {
        Some(n - 1)
    } else {
        last_type(types, name, (n - 1) as nat)
    }
}

/// The last of the first `n` values with a name.
pub open spec fn last_value(values: Seq<Value>, name: Seq<char>, n: nat) -> Option<Value>
    decreases n,
{
    if n == 0 {
        None
    } else if values[n - 1].name@ == name {
        Some(values[n - 1])
    } else {
        last_value(values, name, (n - 1) as nat)
    }
}

/// The last field with a name of the first `n` types.
pub open spec fn last_field(types: Seq<Type>, name: Seq<char>, n: nat) -> Option<Value>
    decreases n,
{
    if n == 0 {
        None
    } else {
        let found = last_value(types[n - 1].field@, name, types[n - 1].field@.len());
        if found is Some {
            found
        } else {
            last_field(types, name, (n - 1) as nat)
        }
    }
}

/// How a provider is called: as the last field with its name, or else as the
/// last global.
pub open spec fn provider_callable(b: Builtins, name: Seq<char>) -> Option<Callable> {
    let field = last_field(b.ty@, name, b.ty@.len());
    let value = if field is Some {
        field
    } else {
        last_value(b.global@, name, b.global@.len())
    };
    match value {
        Some(value) => value.callable,
        None => None,
    }
}

/// Finds the last value with a name.
fn find_value<'a>(values: &'a Vec<Value>, name: &str) -> (r: Option<&'a Value>)
    ensures
        match r {
            Some(v) => last_value(values@, name@, values@.len()) == Some(*v),
            None => last_value(values@, name@, values@.len()) is None,
        },
{
    let mut i: usize = values.len();
    while i > 0
        invariant
            i <= values@.len(),
            last_value(values@, name@, values@.len()) == last_value(values@, name@, i as nat),
        decreases i,
    {
        i = i - 1;
        if same(values[i].name.as_str(), name) {
            return Some(&values[i]);
        }
    }
    None
}

/// Finds how a provider is called.
fn find_callable<'a>(b: &'a Builtins, name: &str) -> (r: Option<&'a Value>)
    ensures
        match r {
            Some(v) => provider_callable(*b, name@) == v.callable,
            None => provider_callable(*b, name@) is None,
        },
{
    let mut i: usize = b.ty.len();
    while i > 0
        invariant
            i <= b.ty@.len(),
            last_field(b.ty@, name@, b.ty@.len()) == last_field(b.ty@, name@, i as nat),
        decreases i,
    {
        i = i - 1;
        let found = find_value(&b.ty[i].field, name);
        if found.is_some() {
            return found;
        }
    }
    find_value(&b.global, name)
}

/// Whether `providers` has at `name` what the first `n` types say of it.
pub open spec fn provider_entry(
    defs: BuiltinDefs,
    env: BuiltinEnv,
    providers: Map<Seq<char>, Arc<BuiltinProviderData>>,
    name: Seq<char>,
    n: nat,
) -> bool {
    let found = if lists(env.known_provider_types@, name) {
        last_type(defs.builtins.ty@, name, n)
    } else {
        None
    };
    match found {
        Some(i) => {
            &&& providers.contains_key(name)
            &&& provider_of(
                defs.builtins.ty@[i],
                provider_callable(defs.builtins, name),
                *providers[name],
            )
        },
        None => !providers.contains_key(name),
    }
}

/// Whether `providers` are the known provider types, each with how it is called.
pub open spec fn providers_of(
    defs: BuiltinDefs,
    env: BuiltinEnv,
    providers: Map<Seq<char>, Arc<BuiltinProviderData>>,
) -> bool {
    forall|name: Seq<char>|
        #[trigger] provider_entry(defs, env, providers, name, defs.builtins.ty@.len())
}

/// The builtin providers: each known provider type of the documentation, called
/// as the last value of its name is.
pub fn builtin_providers_query(defs: &BuiltinDefs, env: &BuiltinEnv) -> (providers: BuiltinProviders)
    ensures
        providers_of(*defs, *env, providers@),
{
    let mut providers: BuiltinProviders = NameMap::new();
    let types = &defs.builtins.ty;
    let mut i: usize = 0;
    while i < types.len()
        invariant
            i <= types@.len(),
            *types == defs.builtins.ty,
            forall|name: Seq<char>|
                #[trigger] provider_entry(*defs, *env, providers@, name, i as nat),
        decreases types@.len() - i,
    {
        let ty = &types[i];
        let ghost before = providers@;
        if holds(&env.known_provider_types, ty.name.as_str()) {
            let provider = match find_callable(&defs.builtins, ty.name.as_str()) {
                Some(value) => builtin_provider(ty, &value.callable),
                None => builtin_provider(ty, &None),
            };
            providers.insert(ty.name.clone(), Arc::new(provider));
        }
        proof {
            assert forall|name: Seq<char>| #[trigger]
                provider_entry(*defs, *env, providers@, name, (i + 1) as nat) by {
                assert(provider_entry(*defs, *env, before, name, i as nat));
            }
        }
        i = i + 1;
    }
    providers
}

/// What a documented value stands for among the globals.
#[derive(Clone, Copy, PartialEq, Eq, Structural)]
pub enum GlobalKind {
    Skipped,
    Function,
    Variable,
}

/// A provider is a variable; what is called is a function; the rest are
/// variables. Values without a name or on the deny list are skipped.
pub open spec fn global_kind(
    v: Value,
    deny: Seq<String>,
    providers: Map<Seq<char>, Arc<BuiltinProviderData>>,
) -> GlobalKind {
    if v.name@.len() == 0 || lists(deny, v.name@) {
        GlobalKind::Skipped
    } else if providers.contains_key(v.name@) {
        GlobalKind::Variable
    } else if v.callable is Some {
        GlobalKind::Function
    } else {
        GlobalKind::Variable
    }
}

/// The last of the first `n` values with a name and a kind.
pub open spec fn last_global(
    values: Seq<&Value>,
    deny: Seq<String>,
    providers: Map<Seq<char>, Arc<BuiltinProviderData>>,
    name: Seq<char>,
    kind: GlobalKind,
    n: nat,
) -> Option<int>
    decreases n,
{
    if n == 0 {
        None
    } else if values[n - 1].name@ == name && global_kind(*values[n - 1], deny, providers) == kind {
        Some(n - 1)
    } else {
        last_global(values, deny, providers, name, kind, (n - 1) as nat)
    }
}

/// The type of a global variable.
pub open spec fn variable_shape(
    v: Value,
    providers: Map<Seq<char>, Arc<BuiltinProviderData>>,
) -> TypeShape {
    if providers.contains_key(v.name@) {
        TypeShape::Provider(*providers[v.name@])
    } else {
        documented_type(v.ty@)
    }
}

/// The globals of a kind of file.
pub struct APIGlobals {
    pub functions: NameMap<Arc<BuiltinFunctionData>>,
    pub variables: NameMap<Arc<TypeRef>>,
}

/// Whether the globals have at `name` what the first `n` values say of it.
pub open spec fn global_entry(
    values: Seq<&Value>,
    deny: Seq<String>,
    providers: Map<Seq<char>, Arc<BuiltinProviderData>>,
    n: nat,
    g: APIGlobals,
    name: Seq<char>,
) -> bool {
    &&& match last_global(values, deny, providers, name, GlobalKind::Function, n) {
        Some(i) => {
            &&& g.functions@.contains_key(name)
            &&& function_of(
                name,
                values[i].callable->0,
                values[i].doc@,
                None,
                *g.functions@[name],
            )
        },
        None => !g.functions@.contains_key(name),
    }
    &&& match last_global(values, deny, providers, name, GlobalKind::Variable, n) {
        Some(i) => {
            &&& g.variables@.contains_key(name)
            &&& g.variables@[name].shape() == variable_shape(*values[i], providers)
        },
        None => !g.variables@.contains_key(name),
    }
}

/// Whether the globals are those of the first `n` values.
pub open spec fn globals_of(
    values: Seq<&Value>,
    deny: Seq<String>,
    providers: Map<Seq<char>, Arc<BuiltinProviderData>>,
    n: nat,
    g: APIGlobals,
) -> bool {
    forall|name: Seq<char>| #[trigger] global_entry(values, deny, providers, n, g, name)
}

impl APIGlobals {
    /// The globals that a list of values means; of two with one name the later
    /// counts.
    pub fn from_values(
        providers: &BuiltinProviders,
        deny: &Vec<String>,
        values: &Vec<&Value>,
    ) -> (g: APIGlobals)
        ensures
            globals_of(values@, deny@, providers@, values@.len(), g),
    {
        let mut g = APIGlobals { functions: NameMap::new(), variables: NameMap::new() };
        let mut i: usize = 0;
        while i < values.len()
            invariant
                i <= values@.len(),
                globals_of(values@, deny@, providers@, i as nat, g),
            decreases values@.len() - i,
        {
            let value = values[i];
            let ghost before = g;
            if !value.name.as_str().is_empty() && !holds(deny, value.name.as_str()) {
                match providers.get(value.name.as_str()) {
                    Some(provider) => {
                        let type_ref = Arc::new(TypeRef::Provider(provider.clone()));
                        g.variables.insert(value.name.clone(), type_ref);
                    },
                    None => match &value.callable {
                        Some(callable) => {
                            let f = builtin_function(
                                value.name.as_str(),
                                callable,
                                value.doc.as_str(),
                                None,
                            );
                            g.functions.insert(value.name.clone(), Arc::new(f));
                        },
                        None => {
                            let type_ref = Arc::new(parse_type_ref(value.ty.as_str()));
                            g.variables.insert(value.name.clone(), type_ref);
                        },
                    },
                }
            }
            proof {
                assert forall|name: Seq<char>| #[trigger]
                    global_entry(values@, deny@, providers@, (i + 1) as nat, g, name) by {
                    assert(global_entry(values@, deny@, providers@, i as nat, before, name));
                }
            }
            i = i + 1;
        }
        g
    }
}

/// The globals of every kind of file.
pub struct BuiltinGlobals {
    pub bzl_globals: APIGlobals,
    pub bzlmod_globals: APIGlobals,
    pub repo_globals: APIGlobals,
    pub workspace_globals: APIGlobals,
    pub cquery_globals: APIGlobals,
    pub vendor_globals: APIGlobals,
}

/// References to values, in order.
pub open spec fn refs(values: Seq<Value>) -> Seq<&'static Value> {
    Seq::new(values.len(), |i: int| &values[i])
}

/// Adds references to values behind others.
fn add_refs<'a>(out: &mut Vec<&'a Value>, values: &'a Vec<Value>)
    ensures
        final(out)@ == old(out)@ + refs(values@),
{
    let ghost before = out@;
    let mut i: usize = 0;
    while i < values.len()
        invariant
            i <= values@.len(),
            before == old(out)@,
            out@ == before + refs(values@).take(i as int),
        decreases values@.len() - i,
    {
        out.push(&values[i]);
        proof {
            assert(out@ =~= before + refs(values@).take(i + 1));
        }
        i = i + 1;
    }
    proof {
        assert(refs(values@).take(i as int) =~= refs(values@));
    }
}

/// The globals of one list of values.
fn globals_from(providers: &BuiltinProviders, deny: &Vec<String>, values: &Vec<Value>) -> (g:
    APIGlobals)
    ensures
        globals_of(refs(values@), deny@, providers@, values@.len(), g),
{
    let mut all: Vec<&Value> = Vec::new();
    add_refs(&mut all, values);
    proof {
        assert(Seq::empty() + refs(values@) =~= refs(values@));
        assert(all@ =~= refs(values@));
    }
    APIGlobals::from_values(providers, deny, &all)
}

/// The values that `.bzl` files see: those of `.bzl` and `BUILD` files, the
/// documented ones and the native rules.
pub open spec fn bzl_values(defs: BuiltinDefs, env: BuiltinEnv) -> Seq<&'static Value> {
    refs(env.bzl@) + refs(env.build@) + refs(defs.builtins.global@) + refs(defs.rules.global@)
}

/// The globals of every kind of file.
pub fn builtin_globals_query(
    defs: &BuiltinDefs,
    env: &BuiltinEnv,
    providers: &BuiltinProviders,
) -> (g: BuiltinGlobals)
    ensures
        globals_of(
            bzl_values(*defs, *env),
            env.values_deny_list@,
            providers@,
            bzl_values(*defs, *env).len(),
            g.bzl_globals,
        ),
        globals_of(
            refs(env.module_bazel@),
            env.values_deny_list@,
            providers@,
            env.module_bazel@.len(),
            g.bzlmod_globals,
        ),
        globals_of(
            refs(env.repo@),
            env.values_deny_list@,
            providers@,
            env.repo@.len(),
            g.repo_globals,
        ),
        globals_of(
            refs(env.workspace@),
            env.values_deny_list@,
            providers@,
            env.workspace@.len(),
            g.workspace_globals,
        ),
        globals_of(
            refs(env.cquery@),
            env.values_deny_list@,
            providers@,
            env.cquery@.len(),
            g.cquery_globals,
        ),
        globals_of(
            refs(env.vendor@),
            env.values_deny_list@,
            providers@,
            env.vendor@.len(),
            g.vendor_globals,
        ),
{
    let deny = &env.values_deny_list;
    let mut bzl: Vec<&Value> = Vec::new();
    add_refs(&mut bzl, &env.bzl);
    add_refs(&mut bzl, &env.build);
    add_refs(&mut bzl, &defs.builtins.global);
    add_refs(&mut bzl, &defs.rules.global);
    proof {
        assert(bzl@ =~= bzl_values(*defs, *env));
    }
    BuiltinGlobals {
        bzl_globals: APIGlobals::from_values(providers, deny, &bzl),
        bzlmod_globals: globals_from(providers, deny, &env.module_bazel),
        repo_globals: globals_from(providers, deny, &env.repo),
        workspace_globals: globals_from(providers, deny, &env.workspace),
        cquery_globals: globals_from(providers, deny, &env.cquery),
        vendor_globals: globals_from(providers, deny, &env.vendor),
    }
}

/// Whether a value becomes a method of `native`: a rule, or what `WORKSPACE`
/// files can call besides `workspace` itself. The first `rules` values are the rules.
pub open spec fn is_native(values: Seq<&Value>, rules: int, i: int) -> bool {
    values[i].callable is Some && (i < rules || values[i].name@ != "workspace"@)
}

/// Whether one of the first `n` values becomes a method of `native` named `name`.
pub open spec fn native_has(values: Seq<&Value>, rules: int, name: Seq<char>, n: int) -> bool {
    exists|j: int| 0 <= j < n && is_native(values, rules, j) && (#[trigger] values[j]).name@ == name
}

/// The first `n` values that become methods of `native`, the first of each name.
pub open spec fn native_methods(values: Seq<&Value>, rules: int, n: nat) -> Seq<int>
    decreases n,
{
    if n == 0 {
        Seq::empty()
    } else if is_native(values, rules, n - 1) && !native_has(
        values,
        rules,
        values[n - 1].name@,
        n - 1,
    ) {
        native_methods(values, rules, (n - 1) as nat).push(n - 1)
    } else {
        native_methods(values, rules, (n - 1) as nat)
    }
}

/// The values that may become methods of `native`.
pub open spec fn native_values(defs: BuiltinDefs, env: BuiltinEnv) -> Seq<&'static Value> {
    refs(defs.rules.global@) + refs(env.workspace@)
}

/// The values that become methods of the type `name`.
pub open spec fn native_methods_of(
    defs: BuiltinDefs,
    env: BuiltinEnv,
    name: Seq<char>,
) -> Seq<int> {
    let values = native_values(defs, env);
    if name == "native"@ {
        native_methods(values, defs.rules.global@.len() as int, values.len())
    } else {
        Seq::empty()
    }
}

/// Whether the type `ty` has a native method `name`.
pub open spec fn has_native(
    defs: BuiltinDefs,
    env: BuiltinEnv,
    ty: Seq<char>,
    name: Seq<char>,
) -> bool {
    let values = native_values(defs, env);
    ty == "native"@ && native_has(
        values,
        defs.rules.global@.len() as int,
        name,
        values.len() as int,
    )
}

/// The documented fields of a type, with those that the documentation misses.
pub open spec fn members(ty: Type, env: BuiltinEnv, with_missing: bool) -> Seq<&'static Value> {
    if with_missing && env.missing_module_members@.contains_key(ty.name@) {
        refs(ty.field@) + refs(env.missing_module_members@[ty.name@]@)
    } else {
        refs(ty.field@)
    }
}

/// Whether a member becomes a method.
pub open spec fn is_method(
    f: Value,
    native: spec_fn(Seq<char>) -> bool,
    providers: Map<Seq<char>, Arc<BuiltinProviderData>>,
) -> bool {
    f.callable is Some && !native(f.name@) && !providers.contains_key(f.name@)
}

/// Whether a member becomes a field.
pub open spec fn is_field(
    f: Value,
    native: spec_fn(Seq<char>) -> bool,
    providers: Map<Seq<char>, Arc<BuiltinProviderData>>,
) -> bool {
    f.callable is None || (!native(f.name@) && providers.contains_key(f.name@))
}

/// The first `n` members that become methods.
pub open spec fn method_members(
    fields: Seq<&Value>,
    native: spec_fn(Seq<char>) -> bool,
    providers: Map<Seq<char>, Arc<BuiltinProviderData>>,
    n: nat,
) -> Seq<int>
    decreases n,
{
    if n == 0 {
        Seq::empty()
    } else if is_method(*fields[n - 1], native, providers) {
        method_members(fields, native, providers, (n - 1) as nat).push(n - 1)
    } else {
        method_members(fields, native, providers, (n - 1) as nat)
    }
}

/// The first `n` members that become fields.
pub open spec fn field_members(
    fields: Seq<&Value>,
    native: spec_fn(Seq<char>) -> bool,
    providers: Map<Seq<char>, Arc<BuiltinProviderData>>,
    n: nat,
) -> Seq<int>
    decreases n,
{
    if n == 0 {
        Seq::empty()
    } else if is_field(*fields[n - 1], native, providers) {
        field_members(fields, native, providers, (n - 1) as nat).push(n - 1)
    } else {
        field_members(fields, native, providers, (n - 1) as nat)
    }
}

/// Whether `out` is the field that a member of the type `ty` means.
pub open spec fn field_of(
    ty: Seq<char>,
    f: Value,
    providers: Map<Seq<char>, Arc<BuiltinProviderData>>,
    out: BuiltinField,
) -> bool {
    &&& out.name@ == if f.callable is Some {
        providers[f.name@].name@
    } else {
        f.name@
    }
    &&& out.type_ref.shape() == if providers.contains_key(f.name@) {
        TypeShape::Provider(*providers[f.name@])
    } else {
        field_type(ty, f)
    }
    &&& out.doc@ == normalized(f.doc@, false)
}

/// Whether `methods` are the functions that values mean, in the order `order`.
pub open spec fn methods_of(
    ty: Seq<char>,
    values: Seq<&Value>,
    order: Seq<int>,
    methods: Seq<Arc<BuiltinFunctionData>>,
) -> bool {
    &&& methods.len() == order.len()
    &&& forall|k: int|
        0 <= k < order.len() ==> function_of(
            values[order[k]].name@,
            values[order[k]].callable->0,
            values[order[k]].doc@,
            Some(ty),
            *#[trigger] methods[k],
        )
}

/// Whether `fields` are the fields that members mean, in the order `order`.
pub open spec fn fields_of(
    ty: Seq<char>,
    values: Seq<&Value>,
    order: Seq<int>,
    providers: Map<Seq<char>, Arc<BuiltinProviderData>>,
    fields: Seq<BuiltinField>,
) -> bool {
    &&& fields.len() == order.len()
    &&& forall|k: int|
        0 <= k < order.len() ==> field_of(ty, *values[order[k]], providers, #[trigger] fields[k])
}

/// Whether `d` is what a documented type means.
pub open spec fn type_of(
    defs: BuiltinDefs,
    env: BuiltinEnv,
    providers: Map<Seq<char>, Arc<BuiltinProviderData>>,
    ty: Type,
    with_missing: bool,
    d: BuiltinTypeData,
) -> bool {
    let name = ty.name@;
    let native = |n: Seq<char>| has_native(defs, env, name, n);
    let fields = members(ty, env, with_missing);
    let order = native_methods_of(defs, env, name);
    &&& d.name@ == name
    &&& d.doc@ == normalized(ty.doc@, false)
    &&& d.methods@.len() >= order.len()
    &&& methods_of(
        name,
        native_values(defs, env),
        order,
        d.methods@.take(order.len() as int),
    )
    &&& methods_of(
        name,
        fields,
        method_members(fields, native, providers, fields.len()),
        d.methods@.skip(order.len() as int),
    )
    &&& fields_of(
        name,
        fields,
        field_members(fields, native, providers, fields.len()),
        providers,
        d.fields@,
    )
    &&& match d.indexable_by {
        Some((index, result)) => {
            &&& name == "ToolchainContext"@
            &&& index.shape() == TypeShape::Name("string"@, None)
            &&& result.shape() == TypeShape::Name("ToolchainInfo"@, None)
        },
        None => name != "ToolchainContext"@,
    }
}

/// The methods that `native` has from the rules.
fn native_functions(defs: &BuiltinDefs, env: &BuiltinEnv, ty: &str) -> (r: (
    Vec<Arc<BuiltinFunctionData>>,
    NameMap<bool>,
))
    ensures
        methods_of(
            ty@,
            native_values(*defs, *env),
            native_methods_of(*defs, *env, ty@),
            r.0@,
        ),
        forall|name: Seq<char>|
            #[trigger] r.1@.contains_key(name) == has_native(*defs, *env, ty@, name),
{
    let mut methods: Vec<Arc<BuiltinFunctionData>> = Vec::new();
    let mut seen: NameMap<bool> = NameMap::new();
    if !same(ty, "native") {
        return (methods, seen);
    }
    let mut values: Vec<&Value> = Vec::new();
    add_refs(&mut values, &defs.rules.global);
    add_refs(&mut values, &env.workspace);
    let rules: usize = defs.rules.global.len();
    proof {
        assert(values@ =~= native_values(*defs, *env));
    }
    let mut i: usize = 0;
    while i < values.len()
        invariant
            i <= values@.len(),
            rules == defs.rules.global@.len(),
            methods_of(
                ty@,
                values@,
                native_methods(values@, rules as int, i as nat),
                methods@,
            ),
            forall|name: Seq<char>|
                #[trigger] seen@.contains_key(name) == native_has(
                    values@,
                    rules as int,
                    name,
                    i as int,
                ),
        decreases values@.len() - i,
    {
        let value = values[i];
        let ghost before = seen@;
        let ghost earlier = methods@;
        proof {
            assert forall|name: Seq<char>|
                native_has(values@, rules as int, name, i + 1) == (native_has(
                    values@,
                    rules as int,
                    name,
                    i as int,
                ) || (is_native(values@, rules as int, i as int) && values@[i as int].name@
                    == name)) by {
                if native_has(values@, rules as int, name, i + 1) {
                    let j = choose|j: int|
                        0 <= j < i + 1 && is_native(values@, rules as int, j) && (
                        #[trigger] values@[j]).name@ == name;
                    if j < i {
                        assert(values@[j].name@ == name);
                    }
                }
                if is_native(values@, rules as int, i as int) && values@[i as int].name@ == name {
                    assert(values@[i as int].name@ == name);
                }
            }
        }
        if i < rules || !same(value.name.as_str(), "workspace") {
            if let Some(callable) = &value.callable {
                if !seen.contains_key(value.name.as_str()) {
                    seen.insert(value.name.clone(), true);
                    let f = builtin_function(
                        value.name.as_str(),
                        callable,
                        value.doc.as_str(),
                        Some(ty),
                    );
                    methods.push(Arc::new(f));
                }
            }
        }
        proof {
            assert forall|name: Seq<char>| #[trigger]
                seen@.contains_key(name) == native_has(values@, rules as int, name, i + 1) by {
                assert(before.contains_key(name) == native_has(
                    values@,
                    rules as int,
                    name,
                    i as int,
                ));
            }
            let order = native_methods(values@, rules as int, (i + 1) as nat);
            assert forall|k: int| 0 <= k < order.len() implies function_of(
                values@[order[k]].name@,
                values@[order[k]].callable->0,
                values@[order[k]].doc@,
                Some(ty@),
                *#[trigger] methods@[k],
            ) by {
                if k < earlier.len() {
                    assert(methods@[k] == earlier[k]);
                }
            }
        }
        i = i + 1;
    }
    (methods, seen)
}

/// Reads a documented type.
pub fn builtin_type(
    defs: &BuiltinDefs,
    env: &BuiltinEnv,
    providers: &BuiltinProviders,
    ty: &Type,
    with_missing: bool,
) -> (d: BuiltinTypeData)
    ensures
        type_of(*defs, *env, providers@, *ty, with_missing, d),
{
    let (mut methods, seen) = native_functions(defs, env, ty.name.as_str());
    let ghost from_rules = methods@;
    let ghost base = methods@.len() as int;
    let ghost name = ty.name@;
    let ghost native = |n: Seq<char>| has_native(*defs, *env, name, n);
    let mut values: Vec<&Value> = Vec::new();
    add_refs(&mut values, &ty.field);
    if with_missing {
        if let Some(missing) = env.missing_module_members.get(ty.name.as_str()) {
            add_refs(&mut values, missing);
        }
    }
    proof {
        assert(values@ =~= members(*ty, *env, with_missing));
        assert(methods@.take(base) =~= from_rules);
        assert(methods@.skip(base) =~= Seq::empty());
    }
    let mut fields: Vec<BuiltinField> = Vec::new();
    let mut i: usize = 0;
    while i < values.len()
        invariant
            i <= values@.len(),
            name == ty.name@,
            native == (|n: Seq<char>| has_native(*defs, *env, name, n)),
            base == from_rules.len() <= methods@.len(),
            methods@.take(base) == from_rules,
            forall|n: Seq<char>|
                #[trigger] seen@.contains_key(n) == has_native(*defs, *env, name, n),
            methods_of(
                name,
                values@,
                method_members(values@, native, providers@, i as nat),
                methods@.skip(base),
            ),
            fields_of(
                name,
                values@,
                field_members(values@, native, providers@, i as nat),
                providers@,
                fields@,
            ),
        decreases values@.len() - i,
    {
        let field = values[i];
        let ghost earlier = methods@;
        let ghost done = fields@;
        proof {
            assert(seen@.contains_key(field.name@) == native(field.name@));
        }
        match &field.callable {
            Some(callable) => {
                if !seen.contains_key(field.name.as_str()) {
                    match providers.get(field.name.as_str()) {
                        Some(provider) => {
                            fields.push(
                                BuiltinField {
                                    name: provider.name.dup(),
                                    type_ref: TypeRef::Provider(provider.clone()),
                                    doc: normalize_doc_text(field.doc.as_str()),
                                },
                            );
                        },
                        None => {
                            let f = builtin_function(
                                field.name.as_str(),
                                callable,
                                field.doc.as_str(),
                                Some(ty.name.as_str()),
                            );
                            methods.push(Arc::new(f));
                        },
                    }
                }
            },
            None => {
                let type_ref = match providers.get(field.name.as_str()) {
                    Some(provider) => TypeRef::Provider(provider.clone()),
                    None => match maybe_field_type_ref_override(
                        ty.name.as_str(),
                        field.name.as_str(),
                    ) {
                        Some(type_ref) => type_ref,
                        None => parse_type_ref(field.ty.as_str()),
                    },
                };
                fields.push(
                    BuiltinField {
                        name: Name::from_str(field.name.as_str()),
                        type_ref,
                        doc: normalize_doc_text(field.doc.as_str()),
                    },
                );
            },
        }
        proof {
            assert(methods@.take(base) =~= earlier.take(base));
            let order = method_members(values@, native, providers@, (i + 1) as nat);
            let now = methods@.skip(base);
            assert(now.len() == order.len());
            assert forall|k: int| 0 <= k < order.len() implies function_of(
                values@[order[k]].name@,
                values@[order[k]].callable->0,
                values@[order[k]].doc@,
                Some(name),
                *#[trigger] now[k],
            ) by {
                if k < earlier.skip(base).len() {
                    assert(now[k] == earlier.skip(base)[k]);
                }
            }
            let places = field_members(values@, native, providers@, (i + 1) as nat);
            assert forall|k: int| 0 <= k < places.len() implies field_of(
                name,
                *values@[places[k]],
                providers@,
                #[trigger] fields@[k],
            ) by {
                if k < done.len() {
                    assert(fields@[k] == done[k]);
                }
            }
        }
        i = i + 1;
    }
    let indexable_by = if same(ty.name.as_str(), "ToolchainContext") {
        Some(
            (
                TypeRef::Name(Name::from_str("string"), None),
                TypeRef::Name(Name::from_str("ToolchainInfo"), None),
            ),
        )
    } else {
        None
    };
    BuiltinTypeData {
        name: Name::from_str(ty.name.as_str()),
        fields,
        methods,
        doc: normalize_doc_text(ty.doc.as_str()),
        indexable_by,
    }
}

/// Whether a documented type is left out: it has no name, the analysis handles
/// it itself, or it is a provider.
pub open spec fn is_skipped_type(env: BuiltinEnv, name: Seq<char>) -> bool {
    name.len() == 0 || lists(env.types_deny_list@, name) || lists(env.known_provider_types@, name)
}

/// Whether type `i` is the first of its name.
pub open spec fn is_first_type(types: Seq<Type>, i: int) -> bool {
    forall|j: int| 0 <= j < i ==> (#[trigger] types[j]).name@ != types[i].name@
}

/// The type of the instances of a builtin provider.
pub open spec fn is_instance(ty: Ty, provider: Arc<BuiltinProviderData>) -> bool {
    match *ty {
        TyKind::ProviderInstance(Provider::Builtin(p)) => p == provider,
        _ => false,
    }
}

/// Whether the table of types has at `name` what the first `n` types and the
/// providers say of it.
pub open spec fn type_entry(
    defs: BuiltinDefs,
    env: BuiltinEnv,
    providers: Map<Seq<char>, Arc<BuiltinProviderData>>,
    types: Map<Seq<char>, Ty>,
    name: Seq<char>,
    n: nat,
) -> bool {
    let all = defs.builtins.ty@;
    let found = if is_skipped_type(env, name) {
        None
    } else {
        last_type(all, name, n)
    };
    match found {
        Some(i) => {
            &&& types.contains_key(name)
            &&& match *types[name] {
                TyKind::BuiltinType(d) => type_of(
                    defs,
                    env,
                    providers,
                    all[i],
                    is_first_type(all, i),
                    *d,
                ),
                _ => false,
            }
        },
        None => if providers.contains_key(name) {
            types.contains_key(name) && is_instance(types[name], providers[name])
        } else {
            !types.contains_key(name)
        },
    }
}

/// The builtin types by name.
pub struct BuiltinTypes {
    pub types: NameMap<Ty>,
}

/// Whether `types` has at `name` the instances of the provider there.
spec fn instance_entry(
    providers: Map<Seq<char>, Arc<BuiltinProviderData>>,
    types: Map<Seq<char>, Ty>,
    name: Seq<char>,
) -> bool {
    if providers.contains_key(name) {
        types.contains_key(name) && is_instance(types[name], providers[name])
    } else {
        !types.contains_key(name)
    }
}

/// The types of the instances of the builtin providers.
fn provider_instances(providers: &BuiltinProviders) -> (types: NameMap<Ty>)
    ensures
        forall|name: Seq<char>| #[trigger] instance_entry(providers@, types@, name),
{
    let mut types: NameMap<Ty> = NameMap::new();
    let mut i: usize = 0;
    while i < providers.entries.len()
        invariant
            i <= providers.entries@.len(),
            forall|name: Seq<char>|
                #[trigger] instance_entry(
                    crate::name_map::map_of(providers.entries@.take(i as int)),
                    types@,
                    name,
                ),
        decreases providers.entries@.len() - i,
    {
        let ghost before = types@;
        let name = providers.entries[i].0.clone();
        let provider = providers.entries[i].1.clone();
        types.insert(name, Arc::new(TyKind::ProviderInstance(Provider::Builtin(provider))));
        proof {
            let taken = providers.entries@.take(i + 1);
            let earlier = providers.entries@.take(i as int);
            assert(taken.drop_last() =~= earlier);
            assert forall|n: Seq<char>| #[trigger]
                instance_entry(crate::name_map::map_of(taken), types@, n) by {
                assert(instance_entry(crate::name_map::map_of(earlier), before, n));
            }
        }
        i = i + 1;
    }
    proof {
        assert(providers.entries@.take(i as int) =~= providers.entries@);
    }
    types
}

/// The builtin types: the instances of providers, and each documented type that
/// is not left out. Members that the documentation misses go to the first type
/// of a name.
pub fn builtin_types_query(
    defs: &BuiltinDefs,
    env: &BuiltinEnv,
    providers: &BuiltinProviders,
) -> (r: BuiltinTypes)
    ensures
        forall|name: Seq<char>|
            #[trigger] type_entry(
                *defs,
                *env,
                providers@,
                r.types@,
                name,
                defs.builtins.ty@.len(),
            ),
{
    let mut types = provider_instances(providers);
    let all = &defs.builtins.ty;
    proof {
        assert forall|name: Seq<char>| #[trigger]
            type_entry(*defs, *env, providers@, types@, name, 0) by {
            assert(instance_entry(providers@, types@, name));
        }
    }
    let mut i: usize = 0;
    while i < all.len()
        invariant
            i <= all@.len(),
            *all == defs.builtins.ty,
            forall|name: Seq<char>|
                #[trigger] type_entry(*defs, *env, providers@, types@, name, i as nat),
        decreases all@.len() - i,
    {
        let ty = &all[i];
        let ghost before = types@;
        if !(ty.name.as_str().is_empty() || holds(&env.types_deny_list, ty.name.as_str()) || holds(
            &env.known_provider_types,
            ty.name.as_str(),
        )) {
            let mut first = true;
            let mut j: usize = 0;
            while j < i
                invariant
                    j <= i < all@.len(),
                    *ty == all@[i as int],
                    first == forall|k: int|
                        0 <= k < j ==> (#[trigger] all@[k]).name@ != all@[i as int].name@,
                decreases i - j,
            {
                if same(all[j].name.as_str(), ty.name.as_str()) {
                    first = false;
                }
                j = j + 1;
            }
            let d = builtin_type(defs, env, providers, ty, first);
            types.insert(ty.name.clone(), Arc::new(TyKind::BuiltinType(Arc::new(d))));
        }
        proof {
            assert forall|name: Seq<char>| #[trigger]
                type_entry(*defs, *env, providers@, types@, name, (i + 1) as nat) by {
                assert(type_entry(*defs, *env, providers@, before, name, i as nat));
            }
        }
        i = i + 1;
    }
    BuiltinTypes { types }
}

} // verus!
