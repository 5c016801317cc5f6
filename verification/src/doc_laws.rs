//! What holds of the types and values that are read from the documentation.

use std::sync::Arc;

use vstd::prelude::*;

use crate::builtin_tables::{
    bzl_values, field_members, field_of, global_entry, globals_of, has_native, is_field, is_method,
    last_global, last_type, lists, members, method_members, native_methods_of, provider_entry,
    providers_of, type_entry, type_of, APIGlobals, BuiltinEnv, GlobalKind,
};
use crate::builtins::{
    documented_part, documented_type, element_text, element_type, function_of, head_text,
    normalized_keeps_plain_text, overridden_type, param_of, stripped_type, BuiltinDefs,
    BuiltinFunctionParam, BuiltinProviderData, BuiltinTypeData, Param, Type, Value,
};
use crate::def::{Name, TypeShape};
use crate::environment::{are_common, CommonAttribute, CommonAttributes};
use crate::typeck::{Attribute, RuleKind, Ty, TyKind};
use crate::text::{find_in, find_in_finds, has_part, occurs_at, pieces};

verus! {

/// Whether a text has no brackets and is no list of alternatives.
pub open spec fn is_single(text: Seq<char>) -> bool {
    !text.contains('<') && !text.contains('>') && !has_part(text, "; or "@)
}

/// Whether a text is a single type without elements.
pub open spec fn is_word(text: Seq<char>) -> bool {
    is_single(text) && !has_part(text, " of "@)
}

proof fn one_piece(s: Seq<char>, sep: Seq<char>)
    requires
        !has_part(s, sep),
        sep.len() > 0,
    ensures
        pieces(s, sep) == seq![s],
{
    find_in_finds(s, sep, 0);
    let i = find_in(s, sep, 0);
    if i >= 0 {
        assert(occurs_at(s, sep, i));
    }
    assert(pieces(s, sep) =~= seq![s]);
}

/// Two texts with a separator between them, of which the first holds none, and which
/// does not begin inside the first.
proof fn two_pieces(a: Seq<char>, sep: Seq<char>, b: Seq<char>)
    requires
        sep.len() > 0,
        !has_part(b, sep),
        forall|k: int| 0 <= k < a.len() ==> !#[trigger] occurs_at(a + sep + b, sep, k),
    ensures
        pieces(a + sep + b, sep) == seq![a, b],
{
    let s = a + sep + b;
    let n = a.len() as int;
    assert(s.subrange(n, n + sep.len()) =~= sep);
    assert(occurs_at(s, sep, n));
    find_in_finds(s, sep, 0);
    let i = find_in(s, sep, 0);
    if i < 0 {
        assert(!occurs_at(s, sep, n));
    }
    if i > n {
        assert(!occurs_at(s, sep, n));
    }
    assert(i == n);
    assert(s.subrange(0, n) =~= a);
    assert(s.subrange(n + sep.len(), s.len() as int) =~= b);
    one_piece(b, sep);
    assert(pieces(s, sep) =~= seq![a, b]);
}

proof fn single_is_its_part(text: Seq<char>)
    requires
        is_single(text),
    ensures
        documented_type(text) == documented_part(text),
{
    reveal_strlit("; or ");
    normalized_keeps_plain_text(text, true);
    one_piece(text, "; or "@);
}

proof fn word_has_no_element(text: Seq<char>)
    requires
        !has_part(text, " of "@),
    ensures
        head_text(text) == text,
        element_text(text) is None,
        element_type(text) == TypeShape::Unknown,
{
    reveal_strlit(" of ");
    one_piece(text, " of "@);
}

/// Whether a type is a name without arguments.
pub open spec fn is_named(ty: TypeShape, name: Seq<char>) -> bool {
    ty == TypeShape::Name(name, None)
}

proof fn documented_words_differ()
    ensures
        "Iterable"@.len() == 8,
        "iterable"@.len() == 8,
        "Sequence"@.len() == 8,
        "sequence"@.len() == 8,
        "List"@.len() == 4,
        "list"@.len() == 4,
        "Dict"@.len() == 4,
        "dict"@.len() == 4,
        "Dictionary"@.len() == 10,
        "String"@.len() == 6,
        "string"@.len() == 6,
        "Boolean"@.len() == 7,
        "boolean"@.len() == 7,
        "bool"@.len() == 4,
        "label"@.len() == 5,
        "Label"@.len() == 5,
        "NoneType"@.len() == 8,
        "None"@.len() == 4,
        "Iterable"@[0] == 'I',
        "iterable"@[0] == 'i',
        "Sequence"@[0] == 'S',
        "sequence"@[0] == 's',
        "NoneType"@[0] == 'N',
        "List"@[0] == 'L',
        "list"@[0] == 'l',
        "Dict"@[0] == 'D',
        "dict"@[0] == 'd',
        "bool"@[0] == 'b',
        "None"@[0] == 'N',
        "String"@[0] == 'S',
        "string"@[0] == 's',
        "Boolean"@[0] == 'B',
        "boolean"@[0] == 'b',
        "Label"@[0] == 'L',
        "label"@[0] == 'l',
{
    reveal_strlit("Iterable");
    reveal_strlit("iterable");
    reveal_strlit("Sequence");
    reveal_strlit("sequence");
    reveal_strlit("List");
    reveal_strlit("list");
    reveal_strlit("Dict");
    reveal_strlit("dict");
    reveal_strlit("Dictionary");
    reveal_strlit("String");
    reveal_strlit("string");
    reveal_strlit("Boolean");
    reveal_strlit("boolean");
    reveal_strlit("bool");
    reveal_strlit("label");
    reveal_strlit("Label");
    reveal_strlit("NoneType");
    reveal_strlit("None");
}

/// A word of the documentation is the type of that name. Strings, booleans, labels and
/// `None` are also written otherwise; nothing else stands for them.
pub proof fn words_are_types(text: Seq<char>)
    requires
        is_word(text),
    ensures
        is_named(documented_type(text), "string"@) <==> text == "String"@ || text == "string"@,
        is_named(documented_type(text), "bool"@) <==> text == "Boolean"@ || text == "boolean"@
            || text == "bool"@,
        is_named(documented_type(text), "Label"@) <==> text == "label"@ || text == "Label"@,
        is_named(documented_type(text), "None"@) <==> text == "NoneType"@ || text == "None"@,
        documented_type(text) == TypeShape::Unknown <==> text.len() == 0,
        (documented_type(text) matches TypeShape::Name(name, Some(args)) && name == "list"@)
            <==> text == "List"@ || text == "list"@,
        (documented_type(text) matches TypeShape::Name(name, Some(args)) && name == "dict"@)
            <==> text == "Dict"@ || text == "dict"@ || text == "Dictionary"@,
{
    single_is_its_part(text);
    word_has_no_element(text);
    documented_words_differ();
}

/// Of every text of another kind the name stays as it is written.
pub proof fn other_words_keep_their_names(text: Seq<char>)
    requires
        is_word(text),
        text.len() > 0,
        text != "Iterable"@ && text != "iterable"@ && text != "Sequence"@ && text != "sequence"@,
        text != "List"@ && text != "list"@ && text != "Dict"@ && text != "dict"@ && text
            != "Dictionary"@,
        text != "String"@ && text != "Boolean"@ && text != "boolean"@ && text != "label"@ && text
            != "NoneType"@,
    ensures
        documented_type(text) == TypeShape::Name(text, None),
{
    single_is_its_part(text);
    word_has_no_element(text);
}

/// `H of Xs` is a container of `X`.
proof fn container_has_element(head: Seq<char>, word: Seq<char>)
    requires
        is_word(head),
        !head.contains(' '),
        is_word(word + seq!['s']),
    ensures
        ({
            let text = head + " of "@ + (word + seq!['s']);
            &&& head_text(text) == head
            &&& element_text(text) == Some(word)
            &&& element_type(text) == documented_type(word)
        }),
{
    reveal_strlit(" of ");
    let plural = word + seq!['s'];
    let text = head + " of "@ + plural;
    assert forall|k: int| 0 <= k < head.len() implies !#[trigger] occurs_at(
        text,
        " of "@,
        k,
    ) by {
        if occurs_at(text, " of "@, k) {
            assert(text.subrange(k, k + 4)[0] == ' ');
            assert(text[k] == ' ');
            assert(head[k] == ' ');
        }
    }
    two_pieces(head, " of "@, plural);
    assert(plural.drop_last() =~= word);
    assert(plural.last() == 's');
    crate::builtins::element_is_short(text);
}

/// A list of a type has that type as its element, and so have sequences and what can
/// be iterated. A dictionary has strings as keys and that type as its values.
pub proof fn containers_hold_their_elements(head: Seq<char>, word: Seq<char>)
    requires
        is_word(head),
        !head.contains(' '),
        is_word(word + seq!['s']),
        is_single(head + " of "@ + (word + seq!['s'])),
    ensures
        ({
            let ty = documented_type(head + " of "@ + (word + seq!['s']));
            let element = documented_type(word);
            &&& head == "List"@ || head == "list"@ ==> ty == TypeShape::Name(
                "list"@,
                Some(seq![element]),
            )
            &&& head == "Sequence"@ || head == "sequence"@ ==> ty == TypeShape::Name(
                "Sequence"@,
                Some(seq![element]),
            )
            &&& head == "Iterable"@ || head == "iterable"@ ==> ty == TypeShape::Name(
                "Iterable"@,
                Some(seq![element]),
            )
            &&& head == "Dict"@ || head == "dict"@ || head == "Dictionary"@ ==> ty
                == TypeShape::Name(
                "dict"@,
                Some(seq![TypeShape::Name("string"@, None), element]),
            )
        }),
{
    let text = head + " of "@ + (word + seq!['s']);
    single_is_its_part(text);
    container_has_element(head, word);
    documented_words_differ();
}

/// Alternatives make a union of their types, in order.
pub proof fn alternatives_are_unions(a: Seq<char>, b: Seq<char>)
    requires
        is_single(a),
        is_single(b),
    ensures
        documented_type(a + "; or "@ + b) == TypeShape::Union(
            seq![documented_type(a), documented_type(b)],
        ),
{
    reveal_strlit("; or ");
    let sep = "; or "@;
    let text = a + sep + b;
    assert(!text.contains('<')) by {
        if text.contains('<') {
            let k = choose|k: int| 0 <= k < text.len() && text[k] == '<';
            if k < a.len() {
                assert(a[k] == '<');
            } else if k >= a.len() + 5 {
                assert(b[k - a.len() - 5] == '<');
            } else {
                assert(sep[k - a.len()] == '<');
            }
        }
    }
    assert(!text.contains('>')) by {
        if text.contains('>') {
            let k = choose|k: int| 0 <= k < text.len() && text[k] == '>';
            if k < a.len() {
                assert(a[k] == '>');
            } else if k >= a.len() + 5 {
                assert(b[k - a.len() - 5] == '>');
            } else {
                assert(sep[k - a.len()] == '>');
            }
        }
    }
    normalized_keeps_plain_text(text, true);
    assert forall|k: int| 0 <= k < a.len() implies !#[trigger] occurs_at(text, sep, k) by {
        if occurs_at(text, sep, k) {
            let there = text.subrange(k, k + 5);
            if k + 5 <= a.len() {
                assert(a.subrange(k, k + 5) =~= there);
                assert(occurs_at(a, sep, k));
            } else {
                let j = a.len() - k;
                assert(there[j] == text[a.len() as int]);
                assert(text[a.len() as int] == sep[0]);
                assert(sep[j] == sep[0]);
            }
        }
    }
    two_pieces(a, sep, b);
    single_is_its_part(a);
    single_is_its_part(b);
    let parts = pieces(text, sep);
    if let TypeShape::Union(types) = documented_type(text) {
        assert(types =~= seq![documented_type(a), documented_type(b)]);
    }
}

/// One value of a parameter for the remaining ones has the type of the elements of a
/// list, and of the values of a dictionary; any other type stays as it is.
pub proof fn one_value_of_many(ty: TypeShape, element: TypeShape, key: TypeShape)
    ensures
        stripped_type(TypeShape::Name("list"@, Some(seq![element]))) == element,
        stripped_type(TypeShape::Name("Sequence"@, Some(seq![element]))) == element,
        stripped_type(TypeShape::Name("Iterable"@, Some(seq![element]))) == element,
        stripped_type(TypeShape::Name("dict"@, Some(seq![key, element]))) == element,
        !(ty is Name) ==> stripped_type(ty) == ty,
        ty matches TypeShape::Name(_, None) ==> stripped_type(ty) == ty,
{
}

/// The fields of `ctx` that hold files are known to be structs of files, `files` of
/// lists of them. No other field is corrected.
pub proof fn fields_of_ctx_hold_files(ty: Seq<char>, field: Seq<char>)
    ensures
        overridden_type(ty, field) is Some <==> ty == "ctx"@ && (field == "executable"@ || field
            == "file"@ || field == "files"@ || field == "outputs"@),
        overridden_type("ctx"@, "files"@) == Some(
            TypeShape::Name(
                "struct"@,
                Some(
                    seq![TypeShape::Name("list"@, Some(seq![TypeShape::Name("File"@, None)]))],
                ),
            ),
        ),
        overridden_type(ty, field) is Some && field != "files"@ ==> overridden_type(ty, field)
            == Some(TypeShape::Name("struct"@, Some(seq![TypeShape::Name("File"@, None)]))),
{
    reveal_strlit("files");
    reveal_strlit("file");
    reveal_strlit("executable");
    reveal_strlit("outputs");
    assert("files"@.len() == 5 && "file"@.len() == 4);
    assert("executable"@.len() == 10 && "outputs"@.len() == 7);
}

/// A documented parameter is mandatory, or takes the remaining arguments, exactly if the
/// documentation says so.
pub proof fn parameters_are_as_documented(p: Param, out: BuiltinFunctionParam)
    requires
        param_of(p, out),
    ensures
        out is ArgsList <==> p.is_star_arg,
        out is KwargsDict <==> p.is_star_star_arg && !p.is_star_arg,
        out matches BuiltinFunctionParam::Simple {
            name: _,
            type_ref: _,
            doc: _,
            default_value,
            positional: _,
            is_mandatory,
        } ==> is_mandatory == p.is_mandatory && (default_value is Some <==> p.default_value@.len()
            > 0),
{
}

/// Whether a value is a global of a kind of file: it has a name, and is not denied.
pub open spec fn is_global(v: Value, deny: Seq<String>, name: Seq<char>) -> bool {
    v.name@ == name && name.len() > 0 && !exists|i: int|
        0 <= i < deny.len() && (#[trigger] deny[i])@ == name
}

proof fn last_global_is_one(
    values: Seq<&Value>,
    deny: Seq<String>,
    providers: Map<Seq<char>, Arc<BuiltinProviderData>>,
    name: Seq<char>,
    n: nat,
)
    requires
        n <= values.len(),
    ensures
        last_global(values, deny, providers, name, GlobalKind::Function, n) is Some <==> exists|
            i: int,
        |
            0 <= i < n && is_global(*#[trigger] values[i], deny, name) && values[i].callable is Some
                && !providers.contains_key(name),
        last_global(values, deny, providers, name, GlobalKind::Variable, n) is Some <==> exists|
            i: int,
        |
            0 <= i < n && is_global(*#[trigger] values[i], deny, name) && (
            values[i].callable is None || providers.contains_key(name)),
    decreases n,
{
    if n > 0 {
        last_global_is_one(values, deny, providers, name, (n - 1) as nat);
    }
}

/// A name is offered as a function exactly if a value of that name can be called and is
/// no provider, and as a variable exactly if one cannot, or is a provider. What is
/// denied, or has no name, is not offered.
pub proof fn globals_are_the_values(
    values: Seq<&Value>,
    deny: Seq<String>,
    providers: Map<Seq<char>, Arc<BuiltinProviderData>>,
    g: APIGlobals,
    name: Seq<char>,
)
    requires
        globals_of(values, deny, providers, values.len(), g),
    ensures
        g.functions@.contains_key(name) <==> exists|i: int|
            0 <= i < values.len() && is_global(*#[trigger] values[i], deny, name)
                && values[i].callable is Some && !providers.contains_key(name),
        g.variables@.contains_key(name) <==> exists|i: int|
            0 <= i < values.len() && is_global(*#[trigger] values[i], deny, name) && (
            values[i].callable is None || providers.contains_key(name)),
{
    assert(global_entry(values, deny, providers, values.len(), g, name));
    last_global_is_one(values, deny, providers, name, values.len());
}

proof fn last_type_is_one(types: Seq<Type>, name: Seq<char>, n: nat)
    requires
        n <= types.len(),
    ensures
        last_type(types, name, n) is Some <==> exists|i: int|
            0 <= i < n && (#[trigger] types[i]).name@ == name,
    decreases n,
{
    if n > 0 {
        last_type_is_one(types, name, (n - 1) as nat);
    }
}

/// A type is a provider exactly if it is documented and known to be one.
pub proof fn providers_are_known_types(
    defs: BuiltinDefs,
    env: BuiltinEnv,
    providers: Map<Seq<char>, Arc<BuiltinProviderData>>,
    name: Seq<char>,
)
    requires
        providers_of(defs, env, providers),
    ensures
        providers.contains_key(name) <==> lists(env.known_provider_types@, name) && exists|i: int|
            0 <= i < defs.builtins.ty@.len() && (#[trigger] defs.builtins.ty@[i]).name@ == name,
        providers.contains_key(name) ==> providers[name].name@ == name,
{
    assert(provider_entry(defs, env, providers, name, defs.builtins.ty@.len()));
    last_type_is_one(defs.builtins.ty@, name, defs.builtins.ty@.len());
    last_type_has_name(defs.builtins.ty@, name, defs.builtins.ty@.len());
}

proof fn last_type_has_name(types: Seq<Type>, name: Seq<char>, n: nat)
    requires
        n <= types.len(),
    ensures
        last_type(types, name, n) matches Some(i) ==> 0 <= i < n && types[i].name@ == name,
    decreases n,
{
    if n > 0 {
        last_type_has_name(types, name, (n - 1) as nat);
    }
}

proof fn method_members_hold(
    fields: Seq<&Value>,
    native: spec_fn(Seq<char>) -> bool,
    providers: Map<Seq<char>, Arc<BuiltinProviderData>>,
    n: nat,
    i: int,
)
    requires
        n <= fields.len(),
    ensures
        method_members(fields, native, providers, n).contains(i) <==> 0 <= i < n && is_method(
            *fields[i],
            native,
            providers,
        ),
        field_members(fields, native, providers, n).contains(i) <==> 0 <= i < n && is_field(
            *fields[i],
            native,
            providers,
        ),
    decreases n,
{
    if n > 0 {
        method_members_hold(fields, native, providers, (n - 1) as nat, i);
        let a = method_members(fields, native, providers, (n - 1) as nat);
        let b = method_members(fields, native, providers, n);
        let c = field_members(fields, native, providers, (n - 1) as nat);
        let d = field_members(fields, native, providers, n);
        if is_method(*fields[n - 1], native, providers) {
            pushed_holds(a, n - 1, i);
        }
        if is_field(*fields[n - 1], native, providers) {
            pushed_holds(c, n - 1, i);
        }
    }
}

proof fn pushed_holds(a: Seq<int>, x: int, i: int)
    ensures
        a.push(x).contains(i) <==> a.contains(i) || i == x,
{
    let b = a.push(x);
    assert(b[a.len() as int] == x);
    if a.contains(i) {
        let k = choose|k: int| 0 <= k < a.len() && a[k] == i;
        assert(b[k] == i);
    }
    if b.contains(i) && i != x {
        let k = choose|k: int| 0 <= k < b.len() && b[k] == i;
        assert(a[k] == i);
    }
}

/// A documented member of a type that can be called is a method of the type, unless it
/// is a provider. A member that cannot be called is a field.
pub proof fn members_are_methods_or_fields(
    defs: BuiltinDefs,
    env: BuiltinEnv,
    providers: Map<Seq<char>, Arc<BuiltinProviderData>>,
    ty: Type,
    d: BuiltinTypeData,
    i: int,
)
    requires
        type_of(defs, env, providers, ty, false, d),
        ty.name@ != "native"@,
        0 <= i < ty.field@.len(),
    ensures
        ty.field@[i].callable is Some && !providers.contains_key(ty.field@[i].name@) ==> exists|
            k: int,
        |
            0 <= k < d.methods@.len() && (#[trigger] d.methods@[k]).name@ == ty.field@[i].name@,
        ty.field@[i].callable is None ==> exists|k: int|
            0 <= k < d.fields@.len() && (#[trigger] d.fields@[k]).name@ == ty.field@[i].name@,
{
    let name = ty.name@;
    let native = |n: Seq<char>| has_native(defs, env, name, n);
    let fields = members(ty, env, false);
    let methods = method_members(fields, native, providers, fields.len());
    let plain = field_members(fields, native, providers, fields.len());
    assert(fields[i] == ty.field@[i]);
    assert(native_methods_of(defs, env, name).len() == 0);
    assert(d.methods@.skip(0) =~= d.methods@);
    method_members_hold(fields, native, providers, fields.len(), i);
    if ty.field@[i].callable is Some && !providers.contains_key(ty.field@[i].name@) {
        assert(methods.contains(i));
        let k = choose|k: int| 0 <= k < methods.len() && methods[k] == i;
        assert(function_of(
            fields[methods[k]].name@,
            fields[methods[k]].callable->0,
            fields[methods[k]].doc@,
            Some(name),
            *d.methods@.skip(0)[k],
        ));
        assert(d.methods@[k].name@ == ty.field@[i].name@);
    }
    if ty.field@[i].callable is None {
        assert(plain.contains(i));
        let k = choose|k: int| 0 <= k < plain.len() && plain[k] == i;
        assert(field_of(name, *fields[plain[k]], providers, d.fields@[k]));
    }
}

/// The attributes that rules of a kind have are those of that kind.
pub proof fn rules_have_the_attributes_of_their_kind(common: CommonAttributes)
    ensures
        common.of(RuleKind::Build) == common.build@,
        common.of(RuleKind::Repository) == common.repository@,
{
}

/// An attribute that every rule has is mandatory, and of the kind, that its documentation
/// says, under the name that it has there.
pub proof fn common_attributes_are_as_documented(
    docs: Seq<CommonAttribute>,
    r: Seq<(Name, Attribute)>,
    i: int,
)
    requires
        are_common(docs, r),
        0 <= i < docs.len(),
    ensures
        r.len() == docs.len(),
        r[i].0@ == docs[i].name@,
        r[i].1.kind == docs[i].kind,
        r[i].1.mandatory == docs[i].is_mandatory,
{
    assert(crate::environment::is_common(docs[i], r[i]));
}

/// A `.bzl` file sees the values of `.bzl` and `BUILD` files, those that are documented,
/// and the native rules.
pub proof fn bzl_files_see_rules_and_documented_values(
    defs: BuiltinDefs,
    env: BuiltinEnv,
    v: Value,
)
    ensures
        env.bzl@.contains(v) || env.build@.contains(v) || defs.builtins.global@.contains(v)
            || defs.rules.global@.contains(v) ==> exists|k: int|
            0 <= k < bzl_values(defs, env).len() && *#[trigger] bzl_values(defs, env)[k] == v,
{
    let all = bzl_values(defs, env);
    let a = env.bzl@.len() as int;
    let b = env.build@.len() as int;
    let c = defs.builtins.global@.len() as int;
    if env.bzl@.contains(v) {
        let k = choose|k: int| 0 <= k < env.bzl@.len() && env.bzl@[k] == v;
        assert(*all[k] == v);
    } else if env.build@.contains(v) {
        let k = choose|k: int| 0 <= k < env.build@.len() && env.build@[k] == v;
        assert(*all[a + k] == v);
    } else if defs.builtins.global@.contains(v) {
        let k = choose|k: int|
            0 <= k < defs.builtins.global@.len() && defs.builtins.global@[k] == v;
        assert(*all[a + b + k] == v);
    } else if defs.rules.global@.contains(v) {
        let k = choose|k: int| 0 <= k < defs.rules.global@.len() && defs.rules.global@[k] == v;
        assert(*all[a + b + c + k] == v);
    }
}

/// A documented type is known by its name, unless it is left out or a provider; the
/// instances of a provider are known by the name of the provider.
pub proof fn documented_types_are_known(
    defs: BuiltinDefs,
    env: BuiltinEnv,
    providers: Map<Seq<char>, Arc<BuiltinProviderData>>,
    types: Map<Seq<char>, Ty>,
    name: Seq<char>,
)
    requires
        type_entry(defs, env, providers, types, name, defs.builtins.ty@.len()),
        name.len() > 0,
        !lists(env.types_deny_list@, name),
        !lists(env.known_provider_types@, name),
    ensures
        (exists|i: int|
            0 <= i < defs.builtins.ty@.len() && (#[trigger] defs.builtins.ty@[i]).name@ == name)
            ==> types.contains_key(name) && (*types[name] matches TyKind::BuiltinType(d) && d.name@
            == name),
        !(exists|i: int|
            0 <= i < defs.builtins.ty@.len() && (#[trigger] defs.builtins.ty@[i]).name@ == name)
            && !providers.contains_key(name) ==> !types.contains_key(name),
{
    last_type_is_one(defs.builtins.ty@, name, defs.builtins.ty@.len());
    last_type_has_name(defs.builtins.ty@, name, defs.builtins.ty@.len());
}

} // verus!
