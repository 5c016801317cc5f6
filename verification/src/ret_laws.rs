//! What holds of the values that calls of builtin functions make.

use std::sync::Arc;

use vstd::prelude::*;

use crate::common::File;
use crate::def::{logged, Argument, AssignmentSource, Expr, ExprId, Module, Name, Stmt};
use crate::ret_types::{
    attribute_kind, attrs_match, last_keyword, provider_fields_match, tag_attrs_match,
    tag_classes_match, unique_ret_type, CallArguments, Wanted,
};
use crate::typeck::{
    Attribute, AttributeData, AttributeKind, CustomProvider, Provider, ProviderField, RuleKind,
    TagClassData, Tuple, Ty, TyKind,
};

verus! {

/// The names of the functions of `attr` differ.
proof fn names_differ()
    ensures
        "bool"@.len() == 4,
        "int"@.len() == 3,
        "int_list"@.len() == 8,
        "label"@.len() == 5,
        "label_keyed_string_dict"@.len() == 23,
        "label_list"@.len() == 10,
        "output"@.len() == 6,
        "output_list"@.len() == 11,
        "string"@.len() == 6,
        "string_keyed_label_dict"@.len() == 23,
        "string_dict"@.len() == 11,
        "string_list"@.len() == 11,
        "string_list_dict"@.len() == 16,
        "output"@ != "string"@,
        "output_list"@ != "string_list"@,
        "output_list"@ != "string_dict"@,
        "string_list"@ != "string_dict"@,
        "label_keyed_string_dict"@ != "string_keyed_label_dict"@,
{
    reveal_strlit("bool");
    reveal_strlit("int");
    reveal_strlit("int_list");
    reveal_strlit("label");
    reveal_strlit("label_keyed_string_dict");
    reveal_strlit("label_list");
    reveal_strlit("output");
    reveal_strlit("output_list");
    reveal_strlit("string");
    reveal_strlit("string_keyed_label_dict");
    reveal_strlit("string_dict");
    reveal_strlit("string_list");
    reveal_strlit("string_list_dict");
    assert("output"@[0] != "string"@[0]);
    assert("output_list"@[0] != "string_list"@[0]);
    assert("output_list"@[0] != "string_dict"@[0]);
    assert("string_list"@[7] != "string_dict"@[7]);
    assert("label_keyed_string_dict"@[0] != "string_keyed_label_dict"@[0]);
}

/// A kind of attribute is made by the function of `attr` that has its name, and by
/// no other.
pub proof fn attributes_are_named_by_their_kind(name: Seq<char>)
    ensures
        attribute_kind(name) == Some(AttributeKind::Bool) <==> name == "bool"@,
        attribute_kind(name) == Some(AttributeKind::Int) <==> name == "int"@,
        attribute_kind(name) == Some(AttributeKind::IntList) <==> name == "int_list"@,
        attribute_kind(name) == Some(AttributeKind::Label) <==> name == "label"@,
        attribute_kind(name) == Some(AttributeKind::LabelKeyedStringDict) <==> name
            == "label_keyed_string_dict"@,
        attribute_kind(name) == Some(AttributeKind::LabelList) <==> name == "label_list"@,
        attribute_kind(name) == Some(AttributeKind::Output) <==> name == "output"@,
        attribute_kind(name) == Some(AttributeKind::OutputList) <==> name == "output_list"@,
        attribute_kind(name) == Some(AttributeKind::Str) <==> name == "string"@,
        attribute_kind(name) == Some(AttributeKind::StringKeyedLabelDict) <==> name
            == "string_keyed_label_dict"@,
        attribute_kind(name) == Some(AttributeKind::StringDict) <==> name == "string_dict"@,
        attribute_kind(name) == Some(AttributeKind::StringList) <==> name == "string_list"@,
        attribute_kind(name) == Some(AttributeKind::StringListDict) <==> name
            == "string_list_dict"@,
{
    names_differ();
}

/// The kind of the lists of what a kind holds.
pub open spec fn list_of(kind: AttributeKind) -> Option<AttributeKind> {
    match kind {
        AttributeKind::Int => Some(AttributeKind::IntList),
        AttributeKind::Label => Some(AttributeKind::LabelList),
        AttributeKind::Output => Some(AttributeKind::OutputList),
        AttributeKind::Str => Some(AttributeKind::StringList),
        _ => None,
    }
}

/// The function with `_list` behind the name of another makes lists of what the
/// other makes, where there are such lists.
pub proof fn list_attributes_hold_what_single_ones_are(name: Seq<char>)
    ensures
        attribute_kind(name) matches Some(kind) ==> attribute_kind(name + "_list"@) == list_of(
            kind,
        ),
{
    names_differ();
    reveal_strlit("_list");
    reveal_strlit("bool");
    reveal_strlit("int");
    reveal_strlit("int_list");
    reveal_strlit("label");
    reveal_strlit("label_keyed_string_dict");
    reveal_strlit("label_list");
    reveal_strlit("output");
    reveal_strlit("output_list");
    reveal_strlit("string");
    reveal_strlit("string_keyed_label_dict");
    reveal_strlit("string_dict");
    reveal_strlit("string_list");
    reveal_strlit("string_list_dict");
    let more = name + "_list"@;
    assert(more.len() == name.len() + 5);
    if name == "int"@ {
        assert(more =~= "int_list"@);
    } else if name == "label"@ {
        assert(more =~= "label_list"@);
    } else if name == "output"@ {
        assert(more =~= "output_list"@);
    } else if name == "string"@ {
        assert(more =~= "string_list"@);
    } else if attribute_kind(name) is Some {
        assert(more[more.len() - 1] == 't');
        assert(more[more.len() - 5] == '_');
        if name == "string_list"@ || name == "string_dict"@ || name == "output_list"@ {
            assert(more.len() == 16);
            assert(more[13] == 'i');
            assert("string_list_dict"@[15] == 't');
            assert(more[14] == 's');
            assert("string_list_dict"@[14] == 'c');
        }
    }
}

/// The names of the functions that make something differ.
proof fn makers_differ()
    ensures
        "struct"@.len() == 6,
        "provider"@.len() == 8,
        "rule"@.len() == 4,
        "repository_rule"@.len() == 15,
        "tag_class"@.len() == 9,
        "module_extension"@.len() == 16,
        "macro"@.len() == 5,
        "use_extension"@.len() == 13,
        "use_repo_rule"@.len() == 13,
        "use_extension"@ != "use_repo_rule"@,
{
    reveal_strlit("struct");
    reveal_strlit("provider");
    reveal_strlit("rule");
    reveal_strlit("repository_rule");
    reveal_strlit("tag_class");
    reveal_strlit("module_extension");
    reveal_strlit("macro");
    reveal_strlit("use_extension");
    reveal_strlit("use_repo_rule");
    assert("use_extension"@[4] != "use_repo_rule"@[4]);
}

/// What a call makes tells which function was called: each makes a type of its own,
/// and no other function makes one. Only a rule of a repository is also handed on.
pub proof fn each_function_makes_its_own(
    parent: Option<Seq<char>>,
    name: Seq<char>,
    m: Module,
    file: File,
    call_expr: ExprId,
    args: CallArguments,
    loaded: Option<Ty>,
    r: Option<Ty>,
)
    requires
        unique_ret_type(parent, name, m, file, call_expr, args, loaded, r),
    ensures
        (r is Some && *r->0 is Struct) <==> (parent is None && name == "struct"@),
        (r is Some && *r->0 is Provider) <==> (parent is None && name == "provider"@
            && args.keyword("init"@, Wanted::Anything) is None),
        (r is Some && *r->0 is Tuple) <==> (parent is None && name == "provider"@
            && args.keyword("init"@, Wanted::Anything) is Some),
        (r is Some && (*r->0 matches TyKind::Rule(rule) && rule.kind == RuleKind::Build)) <==> (
        parent is None && name == "rule"@),
        (r is Some && (*r->0 matches TyKind::Rule(rule) && rule.kind == RuleKind::Repository))
            <==> (parent is None && (name == "repository_rule"@ || (name == "use_repo_rule"@
            && r is Some && r == loaded))),
        (r is Some && *r->0 is TagClass) <==> (parent is None && name == "tag_class"@),
        (r is Some && *r->0 is ModuleExtension) <==> (parent is None && name
            == "module_extension"@),
        (r is Some && *r->0 is Macro) <==> (parent is None && name == "macro"@),
        (r is Some && *r->0 is ModuleExtensionProxy) ==> (parent is None && name
            == "use_extension"@ && loaded is Some && *loaded->0 is ModuleExtension),
        (r is Some && *r->0 is Attribute) ==> parent == Some("attr"@),
{
    makers_differ();
}

/// The attribute that a type is, if it is one.
pub open spec fn made_attribute(r: Option<Ty>) -> Option<Arc<Attribute>> {
    match r {
        Some(ty) => match *ty {
            TyKind::Attribute(a) => a,
            _ => None,
        },
        None => None,
    }
}

/// Whether the last argument of a name that is known to be true or false says so.
pub open spec fn is_told(args: CallArguments, name: Seq<char>, value: bool) -> bool {
    exists|i: int| #[trigger]
        tells(args, name, value, i) && forall|j: int, other: bool|
            i < j ==> !#[trigger] tells(args, name, other, j)
}

/// Whether an argument has a name and is known to be true or false.
pub open spec fn tells(args: CallArguments, name: Seq<char>, value: bool, i: int) -> bool {
    &&& 0 <= i < args.args@.len()
    &&& args.args@[i] matches Argument::Keyword { name: written, expr: _ } && written@ == name
    &&& *args.types@[i] == TyKind::Bool(Some(value))
}

/// Whether an argument has a name and is what is wanted.
pub open spec fn is_wanted(
    map: crate::def::ModuleSourceMap,
    args: Seq<Argument>,
    types: Seq<Ty>,
    name: Seq<char>,
    wanted: Wanted,
    i: int,
) -> bool {
    args[i] matches Argument::Keyword { name: written, expr } && written@ == name
        && crate::ret_types::fits(map, wanted, expr, *types[i])
}

/// The last argument that fits has the name and fits, and none behind it does.
pub proof fn the_last_keyword_counts(
    map: crate::def::ModuleSourceMap,
    args: Seq<Argument>,
    types: Seq<Ty>,
    name: Seq<char>,
    wanted: Wanted,
    n: nat,
)
    requires
        n <= args.len(),
    ensures
        match last_keyword(map, args, types, name, wanted, n) {
            Some(i) => 0 <= i < n && is_wanted(map, args, types, name, wanted, i) && forall|j: int|
                i < j < n ==> !#[trigger] is_wanted(map, args, types, name, wanted, j),
            None => forall|j: int|
                0 <= j < n ==> !#[trigger] is_wanted(map, args, types, name, wanted, j),
        },
    decreases n,
{
    if n > 0 {
        the_last_keyword_counts(map, args, types, name, wanted, (n - 1) as nat);
    }
}

/// A function of `attr` makes an attribute of the kind that it is named for. The
/// attribute is mandatory exactly if the last known `mandatory` is true.
pub proof fn attributes_are_made_by_name(
    name: Seq<char>,
    m: Module,
    file: File,
    call_expr: ExprId,
    args: CallArguments,
    loaded: Option<Ty>,
    r: Option<Ty>,
)
    requires
        args.wf(),
        unique_ret_type(Some("attr"@), name, m, file, call_expr, args, loaded, r),
    ensures
        r is Some <==> made_attribute(r) is Some,
        made_attribute(r) matches Some(a) ==> a.mandatory == is_told(args, "mandatory"@, true),
        (made_attribute(r) matches Some(a) && a.kind == AttributeKind::Bool) <==> name == "bool"@,
        (made_attribute(r) matches Some(a) && a.kind == AttributeKind::Int) <==> name == "int"@,
        (made_attribute(r) matches Some(a) && a.kind == AttributeKind::IntList) <==> name
            == "int_list"@,
        (made_attribute(r) matches Some(a) && a.kind == AttributeKind::Label) <==> name
            == "label"@,
        (made_attribute(r) matches Some(a) && a.kind == AttributeKind::LabelKeyedStringDict)
            <==> name == "label_keyed_string_dict"@,
        (made_attribute(r) matches Some(a) && a.kind == AttributeKind::LabelList) <==> name
            == "label_list"@,
        (made_attribute(r) matches Some(a) && a.kind == AttributeKind::Output) <==> name
            == "output"@,
        (made_attribute(r) matches Some(a) && a.kind == AttributeKind::OutputList) <==> name
            == "output_list"@,
        (made_attribute(r) matches Some(a) && a.kind == AttributeKind::Str) <==> name
            == "string"@,
        (made_attribute(r) matches Some(a) && a.kind == AttributeKind::StringKeyedLabelDict)
            <==> name == "string_keyed_label_dict"@,
        (made_attribute(r) matches Some(a) && a.kind == AttributeKind::StringDict) <==> name
            == "string_dict"@,
        (made_attribute(r) matches Some(a) && a.kind == AttributeKind::StringList) <==> name
            == "string_list"@,
        (made_attribute(r) matches Some(a) && a.kind == AttributeKind::StringListDict) <==> name
            == "string_list_dict"@,
{
    attributes_are_named_by_their_kind(name);
    names_differ();
    if let Some(a) = made_attribute(r) {
        let n = args.args@.len();
        let found = args.keyword("mandatory"@, Wanted::KnownBool);
        the_last_keyword_counts(
            *args.source_map,
            args.args@,
            args.types@,
            "mandatory"@,
            Wanted::KnownBool,
            n,
        );
        if let Some(i) = found {
            let value = match *args.types@[i] {
                TyKind::Bool(Some(value)) => value,
                _ => false,
            };
            assert(tells(args, "mandatory"@, value, i));
            assert forall|j: int, other: bool| i < j implies !#[trigger] tells(
                args,
                "mandatory"@,
                other,
                j,
            ) by {
                if tells(args, "mandatory"@, other, j) {
                    assert(is_wanted(*args.source_map, args.args@, args.types@, "mandatory"@, Wanted::KnownBool, j));
                }
            }
            if is_told(args, "mandatory"@, true) {
                let k = choose|k: int| #[trigger]
                    tells(args, "mandatory"@, true, k) && forall|j: int, other: bool|
                        k < j ==> !#[trigger] tells(args, "mandatory"@, other, j);
                if k < i {
                    assert(!tells(args, "mandatory"@, value, i));
                }
                assert(k == i);
            }
        } else if is_told(args, "mandatory"@, true) {
            let k = choose|k: int| #[trigger]
                tells(args, "mandatory"@, true, k) && forall|j: int, other: bool|
                    k < j ==> !#[trigger] tells(args, "mandatory"@, other, j);
            assert(is_wanted(*args.source_map, args.args@, args.types@, "mandatory"@, Wanted::KnownBool, k));
        }
    }
}

/// The attributes of a rule or a macro are those that its dictionary names: each
/// attribute comes from a key, and each key with an attribute gives one.
pub proof fn attributes_come_from_keys(
    keys: Seq<(String, Ty)>,
    allow_none: bool,
    attrs: Seq<(Name, Option<Arc<Attribute>>)>,
)
    requires
        attrs_match(keys, allow_none, attrs),
    ensures
        forall|i: int|
            0 <= i < keys.len() && made_attribute(Some((#[trigger] keys[i]).1)) is Some ==> exists|
                j: int,
            | #[trigger] gives(attrs, j, keys[i].0@, made_attribute(Some(keys[i].1))),
        forall|i: int|
            0 <= i < keys.len() && allow_none && *(#[trigger] keys[i]).1 is NoneType ==> exists|
                j: int,
            | #[trigger] gives(attrs, j, keys[i].0@, None),
        forall|j: int|
            0 <= j < attrs.len() ==> exists|i: int|
                0 <= i < keys.len() && (#[trigger] keys[i]).0@ == (#[trigger] attrs[j]).0@
                    && match attrs[j].1 {
                    Some(a) => *keys[i].1 == TyKind::Attribute(Some(a)),
                    None => allow_none && *keys[i].1 is NoneType,
                },
    decreases keys.len(),
{
    if keys.len() > 0 {
        let rest = keys.drop_last();
        let given = match *keys.last().1 {
            TyKind::Attribute(Some(_)) => true,
            TyKind::NoneType => allow_none,
            _ => false,
        };
        let fewer = if given {
            attrs.drop_last()
        } else {
            attrs
        };
        attributes_come_from_keys(rest, allow_none, fewer);
        assert forall|i: int|
            0 <= i < keys.len() && made_attribute(
                Some((#[trigger] keys[i]).1),
            ) is Some implies exists|j: int| #[trigger]
            gives(attrs, j, keys[i].0@, made_attribute(Some(keys[i].1))) by {
            let made = made_attribute(Some(keys[i].1));
            if i < rest.len() {
                assert(rest[i] == keys[i]);
                let j = choose|j: int| #[trigger] gives(fewer, j, rest[i].0@, made);
                assert(gives(attrs, j, keys[i].0@, made));
            } else {
                assert(gives(attrs, attrs.len() - 1, keys[i].0@, made));
            }
        }
        assert forall|i: int|
            0 <= i < keys.len() && allow_none && *(#[trigger] keys[i]).1 is NoneType implies exists|
            j: int,
        | #[trigger] gives(attrs, j, keys[i].0@, None) by {
            if i < rest.len() {
                assert(rest[i] == keys[i]);
                let j = choose|j: int| #[trigger] gives(fewer, j, rest[i].0@, None);
                assert(gives(attrs, j, keys[i].0@, None));
            } else {
                assert(gives(attrs, attrs.len() - 1, keys[i].0@, None));
            }
        }
        assert forall|j: int| 0 <= j < attrs.len() implies exists|i: int|
            0 <= i < keys.len() && (#[trigger] keys[i]).0@ == (#[trigger] attrs[j]).0@
                && match attrs[j].1 {
                Some(a) => *keys[i].1 == TyKind::Attribute(Some(a)),
                None => allow_none && *keys[i].1 is NoneType,
            } by {
            if j < fewer.len() {
                assert(fewer[j] == attrs[j]);
                let i = choose|i: int|
                    0 <= i < rest.len() && (#[trigger] rest[i]).0@ == fewer[j].0@
                        && match fewer[j].1 {
                        Some(a) => *rest[i].1 == TyKind::Attribute(Some(a)),
                        None => allow_none && *rest[i].1 is NoneType,
                    };
                assert(keys[i] == rest[i]);
            } else {
                assert(keys[keys.len() - 1].0@ == attrs[j].0@);
            }
        }
    }
}

/// Whether an attribute has a name and a value.
pub open spec fn gives(
    attrs: Seq<(Name, Option<Arc<Attribute>>)>,
    j: int,
    name: Seq<char>,
    value: Option<Arc<Attribute>>,
) -> bool {
    0 <= j < attrs.len() && attrs[j].0@ == name && attrs[j].1 == value
}

/// Whether the result of a call is assigned to an expression.
pub open spec fn is_assigned(m: Module, call_expr: ExprId, lhs: ExprId) -> bool {
    logged(m.assignment_sources@, call_expr) matches Some(AssignmentSource::Statement(stmt))
        && stmt.0 < m.stmts@.len() && (m.stmts@[stmt.0 as int] matches Stmt::Assign {
        lhs: target,
        rhs: _,
        op: _,
        type_ref: _,
    } && target == lhs)
}

/// Whether an expression is a name with a text.
pub open spec fn is_name(m: Module, expr: ExprId, text: Seq<char>) -> bool {
    m.exprs@[expr.0 as int] matches Expr::Name { name } && name@ == text && text.len() > 0 && text
        != crate::def::missing_text()
}

/// The provider that a type is, if it is one that a call makes.
pub open spec fn made_provider(ty: Ty) -> Option<Arc<CustomProvider>> {
    match *ty {
        TyKind::Provider(Provider::Custom(p)) => Some(p),
        TyKind::ProviderRawConstructor(_, Provider::Custom(p)) => Some(p),
        _ => None,
    }
}

/// A provider has the name of the variable that it is assigned to.
pub proof fn a_provider_is_named_by_its_variable(
    m: Module,
    file: File,
    call_expr: ExprId,
    args: CallArguments,
    loaded: Option<Ty>,
    r: Option<Ty>,
    lhs: ExprId,
    text: Seq<char>,
)
    requires
        unique_ret_type(None, "provider"@, m, file, call_expr, args, loaded, r),
        args.keyword("init"@, Wanted::Anything) is None,
        is_assigned(m, call_expr, lhs),
        is_name(m, lhs, text),
    ensures
        r is Some && (made_provider(r->0) matches Some(p) && (p.name matches Some(name) && name@
            == text)),
{
    makers_differ();
}

/// A provider with `init` is assigned to two variables: the provider has the name of the
/// first, and what makes it without `init` the name of the second.
pub proof fn a_constructor_is_named_by_its_variable(
    m: Module,
    file: File,
    call_expr: ExprId,
    args: CallArguments,
    loaded: Option<Ty>,
    r: Option<Ty>,
    lhs: ExprId,
    first: Seq<char>,
    second: Seq<char>,
)
    requires
        unique_ret_type(None, "provider"@, m, file, call_expr, args, loaded, r),
        args.keyword("init"@, Wanted::Anything) is Some,
        is_assigned(m, call_expr, lhs),
        m.exprs@[lhs.0 as int] matches Expr::Tuple { exprs } && exprs@.len() == 2 && is_name(
            m,
            exprs@[0],
            first,
        ) && is_name(m, exprs@[1], second),
    ensures
        r is Some && (*r->0 matches TyKind::Tuple(Tuple::Simple(parts)) && parts@.len() == 2 && (
        made_provider(parts@[0]) matches Some(p) && (p.name matches Some(name) && name@ == first)
            && made_provider(parts@[1]) == Some(p)) && (
        *parts@[1] matches TyKind::ProviderRawConstructor(ctor, _) && ctor@ == second)),
{
    makers_differ();
}

/// The fields of a provider are the keys of its dictionary that are not empty, in order.
pub proof fn fields_come_from_keys(keys: Seq<(String, Ty)>, fields: Seq<ProviderField>, text: Seq<char>)
    requires
        provider_fields_match(keys, fields),
    ensures
        (exists|j: int| 0 <= j < fields.len() && (#[trigger] fields[j]).name@ == text) <==> text.len()
            > 0 && exists|i: int| 0 <= i < keys.len() && (#[trigger] keys[i]).0@ == text,
    decreases keys.len(),
{
    if keys.len() > 0 {
        let rest = keys.drop_last();
        let given = keys.last().0@.len() > 0;
        let fewer = if given {
            fields.drop_last()
        } else {
            fields
        };
        fields_come_from_keys(rest, fewer, text);
        if exists|j: int| 0 <= j < fewer.len() && (#[trigger] fewer[j]).name@ == text {
            let j = choose|j: int| 0 <= j < fewer.len() && (#[trigger] fewer[j]).name@ == text;
            assert(fields[j].name@ == text);
        }
        if exists|i: int| 0 <= i < rest.len() && (#[trigger] rest[i]).0@ == text {
            let i = choose|i: int| 0 <= i < rest.len() && (#[trigger] rest[i]).0@ == text;
            assert(keys[i].0@ == text);
        }
        if exists|j: int| 0 <= j < fields.len() && (#[trigger] fields[j]).name@ == text {
            let j = choose|j: int| 0 <= j < fields.len() && (#[trigger] fields[j]).name@ == text;
            if j < fewer.len() {
                assert(fewer[j].name@ == text);
            } else {
                assert(keys[keys.len() - 1].0@ == text);
            }
        }
        if text.len() > 0 && exists|i: int| 0 <= i < keys.len() && (#[trigger] keys[i]).0@ == text {
            let i = choose|i: int| 0 <= i < keys.len() && (#[trigger] keys[i]).0@ == text;
            if i < rest.len() {
                assert(rest[i].0@ == text);
            } else {
                assert(fields[fields.len() - 1].name@ == text);
            }
        }
    }
}

/// The attributes of a tag class are those of its dictionary: each comes from a key, and
/// each key with an attribute gives one.
pub proof fn tag_attributes_come_from_keys(
    keys: Seq<(String, Ty)>,
    attrs: Seq<AttributeData>,
    text: Seq<char>,
    attr: Arc<Attribute>,
)
    requires
        tag_attrs_match(keys, attrs),
    ensures
        (exists|j: int|
            0 <= j < attrs.len() && (#[trigger] attrs[j]).name@ == text && attrs[j].attr == attr)
            <==> exists|i: int|
            0 <= i < keys.len() && (#[trigger] keys[i]).0@ == text && made_attribute(
                Some(keys[i].1),
            ) == Some(attr),
    decreases keys.len(),
{
    if keys.len() > 0 {
        let rest = keys.drop_last();
        let given = made_attribute(Some(keys.last().1)) is Some;
        let fewer = if given {
            attrs.drop_last()
        } else {
            attrs
        };
        tag_attributes_come_from_keys(rest, fewer, text, attr);
        if exists|j: int|
            0 <= j < fewer.len() && (#[trigger] fewer[j]).name@ == text && fewer[j].attr == attr {
            let j = choose|j: int|
                0 <= j < fewer.len() && (#[trigger] fewer[j]).name@ == text && fewer[j].attr
                    == attr;
            assert(attrs[j] == fewer[j]);
        }
        if exists|i: int|
            0 <= i < rest.len() && (#[trigger] rest[i]).0@ == text && made_attribute(
                Some(rest[i].1),
            ) == Some(attr) {
            let i = choose|i: int|
                0 <= i < rest.len() && (#[trigger] rest[i]).0@ == text && made_attribute(
                    Some(rest[i].1),
                ) == Some(attr);
            assert(keys[i] == rest[i]);
        }
        if exists|j: int|
            0 <= j < attrs.len() && (#[trigger] attrs[j]).name@ == text && attrs[j].attr == attr {
            let j = choose|j: int|
                0 <= j < attrs.len() && (#[trigger] attrs[j]).name@ == text && attrs[j].attr
                    == attr;
            if j < fewer.len() {
                assert(fewer[j] == attrs[j]);
            } else {
                assert(keys[keys.len() - 1].0@ == text);
            }
        }
        if exists|i: int|
            0 <= i < keys.len() && (#[trigger] keys[i]).0@ == text && made_attribute(
                Some(keys[i].1),
            ) == Some(attr) {
            let i = choose|i: int|
                0 <= i < keys.len() && (#[trigger] keys[i]).0@ == text && made_attribute(
                    Some(keys[i].1),
                ) == Some(attr);
            if i < rest.len() {
                assert(rest[i] == keys[i]);
            } else {
                assert(attrs[attrs.len() - 1].name@ == text);
            }
        }
    }
}

/// Whether a type is a tag class.
pub open spec fn is_class(ty: Ty) -> bool {
    *ty is TagClass
}

/// The tag classes of an extension are those of its dictionary, each under its key.
pub proof fn tag_classes_come_from_keys(
    keys: Seq<(String, Ty)>,
    classes: Seq<TagClassData>,
    j: int,
)
    requires
        tag_classes_match(keys, classes),
        0 <= j < classes.len(),
    ensures
        exists|i: int|
            0 <= i < keys.len() && (#[trigger] keys[i]).0@ == classes[j].name@ && *keys[i].1
                == TyKind::TagClass(classes[j].tag_class),
    decreases keys.len(),
{
    let rest = keys.drop_last();
    let last = keys[keys.len() - 1];
    if is_class(last.1) && j == classes.len() - 1 {
        assert(keys[keys.len() - 1].0@ == classes[j].name@);
    } else {
        let fewer = if is_class(last.1) {
            classes.drop_last()
        } else {
            classes
        };
        tag_classes_come_from_keys(rest, fewer, j);
        let i = choose|i: int|
            0 <= i < rest.len() && (#[trigger] rest[i]).0@ == fewer[j].name@ && *rest[i].1
                == TyKind::TagClass(fewer[j].tag_class);
        assert(keys[i] == rest[i]);
    }
}

/// A struct has the named arguments of its call as fields, with their types.
pub proof fn a_struct_has_its_named_arguments(args: CallArguments, n: nat, name: Name, ty: Ty)
    requires
        n <= args.args@.len(),
    ensures
        args.fields(n).contains((name, ty)) <==> exists|i: int|
            0 <= i < n && (#[trigger] args.args@[i] matches Argument::Keyword {
                name: written,
                expr: _,
            } && written == name) && args.types@[i] == ty,
    decreases n,
{
    if n > 0 {
        a_struct_has_its_named_arguments(args, (n - 1) as nat, name, ty);
        let now = args.fields(n);
        let before = args.fields((n - 1) as nat);
        if let Argument::Keyword { name: written, expr: _ } = args.args@[n - 1] {
            assert(now[now.len() - 1] == (written, args.types@[n - 1]));
            if before.contains((name, ty)) {
                let k = choose|k: int| 0 <= k < before.len() && before[k] == (name, ty);
                assert(now[k] == (name, ty));
            }
            if now.contains((name, ty)) {
                let k = choose|k: int| 0 <= k < now.len() && now[k] == (name, ty);
                if k < before.len() {
                    assert(before[k] == (name, ty));
                }
            }
        }
    }
}

/// The text that a call passes under a name is that of the last argument with that name
/// that is known to be a string.
pub proof fn the_last_string_counts(args: CallArguments, name: Seq<char>, text: String, i: int)
    requires
        args.wf(),
        0 <= i < args.args@.len(),
        args.args@[i] matches Argument::Keyword { name: written, expr: _ } && written@ == name,
        *args.types@[i] == TyKind::Str(Some(text)),
        forall|j: int|
            i < j < args.args@.len() ==> !((#[trigger] args.args@[j] matches Argument::Keyword {
                name: written,
                expr: _,
            } && written@ == name) && (*args.types@[j] matches TyKind::Str(Some(_)))),
    ensures
        args.string(name) == Some(text@),
{
    let n = args.args@.len();
    let map = *args.source_map;
    the_last_keyword_counts(map, args.args@, args.types@, name, Wanted::KnownString, n);
    assert(is_wanted(map, args.args@, args.types@, name, Wanted::KnownString, i));
    if let Some(k) = args.keyword(name, Wanted::KnownString) {
        if k > i {
            assert(args.args@[k] is Keyword);
        } else if k < i {
            assert(!is_wanted(map, args.args@, args.types@, name, Wanted::KnownString, i));
        }
    }
}

/// `use_extension` makes a proxy exactly if its first two arguments are strings and what
/// they name is an extension, and `use_repo_rule` hands on what they name exactly if that
/// is a rule of a repository.
pub proof fn named_extensions_are_used(
    name: Seq<char>,
    m: Module,
    file: File,
    call_expr: ExprId,
    args: CallArguments,
    loaded: Option<Ty>,
    r: Option<Ty>,
)
    requires
        unique_ret_type(None, name, m, file, call_expr, args, loaded, r),
    ensures
        ({
            let named = args.positional_string(0) is Some && args.positional_string(1) is Some;
            &&& name == "use_extension"@ ==> (r is Some <==> named && loaded is Some
                && *loaded->0 is ModuleExtension)
            &&& name == "use_extension"@ && r is Some ==> *r->0 is ModuleExtensionProxy
            &&& name == "use_repo_rule"@ ==> (r is Some <==> named && loaded is Some && (
            *loaded->0 matches TyKind::Rule(rule) && rule.kind == RuleKind::Repository))
            &&& name == "use_repo_rule"@ && r is Some ==> r == loaded
        }),
{
    makers_differ();
}

} // verus!
