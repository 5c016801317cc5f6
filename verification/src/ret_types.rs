//! The result types of builtin functions whose calls make something new:
//! structs, providers, rules, attributes, tag classes, extensions and macros.

use std::sync::Arc;

use vstd::prelude::*;

use crate::builtins::BuiltinFunctionData;
use crate::common::{File, InFile};
use crate::def::{
    logged, missing_text, Argument, AssignmentSource, Expr, ExprId, Module, ModuleSourceMap, Name,
    Stmt,
};
use crate::lower_spec::text_of;
use crate::syntax::Span;
use crate::text::same;
use crate::typeck::{
    Attribute, AttributeData, AttributeDefault, AttributeKind, CustomProvider,
    CustomProviderFields, DictLiteral, Macro, ModuleExtension, Provider, ProviderField, Rule,
    RuleAttributes, RuleKind, Struct, TagClass, TagClassData, Tuple, Ty, TyKind,
};

verus! {

/// What the type of an argument has to be to be looked into.
#[derive(Clone, Copy, PartialEq, Eq, Structural)]
pub enum Wanted {
    KnownString,
    KnownBool,
    KnownDict,
    Located,
    Anything,
}

/// Where an expression stands, if it does.
pub open spec fn place_of(map: ModuleSourceMap, expr: ExprId) -> Option<Span> {
    if expr.0 < map.expr_map_back@.len() {
        map.expr_map_back@[expr.0 as int]
    } else {
        None
    }
}

/// Whether an argument is what is wanted.
pub open spec fn fits(map: ModuleSourceMap, wanted: Wanted, expr: ExprId, ty: TyKind) -> bool {
    match wanted {
        Wanted::KnownString => ty matches TyKind::Str(Some(_)),
        Wanted::KnownBool => ty matches TyKind::Bool(Some(_)),
        Wanted::KnownDict => ty matches TyKind::Dict(_, _, Some(_)),
        Wanted::Located => place_of(map, expr) is Some,
        Wanted::Anything => true,
    }
}

/// The last of the first `n` arguments that is named `name` and is what is wanted.
pub open spec fn last_keyword(
    map: ModuleSourceMap,
    args: Seq<Argument>,
    types: Seq<Ty>,
    name: Seq<char>,
    wanted: Wanted,
    n: nat,
) -> Option<int>
    decreases n,
{
    if n == 0 {
        None
    } else {
        let rest = last_keyword(map, args, types, name, wanted, (n - 1) as nat);
        match args[n - 1] {
            Argument::Keyword { name: written, expr } => if written@ == name && fits(
                map,
                wanted,
                expr,
                *types[n - 1],
            ) {
                Some(n - 1)
            } else {
                rest
            },
            _ => rest,
        }
    }
}

/// What a call passes: its arguments and their types, with the places of the
/// expressions.
pub struct CallArguments<'a> {
    pub source_map: &'a ModuleSourceMap,
    pub args: &'a Vec<Argument>,
    pub types: &'a Vec<Ty>,
}

impl<'a> CallArguments<'a> {
    /// Whether every argument has a type.
    pub open spec fn wf(self) -> bool {
        self.args@.len() == self.types@.len()
    }

    /// The last argument that is named `name` and is what is wanted.
    pub open spec fn keyword(self, name: Seq<char>, wanted: Wanted) -> Option<int> {
        last_keyword(
            *self.source_map,
            self.args@,
            self.types@,
            name,
            wanted,
            self.args@.len(),
        )
    }

    /// The known string that is passed as `name`.
    pub open spec fn string(self, name: Seq<char>) -> Option<Seq<char>> {
        match self.keyword(name, Wanted::KnownString) {
            Some(i) => match *self.types@[i] {
                TyKind::Str(Some(s)) => Some(s@),
                _ => None,
            },
            None => None,
        }
    }

    /// The dictionary display that is passed as `name`.
    pub open spec fn dict(self, name: Seq<char>) -> Option<Arc<DictLiteral>> {
        match self.keyword(name, Wanted::KnownDict) {
            Some(i) => match *self.types@[i] {
                TyKind::Dict(_, _, Some(literal)) => Some(literal),
                _ => None,
            },
            None => None,
        }
    }

    /// Finds the last argument that is named `name` and is what is wanted.
    fn find(&self, name: &str, wanted: Wanted) -> (r: Option<usize>)
        requires
            self.wf(),
        ensures
            match r {
                Some(i) => {
                    &&& self.keyword(name@, wanted) == Some(i as int)
                    &&& i < self.args@.len()
                    &&& self.args@[i as int] is Keyword
                    &&& fits(
                        *self.source_map,
                        wanted,
                        self.args@[i as int].value(),
                        *self.types@[i as int],
                    )
                },
                None => self.keyword(name@, wanted) is None,
            },
    {
        let mut i: usize = self.args.len();
        while i > 0
            invariant
                i <= self.args@.len() == self.types@.len(),
                self.keyword(name@, wanted) == last_keyword(
                    *self.source_map,
                    self.args@,
                    self.types@,
                    name@,
                    wanted,
                    i as nat,
                ),
            decreases i,
        {
            i = i - 1;
            if let Argument::Keyword { name: written, expr } = &self.args[i] {
                if same(written.as_str(), name) && self.is_wanted(wanted, *expr, &self.types[i]) {
                    return Some(i);
                }
            }
        }
        None
    }

    fn is_wanted(&self, wanted: Wanted, expr: ExprId, ty: &Ty) -> (r: bool)
        ensures
            r == fits(*self.source_map, wanted, expr, **ty),
    {
        match wanted {
            Wanted::KnownString => match &**ty {
                TyKind::Str(Some(_)) => true,
                _ => false,
            },
            Wanted::KnownBool => match &**ty {
                TyKind::Bool(Some(_)) => true,
                _ => false,
            },
            Wanted::KnownDict => match &**ty {
                TyKind::Dict(_, _, Some(_)) => true,
                _ => false,
            },
            Wanted::Located => self.place(expr).is_some(),
            Wanted::Anything => true,
        }
    }

    fn place(&self, expr: ExprId) -> (r: Option<Span>)
        ensures
            r == place_of(*self.source_map, expr),
    {
        if expr.0 < self.source_map.expr_map_back.len() {
            self.source_map.expr_map_back[expr.0]
        } else {
            None
        }
    }

    /// Finds the known string that is passed as `name`.
    fn find_string(&self, name: &str) -> (r: Option<String>)
        requires
            self.wf(),
        ensures
            text_of(r) == self.string(name@),
    {
        match self.find(name, Wanted::KnownString) {
            Some(i) => match &*self.types[i] {
                TyKind::Str(Some(s)) => Some(s.clone()),
                _ => None,
            },
            None => None,
        }
    }

    /// Finds the dictionary display that is passed as `name`.
    fn find_dict(&self, name: &str) -> (r: Option<Arc<DictLiteral>>)
        requires
            self.wf(),
        ensures
            r == self.dict(name@),
    {
        match self.find(name, Wanted::KnownDict) {
            Some(i) => match &*self.types[i] {
                TyKind::Dict(_, _, Some(literal)) => Some(literal.clone()),
                _ => None,
            },
            None => None,
        }
    }

    /// The names and types of the named arguments, the first `n`.
    pub open spec fn fields(self, n: nat) -> Seq<(Name, Ty)>
        decreases n,
    {
        if n == 0 {
            Seq::empty()
        } else {
            let rest = self.fields((n - 1) as nat);
            match self.args@[n - 1] {
                Argument::Keyword { name, expr: _ } => rest.push((name, self.types@[n - 1])),
                _ => rest,
            }
        }
    }

    fn find_fields(&self) -> (r: Vec<(Name, Ty)>)
        requires
            self.wf(),
        ensures
            r@ == self.fields(self.args@.len()),
    {
        let mut out: Vec<(Name, Ty)> = Vec::new();
        let mut i: usize = 0;
        while i < self.args.len()
            invariant
                i <= self.args@.len() == self.types@.len(),
                out@ == self.fields(i as nat),
            decreases self.args@.len() - i,
        {
            if let Argument::Keyword { name, expr: _ } = &self.args[i] {
                out.push((name.dup(), self.types[i].clone()));
            }
            i = i + 1;
        }
        out
    }

    /// The known string that is passed at place `i`, without a name.
    pub open spec fn positional_string(self, i: int) -> Option<Seq<char>> {
        if 0 <= i < self.args@.len() {
            match (self.args@[i], *self.types@[i]) {
                (Argument::Simple { expr: _ }, TyKind::Str(Some(s))) => Some(s@),
                _ => None,
            }
        } else {
            None
        }
    }

    fn find_positional_string(&self, i: usize) -> (r: Option<String>)
        requires
            self.wf(),
        ensures
            text_of(r) == self.positional_string(i as int),
    {
        if i < self.args.len() {
            match (&self.args[i], &*self.types[i]) {
                (Argument::Simple { expr: _ }, TyKind::Str(Some(s))) => Some(s.clone()),
                _ => None,
            }
        } else {
            None
        }
    }

    /// The file and the name that a call names like a `load` does: its first
    /// two arguments, both known strings.
    pub fn load_like(&self) -> (r: Option<(String, String)>)
        requires
            self.wf(),
        ensures
            match r {
                Some((path, name)) => {
                    &&& self.positional_string(0) == Some(path@)
                    &&& self.positional_string(1) == Some(name@)
                },
                None => self.positional_string(0) is None || self.positional_string(1) is None,
            },
    {
        match (self.find_positional_string(0), self.find_positional_string(1)) {
            (Some(path), Some(name)) => Some((path, name)),
            _ => None,
        }
    }
}

/// Whether `attrs` are the attributes of a dictionary; with `allow_none` a key
/// that is `None` counts too.
pub open spec fn attrs_match(
    keys: Seq<(String, Ty)>,
    allow_none: bool,
    attrs: Seq<(Name, Option<Arc<Attribute>>)>,
) -> bool
    decreases keys.len(),
{
    if keys.len() == 0 {
        attrs.len() == 0
    } else {
        let rest = keys.drop_last();
        match *keys.last().1 {
            TyKind::Attribute(Some(attr)) => {
                &&& attrs.len() > 0
                &&& attrs.last().0@ == keys.last().0@
                &&& attrs.last().1 == Some(attr)
                &&& attrs_match(rest, allow_none, attrs.drop_last())
            },
            TyKind::NoneType => if allow_none {
                &&& attrs.len() > 0
                &&& attrs.last().0@ == keys.last().0@
                &&& attrs.last().1 is None
                &&& attrs_match(rest, allow_none, attrs.drop_last())
            } else {
                attrs_match(rest, allow_none, attrs)
            },
            _ => attrs_match(rest, allow_none, attrs),
        }
    }
}

/// The attributes that a dictionary display names.
pub fn attrs_from_dict_literal(lit: &DictLiteral, allow_none: bool) -> (r: RuleAttributes)
    ensures
        r.expr == lit.expr,
        attrs_match(lit.known_keys@, allow_none, r.attrs@),
{
    let mut attrs: Vec<(Name, Option<Arc<Attribute>>)> = Vec::new();
    let mut i: usize = 0;
    while i < lit.known_keys.len()
        invariant
            i <= lit.known_keys@.len(),
            attrs_match(lit.known_keys@.take(i as int), allow_none, attrs@),
        decreases lit.known_keys@.len() - i,
    {
        let ghost taken = lit.known_keys@.take(i + 1);
        let ghost earlier = attrs@;
        proof {
            assert(taken.drop_last() =~= lit.known_keys@.take(i as int));
            assert(taken.last() == lit.known_keys@[i as int]);
        }
        match &*lit.known_keys[i].1 {
            TyKind::Attribute(Some(attr)) => {
                attrs.push((Name::from_str(lit.known_keys[i].0.as_str()), Some(attr.clone())));
                proof {
                    assert(attrs@.drop_last() =~= earlier);
                }
            },
            TyKind::NoneType => {
                if allow_none {
                    attrs.push((Name::from_str(lit.known_keys[i].0.as_str()), None));
                    proof {
                        assert(attrs@.drop_last() =~= earlier);
                    }
                }
            },
            _ => {},
        }
        i = i + 1;
    }
    proof {
        assert(lit.known_keys@.take(i as int) =~= lit.known_keys@);
    }
    RuleAttributes { attrs, expr: lit.expr }
}

/// Whether `attrs` are the attributes that a dictionary gives, if there is one.
pub open spec fn attrs_given(
    dict: Option<Arc<DictLiteral>>,
    allow_none: bool,
    attrs: Option<Arc<RuleAttributes>>,
) -> bool {
    match (dict, attrs) {
        (Some(lit), Some(attrs)) => attrs.expr == lit.expr && attrs_match(
            lit.known_keys@,
            allow_none,
            attrs.attrs@,
        ),
        (None, None) => true,
        _ => false,
    }
}

/// Whether `attrs` are the attributes of a tag class in a dictionary.
pub open spec fn tag_attrs_match(keys: Seq<(String, Ty)>, attrs: Seq<AttributeData>) -> bool
    decreases keys.len(),
{
    if keys.len() == 0 {
        attrs.len() == 0
    } else {
        match *keys.last().1 {
            TyKind::Attribute(Some(attr)) => {
                &&& attrs.len() > 0
                &&& attrs.last().name@ == keys.last().0@
                &&& attrs.last().attr == attr
                &&& tag_attrs_match(keys.drop_last(), attrs.drop_last())
            },
            _ => tag_attrs_match(keys.drop_last(), attrs),
        }
    }
}

/// The attributes of a tag class in a dictionary.
fn tag_attrs(lit: &DictLiteral) -> (attrs: Vec<AttributeData>)
    ensures
        tag_attrs_match(lit.known_keys@, attrs@),
{
    let mut attrs: Vec<AttributeData> = Vec::new();
    let mut i: usize = 0;
    while i < lit.known_keys.len()
        invariant
            i <= lit.known_keys@.len(),
            tag_attrs_match(lit.known_keys@.take(i as int), attrs@),
        decreases lit.known_keys@.len() - i,
    {
        let ghost taken = lit.known_keys@.take(i + 1);
        let ghost earlier = attrs@;
        proof {
            assert(taken.drop_last() =~= lit.known_keys@.take(i as int));
            assert(taken.last() == lit.known_keys@[i as int]);
        }
        if let TyKind::Attribute(Some(attr)) = &*lit.known_keys[i].1 {
            attrs.push(
                AttributeData {
                    name: Name::from_str(lit.known_keys[i].0.as_str()),
                    attr: attr.clone(),
                },
            );
            proof {
                assert(attrs@.drop_last() =~= earlier);
            }
        }
        i = i + 1;
    }
    proof {
        assert(lit.known_keys@.take(i as int) =~= lit.known_keys@);
    }
    attrs
}

/// Whether `classes` are the tag classes in a dictionary.
pub open spec fn tag_classes_match(keys: Seq<(String, Ty)>, classes: Seq<TagClassData>) -> bool
    decreases keys.len(),
{
    if keys.len() == 0 {
        classes.len() == 0
    } else {
        match *keys.last().1 {
            TyKind::TagClass(class) => {
                &&& classes.len() > 0
                &&& classes.last().name@ == keys.last().0@
                &&& classes.last().tag_class == class
                &&& tag_classes_match(keys.drop_last(), classes.drop_last())
            },
            _ => tag_classes_match(keys.drop_last(), classes),
        }
    }
}

/// The tag classes in a dictionary.
fn tag_classes(lit: &DictLiteral) -> (classes: Vec<TagClassData>)
    ensures
        tag_classes_match(lit.known_keys@, classes@),
{
    let mut classes: Vec<TagClassData> = Vec::new();
    let mut i: usize = 0;
    while i < lit.known_keys.len()
        invariant
            i <= lit.known_keys@.len(),
            tag_classes_match(lit.known_keys@.take(i as int), classes@),
        decreases lit.known_keys@.len() - i,
    {
        let ghost taken = lit.known_keys@.take(i + 1);
        let ghost earlier = classes@;
        proof {
            assert(taken.drop_last() =~= lit.known_keys@.take(i as int));
            assert(taken.last() == lit.known_keys@[i as int]);
        }
        if let TyKind::TagClass(class) = &*lit.known_keys[i].1 {
            classes.push(
                TagClassData {
                    name: Name::from_str(lit.known_keys[i].0.as_str()),
                    tag_class: class.clone(),
                },
            );
            proof {
                assert(classes@.drop_last() =~= earlier);
            }
        }
        i = i + 1;
    }
    proof {
        assert(lit.known_keys@.take(i as int) =~= lit.known_keys@);
    }
    classes
}

/// Whether `fields` are the fields of a provider in a dictionary: its keys that
/// are not empty, described by their values where those are known strings.
pub open spec fn provider_fields_match(
    keys: Seq<(String, Ty)>,
    fields: Seq<ProviderField>,
) -> bool
    decreases keys.len(),
{
    if keys.len() == 0 {
        fields.len() == 0
    } else if keys.last().0@.len() > 0 {
        &&& fields.len() > 0
        &&& fields.last().name@ == keys.last().0@
        &&& text_of(fields.last().doc) == match *keys.last().1 {
            TyKind::Str(Some(s)) => Some(s@),
            _ => None,
        }
        &&& provider_fields_match(keys.drop_last(), fields.drop_last())
    } else {
        provider_fields_match(keys.drop_last(), fields)
    }
}

/// The fields of a provider in a dictionary.
fn provider_fields(lit: &DictLiteral) -> (r: CustomProviderFields)
    ensures
        r.expr == lit.expr,
        provider_fields_match(lit.known_keys@, r.fields@),
{
    let mut fields: Vec<ProviderField> = Vec::new();
    let mut i: usize = 0;
    while i < lit.known_keys.len()
        invariant
            i <= lit.known_keys@.len(),
            provider_fields_match(lit.known_keys@.take(i as int), fields@),
        decreases lit.known_keys@.len() - i,
    {
        let ghost taken = lit.known_keys@.take(i + 1);
        let ghost earlier = fields@;
        proof {
            assert(taken.drop_last() =~= lit.known_keys@.take(i as int));
            assert(taken.last() == lit.known_keys@[i as int]);
        }
        if !lit.known_keys[i].0.as_str().is_empty() {
            let doc = match &*lit.known_keys[i].1 {
                TyKind::Str(Some(s)) => Some(s.clone()),
                _ => None,
            };
            fields.push(
                ProviderField { name: Name::from_str(lit.known_keys[i].0.as_str()), doc },
            );
            proof {
                assert(fields@.drop_last() =~= earlier);
            }
        }
        i = i + 1;
    }
    proof {
        assert(lit.known_keys@.take(i as int) =~= lit.known_keys@);
    }
    CustomProviderFields { expr: lit.expr, fields }
}

/// The expression to which the result of a call is assigned.
pub open spec fn assigned_to(m: Module, call_expr: ExprId) -> Option<ExprId> {
    match logged(m.assignment_sources@, call_expr) {
        Some(AssignmentSource::Statement(stmt)) => if stmt.0 < m.stmts@.len() {
            match m.stmts@[stmt.0 as int] {
                Stmt::Assign { lhs, .. } => Some(lhs),
                _ => None,
            }
        } else {
            None
        },
        _ => None,
    }
}

/// The name that an expression is, if it is one.
pub open spec fn name_of(m: Module, expr: Option<ExprId>) -> Option<Seq<char>> {
    match expr {
        Some(expr) => match m.exprs@[expr.0 as int] {
            Expr::Name { name } => if name@ == missing_text() || name@.len() == 0 {
                None
            } else {
                Some(name@)
            },
            _ => None,
        },
        None => None,
    }
}

/// Element `i` of a tuple.
pub open spec fn element_of(m: Module, expr: Option<ExprId>, i: int) -> Option<ExprId> {
    match expr {
        Some(expr) => match m.exprs@[expr.0 as int] {
            Expr::Tuple { exprs } => if i < exprs@.len() {
                Some(exprs@[i])
            } else {
                None
            },
            _ => None,
        },
        None => None,
    }
}

/// The text of an optional name.
pub open spec fn opt_name(name: Option<Name>) -> Option<Seq<char>> {
    match name {
        Some(name) => Some(name@),
        None => None,
    }
}

impl Module {
    fn find_assigned(&self, call_expr: ExprId) -> (r: Option<ExprId>)
        requires
            self.wf(),
        ensures
            r == assigned_to(*self, call_expr),
            r is Some ==> (r->0).0 < self.exprs@.len(),
    {
        match self.assignment_source(call_expr) {
            Some(AssignmentSource::Statement(stmt)) => {
                if stmt.0 < self.stmts.len() {
                    match &self.stmts[stmt.0] {
                        Stmt::Assign { lhs, rhs: _, op: _, type_ref: _ } => {
                            assert(crate::def::stmt_below(
                                *self,
                                self.stmts@[stmt.0 as int],
                                stmt.0 as nat,
                            ));
                            Some(*lhs)
                        },
                        _ => None,
                    }
                } else {
                    None
                }
            },
            _ => None,
        }
    }

    fn find_name(&self, expr: Option<ExprId>) -> (r: Option<Name>)
        requires
            expr is Some ==> (expr->0).0 < self.exprs@.len(),
        ensures
            opt_name(r) == name_of(*self, expr),
    {
        match expr {
            Some(expr) => match &self.exprs[expr.0] {
                Expr::Name { name } => if name.is_missing() || name.as_str().is_empty() {
                    None
                } else {
                    Some(name.dup())
                },
                _ => None,
            },
            None => None,
        }
    }

    fn find_element(&self, expr: Option<ExprId>, i: usize) -> (r: Option<ExprId>)
        requires
            self.wf(),
            expr is Some ==> (expr->0).0 < self.exprs@.len(),
        ensures
            r == element_of(*self, expr, i as int),
            r is Some ==> (r->0).0 < self.exprs@.len(),
    {
        match expr {
            Some(expr) => match &self.exprs[expr.0] {
                Expr::Tuple { exprs } => if i < exprs.len() {
                    assert(crate::def::expr_below(
                        self.params@,
                        self.exprs@[expr.0 as int],
                        expr.0 as nat,
                    ));
                    assert(exprs@[i as int].0 < expr.0);
                    Some(exprs[i])
                } else {
                    None
                },
                _ => None,
            },
            None => None,
        }
    }
}

/// Whether `p` is the provider named `name` that a call with `args` makes.
pub open spec fn custom_provider_of(
    args: CallArguments,
    name: Option<Seq<char>>,
    p: CustomProvider,
) -> bool {
    &&& opt_name(p.name) == name
    &&& text_of(p.doc) == args.string("doc"@)
    &&& match (args.dict("fields"@), p.fields) {
        (Some(lit), Some(fields)) => fields.expr == lit.expr && provider_fields_match(
            lit.known_keys@,
            fields.fields@,
        ),
        (None, None) => true,
        _ => false,
    }
}

/// The provider named `name` that a call with `args` makes.
fn custom_provider(args: &CallArguments, name: Option<Name>) -> (p: CustomProvider)
    requires
        args.wf(),
    ensures
        custom_provider_of(*args, opt_name(name), p),
{
    let fields = match args.find_dict("fields") {
        Some(lit) => Some(provider_fields(&lit)),
        None => None,
    };
    CustomProvider { name, doc: args.find_string("doc"), fields }
}

/// The kind of attribute that a function of `attr` makes.
pub open spec fn attribute_kind(name: Seq<char>) -> Option<AttributeKind> {
    if name == "bool"@ {
        Some(AttributeKind::Bool)
    } else if name == "int"@ {
        Some(AttributeKind::Int)
    } else if name == "int_list"@ {
        Some(AttributeKind::IntList)
    } else if name == "label"@ {
        Some(AttributeKind::Label)
    } else if name == "label_keyed_string_dict"@ {
        Some(AttributeKind::LabelKeyedStringDict)
    } else if name == "label_list"@ {
        Some(AttributeKind::LabelList)
    } else if name == "output"@ {
        Some(AttributeKind::Output)
    } else if name == "output_list"@ {
        Some(AttributeKind::OutputList)
    } else if name == "string"@ {
        Some(AttributeKind::Str)
    } else if name == "string_keyed_label_dict"@ {
        Some(AttributeKind::StringKeyedLabelDict)
    } else if name == "string_dict"@ {
        Some(AttributeKind::StringDict)
    } else if name == "string_list"@ {
        Some(AttributeKind::StringList)
    } else if name == "string_list_dict"@ {
        Some(AttributeKind::StringListDict)
    } else {
        None
    }
}

/// The kind of attribute that a function of `attr` makes.
pub fn attribute_kind_of(name: &str) -> (r: Option<AttributeKind>)
    ensures
        r == attribute_kind(name@),
{
    if same(name, "bool") {
        Some(AttributeKind::Bool)
    } else if same(name, "int") {
        Some(AttributeKind::Int)
    } else if same(name, "int_list") {
        Some(AttributeKind::IntList)
    } else if same(name, "label") {
        Some(AttributeKind::Label)
    } else if same(name, "label_keyed_string_dict") {
        Some(AttributeKind::LabelKeyedStringDict)
    } else if same(name, "label_list") {
        Some(AttributeKind::LabelList)
    } else if same(name, "output") {
        Some(AttributeKind::Output)
    } else if same(name, "output_list") {
        Some(AttributeKind::OutputList)
    } else if same(name, "string") {
        Some(AttributeKind::Str)
    } else if same(name, "string_keyed_label_dict") {
        Some(AttributeKind::StringKeyedLabelDict)
    } else if same(name, "string_dict") {
        Some(AttributeKind::StringDict)
    } else if same(name, "string_list") {
        Some(AttributeKind::StringList)
    } else if same(name, "string_list_dict") {
        Some(AttributeKind::StringListDict)
    } else {
        None
    }
}

/// Whether `a` is the attribute of a kind that a call with `args` makes.
pub open spec fn attribute_of(
    args: CallArguments,
    file: File,
    kind: AttributeKind,
    a: Attribute,
) -> bool {
    &&& a.kind == kind
    &&& text_of(a.doc) == args.string("doc"@)
    &&& a.mandatory == match args.keyword("mandatory"@, Wanted::KnownBool) {
        Some(i) => *args.types@[i] == TyKind::Bool(Some(true)),
        None => false,
    }
    &&& match args.keyword("default"@, Wanted::Located) {
        Some(i) => match a.default_value {
            Some(AttributeDefault::Source(place)) => {
                &&& place.file == file
                &&& Some(place.value) == place_of(*args.source_map, args.args@[i].value())
            },
            _ => false,
        },
        None => a.default_value is None,
    }
}

/// The attribute of a kind that a call with `args` makes.
fn attribute(args: &CallArguments, file: File, kind: AttributeKind) -> (a: Attribute)
    requires
        args.wf(),
    ensures
        attribute_of(*args, file, kind, a),
{
    let mandatory = match args.find("mandatory", Wanted::KnownBool) {
        Some(i) => match &*args.types[i] {
            TyKind::Bool(Some(value)) => *value,
            _ => false,
        },
        None => false,
    };
    let default_value = match args.find("default", Wanted::Located) {
        Some(i) => match args.place(args.args[i].expr()) {
            Some(value) => Some(AttributeDefault::Source(InFile { file, value })),
            None => None,
        },
        None => None,
    };
    Attribute { kind, doc: args.find_string("doc"), mandatory, default_value }
}

/// Whether `r` is the type of what a call of the function `name` of `parent`
/// makes. `loaded` is the type of the variable that the call names like a `load`.
pub open spec fn unique_ret_type(
    parent: Option<Seq<char>>,
    name: Seq<char>,
    m: Module,
    file: File,
    call_expr: ExprId,
    args: CallArguments,
    loaded: Option<Ty>,
    r: Option<Ty>,
) -> bool {
    let makes = |kind: spec_fn(TyKind) -> bool| r is Some && kind(*r->0);
    let names_load = args.positional_string(0) is Some && args.positional_string(1) is Some;
    if parent is None && name == "struct"@ {
        makes(
            |k: TyKind|
                match k {
                    TyKind::Struct(Some(made)) => {
                        &&& made.call_expr == (InFile { file, value: call_expr })
                        &&& made.fields@ == args.fields(args.args@.len())
                    },
                    _ => false,
                },
        )
    } else if parent is None && name == "provider"@ {
        let lhs = assigned_to(m, call_expr);
        if args.keyword("init"@, Wanted::Anything) is Some {
            makes(
                |k: TyKind|
                    match k {
                        TyKind::Tuple(Tuple::Simple(parts)) => {
                            &&& parts@.len() == 2
                            &&& match (*parts@[0], *parts@[1]) {
                                (
                                    TyKind::Provider(Provider::Custom(first)),
                                    TyKind::ProviderRawConstructor(
                                        ctor,
                                        Provider::Custom(second),
                                    ),
                                ) => {
                                    &&& first == second
                                    &&& custom_provider_of(
                                        args,
                                        name_of(m, element_of(m, lhs, 0)),
                                        *first,
                                    )
                                    &&& ctor@ == match name_of(m, element_of(m, lhs, 1)) {
                                        Some(text) => text,
                                        None => "ctor"@,
                                    }
                                },
                                _ => false,
                            }
                        },
                        _ => false,
                    },
            )
        } else {
            makes(
                |k: TyKind|
                    match k {
                        TyKind::Provider(Provider::Custom(p)) => custom_provider_of(
                            args,
                            name_of(m, lhs),
                            *p,
                        ),
                        _ => false,
                    },
            )
        }
    } else if parent is None && (name == "rule"@ || name == "repository_rule"@) {
        makes(
            |k: TyKind|
                match k {
                    TyKind::Rule(rule) => {
                        &&& rule.kind == if name == "rule"@ {
                            RuleKind::Build
                        } else {
                            RuleKind::Repository
                        }
                        &&& text_of(rule.doc) == args.string("doc"@)
                        &&& attrs_given(args.dict("attrs"@), false, rule.attrs)
                    },
                    _ => false,
                },
        )
    } else if parent == Some("attr"@) {
        match attribute_kind(name) {
            Some(kind) => makes(
                |k: TyKind|
                    match k {
                        TyKind::Attribute(Some(a)) => attribute_of(args, file, kind, *a),
                        _ => false,
                    },
            ),
            None => r is None,
        }
    } else if parent is None && name == "tag_class"@ {
        makes(
            |k: TyKind|
                match k {
                    TyKind::TagClass(class) => {
                        &&& text_of(class.doc) == args.string("doc"@)
                        &&& match (args.dict("attrs"@), class.attrs) {
                            (Some(lit), Some(attrs)) => tag_attrs_match(lit.known_keys@, attrs@),
                            (None, None) => true,
                            _ => false,
                        }
                    },
                    _ => false,
                },
        )
    } else if parent is None && name == "module_extension"@ {
        makes(
            |k: TyKind|
                match k {
                    TyKind::ModuleExtension(extension) => {
                        &&& text_of(extension.doc) == args.string("doc"@)
                        &&& match (args.dict("tag_classes"@), extension.tag_classes) {
                            (Some(lit), Some(classes)) => tag_classes_match(
                                lit.known_keys@,
                                classes@,
                            ),
                            (None, None) => true,
                            _ => false,
                        }
                    },
                    _ => false,
                },
        )
    } else if parent is None && name == "macro"@ {
        makes(
            |k: TyKind|
                match k {
                    TyKind::Macro(made) => {
                        &&& text_of(made.doc) == args.string("doc"@)
                        &&& attrs_given(args.dict("attrs"@), true, made.attrs)
                    },
                    _ => false,
                },
        )
    } else if parent is None && name == "use_extension"@ {
        match loaded {
            Some(ty) => match *ty {
                TyKind::ModuleExtension(extension) => if names_load {
                    r is Some && *r->0 == TyKind::ModuleExtensionProxy(extension)
                } else {
                    r is None
                },
                _ => r is None,
            },
            None => r is None,
        }
    } else if parent is None && name == "use_repo_rule"@ {
        match loaded {
            Some(ty) => match *ty {
                TyKind::Rule(rule) => if names_load && rule.kind == RuleKind::Repository {
                    r == Some(ty)
                } else {
                    r is None
                },
                _ => r is None,
            },
            None => r is None,
        }
    } else {
        r is None
    }
}

impl BuiltinFunctionData {
    /// The type of what a call of this function makes, where it makes something
    /// new. `loaded` is the type of the variable that `args.load_like()` names.
    pub fn maybe_unique_ret_type(
        &self,
        module: &Module,
        file: File,
        call_expr: ExprId,
        args: &CallArguments,
        loaded: &Option<Ty>,
    ) -> (r: Option<Ty>)
        requires
            module.wf(),
            args.wf(),
        ensures
            unique_ret_type(
                text_of(self.parent_type),
                self.name@,
                *module,
                file,
                call_expr,
                *args,
                *loaded,
                r,
            ),
    {
        let name = self.name.as_str();
        if let Some(parent) = &self.parent_type {
            if !same(parent.as_str(), "attr") {
                return None;
            }
            return match attribute_kind_of(name) {
                Some(kind) => {
                    let made = attribute(args, file, kind);
                    Some(Arc::new(TyKind::Attribute(Some(Arc::new(made)))))
                },
                None => None,
            };
        }
        if same(name, "struct") {
            let fields = args.find_fields();
            let call_expr = InFile { file, value: call_expr };
            Some(Arc::new(TyKind::Struct(Some(Struct { call_expr, fields }))))
        } else if same(name, "provider") {
            let lhs = module.find_assigned(call_expr);
            if args.find("init", Wanted::Anything).is_some() {
                let provider_name = module.find_name(module.find_element(lhs, 0));
                let ctor_name = match module.find_name(module.find_element(lhs, 1)) {
                    Some(name) => name,
                    None => Name::from_str("ctor"),
                };
                let provider = Arc::new(custom_provider(args, provider_name));
                let mut parts: Vec<Ty> = Vec::new();
                parts.push(Arc::new(TyKind::Provider(Provider::Custom(provider.clone()))));
                parts.push(
                    Arc::new(
                        TyKind::ProviderRawConstructor(ctor_name, Provider::Custom(provider)),
                    ),
                );
                Some(Arc::new(TyKind::Tuple(Tuple::Simple(parts))))
            } else {
                let provider_name = module.find_name(lhs);
                let provider = custom_provider(args, provider_name);
                Some(Arc::new(TyKind::Provider(Provider::Custom(Arc::new(provider)))))
            }
        } else if same(name, "rule") || same(name, "repository_rule") {
            let kind = if same(name, "rule") {
                RuleKind::Build
            } else {
                RuleKind::Repository
            };
            let attrs = match args.find_dict("attrs") {
                Some(lit) => Some(Arc::new(attrs_from_dict_literal(&lit, false))),
                None => None,
            };
            Some(Arc::new(TyKind::Rule(Rule { kind, doc: args.find_string("doc"), attrs })))
        } else if same(name, "tag_class") {
            let attrs = match args.find_dict("attrs") {
                Some(lit) => Some(tag_attrs(&lit)),
                None => None,
            };
            let doc = args.find_string("doc");
            Some(Arc::new(TyKind::TagClass(Arc::new(TagClass { attrs, doc }))))
        } else if same(name, "module_extension") {
            let doc = args.find_string("doc");
            let tag_classes = match args.find_dict("tag_classes") {
                Some(lit) => Some(tag_classes(&lit)),
                None => None,
            };
            Some(
                Arc::new(
                    TyKind::ModuleExtension(Arc::new(ModuleExtension { doc, tag_classes })),
                ),
            )
        } else if same(name, "macro") {
            let attrs = match args.find_dict("attrs") {
                Some(lit) => Some(Arc::new(attrs_from_dict_literal(&lit, true))),
                None => None,
            };
            let doc = args.find_string("doc");
            Some(Arc::new(TyKind::Macro(Macro { attrs, doc })))
        } else if same(name, "use_extension") {
            if args.load_like().is_none() {
                return None;
            }
            match loaded {
                Some(ty) => match &**ty {
                    TyKind::ModuleExtension(extension) => Some(
                        Arc::new(TyKind::ModuleExtensionProxy(extension.clone())),
                    ),
                    _ => None,
                },
                None => None,
            }
        } else if same(name, "use_repo_rule") {
            if args.load_like().is_none() {
                return None;
            }
            match loaded {
                Some(ty) => match &**ty {
                    TyKind::Rule(rule) => if rule.kind == RuleKind::Repository {
                        Some(ty.clone())
                    } else {
                        None
                    },
                    _ => None,
                },
                None => None,
            }
        } else {
            None
        }
    }
}

} // verus!
