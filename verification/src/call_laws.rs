//! What holds of the signatures of callables, and of the calls that are checked
//! against them.

use std::sync::Arc;

use vstd::prelude::*;

use crate::bind::{
    answered, bind_next, expanded_next, expr_of, name_of, next_named, passed, BindAction, BindView,
    Phase,
};
use crate::builtins::BuiltinFunctionParam;
use crate::call::{
    expands_to, has_args, has_kwargs, inside_parens, is_disallowed, order_error, order_errors,
    params_at, shown_builtins, shown_params, signature_of, step_of, tag_attrs, Action, CallValue,
    CalleeContext, ExpandedArgument, Reply, Signature, Stage,
};
use crate::def::{missing_text, texts, Argument, Expr, ExprId, Literal, Module, Name, Param};
use crate::typeck::{Attribute, IntrinsicFunctionParam, Tuple, Ty, TyKind};

verus! {

/// Whether a call that matches some parameters lacks parameter `i`.
pub open spec fn lacks(s: Signature, matched: Seq<bool>, i: int) -> bool {
    s.unmatched(matched, s.parameters@.len()).contains(i as usize)
}

proof fn unmatched_holds(s: Signature, matched: Seq<bool>, n: nat, i: int)
    requires
        n <= s.parameters@.len(),
        matched.len() == s.parameters@.len(),
        0 <= i < s.parameters@.len(),
    ensures
        s.unmatched(matched, n).contains(i as usize) <==> (i < n && s.parameters@[i].required
            && !matched[i]),
    decreases n,
{
    assert(s.parameters.len() == s.parameters@.len());
    let all = s.unmatched(matched, n);
    if n == 0 {
    } else {
        let rest = s.unmatched(matched, (n - 1) as nat);
        unmatched_holds(s, matched, (n - 1) as nat, i);
        if s.parameters@[n - 1].required && !matched[n - 1] {
            assert(all == rest.push((n - 1) as usize));
            assert(all[all.len() - 1] == (n - 1) as usize);
            if rest.contains(i as usize) {
                let k = choose|k: int| 0 <= k < rest.len() && rest[k] == i as usize;
                assert(all[k] == i as usize);
            }
            if all.contains(i as usize) && !rest.contains(i as usize) {
                let k = choose|k: int| 0 <= k < all.len() && all[k] == i as usize;
                if k < rest.len() {
                    assert(rest[k] == all[k]);
                }
            }
        }
    }
}

/// A call lacks a parameter exactly if it has to pass it and does not.
pub proof fn a_call_lacks_what_it_has_to_pass(s: Signature, matched: Seq<bool>, i: int)
    requires
        matched.len() == s.parameters@.len(),
        0 <= i < s.parameters@.len(),
    ensures
        lacks(s, matched, i) <==> s.parameters@[i].required && !matched[i],
{
    unmatched_holds(s, matched, s.parameters@.len(), i);
}

proof fn taking_holds(s: Signature, matched: Seq<bool>, n: nat, i: int)
    requires
        n <= s.parameters@.len(),
        matched.len() == s.parameters@.len(),
        0 <= i < s.parameters@.len(),
    ensures
        s.taking(matched, n).contains(i as usize) <==> (i < n && s.takes_unknown(matched, i)),
    decreases n,
{
    assert(s.parameters.len() == s.parameters@.len());
    let all = s.taking(matched, n);
    if n > 0 {
        let rest = s.taking(matched, (n - 1) as nat);
        taking_holds(s, matched, (n - 1) as nat, i);
        if s.takes_unknown(matched, n - 1) {
            assert(all == rest.push((n - 1) as usize));
            assert(all[all.len() - 1] == (n - 1) as usize);
            if rest.contains(i as usize) {
                let k = choose|k: int| 0 <= k < rest.len() && rest[k] == i as usize;
                assert(all[k] == i as usize);
            }
            if all.contains(i as usize) && !rest.contains(i as usize) {
                let k = choose|k: int| 0 <= k < all.len() && all[k] == i as usize;
                if k < rest.len() {
                    assert(rest[k] == all[k]);
                }
            }
        }
    }
}

/// An unpacked dictionary fills the parameters that can be named and are open, and
/// the one that takes the remaining keywords: none that has a value already, and none
/// that is passed by its place alone.
pub proof fn a_dictionary_fills_what_is_open(s: Signature, matched: Seq<bool>, i: int)
    requires
        matched.len() == s.parameters@.len(),
        0 <= i < s.parameters@.len(),
    ensures
        s.taking(matched, s.parameters@.len()).contains(i as usize) <==> {
            ||| s.parameters@[i].shape is KeywordVariadic
            ||| s.parameters@[i].label() is Some && !matched[i]
        },
{
    taking_holds(s, matched, s.parameters@.len(), i);
}

/// The attributes that a callable declares, if it is called with attributes.
pub open spec fn declared(cx: CalleeContext, callee: TyKind) -> Option<
    Seq<(Name, Arc<Attribute>)>,
> {
    match callee {
        TyKind::Rule(_) => Some(cx.attrs@),
        TyKind::Macro(_) => Some(cx.attrs@),
        TyKind::Tag(tag) => Some(tag_attrs(tag.attrs)),
        _ => None,
    }
}

/// A call of a rule, a macro or a tag lacks exactly the attributes that are declared
/// mandatory and are not passed.
pub proof fn a_rule_lacks_its_mandatory_attributes(
    cx: CalleeContext,
    callee: TyKind,
    s: Signature,
    matched: Seq<bool>,
    i: int,
)
    requires
        signature_of(cx, callee, Some(s)),
        declared(cx, callee) is Some,
        matched.len() == s.parameters@.len(),
        0 <= i < s.parameters@.len(),
    ensures
        ({
            let attrs = declared(cx, callee)->0;
            &&& lacks(s, matched, i) <==> i < attrs.len() && attrs[i].1.mandatory && !matched[i]
            &&& s.parameters@.len() == attrs.len() + 1
            &&& i < attrs.len() ==> s.parameters@[i].label() == Some(attrs[i].0@)
            &&& i < attrs.len() ==> s.parameters@[i].shape is KeywordOnly
            &&& i == attrs.len() ==> s.parameters@[i].shape is KeywordVariadic
        }),
{
    a_call_lacks_what_it_has_to_pass(s, matched, i);
    assert(s.parameters@.last() == s.parameters@[s.parameters@.len() - 1]);
}

/// A call of a rule, a macro or a tag that passes nothing lacks every mandatory
/// attribute and nothing else, and one that passes every mandatory attribute lacks
/// nothing.
pub proof fn naming_the_mandatory_attributes_is_enough(
    cx: CalleeContext,
    callee: TyKind,
    s: Signature,
    matched: Seq<bool>,
)
    requires
        signature_of(cx, callee, Some(s)),
        declared(cx, callee) is Some,
        matched.len() == s.parameters@.len(),
    ensures
        (forall|i: int| 0 <= i < matched.len() ==> !#[trigger] matched[i]) ==> forall|i: int|
            0 <= i < s.parameters@.len() ==> (#[trigger] lacks(s, matched, i) <==> i < declared(
                cx,
                callee,
            )->0.len() && (declared(cx, callee)->0)[i].1.mandatory),
        (forall|i: int|
            0 <= i < declared(cx, callee)->0.len() && (#[trigger] (declared(cx, callee)->0)[i]).1.mandatory
                ==> matched[i]) <==> s.unmatched(matched, s.parameters@.len()).len() == 0,
{
    let attrs = declared(cx, callee)->0;
    let n = s.parameters@.len();
    let missing = s.unmatched(matched, n);
    assert(s.parameters.len() == s.parameters@.len());
    assert forall|i: int| 0 <= i < n implies (#[trigger] lacks(s, matched, i) <==> i < attrs.len()
        && attrs[i].1.mandatory && !matched[i]) by {
        a_rule_lacks_its_mandatory_attributes(cx, callee, s, matched, i);
    }
    a_rule_lacks_its_mandatory_attributes(cx, callee, s, matched, n - 1);
    if missing.len() == 0 {
        assert forall|i: int| 0 <= i < attrs.len() && (#[trigger] attrs[i]).1.mandatory implies matched[i] by {
            assert(!lacks(s, matched, i));
        }
    } else {
        unmatched_are_below(s, matched, n);
        let i = missing[0] as int;
        assert(missing.contains(i as usize));
        assert(lacks(s, matched, i));
        assert(attrs[i].1.mandatory);
    }
}

proof fn unmatched_are_below(s: Signature, matched: Seq<bool>, n: nat)
    requires
        n <= s.parameters@.len(),
    ensures
        forall|k: int|
            0 <= k < s.unmatched(matched, n).len() ==> (#[trigger] s.unmatched(matched, n)[k]) < n,
    decreases n,
{
    assert(s.parameters.len() == s.parameters@.len());
    if n > 0 {
        let rest = s.unmatched(matched, (n - 1) as nat);
        unmatched_are_below(s, matched, (n - 1) as nat);
        assert forall|k: int| 0 <= k < s.unmatched(matched, n).len() implies (
        #[trigger] s.unmatched(matched, n)[k]) < n by {
            if k < rest.len() {
                assert(s.unmatched(matched, n)[k] == rest[k]);
            }
        }
    }
}

/// Whether a signature has a parameter for the `k`-th that is declared.
pub open spec fn stands_for(s: Signature, i: int, k: int) -> bool {
    0 <= i < s.parameters@.len() && s.parameters@[i].display_index == k
}

proof fn shown_holds(params: Seq<Param>, n: nat, k: int)
    requires
        0 <= k < n <= params.len(),
        !has_kwargs(params, k),
        !(params[k] is ArgsList && params[k].label() == missing_text()),
    ensures
        exists|i: int|
            0 <= i < shown_params(params, n).len() && #[trigger] shown_params(params, n)[i] == k,
    decreases n,
{
    let all = shown_params(params, n);
    if k == n - 1 {
        assert(all[all.len() - 1] == k);
    } else {
        let rest = shown_params(params, (n - 1) as nat);
        shown_holds(params, (n - 1) as nat, k);
        let i = choose|i: int| 0 <= i < rest.len() && #[trigger] rest[i] == k;
        assert(all[i] == k);
    }
}

proof fn shown_are_open(params: Seq<Param>, n: nat)
    requires
        n <= params.len(),
    ensures
        forall|i: int|
            0 <= i < shown_params(params, n).len() ==> {
                let k = #[trigger] shown_params(params, n)[i];
                0 <= k < n && !has_kwargs(params, k)
            },
    decreases n,
{
    if n > 0 {
        let rest = shown_params(params, (n - 1) as nat);
        shown_are_open(params, (n - 1) as nat);
        assert forall|i: int| 0 <= i < shown_params(params, n).len() implies {
            let k = #[trigger] shown_params(params, n)[i];
            0 <= k < n && !has_kwargs(params, k)
        } by {
            if i < rest.len() {
                assert(shown_params(params, n)[i] == rest[i]);
            }
        }
    }
}

/// A call of a function that passes nothing lacks exactly the parameters with a name
/// and no default, unless they stand behind the one for the remaining keywords.
pub proof fn a_function_lacks_what_has_no_default(
    cx: CalleeContext,
    callee: TyKind,
    s: Signature,
    matched: Seq<bool>,
    k: int,
)
    requires
        signature_of(cx, callee, Some(s)),
        matched.len() == s.parameters@.len(),
        forall|i: int| 0 <= i < matched.len() ==> !#[trigger] matched[i],
        callee matches TyKind::Function(def) && 0 <= k < def.func.params@.len(),
    ensures
        callee matches TyKind::Function(def) ==> {
            let params = params_at(*cx.module, def.func.params@);
            (exists|i: int| #[trigger] stands_for(s, i, k) && lacks(s, matched, i)) <==> {
                &&& params[k] matches Param::Simple { name, default: None, type_ref: _, doc: _ }
                    && name@ != missing_text()
                &&& forall|j: int| 0 <= j < k ==> !((#[trigger] params[j]) is KwargsDict)
            }
        },
{
    if let TyKind::Function(def) = callee {
        let params = params_at(*cx.module, def.func.params@);
        let order = shown_params(params, params.len());
        shown_are_open(params, params.len());
        assert(!has_kwargs(params, k) <==> forall|j: int|
            0 <= j < k ==> !((#[trigger] params[j]) is KwargsDict));
        if exists|i: int| #[trigger] stands_for(s, i, k) && lacks(s, matched, i) {
            let i = choose|i: int| #[trigger] stands_for(s, i, k) && lacks(s, matched, i);
            a_call_lacks_what_it_has_to_pass(s, matched, i);
            assert(order[i] == k);
        }
        if (params[k] matches Param::Simple { name, default: None, type_ref: _, doc: _ } && name@
            != missing_text()) && !has_kwargs(params, k) {
            shown_holds(params, params.len(), k);
            let i = choose|i: int| 0 <= i < order.len() && #[trigger] order[i] == k;
            a_call_lacks_what_it_has_to_pass(s, matched, i);
            assert(crate::call::function_parameter(params, order[i], def.stmt, s.parameters@[i]));
            assert(stands_for(s, i, k));
        }
    }
}

/// A parameter of a function can be passed by its place exactly if none for the
/// remaining places stands before it.
pub proof fn names_alone_pass_what_is_behind_a_star(
    cx: CalleeContext,
    callee: TyKind,
    s: Signature,
    i: int,
)
    requires
        signature_of(cx, callee, Some(s)),
        callee is Function,
        0 <= i < s.parameters@.len(),
    ensures
        callee matches TyKind::Function(def) ==> {
            let params = params_at(*cx.module, def.func.params@);
            let p = s.parameters@[i];
            let k = p.display_index as int;
            &&& 0 <= k < params.len()
            &&& p.shape is Variadic <==> params[k] is ArgsList
            &&& p.shape is KeywordVariadic <==> params[k] is KwargsDict
            &&& params[k] is Simple ==> p.label() == Some(params[k].label())
            &&& params[k] is Simple ==> (p.shape is PositionalOrKeyword <==> forall|j: int|
                0 <= j < k ==> !((#[trigger] params[j]) is ArgsList))
        },
{
    if let TyKind::Function(def) = callee {
        let params = params_at(*cx.module, def.func.params@);
        let order = shown_params(params, params.len());
        shown_are_open(params, params.len());
        assert(crate::call::function_parameter(params, order[i], def.stmt, s.parameters@[i]));
        let k = order[i];
        assert(!has_args(params, k) <==> forall|j: int|
            0 <= j < k ==> !((#[trigger] params[j]) is ArgsList));
    }
}

proof fn shown_builtins_end(params: Seq<BuiltinFunctionParam>, k: nat)
    requires
        k <= params.len(),
    ensures
        k <= shown_builtins(params, k) <= params.len(),
        forall|j: int|
            k <= j < shown_builtins(params, k) - 1 ==> !((#[trigger] params[j]) is KwargsDict),
        shown_builtins(params, k) < params.len() ==> shown_builtins(params, k) > k
            && params[shown_builtins(params, k) - 1] is KwargsDict,
    decreases params.len() - k,
{
    if k < params.len() && !(params[k as int] is KwargsDict) {
        shown_builtins_end(params, k + 1);
    }
}

/// A call of a builtin function that passes nothing lacks exactly the parameters that
/// are mandatory, up to the one for the remaining keywords.
pub proof fn a_builtin_lacks_what_is_mandatory(
    cx: CalleeContext,
    callee: TyKind,
    s: Signature,
    matched: Seq<bool>,
    i: int,
)
    requires
        signature_of(cx, callee, Some(s)),
        matched.len() == s.parameters@.len(),
        callee matches TyKind::BuiltinFunction(func) && 0 <= i < func.params@.len(),
        forall|j: int| 0 <= j < matched.len() ==> !#[trigger] matched[j],
    ensures
        callee matches TyKind::BuiltinFunction(func) ==> {
            &&& (i < s.parameters@.len() && lacks(s, matched, i)) <==> {
                &&& func.params@[i] matches BuiltinFunctionParam::Simple {
                    name: _,
                    type_ref: _,
                    doc: _,
                    default_value: _,
                    positional: _,
                    is_mandatory,
                } && is_mandatory
                &&& forall|j: int| 0 <= j < i ==> !((#[trigger] func.params@[j]) is KwargsDict)
            }
            &&& i < s.parameters@.len() ==> match func.params@[i] {
                BuiltinFunctionParam::Simple {
                    name,
                    type_ref: _,
                    doc: _,
                    default_value: _,
                    positional,
                    is_mandatory: _,
                } => {
                    &&& s.parameters@[i].label() == Some(name@)
                    &&& s.parameters@[i].shape is PositionalOrKeyword <==> positional
                },
                BuiltinFunctionParam::ArgsList { .. } => s.parameters@[i].shape is Variadic,
                BuiltinFunctionParam::KwargsDict { .. } => s.parameters@[i].shape
                    is KeywordVariadic,
            }
        },
{
    if let TyKind::BuiltinFunction(func) = callee {
        shown_builtins_end(func.params@, 0);
        if i < s.parameters@.len() {
            a_call_lacks_what_it_has_to_pass(s, matched, i);
            assert(crate::call::builtin_parameter(func.params@[i], false, i, s.parameters@[i]));
            assert forall|j: int| 0 <= j < i implies !((#[trigger] func.params@[j])
                is KwargsDict) by {}
        } else {
            assert(func.params@[s.parameters@.len() - 1] is KwargsDict);
        }
    }
}

/// A call of a function of the language that passes nothing lacks exactly the places
/// that are not optional.
pub proof fn an_intrinsic_lacks_what_is_not_optional(
    cx: CalleeContext,
    callee: TyKind,
    s: Signature,
    matched: Seq<bool>,
    i: int,
)
    requires
        signature_of(cx, callee, Some(s)),
        matched.len() == s.parameters@.len(),
        callee matches TyKind::IntrinsicFunction(func) && 0 <= i < func.params@.len(),
        forall|j: int| 0 <= j < matched.len() ==> !#[trigger] matched[j],
    ensures
        callee matches TyKind::IntrinsicFunction(func) ==> (lacks(s, matched, i) <==> {
            func.params@[i] matches IntrinsicFunctionParam::Positional { ty: _, optional: false }
        }),
{
    if let TyKind::IntrinsicFunction(func) = callee {
        a_call_lacks_what_it_has_to_pass(s, matched, i);
        assert(crate::call::intrinsic_parameter(func.params@[i], i, s.parameters@[i]));
    }
}

/// Only what is called with attributes, and a provider, takes arguments that it does
/// not declare, and only a macro refuses names.
pub proof fn attributes_may_be_unknown(cx: CalleeContext, callee: TyKind, s: Signature)
    requires
        signature_of(cx, callee, Some(s)),
    ensures
        s.allow_unknown <==> callee is Rule || callee is Tag || callee is Macro
            || callee is Provider || callee is ProviderRawConstructor,
        s.attributes <==> callee is Rule || callee is Tag || callee is Macro,
        forall|name: Seq<char>| #[trigger]
            is_disallowed(s, name) <==> callee is Macro && texts(cx.disallowed@).contains(name),
{
    assert forall|name: Seq<char>| #[trigger] is_disallowed(s, name) <==> callee is Macro && texts(
        cx.disallowed@,
    ).contains(name) by {
        if callee is Macro {
            if is_disallowed(s, name) {
                let i = choose|i: int|
                    0 <= i < s.disallowed@.len() && (#[trigger] s.disallowed@[i])@ == name;
                assert(texts(s.disallowed@)[i] == name);
            }
            if texts(cx.disallowed@).contains(name) {
                let i = choose|i: int|
                    0 <= i < texts(cx.disallowed@).len() && texts(cx.disallowed@)[i] == name;
                assert(texts(s.disallowed@)[i] == s.disallowed@[i]@);
            }
        }
    }
}

/// An argument with a name is bound to the parameter of that name. It is an error if
/// the name may not be set, if there is no such parameter and none may be unknown, and
/// if the parameter or the name had an argument before.
pub proof fn named_arguments_are_bound_by_name(
    s: Signature,
    name: Name,
    value: CallValue,
    repeated: bool,
    found: Option<usize>,
    duplicate: bool,
)
    ensures
        ({
            let arg = ExpandedArgument::Keyword(name, value);
            let asked = step_of(s, arg, repeated, Stage::Start, Reply::Nothing);
            let told = step_of(s, arg, repeated, asked.0, Reply::Index(found));
            let done = step_of(s, arg, repeated, told.0, Reply::Flag(duplicate));
            &&& asked.1 == Action::FindKeyword
            &&& asked.2 is Some <==> is_disallowed(s, name@)
            &&& asked.2 matches Some(text) ==> text == "Cannot set attribute \""@ + name@ + "\""@
            &&& match found {
                Some(i) => {
                    &&& told.1 == Action::Assign(i)
                    &&& told.2 is None
                    &&& done.1 == Action::Done
                    &&& done.2 is Some <==> duplicate || repeated
                    &&& done.2 matches Some(text) ==> text
                        == "Multiple arguments for parameter \""@ + name@ + "\""@
                },
                None => {
                    &&& told.1 == Action::Done
                    &&& told.2 is Some <==> !s.allow_unknown
                    &&& told.2 matches Some(text) ==> text == "Unexpected keyword argument \""@
                        + name@ + "\""@
                },
            }
        }),
{
}

/// An argument without a name is bound to the next place. It is an error if there is
/// none and none may be unknown, and if the parameter had an argument before.
pub proof fn other_arguments_are_bound_by_place(
    s: Signature,
    value: CallValue,
    repeated: bool,
    found: Option<usize>,
    duplicate: bool,
)
    ensures
        ({
            let arg = ExpandedArgument::Positional(value);
            let asked = step_of(s, arg, repeated, Stage::Start, Reply::Nothing);
            let told = step_of(s, arg, repeated, asked.0, Reply::Index(found));
            let done = step_of(s, arg, repeated, told.0, Reply::Flag(duplicate));
            &&& asked.1 == Action::NextPositional
            &&& asked.2 is None
            &&& match found {
                Some(i) => {
                    &&& told.1 == Action::Assign(i)
                    &&& told.2 is None
                    &&& done.1 == Action::Done
                    &&& done.2 is Some <==> duplicate
                    &&& duplicate && i < s.parameters@.len()
                        && s.parameters@[i as int].label() is Some ==> done.2->0
                        == "Multiple arguments for parameter \""@
                        + s.parameters@[i as int].label()->0 + "\""@
                },
                None => {
                    &&& told.1 == Action::Done
                    &&& told.2 is Some <==> !s.allow_unknown
                    &&& told.2 matches Some(text) ==> text == "Unexpected positional argument"@
                },
            }
        }),
{
}

/// An unpacked list takes the open places one after the other, until none is left or
/// a name claims one, and then the parameter for the remaining places. It is never an
/// error that there is none.
pub proof fn an_unpacked_list_takes_open_places(
    s: Signature,
    value: CallValue,
    repeated: bool,
    open: Option<usize>,
    claimed: bool,
    next: usize,
    rest: Option<usize>,
    duplicate: bool,
)
    ensures
        ({
            let arg = ExpandedArgument::Variadic(value);
            let asked = step_of(s, arg, repeated, Stage::Start, Reply::Nothing);
            let opened = step_of(s, arg, repeated, asked.0, Reply::Index(open));
            let claim = step_of(s, arg, repeated, opened.0, Reply::Flag(claimed));
            let taken = step_of(s, arg, repeated, claim.0, Reply::Index(Some(next)));
            let filled = step_of(s, arg, repeated, taken.0, Reply::Flag(duplicate));
            let left = if open is None {
                opened
            } else {
                claim
            };
            let last = step_of(s, arg, repeated, left.0, Reply::Index(rest));
            let done = step_of(s, arg, repeated, last.0, Reply::Flag(duplicate));
            &&& asked.1 == Action::OpenPosition
            &&& open matches Some(i) ==> opened.1 == Action::KeywordReserved(i)
            &&& open is Some && !claimed ==> {
                &&& claim.1 == Action::NextPositional
                &&& taken.1 == Action::Assign(next)
                &&& filled.0 == asked.0 && filled.1 == asked.1
                &&& filled.2 is Some <==> duplicate
            }
            &&& open is None || claimed ==> {
                &&& left.1 == Action::VariadicIndex
                &&& rest matches Some(i) ==> last.1 == Action::Assign(i) && done.1 == Action::Done
                    && (done.2 is Some <==> duplicate)
                &&& rest is None ==> last.1 == Action::Done && last.2 is None
            }
        }),
{
}

proof fn next_is_named(args: Seq<ExpandedArgument>, k: int)
    requires
        0 <= k <= args.len(),
    ensures
        k <= next_named(args, k) <= args.len(),
        next_named(args, k) < args.len() ==> name_of(args[next_named(args, k)]) is Some,
        forall|j: int| k <= j < next_named(args, k) ==> name_of(#[trigger] args[j]) is None,
    decreases args.len() - k,
{
    if k < args.len() && name_of(args[k]) is None {
        next_is_named(args, k + 1);
    }
}

/// The names that are passed are announced one after the other, none is left out, and
/// binding starts once there are no more.
pub proof fn every_name_is_announced(
    s: Signature,
    args: Seq<ExpandedArgument>,
    b: BindView,
    reply: Reply,
    k: usize,
)
    requires
        b.phase == Phase::Announcing,
        0 <= b.at <= args.len() <= usize::MAX,
    ensures
        ({
            let is_next = b.at <= k < args.len() && name_of(args[k as int]) is Some && forall|j: int|
                b.at <= j < k ==> name_of(#[trigger] args[j]) is None;
            is_next ==> bind_next(s, args, b, reply) == (
                BindView { at: k + 1, ..b },
                BindAction::Announce { argument: k },
            )
        }),
        (forall|j: int| b.at <= j < args.len() ==> name_of(#[trigger] args[j]) is None) ==> bind_next(
            s,
            args,
            b,
            reply,
        ) == crate::bind::bound_next(
            s,
            args,
            BindView { phase: Phase::Binding, at: 0, stage: Stage::Start, ..b },
            Reply::Nothing,
        ),
{
    next_is_named(args, b.at);
    let n = next_named(args, b.at);
    if b.at <= k < args.len() && name_of(args[k as int]) is Some && (forall|j: int|
        b.at <= j < k ==> name_of(#[trigger] args[j]) is None) {
        if n < k {
            assert(name_of(args[n]) is None);
        } else if k < n {
            assert(name_of(args[k as int]) is None);
        }
    }
}

/// The name of an argument is known once the argument is done, and no name is forgotten.
pub proof fn names_are_remembered(args: Seq<ExpandedArgument>, b: BindView, action: Action)
    requires
        0 <= b.at < args.len(),
    ensures
        name_of(args[b.at]) matches Some(name) ==> passed(args, b, action).names.contains(name),
        forall|name: Seq<char>| #[trigger]
            b.names.contains(name) ==> passed(args, b, action).names.contains(name),
        passed(args, b, action).errors == b.errors,
        passed(args, b, action).at == b.at + 1,
        action == Action::Defer ==> passed(args, b, action).deferred == b.deferred.push(
            b.at as usize,
        ),
        action != Action::Defer ==> passed(args, b, action).deferred == b.deferred,
{
    let after = passed(args, b, action).names;
    if let Some(name) = name_of(args[b.at]) {
        assert(after[after.len() - 1] == name);
    }
    assert forall|name: Seq<char>| #[trigger] b.names.contains(name) implies after.contains(
        name,
    ) by {
        let k = choose|k: int| 0 <= k < b.names.len() && b.names[k] == name;
        assert(after[k] == name);
    }
}

/// A name that is passed a second time is an error at the second argument, and so is an
/// argument for a parameter that has one; anything else that is assigned is none.
pub proof fn repeated_arguments_are_errors(
    s: Signature,
    args: Seq<ExpandedArgument>,
    b: BindView,
    i: usize,
    duplicate: bool,
)
    requires
        0 <= b.at < args.len(),
        b.stage == Stage::Assigning(i),
        args[b.at] is Keyword,
    ensures
        ({
            let (after, action) = answered(s, args, b, Reply::Flag(duplicate));
            &&& action == Action::Done
            &&& after.errors.len() == b.errors.len() + 1 <==> duplicate || b.names.contains(
                name_of(args[b.at])->0,
            )
            &&& after.errors.len() > b.errors.len() ==> after.errors.last().0 == expr_of(
                args[b.at],
            ) && after.errors.drop_last() == b.errors
            &&& after.errors.len() <= b.errors.len() ==> after.errors == b.errors
        }),
{
    let (after, action) = answered(s, args, b, Reply::Flag(duplicate));
    if after.errors.len() > b.errors.len() {
        assert(after.errors.drop_last() =~= b.errors);
    }
}

/// An unpacked dictionary is put off until all else is bound. Those that were put off
/// come then, in their order.
pub proof fn dictionaries_are_bound_last(
    s: Signature,
    args: Seq<ExpandedArgument>,
    b: BindView,
)
    requires
        0 <= b.at,
    ensures
        b.at < args.len() && b.stage == Stage::Start && args[b.at] is Keywords ==> answered(
            s,
            args,
            b,
            Reply::Nothing,
        ).1 == Action::Defer,
        b.at < b.deferred.len() ==> expanded_next(b) == (
            BindView { at: b.at + 1, ..b },
            BindAction::Expand { argument: b.deferred[b.at] },
        ),
        b.at >= b.deferred.len() ==> expanded_next(b).1 == BindAction::Finished,
{
}

/// Whether an expression leads to another through parentheses alone.
pub open spec fn is_around(exprs: Seq<Expr>, outer: ExprId, inner: ExprId) -> bool
    decreases outer.0,
{
    outer == inner || (outer.0 < exprs.len() && (exprs[outer.0 as int] matches Expr::Paren { expr }
        && expr.0 < outer.0 && is_around(exprs, expr, inner)))
}

/// What is inside of parentheses is no longer in any.
pub proof fn parentheses_do_not_matter(m: Module, id: ExprId)
    requires
        m.wf(),
        id.0 < m.exprs@.len(),
    ensures
        inside_parens(m.exprs@, id).0 < m.exprs@.len(),
        !(m.exprs@[inside_parens(m.exprs@, id).0 as int] is Paren),
        is_around(m.exprs@, id, inside_parens(m.exprs@, id)),
    decreases id.0,
{
    assert(crate::def::expr_below(m.params@, m.exprs@[id.0 as int], id.0 as nat));
    if let Expr::Paren { expr } = m.exprs@[id.0 as int] {
        parentheses_do_not_matter(m, expr);
    }
}

/// The expression that an argument passes, after unpacking.
pub open spec fn passes(arg: ExpandedArgument, expr: ExprId) -> bool {
    expr_of(arg) == expr
}

/// An unpacked list passes its elements by their places if it is written out, a tuple of
/// known length passes its values, and anything else what is not known.
pub proof fn unpacked_lists_pass_their_elements(
    m: Module,
    expr: ExprId,
    ty: Ty,
    out: Seq<ExpandedArgument>,
)
    requires
        expands_to(m, Argument::UnpackedList { expr }, ty, out),
    ensures
        ({
            let source = m.exprs@[inside_parens(m.exprs@, expr).0 as int];
            &&& source matches Expr::List { exprs } ==> out.len() == exprs@.len() && forall|i: int|
                0 <= i < out.len() ==> (#[trigger] out[i]) is Positional && passes(
                    out[i],
                    exprs@[i],
                )
            &&& source matches Expr::Tuple { exprs } ==> out.len() == exprs@.len() && forall|i: int|
                0 <= i < out.len() ==> (#[trigger] out[i]) is Positional && passes(
                    out[i],
                    exprs@[i],
                )
            &&& !(source is List) && !(source is Tuple) && !(*ty matches TyKind::Tuple(
                Tuple::Simple(_),
            )) ==> out.len() == 1 && out[0] is Variadic && passes(out[0], expr)
        }),
{
}

/// An unpacked dictionary passes its entries under their keys if it is written out with
/// strings as keys, and else what is not known.
pub proof fn unpacked_dictionaries_pass_their_entries(
    m: Module,
    expr: ExprId,
    ty: Ty,
    out: Seq<ExpandedArgument>,
)
    requires
        expands_to(m, Argument::UnpackedDict { expr }, ty, out),
    ensures
        m.exprs@[inside_parens(m.exprs@, expr).0 as int] matches Expr::Dict { entries } ==> {
            ||| out.len() == entries@.len() && forall|i: int|
                0 <= i < out.len() ==> passes(#[trigger] out[i], entries@[i].value) && (
                m.exprs@[entries@[i].key.0 as int] matches Expr::Literal {
                    literal: Literal::Str(key),
                } && name_of(out[i]) == Some(key@))
            ||| out.len() == 1 && out[0] is Keywords && passes(out[0], expr) && exists|i: int|
                0 <= i < entries@.len() && !(m.exprs@[(#[trigger] entries@[i]).key.0 as int] matches
                    Expr::Literal { literal: Literal::Str(_) })
        },
        !(m.exprs@[inside_parens(m.exprs@, expr).0 as int] is Dict) ==> out.len() == 1 && out[0]
            is Keywords && passes(out[0], expr),
{
    let source = m.exprs@[inside_parens(m.exprs@, expr).0 as int];
    if let Expr::Dict { entries } = source {
        if crate::call::is_closed(m.exprs@, entries@) {
            assert forall|i: int| 0 <= i < out.len() implies passes(
                #[trigger] out[i],
                entries@[i].value,
            ) && (m.exprs@[entries@[i].key.0 as int] matches Expr::Literal {
                literal: Literal::Str(key),
            } && name_of(out[i]) == Some(key@)) by {
                assert(crate::call::named_entry(m.exprs@, entries@[i], out[i]));
            }
        }
    }
}

/// The arguments that are out of order are those that have an error, each with its own.
pub proof fn misplaced_arguments_are_errors(
    args: Seq<Argument>,
    n: nat,
    i: int,
    message: Seq<char>,
)
    requires
        n <= args.len(),
    ensures
        order_errors(args, n).contains((i, message)) <==> 0 <= i < n && order_error(args, i) == Some(
            message,
        ),
    decreases n,
{
    if n > 0 {
        misplaced_arguments_are_errors(args, (n - 1) as nat, i, message);
        let before = order_errors(args, (n - 1) as nat);
        let now = order_errors(args, n);
        if let Some(own) = order_error(args, n - 1) {
            assert(now[now.len() - 1] == (n - 1, own));
            if before.contains((i, message)) {
                let k = choose|k: int| 0 <= k < before.len() && before[k] == (i, message);
                assert(now[k] == (i, message));
            }
            if now.contains((i, message)) {
                let k = choose|k: int| 0 <= k < now.len() && now[k] == (i, message);
                if k < before.len() {
                    assert(before[k] == (i, message));
                }
            }
        }
    }
}

} // verus!
