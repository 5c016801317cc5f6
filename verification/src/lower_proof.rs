//! Additions to a module keep what it already means.

use vstd::prelude::*;

use crate::def::{
    expr_below, opt_below, params_below, stmt_below, stmts_below, Argument, AssignmentSource,
    CompClause, DictEntry, ElseBranch, Expr, ExprId, LoadItemId, Module, Param, ParamId, Stmt,
    StmtId, TypeCommentOwner, TypeRef, TypeShape,
};
use crate::lower_records::{implementation, outline_errors, plain_name, Outline};
use crate::lower_spec::{
    arg_at, args_at, assigned_type, bare_at, below_parens, chain_at, chain_len, comment_of,
    comp_at, comp_sources, compare_ops_of, covered, def_comment, doc_text, entries_at, expr_at,
    expr_opt_at, exprs_at, func_param_shapes, grows, has_bare_range, has_range, has_stmt, hull_opt,
    impl_fn_name, insert_slot, is_load, last_else, load_at, load_item_at, load_skip, logic_ops_of,
    param_at, param_errors, param_typed, params_at, params_of, paren_count, reported, slot_count,
    slot_gap, slot_order, slot_range, stmt_at, stmts_at, suite_at, tail_at, tail_range, targets_at,
    tested, wrapped, Lowering,
};
use crate::ops::BinaryOp;
use crate::syntax;
use crate::syntax::{
    ArgItem, Clause, Comprehension, DictItem, ExprKind, Parameters, Source, Span, StmtKind,
};

verus! {

/// Growing keeps membership.
pub proof fn kept_member<T>(a: Seq<T>, b: Seq<T>, x: T)
    requires
        grows(a, b),
        a.contains(x),
    ensures
        b.contains(x),
{
    let i = choose|i: int| 0 <= i < a.len() && a[i] == x;
    assert(b[i] == x);
}

/// Growing is transitive.
pub proof fn grows_on<T>(a: Seq<T>, b: Seq<T>, c: Seq<T>)
    requires
        grows(a, b),
        grows(b, c),
    ensures
        grows(a, c),
{
    assert forall|i: int| 0 <= i < a.len() implies #[trigger] a[i] == c[i] by {
        assert(b[i] == c[i]);
    }
}

/// Adding to a module twice is adding to it.
pub proof fn leads_on(a: Lowering, b: Lowering, c: Lowering)
    requires
        a.leads_to(b),
        b.leads_to(c),
    ensures
        a.leads_to(c),
{
    grows_on(a.module.exprs@, b.module.exprs@, c.module.exprs@);
    grows_on(a.module.stmts@, b.module.stmts@, c.module.stmts@);
    grows_on(a.module.params@, b.module.params@, c.module.params@);
    grows_on(a.module.load_items@, b.module.load_items@, c.module.load_items@);
    grows_on(
        a.module.param_to_def_stmt@,
        b.module.param_to_def_stmt@,
        c.module.param_to_def_stmt@,
    );
    grows_on(
        a.module.assignment_sources@,
        b.module.assignment_sources@,
        c.module.assignment_sources@,
    );
    grows_on(
        a.module.call_expr_with_impl_fn@,
        b.module.call_expr_with_impl_fn@,
        c.module.call_expr_with_impl_fn@,
    );
    grows_on(
        a.source_map.expr_map_back@,
        b.source_map.expr_map_back@,
        c.source_map.expr_map_back@,
    );
    grows_on(
        a.source_map.stmt_map_back@,
        b.source_map.stmt_map_back@,
        c.source_map.stmt_map_back@,
    );
    grows_on(
        a.source_map.param_map_back@,
        b.source_map.param_map_back@,
        c.source_map.param_map_back@,
    );
    grows_on(
        a.source_map.load_item_map_back@,
        b.source_map.load_item_map_back@,
        c.source_map.load_item_map_back@,
    );
    grows_on(a.source_map.expr_nodes@, b.source_map.expr_nodes@, c.source_map.expr_nodes@);
    grows_on(a.source_map.stmt_nodes@, b.source_map.stmt_nodes@, c.source_map.stmt_nodes@);
    grows_on(a.source_map.param_nodes@, b.source_map.param_nodes@, c.source_map.param_nodes@);
    grows_on(
        a.source_map.load_item_nodes@,
        b.source_map.load_item_nodes@,
        c.source_map.load_item_nodes@,
    );
    grows_on(
        a.source_map.function_names@,
        b.source_map.function_names@,
        c.source_map.function_names@,
    );
    grows_on(
        a.source_map.keyword_names@,
        b.source_map.keyword_names@,
        c.source_map.keyword_names@,
    );
    grows_on(
        a.source_map.type_comment_owners@,
        b.source_map.type_comment_owners@,
        c.source_map.type_comment_owners@,
    );
    grows_on(a.errors@, b.errors@, c.errors@);
}

/// Additions keep a place in the source.
pub proof fn kept_located(a: Lowering, b: Lowering, id: ExprId, range: Span)
    requires
        a.leads_to(b),
        a.located(id, range),
    ensures
        b.located(id, range),
        b.module.exprs@[id.0 as int] == a.module.exprs@[id.0 as int],
{
    assert(a.source_map.expr_map_back@[id.0 as int] == b.source_map.expr_map_back@[id.0 as int]);
    assert(a.module.exprs@[id.0 as int] == b.module.exprs@[id.0 as int]);
}

/// Additions keep a synthetic expression.
pub proof fn kept_missing(a: Lowering, b: Lowering, id: ExprId)
    requires
        a.leads_to(b),
        a.missing(id),
    ensures
        b.missing(id),
        b.module.exprs@[id.0 as int] == a.module.exprs@[id.0 as int],
{
    assert(a.source_map.expr_map_back@[id.0 as int] == b.source_map.expr_map_back@[id.0 as int]);
    assert(a.module.exprs@[id.0 as int] == b.module.exprs@[id.0 as int]);
}

/// Additions keep parentheses.
pub proof fn kept_wrapped(a: Lowering, b: Lowering, parens: Seq<Span>, n: nat, id: ExprId)
    requires
        a.leads_to(b),
        wrapped(a, parens, n, id),
    ensures
        wrapped(b, parens, n, id),
        below_parens(b.module.exprs@, id, n) == below_parens(a.module.exprs@, id, n),
    decreases n,
{
    if n > 0 {
        kept_located(a, b, id, parens[n - 1]);
        match a.module.exprs@[id.0 as int] {
            Expr::Paren { expr } => kept_wrapped(a, b, parens, (n - 1) as nat, expr),
            _ => {},
        }
    }
}

/// Additions keep where the value of an expression goes.
pub proof fn kept_flow(a: Lowering, b: Lowering, id: ExprId, target: AssignmentSource)
    requires
        a.leads_to(b),
        a.flows_to(id, target),
    ensures
        b.flows_to(id, target),
{
    assert(a.source_map.expr_map_back@[id.0 as int] == b.source_map.expr_map_back@[id.0 as int]);
    if a.source_map.expr_map_back@[id.0 as int] is Some {
        kept_member(
            a.module.assignment_sources@,
            b.module.assignment_sources@,
            (id, target),
        );
    }
}

/// A lowered expression exists, and has a range exactly where its syntax says so.
pub proof fn expr_exists(src: Source, e: syntax::Expr, parent: Span, st: Lowering, id: ExprId)
    requires
        expr_at(src, e, parent, st, id),
    ensures
        id.0 < st.module.exprs@.len(),
        id.0 < st.source_map.expr_map_back@.len(),
        st.source_map.expr_map_back@[id.0 as int] is Some <==> has_range(e, parent),
        st.module.exprs@[id.0 as int] is Missing <==> !has_range(e, parent),
    decreases e, 1nat,
{
    if paren_count(e, parent) == 0 {
        bare_exists(src, e, st, id);
    }
}

/// The same of a lowered expression without its parentheses.
pub proof fn bare_exists(src: Source, e: syntax::Expr, st: Lowering, id: ExprId)
    requires
        bare_at(src, e, st, id),
    ensures
        id.0 < st.module.exprs@.len(),
        id.0 < st.source_map.expr_map_back@.len(),
        st.source_map.expr_map_back@[id.0 as int] is Some <==> has_bare_range(e),
        st.module.exprs@[id.0 as int] is Missing <==> !has_bare_range(e),
    decreases e, 0nat,
{
    if e.supported {
        match e.kind {
            ExprKind::Bool2 { op, values } => {
                let ops = logic_ops_of(op, values@.len());
                if chain_len(values@.len(), ops.len()) == 1 {
                    expr_exists(src, values@[0], e.range, st, id);
                }
            },
            ExprKind::Compare { operands, ops } => {
                if chain_len(operands@.len(), ops@.len()) == 1 {
                    expr_exists(src, operands@[0], e.range, st, id);
                }
            },
            _ => {},
        }
    }
}

/// Additions keep what an expression means.
pub proof fn kept_expr(
    src: Source,
    e: syntax::Expr,
    parent: Span,
    a: Lowering,
    b: Lowering,
    id: ExprId,
)
    requires
        a.leads_to(b),
        expr_at(src, e, parent, a, id),
    ensures
        expr_at(src, e, parent, b, id),
    decreases e, 1nat,
{
    let n = paren_count(e, parent);
    kept_wrapped(a, b, e.parens@, n, id);
    let bare = below_parens(a.module.exprs@, id, n);
    kept_bare(src, e, a, b, bare);
    bare_exists(src, e, a, bare);
    assert(a.module.exprs@[bare.0 as int] == b.module.exprs@[bare.0 as int]);
    if !(a.module.exprs@[bare.0 as int] is Missing) {
        kept_member(a.source_map.expr_nodes@, b.source_map.expr_nodes@, (e.node, bare));
    }
}

/// Additions keep what a list of expressions means.
pub proof fn kept_exprs(
    src: Source,
    elts: Seq<syntax::Expr>,
    parent: Span,
    a: Lowering,
    b: Lowering,
    ids: Seq<ExprId>,
)
    requires
        a.leads_to(b),
        exprs_at(src, elts, parent, a, ids),
    ensures
        exprs_at(src, elts, parent, b, ids),
    decreases elts, 0nat,
{
    assert forall|i: int| 0 <= i < elts.len() implies expr_at(
        src,
        elts[i],
        parent,
        b,
        #[trigger] ids[i],
    ) by {
        kept_expr(src, elts[i], parent, a, b, ids[i]);
    }
}

/// Additions keep what an optional expression means.
pub proof fn kept_expr_opt(
    src: Source,
    e: Option<Box<syntax::Expr>>,
    parent: Span,
    a: Lowering,
    b: Lowering,
    id: Option<ExprId>,
)
    requires
        a.leads_to(b),
        expr_opt_at(src, e, parent, a, id),
    ensures
        expr_opt_at(src, e, parent, b, id),
    decreases e, 0nat,
{
    match (e, id) {
        (Some(e), Some(id)) => kept_expr(src, *e, parent, a, b, id),
        _ => {},
    }
}

/// Additions keep what a chain of operands means.
pub proof fn kept_chain(
    src: Source,
    values: Seq<syntax::Expr>,
    ops: Seq<Option<BinaryOp>>,
    parent: Span,
    a: Lowering,
    b: Lowering,
    id: ExprId,
    k: nat,
)
    requires
        a.leads_to(b),
        chain_at(src, values, ops, parent, a, id, k),
    ensures
        chain_at(src, values, ops, parent, b, id, k),
    decreases values, k,
{
    if k == 0 || k > values.len() {
        kept_missing(a, b, id);
    } else if k == 1 {
        kept_expr(src, values[0], parent, a, b, id);
    } else {
        kept_located(a, b, id, crate::lower_spec::chain_range(values, parent, k));
        match a.module.exprs@[id.0 as int] {
            Expr::Binary { lhs, rhs, op } => {
                kept_chain(src, values, ops, parent, a, b, lhs, (k - 1) as nat);
                kept_expr(src, values[k - 1], parent, a, b, rhs);
            },
            _ => {},
        }
    }
}

/// Additions keep what the arguments of a call mean.
pub proof fn kept_args(
    src: Source,
    items: Seq<ArgItem>,
    range: Span,
    a: Lowering,
    b: Lowering,
    args: Seq<Argument>,
)
    requires
        a.leads_to(b),
        args_at(src, items, range, a, args),
    ensures
        args_at(src, items, range, b, args),
        impl_fn_name(b.module.exprs@, args, 0) == impl_fn_name(a.module.exprs@, args, 0),
        forall|i: int| 0 <= i < args.len() ==> (#[trigger] args[i]).value().0 < a.module.exprs@.len(),
    decreases items, 0nat,
{
    assert forall|i: int| 0 <= i < items.len() implies arg_at(
        src,
        items[i],
        range,
        b,
        #[trigger] args[i],
    ) && args[i].value().0 < a.module.exprs@.len() by {
        kept_arg(src, items[i], range, a, b, args[i]);
    }
    same_impl_fn(a.module.exprs@, b.module.exprs@, args, 0);
}

/// The implementation function of a call depends on its arguments alone.
pub proof fn same_impl_fn(a: Seq<Expr>, b: Seq<Expr>, args: Seq<Argument>, k: int)
    requires
        grows(a, b),
        forall|i: int| 0 <= i < args.len() ==> (#[trigger] args[i]).value().0 < a.len(),
    ensures
        impl_fn_name(b, args, k) == impl_fn_name(a, args, k),
    decreases args.len() - k,
{
    if 0 <= k < args.len() {
        same_impl_fn(a, b, args, k + 1);
        let id = args[k].value();
        assert(a[id.0 as int] == b[id.0 as int]);
    }
}

/// Additions keep what an argument of a call means.
pub proof fn kept_arg(
    src: Source,
    item: ArgItem,
    range: Span,
    a: Lowering,
    b: Lowering,
    arg: Argument,
)
    requires
        a.leads_to(b),
        arg_at(src, item, range, a, arg),
    ensures
        arg_at(src, item, range, b, arg),
        arg.value().0 < a.module.exprs@.len(),
    decreases item, 0nat,
{
    match item {
        ArgItem::Arg(e) => match e.kind {
            ExprKind::Starred { value } => match arg {
                Argument::UnpackedList { expr } => {
                    kept_expr(src, *value, e.range, a, b, expr);
                    expr_exists(src, *value, e.range, a, expr);
                },
                _ => {},
            },
            _ => match arg {
                Argument::Simple { expr } => {
                    kept_expr(src, e, range, a, b, expr);
                    expr_exists(src, e, range, a, expr);
                },
                _ => {},
            },
        },
        ArgItem::Keyword { range: _, node: _, name: Some(written), value } => match arg {
            Argument::Keyword { name, expr } => {
                kept_expr(src, value, range, a, b, expr);
                expr_exists(src, value, range, a, expr);
                kept_member(
                    a.source_map.keyword_names@,
                    b.source_map.keyword_names@,
                    (expr, written.range),
                );
            },
            _ => {},
        },
        ArgItem::Keyword { range: _, node: _, name: None, value } => match arg {
            Argument::UnpackedDict { expr } => {
                kept_expr(src, value, range, a, b, expr);
                expr_exists(src, value, range, a, expr);
            },
            _ => {},
        },
    }
}

/// Additions keep what the target of a loop means.
pub proof fn kept_targets(
    src: Source,
    target: syntax::Expr,
    parent: Span,
    a: Lowering,
    b: Lowering,
    targets: Seq<ExprId>,
)
    requires
        a.leads_to(b),
        targets_at(src, target, parent, a, targets),
    ensures
        targets_at(src, target, parent, b, targets),
    decreases target, 2nat,
{
    match target.kind {
        ExprKind::Tuple { elts, parenthesized: false } => kept_exprs(
            src,
            elts@,
            target.range,
            a,
            b,
            targets,
        ),
        _ => kept_expr(src, target, parent, a, b, targets[0]),
    }
}

/// Additions keep what the generators of a comprehension mean.
pub proof fn kept_comp(
    src: Source,
    generators: Seq<Comprehension>,
    a: Lowering,
    b: Lowering,
    clauses: Seq<CompClause>,
)
    requires
        a.leads_to(b),
        comp_at(src, generators, a, clauses),
    ensures
        comp_at(src, generators, b, clauses),
    decreases generators, 0nat,
{
    if generators.len() > 0 {
        let g = generators.last();
        let base = clauses.len() - g.ifs@.len() - 1;
        kept_comp(src, generators.drop_last(), a, b, clauses.take(base));
        match clauses[base] {
            CompClause::For { iterable, targets } => {
                kept_expr(src, g.iter, g.range, a, b, iterable);
                kept_targets(src, g.target, g.range, a, b, targets@);
            },
            _ => {},
        }
        assert forall|j: int| 0 <= j < g.ifs@.len() implies match #[trigger] clauses[base + 1 + j] {
            CompClause::If { test } => expr_at(src, g.ifs@[j], g.range, b, test),
            _ => false,
        } by {
            match clauses[base + 1 + j] {
                CompClause::If { test } => kept_expr(src, g.ifs@[j], g.range, a, b, test),
                _ => {},
            }
        }
    }
}

/// Additions keep where the elements of iterables go.
pub proof fn kept_comp_sources(a: Lowering, b: Lowering, clauses: Seq<CompClause>, id: ExprId)
    requires
        a.leads_to(b),
        comp_sources(a, clauses, id),
    ensures
        comp_sources(b, clauses, id),
{
    assert forall|c: int| 0 <= c < clauses.len() implies match #[trigger] clauses[c] {
        CompClause::For { iterable, targets: _ } => b.flows_to(
            iterable,
            AssignmentSource::Comprehension { expression: id, clause: c as usize },
        ),
        _ => true,
    } by {
        match clauses[c] {
            CompClause::For { iterable, targets: _ } => kept_flow(
                a,
                b,
                iterable,
                AssignmentSource::Comprehension { expression: id, clause: c as usize },
            ),
            _ => {},
        }
    }
}

/// Additions keep what the items of a dictionary mean.
pub proof fn kept_entries(
    src: Source,
    items: Seq<DictItem>,
    parent: Span,
    a: Lowering,
    b: Lowering,
    entries: Seq<DictEntry>,
)
    requires
        a.leads_to(b),
        entries_at(src, items, parent, a, entries),
    ensures
        entries_at(src, items, parent, b, entries),
    decreases items, 0nat,
{
    if items.len() > 0 {
        let item = items.last();
        match item.key {
            Some(key) => {
                kept_expr(src, key, parent, a, b, entries.last().key);
                kept_expr(src, item.value, parent, a, b, entries.last().value);
                kept_entries(src, items.drop_last(), parent, a, b, entries.drop_last());
            },
            None => kept_entries(src, items.drop_last(), parent, a, b, entries),
        }
    }
}

/// Additions keep what one place of a list of parameters means.
pub proof fn kept_param(
    src: Source,
    p: Parameters,
    slot: int,
    doc: Option<Seq<char>>,
    a: Lowering,
    b: Lowering,
    id: ParamId,
)
    requires
        a.leads_to(b),
        param_at(src, p, slot, doc, a, id),
    ensures
        param_at(src, p, slot, doc, b, id),
    decreases p, 0nat,
{
    assert(a.module.params@[id.0 as int] == b.module.params@[id.0 as int]);
    assert(a.source_map.param_map_back@[id.0 as int] == b.source_map.param_map_back@[id.0 as int]);
    if 0 <= slot < p.items@.len() {
        let item = p.items@[slot];
        kept_member(a.source_map.param_nodes@, b.source_map.param_nodes@, (item.node, id));
        match item.form {
            syntax::ParameterForm::Plain { default: wanted } => {
                kept_expr_opt(
                    src,
                    wanted,
                    item.owner,
                    a,
                    b,
                    a.module.params@[id.0 as int].default_value(),
                );
            },
            _ => {},
        }
    }
}

/// Additions keep a reported error.
pub proof fn kept_report(
    a: Seq<crate::lower_spec::SyntaxError>,
    b: Seq<crate::lower_spec::SyntaxError>,
    range: Span,
    message: Seq<char>,
)
    requires
        grows(a, b),
        reported(a, range, message),
    ensures
        reported(b, range, message),
{
    let i = choose|i: int|
        0 <= i < a.len() && (#[trigger] a[i]).range == range && a[i].message@ == message;
    assert(b[i].range == range && b[i].message@ == message);
}

/// Additions keep the type of a parameter.
pub proof fn kept_typed(
    src: Source,
    p: Parameters,
    k: int,
    types: Seq<TypeShape>,
    a: Lowering,
    b: Lowering,
    id: ParamId,
)
    requires
        a.leads_to(b),
        id.0 < a.module.params@.len(),
        param_typed(src, p, k, types, a, id),
    ensures
        param_typed(src, p, k, types, b, id),
{
    assert(a.module.params@[id.0 as int] == b.module.params@[id.0 as int]);
    match comment_of(src, slot_gap(p, slot_order(p, slot_count(p)), k)) {
        Some(c) => kept_member(
            a.source_map.type_comment_owners@,
            b.source_map.type_comment_owners@,
            (src.comments@[c].range, crate::def::TypeCommentOwner::Parameter(id)),
        ),
        None => {},
    }
}

/// Additions keep what a list of parameters means.
pub proof fn kept_params(
    src: Source,
    p: Parameters,
    types: Seq<TypeShape>,
    doc: Option<Seq<char>>,
    a: Lowering,
    b: Lowering,
    ids: Seq<ParamId>,
)
    requires
        a.leads_to(b),
        params_at(src, p, types, doc, a, ids),
    ensures
        params_at(src, p, types, doc, b, ids),
    decreases p, 1nat,
{
    let order = slot_order(p, slot_count(p));
    assert forall|k: int| 0 <= k < order.len() implies param_at(
        src,
        p,
        order[k],
        doc,
        b,
        #[trigger] ids[k],
    ) && param_typed(src, p, k, types, b, ids[k]) by {
        kept_param(src, p, order[k], doc, a, b, ids[k]);
        kept_typed(src, p, k, types, a, b, ids[k]);
    }
    assert(params_of(b, ids) =~= params_of(a, ids)) by {
        assert forall|i: int| 0 <= i < ids.len() implies params_of(b, ids)[i] == params_of(
            a,
            ids,
        )[i] by {
            assert(param_at(src, p, order[i], doc, a, ids[i]));
            assert(a.module.params@[ids[i].0 as int] == b.module.params@[ids[i].0 as int]);
        }
    }
    assert forall|k: int, m: int|
        0 <= k < order.len() && 0 <= m < param_errors(params_of(b, ids), k).len() implies reported(
        b.errors@,
        slot_range(p, order[k]),
        #[trigger] param_errors(params_of(b, ids), k)[m],
    ) by {
        kept_report(
            a.errors@,
            b.errors@,
            slot_range(p, order[k]),
            param_errors(params_of(a, ids), k)[m],
        );
    }
}

/// Additions keep what an expression without its parentheses means.
pub proof fn kept_bare(src: Source, e: syntax::Expr, a: Lowering, b: Lowering, id: ExprId)
    requires
        a.leads_to(b),
        bare_at(src, e, a, id),
    ensures
        bare_at(src, e, b, id),
    decreases e, 0nat,
{
    bare_exists(src, e, a, id);
    let node = a.module.exprs@[id.0 as int];
    assert(node == b.module.exprs@[id.0 as int]);
    assert(a.source_map.expr_map_back@[id.0 as int] == b.source_map.expr_map_back@[id.0 as int]);
    if e.supported {
        match e.kind {
            ExprKind::If { test, body, orelse } => match node {
                Expr::If { if_expr, test: condition, else_expr } => {
                    kept_expr(src, *body, e.range, a, b, if_expr);
                    kept_expr(src, *test, e.range, a, b, condition);
                    kept_expr(src, *orelse, e.range, a, b, else_expr);
                },
                _ => {},
            },
            ExprKind::Unary { op, operand } => match node {
                Expr::Unary { expr, op: found } => kept_expr(src, *operand, e.range, a, b, expr),
                _ => {},
            },
            ExprKind::Binary { left, op, right } => match node {
                Expr::Binary { lhs, rhs, op: found } => {
                    kept_expr(src, *left, e.range, a, b, lhs);
                    kept_expr(src, *right, e.range, a, b, rhs);
                },
                _ => {},
            },
            ExprKind::Bool2 { op, values } => {
                let ops = logic_ops_of(op, values@.len());
                kept_chain(
                    src,
                    values@,
                    ops,
                    e.range,
                    a,
                    b,
                    id,
                    chain_len(values@.len(), ops.len()),
                );
            },
            ExprKind::Compare { operands, ops } => kept_chain(
                src,
                operands@,
                compare_ops_of(ops@),
                e.range,
                a,
                b,
                id,
                chain_len(operands@.len(), ops@.len()),
            ),
            ExprKind::Lambda { parameters, body } => match node {
                Expr::Lambda { func, body: value } => {
                    match parameters {
                        Some(p) => kept_params(
                            src,
                            *p,
                            Seq::empty(),
                            None,
                            a,
                            b,
                            func.params@,
                        ),
                        None => {},
                    }
                    kept_expr(src, *body, e.range, a, b, value);
                },
                _ => {},
            },
            ExprKind::List { elts } => match node {
                Expr::List { exprs } => kept_exprs(src, elts@, e.range, a, b, exprs@),
                _ => {},
            },
            ExprKind::Tuple { elts, parenthesized: _ } => match node {
                Expr::Tuple { exprs } => kept_exprs(src, elts@, e.range, a, b, exprs@),
                _ => {},
            },
            ExprKind::ListComp { elt, generators } => match node {
                Expr::ListComp { expr, comp_clauses } => {
                    kept_expr(src, *elt, e.range, a, b, expr);
                    kept_comp(src, generators@, a, b, comp_clauses@);
                    kept_comp_sources(a, b, comp_clauses@, id);
                },
                _ => {},
            },
            ExprKind::Dict { items } => match node {
                Expr::Dict { entries } => kept_entries(src, items@, e.range, a, b, entries@),
                _ => {},
            },
            ExprKind::DictComp { key, value, generators } => match node {
                Expr::DictComp { entry, comp_clauses } => {
                    kept_expr(src, *key, e.range, a, b, entry.key);
                    kept_expr(src, *value, e.range, a, b, entry.value);
                    kept_comp(src, generators@, a, b, comp_clauses@);
                    kept_comp_sources(a, b, comp_clauses@, id);
                },
                _ => {},
            },
            ExprKind::Attribute { value, attr } => match node {
                Expr::Dot { expr, field } => kept_expr(src, *value, e.range, a, b, expr),
                _ => {},
            },
            ExprKind::Call { func, arguments } => match node {
                Expr::Call { callee, args } => {
                    kept_expr(src, *func, e.range, a, b, callee);
                    kept_args(src, arguments.items@, arguments.range, a, b, args@);
                    let name = impl_fn_name(a.module.exprs@, args@, 0);
                    if name is Some {
                        kept_member(
                            a.module.call_expr_with_impl_fn@,
                            b.module.call_expr_with_impl_fn@,
                            (name->0, id),
                        );
                    }
                },
                _ => {},
            },
            ExprKind::Subscript { value, slice } => match slice.kind {
                ExprKind::Slice { lower, upper, step } => match node {
                    Expr::Slice { lhs, start, end, step: stride } => {
                        kept_expr(src, *value, e.range, a, b, lhs);
                        kept_expr_opt(src, lower, e.range, a, b, start);
                        kept_expr_opt(src, upper, e.range, a, b, end);
                        kept_expr_opt(src, step, e.range, a, b, stride);
                    },
                    _ => {},
                },
                _ => match node {
                    Expr::Index { lhs, index } => {
                        kept_expr(src, *value, e.range, a, b, lhs);
                        kept_expr(src, *slice, e.range, a, b, index);
                    },
                    _ => {},
                },
            },
            _ => {},
        }
    }
}

/// Additions keep the parts of an expression below it.
pub proof fn kept_below(a: Seq<Param>, b: Seq<Param>, e: Expr, n: nat)
    requires
        grows(a, b),
        expr_below(a, e, n),
    ensures
        expr_below(b, e, n),
{
    match e {
        Expr::Lambda { func, body } => kept_params_below(a, b, func.params@, n, n),
        _ => {},
    }
}

/// Additions keep the default values of parameters below a bound.
pub proof fn kept_params_below(a: Seq<Param>, b: Seq<Param>, ids: Seq<ParamId>, n: nat, m: nat)
    requires
        grows(a, b),
        n <= m,
        params_below(a, ids, n),
    ensures
        params_below(b, ids, m),
{
    assert forall|i: int| 0 <= i < ids.len() implies (#[trigger] ids[i]).0 < b.len() && opt_below(
        b[ids[i].0 as int].default_value(),
        m,
    ) by {
        assert(a[ids[i].0 as int] == b[ids[i].0 as int]);
    }
}

/// Additions keep the parts of a statement below it.
pub proof fn kept_stmt_below(a: Module, b: Module, s: Stmt, n: nat)
    requires
        grows(a.exprs@, b.exprs@),
        grows(a.params@, b.params@),
        grows(a.load_items@, b.load_items@),
        stmt_below(a, s, n),
    ensures
        stmt_below(b, s, n),
{
    match s {
        Stmt::Def { func, stmts } => kept_params_below(
            a.params@,
            b.params@,
            func.params@,
            a.exprs@.len(),
            b.exprs@.len(),
        ),
        _ => {},
    }
}

/// Additions keep a module's expressions and statements behind their parts.
pub proof fn kept_wf(a: Module, b: Module)
    requires
        a.wf(),
        grows(a.exprs@, b.exprs@),
        grows(a.stmts@, b.stmts@),
        grows(a.params@, b.params@),
        grows(a.load_items@, b.load_items@),
        a.top_level@ == b.top_level@,
    ensures
        forall|i: int|
            0 <= i < a.exprs@.len() ==> expr_below(b.params@, #[trigger] b.exprs@[i], i as nat),
        forall|i: int|
            0 <= i < a.stmts@.len() ==> stmt_below(b, #[trigger] b.stmts@[i], i as nat),
        stmts_below(b.top_level@, b.stmts@.len()),
{
    assert forall|i: int| 0 <= i < a.exprs@.len() implies expr_below(
        b.params@,
        #[trigger] b.exprs@[i],
        i as nat,
    ) by {
        assert(a.exprs@[i] == b.exprs@[i]);
        kept_below(a.params@, b.params@, a.exprs@[i], i as nat);
    }
    assert forall|i: int| 0 <= i < a.stmts@.len() implies stmt_below(
        b,
        #[trigger] b.stmts@[i],
        i as nat,
    ) by {
        assert(a.stmts@[i] == b.stmts@[i]);
        kept_stmt_below(a, b, a.stmts@[i], i as nat);
    }
}

/// The errors of a parameter depend on it and those before it alone.
pub proof fn same_param_errors(a: Seq<Param>, b: Seq<Param>, k: int)
    requires
        0 <= k < a.len(),
        k < b.len(),
        forall|i: int| 0 <= i <= k ==> a[i] == b[i],
    ensures
        param_errors(a, k) == param_errors(b, k),
{
    assert((exists|j: int| 0 <= j < k && #[trigger] a[j] is ArgsList) <==> (exists|j: int|
        0 <= j < k && #[trigger] b[j] is ArgsList)) by {
        if exists|j: int| 0 <= j < k && #[trigger] a[j] is ArgsList {
            let j = choose|j: int| 0 <= j < k && #[trigger] a[j] is ArgsList;
            assert(b[j] is ArgsList);
        }
        if exists|j: int| 0 <= j < k && #[trigger] b[j] is ArgsList {
            let j = choose|j: int| 0 <= j < k && #[trigger] b[j] is ArgsList;
            assert(a[j] is ArgsList);
        }
    }
    assert((exists|j: int| 0 <= j < k && #[trigger] a[j] is KwargsDict) <==> (exists|j: int|
        0 <= j < k && #[trigger] b[j] is KwargsDict)) by {
        if exists|j: int| 0 <= j < k && #[trigger] a[j] is KwargsDict {
            let j = choose|j: int| 0 <= j < k && #[trigger] a[j] is KwargsDict;
            assert(b[j] is KwargsDict);
        }
        if exists|j: int| 0 <= j < k && #[trigger] b[j] is KwargsDict {
            let j = choose|j: int| 0 <= j < k && #[trigger] b[j] is KwargsDict;
            assert(a[j] is KwargsDict);
        }
    }
    assert((exists|j: int|
        0 <= j < k && (#[trigger] a[j]) is Simple && a[j].default_value() is Some) <==> (exists|
        j: int,
    | 0 <= j < k && (#[trigger] b[j]) is Simple && b[j].default_value() is Some)) by {
        if exists|j: int| 0 <= j < k && (#[trigger] a[j]) is Simple && a[j].default_value() is Some {
            let j = choose|j: int|
                0 <= j < k && (#[trigger] a[j]) is Simple && a[j].default_value() is Some;
            assert(b[j] is Simple);
        }
        if exists|j: int| 0 <= j < k && (#[trigger] b[j]) is Simple && b[j].default_value() is Some {
            let j = choose|j: int|
                0 <= j < k && (#[trigger] b[j]) is Simple && b[j].default_value() is Some;
            assert(a[j] is Simple);
        }
    }
    assert((exists|j: int| 0 <= j < k && (#[trigger] a[j]).label() == a[k].label()) <==> (exists|
        j: int,
    | 0 <= j < k && (#[trigger] b[j]).label() == b[k].label())) by {
        if exists|j: int| 0 <= j < k && (#[trigger] a[j]).label() == a[k].label() {
            let j = choose|j: int| 0 <= j < k && (#[trigger] a[j]).label() == a[k].label();
            assert(b[j].label() == b[k].label());
        }
        if exists|j: int| 0 <= j < k && (#[trigger] b[j]).label() == b[k].label() {
            let j = choose|j: int| 0 <= j < k && (#[trigger] b[j]).label() == b[k].label();
            assert(a[j].label() == a[k].label());
        }
    }
}

/// Where a place is put among places that are in order.
pub proof fn insert_place(p: Parameters, order: Seq<int>, k: int, at: int)
    requires
        0 <= at <= order.len(),
        forall|j: int|
            at <= j < order.len() ==> slot_range(p, #[trigger] order[j]).start > slot_range(
                p,
                k,
            ).start,
        at == 0 || slot_range(p, order[at - 1]).start <= slot_range(p, k).start,
    ensures
        insert_slot(p, order, k) == order.insert(at, k),
    decreases order.len(),
{
    if at == order.len() {
        assert(order.insert(at, k) =~= order.push(k));
    } else {
        assert(slot_range(p, order.last()).start > slot_range(p, k).start);
        insert_place(p, order.drop_last(), k, at);
        assert(order.drop_last().insert(at, k).push(order.last()) =~= order.insert(at, k));
    }
}

/// Lowered statements exist.
pub proof fn stmts_exist(src: Source, body: Seq<syntax::Stmt>, st: Lowering, ids: Seq<StmtId>)
    requires
        stmts_at(src, body, st, ids),
    ensures
        stmts_below(ids, st.module.stmts@.len()),
        stmts_below(ids, st.source_map.stmt_map_back@.len()),
    decreases body.len(),
{
    if body.len() > 0 {
        if has_stmt(body.last()) {
            stmts_exist(src, body.drop_last(), st, ids.drop_last());
            assert forall|i: int| 0 <= i < ids.len() implies (#[trigger] ids[i]).0
                < st.module.stmts@.len() && ids[i].0 < st.source_map.stmt_map_back@.len() by {
                if i < ids.len() - 1 {
                    assert(ids.drop_last()[i] == ids[i]);
                } else {
                    assert(stmt_at(src, body.last(), st, ids[i]));
                }
            }
        } else {
            stmts_exist(src, body.drop_last(), st, ids);
        }
    }
}

/// The statements of a suite exist.
pub proof fn suite_exists(
    src: Source,
    body: Seq<syntax::Stmt>,
    suite: Option<Span>,
    st: Lowering,
    ids: Seq<StmtId>,
)
    requires
        suite_at(src, body, suite, st, ids),
    ensures
        stmts_below(ids, st.module.stmts@.len()),
        stmts_below(ids, st.source_map.stmt_map_back@.len()),
{
    if suite is Some {
        stmts_exist(src, body, st, ids);
    }
}

/// Additions keep the range that holds statements.
pub proof fn kept_covered(a: Lowering, b: Lowering, range: Span, ids: Seq<StmtId>)
    requires
        a.leads_to(b),
        stmts_below(ids, a.source_map.stmt_map_back@.len()),
    ensures
        covered(a, range, ids) == covered(b, range, ids),
    decreases ids.len(),
{
    if ids.len() > 0 {
        kept_covered(a, b, range, ids.drop_last());
        assert(ids.last() == ids[ids.len() - 1]);
        assert(a.source_map.stmt_map_back@[ids.last().0 as int]
            == b.source_map.stmt_map_back@[ids.last().0 as int]);
    }
}

/// Additions keep what a list of statements means.
pub proof fn kept_stmts(
    src: Source,
    body: Seq<syntax::Stmt>,
    a: Lowering,
    b: Lowering,
    ids: Seq<StmtId>,
)
    requires
        a.leads_to(b),
        stmts_at(src, body, a, ids),
    ensures
        stmts_at(src, body, b, ids),
    decreases body, 0nat,
{
    if body.len() > 0 {
        if has_stmt(body.last()) {
            kept_stmt(src, body.last(), a, b, ids.last());
            kept_stmts(src, body.drop_last(), a, b, ids.drop_last());
        } else {
            kept_stmts(src, body.drop_last(), a, b, ids);
        }
    }
}

/// Additions keep what a suite means.
pub proof fn kept_suite(
    src: Source,
    body: Seq<syntax::Stmt>,
    suite: Option<Span>,
    a: Lowering,
    b: Lowering,
    ids: Seq<StmtId>,
)
    requires
        a.leads_to(b),
        suite_at(src, body, suite, a, ids),
    ensures
        suite_at(src, body, suite, b, ids),
    decreases body, 1nat,
{
    if suite is Some {
        kept_stmts(src, body, a, b, ids);
    }
}

/// The last clause without a test is one of the clauses.
pub proof fn last_else_in(clauses: Seq<Clause>, n: nat)
    requires
        n <= clauses.len(),
    ensures
        match last_else(clauses, n) {
            Some(k) => 0 <= k < n && clauses[k].test is None,
            None => true,
        },
    decreases n,
{
    if n > 0 && clauses[n - 1].test is Some {
        last_else_in(clauses, (n - 1) as nat);
    }
}

/// The clauses with a test are some of the clauses.
pub proof fn tested_in(clauses: Seq<Clause>, n: nat)
    requires
        n <= clauses.len(),
    ensures
        tested(clauses, n).len() <= n,
        forall|i: int|
            0 <= i < tested(clauses, n).len() ==> 0 <= #[trigger] tested(clauses, n)[i] < n
                && clauses[tested(clauses, n)[i]].test is Some,
    decreases n,
{
    if n > 0 {
        tested_in(clauses, (n - 1) as nat);
    }
}

/// Additions keep what follows the suite of an `if`.
pub proof fn kept_tail(
    src: Source,
    clauses: Seq<Clause>,
    k: nat,
    a: Lowering,
    b: Lowering,
    branch: Option<ElseBranch>,
)
    requires
        a.leads_to(b),
        tail_at(src, clauses, k, a, branch),
    ensures
        tail_at(src, clauses, k, b, branch),
        tail_range(clauses, a, branch) == tail_range(clauses, b, branch),
    decreases clauses, clauses.len() - k,
{
    let order = tested(clauses, clauses.len());
    if k >= order.len() || k >= clauses.len() {
        match (last_else(clauses, clauses.len()), branch) {
            (Some(c), Some(ElseBranch::Else(ids))) => {
                kept_suite(src, clauses[c].body@, clauses[c].suite, a, b, ids@);
                suite_exists(src, clauses[c].body@, clauses[c].suite, a, ids@);
                kept_covered(
                    a,
                    b,
                    hull_opt(clauses[c].range, clauses[c].suite),
                    ids@,
                );
            },
            _ => {},
        }
    } else {
        let at = order[k as int];
        match branch {
            Some(ElseBranch::Elif(id)) => {
                assert(a.module.stmts@[id.0 as int] == b.module.stmts@[id.0 as int]);
                assert(a.source_map.stmt_map_back@[id.0 as int]
                    == b.source_map.stmt_map_back@[id.0 as int]);
                match a.module.stmts@[id.0 as int] {
                    Stmt::If { test, if_stmts, elif_or_else_stmts } => {
                        kept_expr(src, clauses[at].test->0, clauses[at].range, a, b, test);
                        kept_suite(
                            src,
                            clauses[at].body@,
                            clauses[at].suite,
                            a,
                            b,
                            if_stmts@,
                        );
                        suite_exists(src, clauses[at].body@, clauses[at].suite, a, if_stmts@);
                        kept_covered(
                            a,
                            b,
                            hull_opt(clauses[at].range, clauses[at].suite),
                            if_stmts@,
                        );
                        kept_tail(src, clauses, k + 1, a, b, elif_or_else_stmts);
                    },
                    _ => {},
                }
            },
            _ => {},
        }
    }
}

/// Additions keep a loaded name.
pub proof fn kept_load_item(
    src: Source,
    item: ArgItem,
    module: Seq<char>,
    range: Span,
    a: Lowering,
    b: Lowering,
    id: LoadItemId,
)
    requires
        a.leads_to(b),
        load_item_at(src, item, module, range, a, id),
    ensures
        load_item_at(src, item, module, range, b, id),
{
    assert(a.module.load_items@[id.0 as int] == b.module.load_items@[id.0 as int]);
    assert(a.source_map.load_item_map_back@[id.0 as int]
        == b.source_map.load_item_map_back@[id.0 as int]);
    match item {
        ArgItem::Arg(e) => kept_member(
            a.source_map.load_item_nodes@,
            b.source_map.load_item_nodes@,
            (e.node, id),
        ),
        ArgItem::Keyword { range: _, node, name: _, value: _ } => kept_member(
            a.source_map.load_item_nodes@,
            b.source_map.load_item_nodes@,
            (node, id),
        ),
    }
}

/// Additions keep what a call of `load` means.
pub proof fn kept_load(
    src: Source,
    e: syntax::Expr,
    arguments: Seq<ArgItem>,
    a: Lowering,
    b: Lowering,
    id: StmtId,
)
    requires
        a.leads_to(b),
        load_at(src, e, arguments, a, id),
    ensures
        load_at(src, e, arguments, b, id),
{
    assert(a.module.stmts@[id.0 as int] == b.module.stmts@[id.0 as int]);
    assert(a.source_map.stmt_map_back@[id.0 as int] == b.source_map.stmt_map_back@[id.0 as int]);
    kept_member(a.source_map.stmt_nodes@, b.source_map.stmt_nodes@, (e.node, id));
    match a.module.stmts@[id.0 as int] {
        Stmt::Load { load_stmt, items } => {
            let skip = load_skip(arguments);
            assert forall|i: int| 0 <= i < items@.len() implies load_item_at(
                src,
                arguments[i + skip],
                load_stmt.module@,
                e.range,
                b,
                #[trigger] items@[i],
            ) by {
                kept_load_item(
                    src,
                    arguments[i + skip],
                    load_stmt.module@,
                    e.range,
                    a,
                    b,
                    items@[i],
                );
            }
        },
        _ => {},
    }
}

/// Additions keep the type of an assignment.
pub proof fn kept_assigned_type(
    src: Source,
    range: Span,
    a: Lowering,
    b: Lowering,
    type_ref: Option<(std::sync::Arc<TypeRef>, Span)>,
    id: StmtId,
)
    requires
        a.leads_to(b),
        assigned_type(src, range, a, type_ref, id),
    ensures
        assigned_type(src, range, b, type_ref, id),
{
    match type_ref {
        Some((ty, place)) => kept_member(
            a.source_map.type_comment_owners@,
            b.source_map.type_comment_owners@,
            (place, TypeCommentOwner::Statement(id)),
        ),
        None => {},
    }
}

/// Additions keep what a statement means.
pub proof fn kept_stmt(src: Source, s: syntax::Stmt, a: Lowering, b: Lowering, id: StmtId)
    requires
        a.leads_to(b),
        stmt_at(src, s, a, id),
    ensures
        stmt_at(src, s, b, id),
    decreases s, 1nat,
{
    let node = a.module.stmts@[id.0 as int];
    assert(node == b.module.stmts@[id.0 as int]);
    assert(a.source_map.stmt_map_back@[id.0 as int] == b.source_map.stmt_map_back@[id.0 as int]);
    kept_member(a.source_map.stmt_nodes@, b.source_map.stmt_nodes@, (s.node, id));
    match s.kind {
        StmtKind::FunctionDef { name, parameters, body, suite } => match node {
            Stmt::Def { func, stmts } => {
                let comment = def_comment(src, body@, suite);
                let written = match comment {
                    Some(c) => src.comments@[c].function,
                    None => None,
                };
                let doc = if suite is Some {
                    doc_text(body@, 0)
                } else {
                    None
                };
                kept_suite(src, body@, suite, a, b, stmts@);
                suite_exists(src, body@, suite, a, stmts@);
                kept_covered(a, b, s.range, stmts@);
                kept_params(
                    src,
                    parameters,
                    match written {
                        Some(f) => func_param_shapes(f),
                        None => Seq::empty(),
                    },
                    doc,
                    a,
                    b,
                    func.params@,
                );
                if comment is Some {
                    kept_member(
                        a.source_map.type_comment_owners@,
                        b.source_map.type_comment_owners@,
                        (src.comments@[comment->0].range, TypeCommentOwner::Statement(id)),
                    );
                }
                if name.text@.len() > 0 {
                    kept_member(
                        a.source_map.function_names@,
                        b.source_map.function_names@,
                        (id, name.range),
                    );
                }
                assert forall|i: int|
                    0 <= i < func.params@.len() implies b.module.param_to_def_stmt@.contains(
                    (#[trigger] func.params@[i], (id, i as usize)),
                ) by {
                    kept_member(
                        a.module.param_to_def_stmt@,
                        b.module.param_to_def_stmt@,
                        (func.params@[i], (id, i as usize)),
                    );
                }
            },
            _ => {},
        },
        StmtKind::If { test, body, suite, clauses } => match node {
            Stmt::If { test: condition, if_stmts, elif_or_else_stmts } => {
                kept_expr(src, test, s.range, a, b, condition);
                kept_suite(src, body@, suite, a, b, if_stmts@);
                suite_exists(src, body@, suite, a, if_stmts@);
                kept_tail(src, clauses@, 0, a, b, elif_or_else_stmts);
                kept_covered(
                    a,
                    b,
                    hull_opt(s.range, tail_range(clauses@, a, elif_or_else_stmts)),
                    if_stmts@,
                );
            },
            _ => {},
        },
        StmtKind::For { target, iter, body, suite } => match node {
            Stmt::For { iterable, targets, stmts } => {
                kept_expr(src, iter, s.range, a, b, iterable);
                kept_targets(src, target, s.range, a, b, targets@);
                kept_suite(src, body@, suite, a, b, stmts@);
                suite_exists(src, body@, suite, a, stmts@);
                kept_covered(a, b, s.range, stmts@);
                kept_flow(a, b, iterable, AssignmentSource::Statement(id));
            },
            _ => {},
        },
        StmtKind::Return { value } => match (value, node) {
            (Some(value), Stmt::Return { expr: Some(expr) }) => kept_expr(
                src,
                value,
                s.range,
                a,
                b,
                expr,
            ),
            _ => {},
        },
        StmtKind::Assign { targets, value } => match node {
            Stmt::Assign { lhs, rhs, op, type_ref } => {
                if targets@.len() > 0 {
                    kept_expr(src, targets@[0], s.range, a, b, lhs);
                } else {
                    kept_missing(a, b, lhs);
                }
                kept_expr(src, value, s.range, a, b, rhs);
                kept_assigned_type(src, s.range, a, b, type_ref, id);
                kept_flow(a, b, rhs, AssignmentSource::Statement(id));
            },
            _ => {},
        },
        StmtKind::AugAssign { target, op: written, value } => match node {
            Stmt::Assign { lhs, rhs, op, type_ref } => {
                kept_expr(src, target, s.range, a, b, lhs);
                kept_expr(src, value, s.range, a, b, rhs);
                kept_assigned_type(src, s.range, a, b, type_ref, id);
                kept_flow(a, b, rhs, AssignmentSource::Statement(id));
            },
            _ => {},
        },
        StmtKind::Expr { value } => if is_load(s) {
            match value.kind {
                ExprKind::Call { func: _, arguments } => kept_load(
                    src,
                    value,
                    arguments.items@,
                    a,
                    b,
                    id,
                ),
                _ => {},
            }
        } else {
            match node {
                Stmt::Expr { expr } => {
                    kept_expr(src, value, s.range, a, b, expr);
                    expr_exists(src, value, s.range, a, expr);
                    assert(a.source_map.expr_map_back@[expr.0 as int]
                        == b.source_map.expr_map_back@[expr.0 as int]);
                },
                _ => {},
            }
        },
        _ => {},
    }
}

/// A lowered expression is a name exactly where its syntax is nothing but a name.
pub proof fn name_exists(src: Source, e: syntax::Expr, parent: Span, st: Lowering, id: ExprId)
    requires
        expr_at(src, e, parent, st, id),
    ensures
        match st.module.exprs@[id.0 as int] {
            Expr::Name { name } => plain_name(e, parent) == Some(name@),
            _ => plain_name(e, parent) is None,
        },
    decreases e,
{
    if paren_count(e, parent) == 0 {
        assert(below_parens(st.module.exprs@, id, 0) == id);
        assert(bare_at(src, e, st, id));
    }
    if paren_count(e, parent) == 0 && e.supported {
        match e.kind {
            ExprKind::Bool2 { op, values } => {
                let ops = logic_ops_of(op, values@.len());
                if chain_len(values@.len(), ops.len()) == 1 {
                    name_exists(src, values@[0], e.range, st, id);
                }
            },
            ExprKind::Compare { operands, ops } => {
                if operands@.len() > 0 && chain_len(operands@.len(), ops@.len()) == 1 {
                    name_exists(src, operands@[0], e.range, st, id);
                }
            },
            _ => {},
        }
    }
}

/// The function that implements the result of a call is the one that its syntax
/// names.
pub proof fn implementation_is_named(
    src: Source,
    items: Seq<ArgItem>,
    range: Span,
    st: Lowering,
    args: Seq<Argument>,
    k: int,
)
    requires
        args_at(src, items, range, st, args),
        0 <= k,
    ensures
        match impl_fn_name(st.module.exprs@, args, k) {
            Some(name) => implementation(items, range, k) == Some(name@),
            None => implementation(items, range, k) is None,
        },
    decreases args.len() - k,
{
    if k < args.len() {
        implementation_is_named(src, items, range, st, args, k + 1);
        assert(arg_at(src, items[k], range, st, args[k]));
        match args[k] {
            Argument::Keyword { name: _, expr } => match items[k] {
                ArgItem::Keyword { range: _, node: _, name: _, value } => {
                    name_exists(src, value, range, st, expr);
                },
                _ => {},
            },
            _ => {},
        }
    }
}

/// Whether a parameter is what an outline says.
pub open spec fn fits(param: Param, o: Outline) -> bool {
    &&& param.label() == o.label
    &&& param is ArgsList <==> o.star
    &&& param is KwargsDict <==> o.star_star
    &&& (param is Simple && param.default_value() is Some) <==> o.default
    &&& !(o.star && o.star_star)
}

/// The errors of a parameter follow from the outlines of it and of those before it.
pub proof fn errors_fit(params: Seq<Param>, all: Seq<Outline>, k: int)
    requires
        0 <= k < params.len(),
        k < all.len(),
        forall|j: int| 0 <= j <= k ==> fits(#[trigger] params[j], all[j]),
    ensures
        param_errors(params, k) == outline_errors(all, k),
{
    assert(fits(params[k], all[k]));
    assert((exists|j: int| 0 <= j < k && #[trigger] params[j] is ArgsList) == (exists|j: int|
        0 <= j < k && (#[trigger] all[j]).star)) by {
        if exists|j: int| 0 <= j < k && #[trigger] params[j] is ArgsList {
            let j = choose|j: int| 0 <= j < k && #[trigger] params[j] is ArgsList;
            assert(fits(params[j], all[j]));
            assert(all[j].star);
        }
        if exists|j: int| 0 <= j < k && (#[trigger] all[j]).star {
            let j = choose|j: int| 0 <= j < k && (#[trigger] all[j]).star;
            assert(fits(params[j], all[j]));
            assert(params[j] is ArgsList);
        }
    }
    assert((exists|j: int| 0 <= j < k && #[trigger] params[j] is KwargsDict) == (exists|j: int|
        0 <= j < k && (#[trigger] all[j]).star_star)) by {
        if exists|j: int| 0 <= j < k && #[trigger] params[j] is KwargsDict {
            let j = choose|j: int| 0 <= j < k && #[trigger] params[j] is KwargsDict;
            assert(fits(params[j], all[j]));
            assert(all[j].star_star);
        }
        if exists|j: int| 0 <= j < k && (#[trigger] all[j]).star_star {
            let j = choose|j: int| 0 <= j < k && (#[trigger] all[j]).star_star;
            assert(fits(params[j], all[j]));
            assert(params[j] is KwargsDict);
        }
    }
    assert((exists|j: int|
        0 <= j < k && (#[trigger] params[j]) is Simple && params[j].default_value() is Some) == (
    exists|j: int| 0 <= j < k && (#[trigger] all[j]).default)) by {
        if exists|j: int|
            0 <= j < k && (#[trigger] params[j]) is Simple && params[j].default_value() is Some {
            let j = choose|j: int|
                0 <= j < k && (#[trigger] params[j]) is Simple && params[j].default_value() is Some;
            assert(fits(params[j], all[j]));
            assert(all[j].default);
        }
        if exists|j: int| 0 <= j < k && (#[trigger] all[j]).default {
            let j = choose|j: int| 0 <= j < k && (#[trigger] all[j]).default;
            assert(fits(params[j], all[j]));
            assert(params[j] is Simple);
        }
    }
    assert((exists|j: int| 0 <= j < k && (#[trigger] params[j]).label() == params[k].label()) == (
    exists|j: int| 0 <= j < k && (#[trigger] all[j]).label == all[k].label)) by {
        if exists|j: int| 0 <= j < k && (#[trigger] params[j]).label() == params[k].label() {
            let j = choose|j: int|
                0 <= j < k && (#[trigger] params[j]).label() == params[k].label();
            assert(fits(params[j], all[j]));
            assert(all[j].label == all[k].label);
        }
        if exists|j: int| 0 <= j < k && (#[trigger] all[j]).label == all[k].label {
            let j = choose|j: int| 0 <= j < k && (#[trigger] all[j]).label == all[k].label;
            assert(fits(params[j], all[j]));
            assert(params[j].label() == params[k].label());
        }
    }
    assert(param_errors(params, k) =~= outline_errors(all, k));
}

/// Every place has its turn.
pub proof fn slots_have_turns(p: Parameters, n: nat)
    ensures
        slot_order(p, n).len() == n,
    decreases n,
{
    if n > 0 {
        slots_have_turns(p, (n - 1) as nat);
        one_more_slot(p, slot_order(p, (n - 1) as nat), n - 1);
    }
}

proof fn one_more_slot(p: Parameters, order: Seq<int>, k: int)
    ensures
        insert_slot(p, order, k).len() == order.len() + 1,
    decreases order.len(),
{
    if order.len() > 0 {
        one_more_slot(p, order.drop_last(), k);
    }
}

} // verus!
