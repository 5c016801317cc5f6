//! What holds of the records of every lowered file: what is recorded under an index
//! is recorded once, so a lookup gives back what was recorded.

use vstd::prelude::*;

use crate::def::{logged, ExprId, ParamId};
use crate::lower_records::{
    after_arg, after_args, after_assignment, after_bare, after_chain, after_clauses, after_comp,
    after_entries, after_expr, after_exprs, after_load, after_opt, after_params, after_stmt,
    after_stmts, after_suite, after_targets, after_top, no_records, ranged, Records,
};
use crate::lower_spec::{
    chain_len, has_stmt, is_load, load_skip, slot_count, slot_order, tested, Lowering,
};
use crate::syntax;
use crate::syntax::{
    ArgItem, Clause, Comprehension, DictItem, ExprKind, ParameterForm, Parameters, Source, Span,
    StmtKind,
};

verus! {

/// Whether every index fits.
pub open spec fn is_bounded(t: Records) -> bool {
    t.exprs <= usize::MAX && t.stmts <= usize::MAX && t.params <= usize::MAX
}

/// The indices under which it is recorded where values go.
pub open spec fn source_keys(r: Records) -> Seq<int> {
    Seq::new(r.assignment_sources.len(), |i: int| r.assignment_sources[i].0.0 as int)
}

/// The indices under which the names of keywords are recorded.
pub open spec fn keyword_keys(r: Records) -> Seq<int> {
    Seq::new(r.keyword_names.len(), |i: int| r.keyword_names[i].0.0 as int)
}

/// The indices under which the names of functions are recorded.
pub open spec fn function_keys(r: Records) -> Seq<int> {
    Seq::new(r.function_names.len(), |i: int| r.function_names[i].0.0 as int)
}

/// The indices under which the functions of parameters are recorded.
pub open spec fn param_keys(r: Records) -> Seq<int> {
    Seq::new(r.param_to_def_stmt.len(), |i: int| r.param_to_def_stmt[i].0.0 as int)
}

/// Whether `b` is `a` with more indices behind, from `lo` up to `hi`, none twice.
pub open spec fn adds(a: Seq<int>, b: Seq<int>, lo: int, hi: int) -> bool {
    &&& a.len() <= b.len()
    &&& forall|i: int| 0 <= i < a.len() ==> a[i] == #[trigger] b[i]
    &&& forall|i: int| a.len() <= i < b.len() ==> lo <= #[trigger] b[i] < hi
    &&& forall|i: int, j: int| a.len() <= i < j < b.len() ==> #[trigger] b[i] != #[trigger] b[j]
}

/// Whether an index is not among those that `b` has behind `a`.
pub open spec fn is_free(a: Seq<int>, b: Seq<int>, key: int) -> bool {
    forall|i: int| a.len() <= i < b.len() ==> #[trigger] b[i] != key
}

proof fn adds_on(a: Seq<int>, b: Seq<int>, c: Seq<int>, lo: int, mid: int, hi: int)
    requires
        adds(a, b, lo, mid),
        adds(b, c, mid, hi),
        lo <= mid <= hi,
    ensures
        adds(a, c, lo, hi),
{
    assert forall|i: int| 0 <= i < a.len() implies a[i] == #[trigger] c[i] by {
        assert(b[i] == c[i]);
    }
    assert forall|i: int| a.len() <= i < c.len() implies lo <= #[trigger] c[i] < hi by {
        if i < b.len() {
            assert(b[i] == c[i]);
        }
    }
    assert forall|i: int, j: int| a.len() <= i < j < c.len() implies #[trigger] c[i]
        != #[trigger] c[j] by {
        if i < b.len() {
            assert(b[i] == c[i]);
            if j < b.len() {
                assert(b[j] == c[j]);
            }
        }
    }
}

proof fn adds_one(a: Seq<int>, b: Seq<int>, c: Seq<int>, lo: int, mid: int, hi: int, key: int)
    requires
        adds(a, b, lo, mid),
        c == b.push(key),
        lo <= key < hi,
        mid <= hi,
        is_free(a, b, key),
    ensures
        adds(a, c, lo, hi),
{
    assert forall|i: int| a.len() <= i < c.len() implies lo <= #[trigger] c[i] < hi by {
        if i < b.len() {
            assert(c[i] == b[i]);
        }
    }
    assert forall|i: int, j: int| a.len() <= i < j < c.len() implies #[trigger] c[i]
        != #[trigger] c[j] by {
        assert(c[i] == b[i]);
        if j < b.len() {
            assert(c[j] == b[j]);
        }
    }
}

/// Whether nothing but an expression was lowered between two records.
pub open spec fn expr_step(r: Records, t: Records) -> bool {
    &&& r.exprs <= t.exprs
    &&& r.stmts == t.stmts
    &&& r.params <= t.params
    &&& r.function_names == t.function_names
    &&& r.param_to_def_stmt == t.param_to_def_stmt
    &&& is_bounded(t) ==> {
        &&& adds(source_keys(r), source_keys(t), r.exprs as int, t.exprs as int)
        &&& adds(keyword_keys(r), keyword_keys(t), r.exprs as int, t.exprs as int)
    }
}

/// The same of an expression that is the last of all: nothing is recorded under its
/// own index.
pub open spec fn expr_done(r: Records, t: Records, id: ExprId) -> bool {
    &&& r.exprs < t.exprs
    &&& r.stmts == t.stmts
    &&& r.params <= t.params
    &&& r.function_names == t.function_names
    &&& r.param_to_def_stmt == t.param_to_def_stmt
    &&& is_bounded(t) ==> {
        &&& id.0 == t.exprs - 1
        &&& adds(source_keys(r), source_keys(t), r.exprs as int, t.exprs - 1)
        &&& adds(keyword_keys(r), keyword_keys(t), r.exprs as int, t.exprs - 1)
    }
}

/// Whether statements were lowered between two records.
pub open spec fn stmt_step(r: Records, t: Records) -> bool {
    &&& r.exprs <= t.exprs
    &&& r.stmts <= t.stmts
    &&& r.params <= t.params
    &&& is_bounded(t) ==> {
        &&& adds(source_keys(r), source_keys(t), r.exprs as int, t.exprs as int)
        &&& adds(keyword_keys(r), keyword_keys(t), r.exprs as int, t.exprs as int)
        &&& adds(function_keys(r), function_keys(t), r.stmts as int, t.stmts as int)
        &&& adds(param_keys(r), param_keys(t), r.params as int, t.params as int)
    }
}

proof fn expr_on(r: Records, m: Records, t: Records)
    requires
        expr_step(r, m),
        expr_step(m, t),
    ensures
        expr_step(r, t),
{
    if is_bounded(t) {
        adds_on(
            source_keys(r),
            source_keys(m),
            source_keys(t),
            r.exprs as int,
            m.exprs as int,
            t.exprs as int,
        );
        adds_on(
            keyword_keys(r),
            keyword_keys(m),
            keyword_keys(t),
            r.exprs as int,
            m.exprs as int,
            t.exprs as int,
        );
    }
}

proof fn stmt_on(r: Records, m: Records, t: Records)
    requires
        stmt_step(r, m),
        stmt_step(m, t),
    ensures
        stmt_step(r, t),
{
    if is_bounded(t) {
        let (a, b, c) = (r.exprs as int, m.exprs as int, t.exprs as int);
        adds_on(source_keys(r), source_keys(m), source_keys(t), a, b, c);
        adds_on(keyword_keys(r), keyword_keys(m), keyword_keys(t), a, b, c);
        adds_on(
            function_keys(r),
            function_keys(m),
            function_keys(t),
            r.stmts as int,
            m.stmts as int,
            t.stmts as int,
        );
        adds_on(
            param_keys(r),
            param_keys(m),
            param_keys(t),
            r.params as int,
            m.params as int,
            t.params as int,
        );
    }
}

/// One more expression behind others is the last.
proof fn added(r: Records, m: Records)
    requires
        expr_step(r, m),
    ensures
        expr_done(r, m.add_expr().0, m.add_expr().1),
{
    let t = m.add_expr().0;
    assert(source_keys(t) =~= source_keys(m));
    assert(keyword_keys(t) =~= keyword_keys(m));
}

proof fn bare_step(src: Source, r: Records, e: syntax::Expr)
    ensures
        expr_done(r, after_bare(src, r, e).0, after_bare(src, r, e).1),
    decreases e, 0nat,
{
    assert(expr_step(r, r));
    if !e.supported {
        added(r, r);
    } else {
        match e.kind {
            ExprKind::If { test, body, orelse } => {
                let first = after_expr(src, r, *body, e.range).0;
                let second = after_expr(src, first, *test, e.range).0;
                let third = after_expr(src, second, *orelse, e.range).0;
                whole_step(src, r, *body, e.range);
                whole_step(src, first, *test, e.range);
                whole_step(src, second, *orelse, e.range);
                expr_on(r, first, second);
                expr_on(r, second, third);
                added(r, third);
            },
            ExprKind::Unary { op: _, operand } => {
                whole_step(src, r, *operand, e.range);
                added(r, after_expr(src, r, *operand, e.range).0);
            },
            ExprKind::Binary { left, op: _, right } => {
                let first = after_expr(src, r, *left, e.range).0;
                whole_step(src, r, *left, e.range);
                whole_step(src, first, *right, e.range);
                let second = after_expr(src, first, *right, e.range).0;
                expr_on(r, first, second);
                added(r, second);
            },
            ExprKind::Bool2 { op: _, values } => {
                chain_step(src, r, values@, e.range, values@.len());
            },
            ExprKind::Compare { operands, ops } => {
                chain_step(
                    src,
                    r,
                    operands@,
                    e.range,
                    chain_len(operands@.len(), ops@.len()),
                );
            },
            ExprKind::Lambda { parameters, body } => {
                let first = match parameters {
                    Some(p) => after_params(src, r, *p, slot_count(*p)).0,
                    None => r,
                };
                match parameters {
                    Some(p) => {
                        params_step(src, r, *p, slot_count(*p));
                    },
                    None => {},
                }
                whole_step(src, first, *body, e.range);
                let second = after_expr(src, first, *body, e.range).0;
                expr_on(r, first, second);
                added(r, second);
            },
            ExprKind::List { elts } => {
                exprs_step(src, r, elts@, e.range);
                added(r, after_exprs(src, r, elts@, e.range));
            },
            ExprKind::Tuple { elts, parenthesized: _ } => {
                exprs_step(src, r, elts@, e.range);
                added(r, after_exprs(src, r, elts@, e.range));
            },
            ExprKind::ListComp { elt, generators } => {
                let first = after_expr(src, r, *elt, e.range).0;
                let (second, clauses) = after_comp(src, first, generators@);
                whole_step(src, r, *elt, e.range);
                comp_step(src, first, generators@);
                loops_step(first, second, clauses, second.next_expr(), clauses.len());
                let third = second.loops(clauses, second.next_expr(), clauses.len());
                expr_on(r, first, third);
                added(r, third);
            },
            ExprKind::Dict { items } => {
                entries_step(src, r, items@, e.range);
                added(r, after_entries(src, r, items@, e.range));
            },
            ExprKind::DictComp { key, value, generators } => {
                let first = after_expr(src, r, *key, e.range).0;
                let second = after_expr(src, first, *value, e.range).0;
                let (third, clauses) = after_comp(src, second, generators@);
                whole_step(src, r, *key, e.range);
                whole_step(src, first, *value, e.range);
                expr_on(r, first, second);
                comp_step(src, second, generators@);
                loops_step(second, third, clauses, third.next_expr(), clauses.len());
                let fourth = third.loops(clauses, third.next_expr(), clauses.len());
                expr_on(r, second, fourth);
                added(r, fourth);
            },
            ExprKind::Attribute { value, attr: _ } => {
                whole_step(src, r, *value, e.range);
                added(r, after_expr(src, r, *value, e.range).0);
            },
            ExprKind::Call { func, arguments } => {
                let first = after_expr(src, r, *func, e.range).0;
                let second = after_args(src, first, arguments.items@, arguments.range);
                whole_step(src, r, *func, e.range);
                args_step(src, first, arguments.items@, arguments.range);
                expr_on(r, first, second);
                added(r, second);
                let t = after_bare(src, r, e).0;
                assert(source_keys(t) =~= source_keys(second));
                assert(keyword_keys(t) =~= keyword_keys(second));
            },
            ExprKind::Subscript { value, slice } => {
                let first = after_expr(src, r, *value, e.range).0;
                whole_step(src, r, *value, e.range);
                match slice.kind {
                    ExprKind::Slice { lower, upper, step } => {
                        let second = after_opt(src, first, lower, e.range);
                        let third = after_opt(src, second, upper, e.range);
                        let fourth = after_opt(src, third, step, e.range);
                        opt_step(src, first, lower, e.range);
                        opt_step(src, second, upper, e.range);
                        opt_step(src, third, step, e.range);
                        expr_on(r, first, second);
                        expr_on(r, second, third);
                        expr_on(r, third, fourth);
                        added(r, fourth);
                    },
                    _ => {
                        whole_step(src, first, *slice, e.range);
                        let second = after_expr(src, first, *slice, e.range).0;
                        expr_on(r, first, second);
                        added(r, second);
                    },
                }
            },
            _ => {
                added(r, r);
            },
        }
    }
}

proof fn whole_step(src: Source, r: Records, e: syntax::Expr, parent: Span)
    ensures
        expr_done(r, after_expr(src, r, e, parent).0, after_expr(src, r, e, parent).1),
        expr_step(r, after_expr(src, r, e, parent).0),
    decreases e, 1nat,
{
    bare_step(src, r, e);
    let first = after_bare(src, r, e).0;
    let t = after_expr(src, r, e, parent).0;
    assert(source_keys(t) =~= source_keys(first));
    assert(keyword_keys(t) =~= keyword_keys(first));
}

proof fn exprs_step(src: Source, r: Records, elts: Seq<syntax::Expr>, parent: Span)
    ensures
        expr_step(r, after_exprs(src, r, elts, parent)),
    decreases elts, 0nat,
{
    if elts.len() > 0 {
        let before = after_exprs(src, r, elts.drop_last(), parent);
        exprs_step(src, r, elts.drop_last(), parent);
        whole_step(src, before, elts.last(), parent);
        expr_on(r, before, after_exprs(src, r, elts, parent));
    }
}

proof fn opt_step(src: Source, r: Records, e: Option<Box<syntax::Expr>>, parent: Span)
    ensures
        expr_step(r, after_opt(src, r, e, parent)),
    decreases e, 0nat,
{
    match e {
        Some(e) => {
            whole_step(src, r, *e, parent);
        },
        None => {},
    }
}

proof fn chain_step(src: Source, r: Records, values: Seq<syntax::Expr>, parent: Span, k: nat)
    ensures
        expr_done(
            r,
            after_chain(src, r, values, parent, k).0,
            after_chain(src, r, values, parent, k).1,
        ),
        expr_step(r, after_chain(src, r, values, parent, k).0),
    decreases values, k,
{
    assert(expr_step(r, r));
    if k == 0 || k > values.len() {
        added(r, r);
    } else if k == 1 {
        whole_step(src, r, values[0], parent);
    } else {
        let first = after_chain(src, r, values, parent, (k - 1) as nat).0;
        chain_step(src, r, values, parent, (k - 1) as nat);
        whole_step(src, first, values[k - 1], parent);
        let second = after_expr(src, first, values[k - 1], parent).0;
        expr_on(r, first, second);
        added(r, second);
    }
}

proof fn args_step(src: Source, r: Records, items: Seq<ArgItem>, range: Span)
    ensures
        expr_step(r, after_args(src, r, items, range)),
    decreases items, 0nat,
{
    if items.len() > 0 {
        let before = after_args(src, r, items.drop_last(), range);
        args_step(src, r, items.drop_last(), range);
        arg_step(src, before, items.last(), range);
        expr_on(r, before, after_args(src, r, items, range));
    }
}

proof fn arg_step(src: Source, r: Records, item: ArgItem, range: Span)
    ensures
        expr_step(r, after_arg(src, r, item, range)),
    decreases item, 0nat,
{
    match item {
        ArgItem::Arg(e) => match e.kind {
            ExprKind::Starred { value } => {
                whole_step(src, r, *value, e.range);
            },
            _ => {
                whole_step(src, r, e, range);
            },
        },
        ArgItem::Keyword { range: _, node: _, name, value } => {
            let (first, id) = after_expr(src, r, value, range);
            whole_step(src, r, value, range);
            match name {
                Some(written) => {
                    let t = after_arg(src, r, item, range);
                    assert(source_keys(t) =~= source_keys(first));
                    if is_bounded(t) {
                        assert(keyword_keys(t) =~= keyword_keys(first).push(id.0 as int));
                        adds_one(
                            keyword_keys(r),
                            keyword_keys(first),
                            keyword_keys(t),
                            r.exprs as int,
                            first.exprs - 1,
                            first.exprs as int,
                            id.0 as int,
                        );
                    }
                },
                None => {},
            }
        },
    }
}

proof fn targets_step(src: Source, r: Records, target: syntax::Expr, parent: Span)
    ensures
        expr_step(r, after_targets(src, r, target, parent)),
    decreases target, 2nat,
{
    match target.kind {
        ExprKind::Tuple { elts, parenthesized: false } => {
            exprs_step(src, r, elts@, target.range);
        },
        _ => {
            whole_step(src, r, target, parent);
        },
    }
}

/// The index of an expression, if there is one.
pub open spec fn number(id: Option<ExprId>) -> int {
    match id {
        Some(id) => id.0 as int,
        None => -1,
    }
}

/// Whether the iterables of a comprehension are different, and nothing is recorded
/// under them.
pub open spec fn are_free(r: Records, t: Records, clauses: Seq<Option<ExprId>>) -> bool {
    &&& forall|c: int|
        0 <= c < clauses.len() && (#[trigger] clauses[c]) is Some ==> {
            &&& r.exprs <= number(clauses[c]) < t.exprs
            &&& is_free(source_keys(r), source_keys(t), number(clauses[c]))
        }
    &&& forall|c: int, d: int|
        0 <= c < d < clauses.len() && (#[trigger] clauses[c]) is Some && (
        #[trigger] clauses[d]) is Some ==> number(clauses[c]) != number(clauses[d])
}

proof fn comp_step(src: Source, r: Records, generators: Seq<Comprehension>)
    ensures
        expr_step(r, after_comp(src, r, generators).0),
        is_bounded(after_comp(src, r, generators).0) ==> are_free(
            r,
            after_comp(src, r, generators).0,
            after_comp(src, r, generators).1,
        ),
    decreases generators, 0nat,
{
    if generators.len() > 0 {
        let g = generators.last();
        let (before, clauses) = after_comp(src, r, generators.drop_last());
        let (first, iterable) = after_expr(src, before, g.iter, g.range);
        let second = after_targets(src, first, g.target, g.range);
        let third = after_exprs(src, second, g.ifs@, g.range);
        comp_step(src, r, generators.drop_last());
        whole_step(src, before, g.iter, g.range);
        targets_step(src, first, g.target, g.range);
        exprs_step(src, second, g.ifs@, g.range);
        expr_on(first, second, third);
        expr_on(before, first, third);
        expr_on(r, before, third);
        if is_bounded(third) {
            let all = after_comp(src, r, generators).1;
            let keys = source_keys(third);
            let n = clauses.len() as int;
            assert forall|c: int| 0 <= c < all.len() && (#[trigger] all[c]) is Some implies {
                &&& r.exprs <= number(all[c]) < third.exprs
                &&& is_free(source_keys(r), keys, number(all[c]))
            } by {
                let key = number(all[c]);
                if c < n {
                    assert(all[c] == clauses[c]);
                    assert forall|i: int| source_keys(r).len() <= i < keys.len() implies #[trigger] keys[i]
                        != key by {
                        if i < source_keys(before).len() {
                            assert(source_keys(before)[i] == source_keys(third)[i]);
                        }
                    }
                } else {
                    assert(c == n);
                    assert forall|i: int| source_keys(r).len() <= i < keys.len() implies #[trigger] keys[i]
                        != key by {
                        if i < source_keys(first).len() {
                            assert(source_keys(first)[i] == source_keys(third)[i]);
                            if i < source_keys(before).len() {
                                assert(source_keys(before)[i] == source_keys(first)[i]);
                            }
                        }
                    }
                }
            }
            assert forall|c: int, d: int|
                0 <= c < d < all.len() && (#[trigger] all[c]) is Some && (
                #[trigger] all[d]) is Some implies number(all[c]) != number(all[d]) by {
                assert(c < n);
                assert(all[c] == clauses[c]);
                if d < n {
                    assert(all[d] == clauses[d]);
                }
            }
        }
    }
}

proof fn loops_step(
    r: Records,
    t: Records,
    clauses: Seq<Option<ExprId>>,
    id: ExprId,
    n: nat,
)
    requires
        expr_step(r, t),
        is_bounded(t) ==> are_free(r, t, clauses),
        n <= clauses.len(),
    ensures
        expr_step(r, t.loops(clauses, id, n)),
        t.loops(clauses, id, n).exprs == t.exprs,
        t.loops(clauses, id, n).stmts == t.stmts,
        t.loops(clauses, id, n).params == t.params,
        is_bounded(t) ==> forall|c: int|
            n <= c < clauses.len() && (#[trigger] clauses[c]) is Some ==> is_free(
                source_keys(r),
                source_keys(t.loops(clauses, id, n)),
                number(clauses[c]),
            ),
    decreases n,
{
    if n > 0 {
        let before = t.loops(clauses, id, (n - 1) as nat);
        let after = t.loops(clauses, id, n);
        loops_step(r, t, clauses, id, (n - 1) as nat);
        assert(keyword_keys(after) =~= keyword_keys(before));
        match clauses[n - 1] {
            Some(iterable) => {
                if is_bounded(t) {
                    let key = iterable.0 as int;
                    assert(source_keys(after) =~= source_keys(before).push(key));
                    adds_one(
                        source_keys(r),
                        source_keys(before),
                        source_keys(after),
                        r.exprs as int,
                        t.exprs as int,
                        t.exprs as int,
                        key,
                    );
                    assert forall|c: int|
                        n <= c < clauses.len() && (#[trigger] clauses[c]) is Some implies is_free(
                        source_keys(r),
                        source_keys(after),
                        number(clauses[c]),
                    ) by {
                        assert(number(clauses[n - 1]) != number(clauses[c]));
                        assert forall|i: int|
                            source_keys(r).len() <= i < source_keys(after).len() implies #[trigger] source_keys(
                            after,
                        )[i] != number(clauses[c]) by {
                            if i < source_keys(before).len() {
                                assert(source_keys(before)[i] == source_keys(after)[i]);
                            }
                        }
                    }
                }
            },
            None => {},
        }
    }
}

proof fn entries_step(src: Source, r: Records, items: Seq<DictItem>, parent: Span)
    ensures
        expr_step(r, after_entries(src, r, items, parent)),
    decreases items, 0nat,
{
    if items.len() > 0 {
        let before = after_entries(src, r, items.drop_last(), parent);
        entries_step(src, r, items.drop_last(), parent);
        match items.last().key {
            Some(key) => {
                let first = after_expr(src, before, key, parent).0;
                whole_step(src, before, key, parent);
                whole_step(src, first, items.last().value, parent);
                expr_on(r, before, first);
                expr_on(r, first, after_entries(src, r, items, parent));
            },
            None => {},
        }
    }
}

/// Whether parameters are different, and new.
pub open spec fn are_new(r: Records, t: Records, ids: Seq<ParamId>) -> bool {
    &&& forall|k: int| 0 <= k < ids.len() ==> r.params <= (#[trigger] ids[k]).0 < t.params
    &&& forall|j: int, k: int|
        0 <= j < k < ids.len() ==> (#[trigger] ids[j]).0 != (#[trigger] ids[k]).0
}

proof fn params_step(src: Source, r: Records, p: Parameters, n: nat)
    ensures
        expr_step(r, after_params(src, r, p, n).0),
        is_bounded(after_params(src, r, p, n).0) ==> are_new(
            r,
            after_params(src, r, p, n).0,
            after_params(src, r, p, n).1,
        ),
    decreases p, n,
{
    if n > 0 {
        let (before, ids) = after_params(src, r, p, (n - 1) as nat);
        let order = slot_order(p, slot_count(p));
        let slot = order[n - 1];
        params_step(src, r, p, (n - 1) as nat);
        let first = if 0 <= slot < p.items@.len() {
            match p.items@[slot].form {
                ParameterForm::Plain { default } => after_opt(
                    src,
                    before,
                    default,
                    p.items@[slot].owner,
                ),
                _ => before,
            }
        } else {
            before
        };
        if 0 <= slot < p.items@.len() {
            match p.items@[slot].form {
                ParameterForm::Plain { default } => {
                    opt_step(src, before, default, p.items@[slot].owner);
                },
                _ => {},
            }
        }
        expr_on(r, before, first);
        let (t, all) = after_params(src, r, p, n);
        assert(source_keys(t) =~= source_keys(first));
        assert(keyword_keys(t) =~= keyword_keys(first));
        if is_bounded(t) {
            assert forall|k: int| 0 <= k < all.len() implies r.params <= (#[trigger] all[k]).0
                < t.params by {
                if k < ids.len() {
                    assert(all[k] == ids[k]);
                }
            }
            assert forall|j: int, k: int| 0 <= j < k < all.len() implies (#[trigger] all[j]).0 != (
            #[trigger] all[k]).0 by {
                assert(all[j] == ids[j]);
                if k < ids.len() {
                    assert(all[k] == ids[k]);
                }
            }
        }
    }
}

/// What is lowered in expressions is lowered in statements.
proof fn expr_in_stmt(r: Records, t: Records)
    requires
        expr_step(r, t),
    ensures
        stmt_step(r, t),
{
}

/// One more statement behind others, to which nothing goes.
proof fn plain_stmt(r: Records, m: Records, comment: Option<Span>, node: Option<u32>)
    requires
        stmt_step(r, m),
    ensures
        stmt_step(r, m.add_stmt(None, comment, node).0),
{
    let t = m.add_stmt(None, comment, node).0;
    assert(source_keys(t) =~= source_keys(m));
    assert(keyword_keys(t) =~= keyword_keys(m));
    assert(function_keys(t) =~= function_keys(m));
    assert(param_keys(t) =~= param_keys(m));
}

/// One more statement to which the value of an expression goes that was lowered
/// before what stands between.
proof fn fed_stmt(
    r: Records,
    start: Records,
    first: Records,
    id: ExprId,
    m: Records,
    source: Option<ExprId>,
    comment: Option<Span>,
    node: Option<u32>,
)
    requires
        stmt_step(r, start),
        expr_done(start, first, id),
        stmt_step(first, m),
        source is Some ==> source->0 == id,
    ensures
        stmt_step(r, m.add_stmt(source, comment, node).0),
{
    expr_in_stmt_done(start, first, id);
    stmt_on(r, start, first);
    stmt_on(r, first, m);
    let t = m.add_stmt(source, comment, node).0;
    assert(keyword_keys(t) =~= keyword_keys(m));
    assert(function_keys(t) =~= function_keys(m));
    assert(param_keys(t) =~= param_keys(m));
    if source is Some {
        if is_bounded(t) {
            let key = id.0 as int;
            let keys = source_keys(m);
            assert(source_keys(t) =~= keys.push(key));
            assert forall|i: int| source_keys(r).len() <= i < keys.len() implies #[trigger] keys[i]
                != key by {
                if i < source_keys(first).len() {
                    assert(source_keys(first)[i] == keys[i]);
                    if i < source_keys(start).len() {
                        assert(source_keys(start)[i] == source_keys(first)[i]);
                    }
                }
            }
            adds_one(
                source_keys(r),
                keys,
                source_keys(t),
                r.exprs as int,
                m.exprs as int,
                m.exprs as int,
                key,
            );
        }
    } else {
        assert(source_keys(t) =~= source_keys(m));
    }
}

proof fn expr_in_stmt_done(r: Records, t: Records, id: ExprId)
    requires
        expr_done(r, t, id),
    ensures
        stmt_step(r, t),
{
}

proof fn load_step(r: Records, items: Seq<ArgItem>, n: nat)
    ensures
        stmt_step(r, after_load(r, items, n)),
    decreases n,
{
    if n > 0 {
        let before = after_load(r, items, (n - 1) as nat);
        let t = after_load(r, items, n);
        load_step(r, items, (n - 1) as nat);
        assert(source_keys(t) =~= source_keys(before));
        assert(keyword_keys(t) =~= keyword_keys(before));
        assert(function_keys(t) =~= function_keys(before));
        assert(param_keys(t) =~= param_keys(before));
    }
}

proof fn one_stmt_step(src: Source, r: Records, s: syntax::Stmt)
    ensures
        stmt_step(r, after_stmt(src, r, s).0),
    decreases s, 1nat,
{
    assert(stmt_step(r, r));
    match s.kind {
        StmtKind::FunctionDef { name, parameters, body, suite } => {
            let (first, params) = after_params(src, r, parameters, slot_count(parameters));
            let second = after_suite(src, first, body@, suite);
            params_step(src, r, parameters, slot_count(parameters));
            suite_step(src, first, body@, suite);
            def_step(src, r, s, first, params, second);
        },
        StmtKind::If { test, body, suite, clauses } => {
            let first = after_expr(src, r, test, s.range).0;
            let second = after_suite(src, first, body@, suite);
            let third = after_clauses(src, second, clauses@);
            whole_step(src, r, test, s.range);
            expr_in_stmt(r, first);
            suite_step(src, first, body@, suite);
            clauses_step(src, second, clauses@);
            stmt_on(r, first, second);
            stmt_on(r, second, third);
            let fourth = third.with_stmts(tested(clauses@, clauses@.len()).len());
            assert(source_keys(fourth) =~= source_keys(third));
            assert(keyword_keys(fourth) =~= keyword_keys(third));
            assert(function_keys(fourth) =~= function_keys(third));
            assert(param_keys(fourth) =~= param_keys(third));
            plain_stmt(r, fourth, None, Some(s.node));
        },
        StmtKind::For { target, iter, body, suite } => {
            let (first, iterable) = after_expr(src, r, iter, s.range);
            let second = after_targets(src, first, target, s.range);
            let third = after_suite(src, second, body@, suite);
            whole_step(src, r, iter, s.range);
            targets_step(src, first, target, s.range);
            expr_in_stmt(first, second);
            suite_step(src, second, body@, suite);
            stmt_on(first, second, third);
            fed_stmt(
                r,
                r,
                first,
                iterable,
                third,
                ranged(iter, s.range, iterable),
                None,
                Some(s.node),
            );
        },
        StmtKind::Return { value } => {
            match value {
                Some(value) => {
                    let first = after_expr(src, r, value, s.range).0;
                    whole_step(src, r, value, s.range);
                    expr_in_stmt(r, first);
                    plain_stmt(r, first, None, Some(s.node));
                },
                None => {
                    plain_stmt(r, r, None, Some(s.node));
                },
            }
        },
        StmtKind::Assign { targets, value } => {
            let first = if targets@.len() > 0 {
                after_expr(src, r, targets@[0], s.range).0
            } else {
                r.with_exprs(1)
            };
            if targets@.len() > 0 {
                whole_step(src, r, targets@[0], s.range);
            } else {
                assert(source_keys(first) =~= source_keys(r));
                assert(keyword_keys(first) =~= keyword_keys(r));
            }
            expr_in_stmt(r, first);
            assignment_step(src, r, first, s, value);
        },
        StmtKind::AugAssign { target, op: _, value } => {
            let first = after_expr(src, r, target, s.range).0;
            whole_step(src, r, target, s.range);
            expr_in_stmt(r, first);
            assignment_step(src, r, first, s, value);
        },
        StmtKind::Expr { value } => {
            if is_load(s) {
                match value.kind {
                    ExprKind::Call { func: _, arguments } => {
                        let n = (arguments.items@.len() - load_skip(arguments.items@)) as nat;
                        let first = after_load(r, arguments.items@, n);
                        load_step(r, arguments.items@, n);
                        plain_stmt(r, first, None, Some(value.node));
                        let second = first.add_stmt(None, None, Some(value.node)).0;
                        let t = after_stmt(src, r, s).0;
                        assert(source_keys(t) =~= source_keys(second));
                        assert(keyword_keys(t) =~= keyword_keys(second));
                        assert(function_keys(t) =~= function_keys(second));
                        assert(param_keys(t) =~= param_keys(second));
                    },
                    _ => {},
                }
            } else {
                let first = after_expr(src, r, value, s.range).0;
                whole_step(src, r, value, s.range);
                expr_in_stmt(r, first);
                plain_stmt(r, first, None, Some(s.node));
            }
        },
        StmtKind::Other => {},
        _ => {
            plain_stmt(r, r, None, Some(s.node));
        },
    }
}

proof fn assignment_step(
    src: Source,
    r: Records,
    first: Records,
    s: syntax::Stmt,
    value: syntax::Expr,
)
    requires
        stmt_step(r, first),
    ensures
        stmt_step(
            r,
            after_assignment(src, s, after_expr(src, first, value, s.range), value).0,
        ),
{
    let (second, id) = after_expr(src, first, value, s.range);
    whole_step(src, first, value, s.range);
    assert(stmt_step(second, second));
    fed_stmt(
        r,
        first,
        second,
        id,
        second,
        ranged(value, s.range, id),
        crate::lower_records::comment_at(
            src,
            crate::lower_spec::assignment_comment_of(src, s.range),
        ),
        Some(s.node),
    );
}

proof fn def_step(
    src: Source,
    r: Records,
    s: syntax::Stmt,
    first: Records,
    params: Seq<ParamId>,
    second: Records,
)
    requires
        s.kind matches StmtKind::FunctionDef { name, parameters, body, suite } && (first, params)
            == after_params(src, r, parameters, slot_count(parameters)) && second == after_suite(
            src,
            first,
            body@,
            suite,
        ),
        expr_step(r, first),
        is_bounded(first) ==> are_new(r, first, params),
        stmt_step(first, second),
    ensures
        stmt_step(r, after_stmt(src, r, s).0),
{
    expr_in_stmt(r, first);
    stmt_on(r, first, second);
    match s.kind {
        StmtKind::FunctionDef { name, parameters: _, body, suite } => {
            let comment = crate::lower_records::comment_at(
                src,
                crate::lower_spec::def_comment(src, body@, suite),
            );
            let (third, id) = second.add_stmt(None, comment, Some(s.node));
            plain_stmt(r, second, comment, Some(s.node));
            let fourth = if name.text@.len() > 0 {
                Records { function_names: third.function_names.push((id, name.range)), ..third }
            } else {
                third
            };
            assert(source_keys(fourth) =~= source_keys(third));
            assert(keyword_keys(fourth) =~= keyword_keys(third));
            assert(param_keys(fourth) =~= param_keys(third));
            if is_bounded(fourth) && name.text@.len() > 0 {
                let key = id.0 as int;
                assert(function_keys(third) =~= function_keys(second));
                assert(function_keys(fourth) =~= function_keys(third).push(key));
                adds_one(
                    function_keys(r),
                    function_keys(third),
                    function_keys(fourth),
                    r.stmts as int,
                    second.stmts as int,
                    fourth.stmts as int,
                    key,
                );
            }
            assert(stmt_step(r, fourth));
            if is_bounded(fourth) {
                assert(param_keys(fourth) =~= param_keys(second));
                assert(param_keys(first) =~= param_keys(r));
            }
            owners_step(r, first, fourth, params, id, params.len());
        },
        _ => {},
    }
}

/// The parameters of a function are recorded once.
proof fn owners_step(
    r: Records,
    first: Records,
    t: Records,
    params: Seq<ParamId>,
    id: crate::def::StmtId,
    n: nat,
)
    requires
        stmt_step(r, t),
        r.params <= first.params <= t.params,
        is_bounded(t) ==> are_new(r, first, params) && forall|i: int|
            param_keys(r).len() <= i < param_keys(t).len() ==> first.params <= #[trigger] param_keys(
                t,
            )[i],
        n <= params.len(),
    ensures
        stmt_step(r, t.params_of_def(params, id, n)),
        t.params_of_def(params, id, n).exprs == t.exprs,
        t.params_of_def(params, id, n).stmts == t.stmts,
        t.params_of_def(params, id, n).params == t.params,
        is_bounded(t) ==> forall|k: int|
            n <= k < params.len() ==> is_free(
                param_keys(r),
                param_keys(t.params_of_def(params, id, n)),
                (#[trigger] params[k]).0 as int,
            ),
    decreases n,
{
    if n == 0 {
        if is_bounded(t) {
            assert forall|k: int| 0 <= k < params.len() implies is_free(
                param_keys(r),
                param_keys(t),
                (#[trigger] params[k]).0 as int,
            ) by {
                assert(params[k].0 < first.params);
            }
        }
    } else {
        let before = t.params_of_def(params, id, (n - 1) as nat);
        let after = t.params_of_def(params, id, n);
        owners_step(r, first, t, params, id, (n - 1) as nat);
        assert(source_keys(after) =~= source_keys(before));
        assert(keyword_keys(after) =~= keyword_keys(before));
        assert(function_keys(after) =~= function_keys(before));
        if is_bounded(t) {
            let key = params[n - 1].0 as int;
            assert(param_keys(after) =~= param_keys(before).push(key));
            adds_one(
                param_keys(r),
                param_keys(before),
                param_keys(after),
                r.params as int,
                t.params as int,
                t.params as int,
                key,
            );
            assert forall|k: int| n <= k < params.len() implies is_free(
                param_keys(r),
                param_keys(after),
                (#[trigger] params[k]).0 as int,
            ) by {
                assert(params[n - 1].0 != params[k].0);
                assert forall|i: int| param_keys(r).len() <= i < param_keys(after).len() implies #[trigger] param_keys(
                    after,
                )[i] != params[k].0 as int by {
                    if i < param_keys(before).len() {
                        assert(param_keys(before)[i] == param_keys(after)[i]);
                    }
                }
            }
        }
    }
}

proof fn stmts_step(src: Source, r: Records, body: Seq<syntax::Stmt>)
    ensures
        stmt_step(r, after_stmts(src, r, body)),
    decreases body, 0nat,
{
    if body.len() > 0 {
        let before = after_stmts(src, r, body.drop_last());
        stmts_step(src, r, body.drop_last());
        one_stmt_step(src, before, body.last());
        stmt_on(r, before, after_stmts(src, r, body));
    }
}

proof fn suite_step(src: Source, r: Records, body: Seq<syntax::Stmt>, suite: Option<Span>)
    ensures
        stmt_step(r, after_suite(src, r, body, suite)),
    decreases body, 1nat,
{
    if suite is Some {
        stmts_step(src, r, body);
    }
}

proof fn clauses_step(src: Source, r: Records, clauses: Seq<Clause>)
    ensures
        stmt_step(r, after_clauses(src, r, clauses)),
    decreases clauses, 0nat,
{
    if clauses.len() > 0 {
        let c = clauses.last();
        let before = after_clauses(src, r, clauses.drop_last());
        clauses_step(src, r, clauses.drop_last());
        let first = match c.test {
            Some(test) => after_expr(src, before, test, c.range).0,
            None => before,
        };
        match c.test {
            Some(test) => {
                whole_step(src, before, test, c.range);
                expr_in_stmt(before, first);
            },
            None => {},
        }
        suite_step(src, first, c.body@, c.suite);
        stmt_on(r, before, first);
        stmt_on(r, first, after_clauses(src, r, clauses));
    }
}

/// Whether a lookup in a log gives back every entry of it.
pub open spec fn gives_back<K, V>(log: Seq<(K, V)>) -> bool {
    forall|i: int| 0 <= i < log.len() ==> logged(log, (#[trigger] log[i]).0) == Some(log[i].1)
}

/// A log in which no key comes twice gives back every entry.
proof fn once_is_given_back<K, V>(log: Seq<(K, V)>)
    requires
        forall|i: int, j: int|
            0 <= i < j < log.len() ==> (#[trigger] log[i]).0 != (#[trigger] log[j]).0,
    ensures
        gives_back(log),
{
    assert forall|i: int| 0 <= i < log.len() implies logged(log, (#[trigger] log[i]).0) == Some(
        log[i].1,
    ) by {
        entry_is_given_back(log, i);
    }
}

proof fn entry_is_given_back<K, V>(log: Seq<(K, V)>, i: int)
    requires
        0 <= i < log.len(),
        forall|j: int| i < j < log.len() ==> log[i].0 != (#[trigger] log[j]).0,
    ensures
        logged(log, log[i].0) == Some(log[i].1),
    decreases log.len(),
{
    if i < log.len() - 1 {
        let rest = log.drop_last();
        assert(log[i].0 != log[log.len() - 1].0);
        assert forall|j: int| i < j < rest.len() implies rest[i].0 != (#[trigger] rest[j]).0 by {
            assert(rest[j] == log[j]);
        }
        entry_is_given_back(rest, i);
    }
}

/// Whether lookups give back what is recorded under the indices of a module: where
/// the value of an expression goes, the function of a parameter, the name of a
/// function, and the name of a keyword.
pub open spec fn lookups_give_back(st: Lowering) -> bool {
    &&& gives_back(st.module.assignment_sources@)
    &&& gives_back(st.module.param_to_def_stmt@)
    &&& gives_back(st.source_map.function_names@)
    &&& gives_back(st.source_map.keyword_names@)
}

proof fn top_step(src: Source, r: Records, body: Seq<syntax::Stmt>, ranges: Seq<Span>)
    ensures
        stmt_step(r, after_top(src, r, body, ranges)),
    decreases body.len(),
{
    if body.len() > 0 {
        let fewer = if has_stmt(body.last()) {
            ranges.drop_last()
        } else {
            ranges
        };
        let before = after_top(src, r, body.drop_last(), fewer);
        let next = after_stmt(src, before, body.last()).0;
        top_step(src, r, body.drop_last(), fewer);
        one_stmt_step(src, before, body.last());
        stmt_on(r, before, next);
        let t = after_top(src, r, body, ranges);
        assert(source_keys(t) =~= source_keys(next));
        assert(keyword_keys(t) =~= keyword_keys(next));
        assert(function_keys(t) =~= function_keys(next));
        assert(param_keys(t) =~= param_keys(next));
    }
}

/// In a lowered file a lookup under an index gives back what was recorded there,
/// whatever was recorded later.
pub proof fn recorded_once(src: Source, st: Lowering, ranges: Seq<Span>)
    requires
        st.records() == after_top(src, no_records(), src.body@, ranges),
    ensures
        lookups_give_back(st),
{
    reveal(Lowering::records);
    let start = no_records();
    let t = after_top(src, start, src.body@, ranges);
    top_step(src, start, src.body@, ranges);
    assert(st.module.exprs.len() == t.exprs);
    assert(st.module.stmts.len() == t.stmts);
    assert(st.module.params.len() == t.params);
    assert(is_bounded(t));
    let log = st.module.assignment_sources@;
    assert(log == t.assignment_sources);
    assert forall|i: int, j: int| 0 <= i < j < log.len() implies (#[trigger] log[i]).0 != (
    #[trigger] log[j]).0 by {
        assert(source_keys(t)[i] != source_keys(t)[j]);
    }
    once_is_given_back(log);
    let log = st.module.param_to_def_stmt@;
    assert(log == t.param_to_def_stmt);
    assert forall|i: int, j: int| 0 <= i < j < log.len() implies (#[trigger] log[i]).0 != (
    #[trigger] log[j]).0 by {
        assert(param_keys(t)[i] != param_keys(t)[j]);
    }
    once_is_given_back(log);
    let log = st.source_map.function_names@;
    assert(log == t.function_names);
    assert forall|i: int, j: int| 0 <= i < j < log.len() implies (#[trigger] log[i]).0 != (
    #[trigger] log[j]).0 by {
        assert(function_keys(t)[i] != function_keys(t)[j]);
    }
    once_is_given_back(log);
    let log = st.source_map.keyword_names@;
    assert(log == t.keyword_names);
    assert forall|i: int, j: int| 0 <= i < j < log.len() implies (#[trigger] log[i]).0 != (
    #[trigger] log[j]).0 by {
        assert(keyword_keys(t)[i] != keyword_keys(t)[j]);
    }
    once_is_given_back(log);
}

} // verus!
