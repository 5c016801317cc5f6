//! What holds of the names that a module binds: which definitions they stand for, and
//! which of several counts.

use vstd::prelude::*;

use crate::def::{
    CompClause, ElseBranch, Expr, ExprId, LoadItem, LoadItemId, Module, ModuleSourceMap, ParamId,
    Stmt, StmtId,
};
use crate::builtin_tables::{APIGlobals, BuiltinGlobals};
use crate::common::{APIContext, File};
use crate::resolver::{
    accepts, ambient_of, builtin_of, definition_of, definitions, exported, first_seen, innermost,
    is_smallest, place_range, touches, Accept, Ambient, Export,
};
use crate::scope::{
    clauses_bind, clauses_places, default_parts, expr_places, exprs_places, function_places,
    functions_places, load_binds, module_binds, module_places, opt_part, params_bind, plain_parts,
    stmt_binds, stmt_places, stmts_bind, stmts_places, target_binds, targets_bind, Binding, Env,
    ExecutionScope, ScopeDef, ScopeHirId,
};

verus! {

/// Whether a definition is written with a name: a variable and a parameter with their
/// own, a function with that behind `def`, and a loaded item with its alias if it has
/// one, and else with the name that is loaded.
pub open spec fn is_called(m: Module, def: ScopeDef, name: Seq<char>) -> bool {
    match def {
        ScopeDef::Variable(e) => m.exprs@[e.0 as int] matches Expr::Name { name: written }
            && written@ == name,
        ScopeDef::Function(id) => m.stmts@[id.0 as int] matches Stmt::Def { func, stmts: _ }
            && func.name@ == name,
        ScopeDef::Parameter(p) => m.params@[p.0 as int].label() == name,
        ScopeDef::LoadItem(i) => match m.load_items@[i.0 as int] {
            LoadItem::Aliased { alias, name: _, load_stmt: _ } => alias@ == name,
            LoadItem::Direct { name: loaded, load_stmt: _ } => loaded@ == name,
        },
    }
}

/// Whether an assignment to `at` assigns to the name `e`: it is that name, or a part
/// of it is.
pub open spec fn is_target(m: Module, at: ExprId, e: ExprId) -> bool
    decreases at.0,
{
    match m.exprs@[at.0 as int] {
        Expr::Name { name: _ } => e == at,
        Expr::Paren { expr } => expr.0 < at.0 && is_target(m, expr, e),
        Expr::Tuple { exprs } => exists|i: int|
            0 <= i < exprs@.len() && (#[trigger] exprs@[i]).0 < at.0 && is_target(m, exprs@[i], e),
        Expr::List { exprs } => exists|i: int|
            0 <= i < exprs@.len() && (#[trigger] exprs@[i]).0 < at.0 && is_target(m, exprs@[i], e),
        _ => false,
    }
}

/// Whether a statement, or one in it that runs with it, makes a definition.
pub open spec fn defines(m: Module, id: StmtId, def: ScopeDef) -> bool
    decreases id.0,
{
    match m.stmts@[id.0 as int] {
        Stmt::Def { func: _, stmts: _ } => def == ScopeDef::Function(id),
        Stmt::Assign { lhs, rhs: _, op: _, type_ref: _ } => def matches ScopeDef::Variable(e)
            && is_target(m, lhs, e),
        Stmt::Load { load_stmt: _, items } => def matches ScopeDef::LoadItem(item)
            && items@.contains(item),
        Stmt::For { iterable: _, targets, stmts } => {
            ||| def matches ScopeDef::Variable(e) && exists|i: int|
                0 <= i < targets@.len() && (#[trigger] targets@[i]).0 < m.exprs@.len()
                    && is_target(m, targets@[i], e)
            ||| exists|i: int|
                0 <= i < stmts@.len() && (#[trigger] stmts@[i]).0 < id.0 && defines(
                    m,
                    stmts@[i],
                    def,
                )
        },
        Stmt::If { test: _, if_stmts, elif_or_else_stmts } => {
            ||| exists|i: int|
                0 <= i < if_stmts@.len() && (#[trigger] if_stmts@[i]).0 < id.0 && defines(
                    m,
                    if_stmts@[i],
                    def,
                )
            ||| match elif_or_else_stmts {
                Some(ElseBranch::Elif(inner)) => inner.0 < id.0 && defines(m, inner, def),
                Some(ElseBranch::Else(stmts)) => exists|i: int|
                    0 <= i < stmts@.len() && (#[trigger] stmts@[i]).0 < id.0 && defines(
                        m,
                        stmts@[i],
                        def,
                    ),
                None => false,
            }
        },
        _ => false,
    }
}

/// Whether bindings hold a definition.
pub open spec fn has(env: Env, def: ScopeDef) -> bool {
    exists|k: int| 0 <= k < env.len() && (#[trigger] env[k]).def == def
}

/// Whether every binding is under the name of its definition.
pub open spec fn are_called(m: Module, env: Env) -> bool {
    forall|k: int| 0 <= k < env.len() ==> is_called(m, (#[trigger] env[k]).def, env[k].name)
}

/// Whether every binding happens in a piece of code.
pub open spec fn are_in(env: Env, execution: ExecutionScope) -> bool {
    forall|k: int| 0 <= k < env.len() ==> (#[trigger] env[k]).execution == execution
}

proof fn has_in_both(a: Env, b: Env, def: ScopeDef)
    ensures
        has(a + b, def) <==> has(a, def) || has(b, def),
{
    let all = a + b;
    if has(all, def) {
        let k = choose|k: int| 0 <= k < all.len() && (#[trigger] all[k]).def == def;
        if k < a.len() {
            assert(a[k].def == def);
        } else {
            assert(b[k - a.len()].def == def);
        }
    }
    if has(a, def) {
        let k = choose|k: int| 0 <= k < a.len() && (#[trigger] a[k]).def == def;
        assert(all[k].def == def);
    }
    if has(b, def) {
        let k = choose|k: int| 0 <= k < b.len() && (#[trigger] b[k]).def == def;
        assert(all[a.len() + k].def == def);
    }
}

/// An assignment binds exactly the names that are its targets.
pub proof fn assignments_bind_their_targets(
    m: Module,
    expr: ExprId,
    execution: ExecutionScope,
    def: ScopeDef,
)
    ensures
        has(target_binds(m, expr, execution), def) <==> (def matches ScopeDef::Variable(e)
            && is_target(m, expr, e)),
        are_called(m, target_binds(m, expr, execution)),
        are_in(target_binds(m, expr, execution), execution),
    decreases expr.0, 1nat, 0nat,
{
    let env = target_binds(m, expr, execution);
    match m.exprs@[expr.0 as int] {
        Expr::Name { name } => {
            assert(env[0].def == ScopeDef::Variable(expr));
        },
        Expr::Tuple { exprs } => {
            targets_are_bound(m, exprs@, expr.0 as nat, execution, exprs@.len(), def);
        },
        Expr::List { exprs } => {
            targets_are_bound(m, exprs@, expr.0 as nat, execution, exprs@.len(), def);
        },
        Expr::Paren { expr: inner } => {
            if inner.0 < expr.0 {
                assignments_bind_their_targets(m, inner, execution, def);
            }
        },
        _ => {},
    }
}

proof fn targets_are_bound(
    m: Module,
    exprs: Seq<ExprId>,
    limit: nat,
    execution: ExecutionScope,
    n: nat,
    def: ScopeDef,
)
    requires
        n <= exprs.len(),
    ensures
        has(targets_bind(m, exprs, limit, execution, n), def) <==> (def matches ScopeDef::Variable(e)
            && exists|i: int|
            0 <= i < n && (#[trigger] exprs[i]).0 < limit && is_target(m, exprs[i], e)),
        are_called(m, targets_bind(m, exprs, limit, execution, n)),
        are_in(targets_bind(m, exprs, limit, execution, n), execution),
    decreases limit, 0nat, n,
{
    if n > 0 {
        targets_are_bound(m, exprs, limit, execution, (n - 1) as nat, def);
        let rest = targets_bind(m, exprs, limit, execution, (n - 1) as nat);
        if exprs[n - 1].0 < limit {
            assignments_bind_their_targets(m, exprs[n - 1], execution, def);
            has_in_both(rest, target_binds(m, exprs[n - 1], execution), def);
        }
    }
}

proof fn params_are_bound(
    m: Module,
    ids: Seq<ParamId>,
    execution: ExecutionScope,
    n: nat,
    def: ScopeDef,
)
    requires
        n <= ids.len(),
    ensures
        has(params_bind(m, ids, execution, n), def) <==> (def matches ScopeDef::Parameter(p)
            && ids.take(n as int).contains(p)),
        are_called(m, params_bind(m, ids, execution, n)),
        are_in(params_bind(m, ids, execution, n), execution),
    decreases n,
{
    if n > 0 {
        let rest = params_bind(m, ids, execution, (n - 1) as nat);
        let all = params_bind(m, ids, execution, n);
        params_are_bound(m, ids, execution, (n - 1) as nat, def);
        assert(all =~= rest + seq![all.last()]);
        has_in_both(rest, seq![all.last()], def);
        assert(seq![all.last()][0].def == ScopeDef::Parameter(ids[n - 1]));
        let taken = ids.take(n as int);
        let fewer = ids.take(n - 1);
        assert(taken[n - 1] == ids[n - 1]);
        if let ScopeDef::Parameter(p) = def {
            if fewer.contains(p) {
                let k = choose|k: int| 0 <= k < fewer.len() && fewer[k] == p;
                assert(taken[k] == p);
            }
            if taken.contains(p) && p != ids[n - 1] {
                let k = choose|k: int| 0 <= k < taken.len() && taken[k] == p;
                assert(fewer[k] == p);
            }
        }
    }
}

/// A `load` binds exactly its items.
pub proof fn loads_bind_their_items(
    m: Module,
    items: Seq<LoadItemId>,
    execution: ExecutionScope,
    n: nat,
    def: ScopeDef,
)
    requires
        n <= items.len(),
    ensures
        has(load_binds(m, items, execution, n), def) <==> (def matches ScopeDef::LoadItem(item)
            && items.take(n as int).contains(item)),
        are_called(m, load_binds(m, items, execution, n)),
        are_in(load_binds(m, items, execution, n), execution),
    decreases n,
{
    if n > 0 {
        let rest = load_binds(m, items, execution, (n - 1) as nat);
        let all = load_binds(m, items, execution, n);
        loads_bind_their_items(m, items, execution, (n - 1) as nat, def);
        assert(all =~= rest + seq![all.last()]);
        has_in_both(rest, seq![all.last()], def);
        assert(seq![all.last()][0].def == ScopeDef::LoadItem(items[n - 1]));
        let taken = items.take(n as int);
        let fewer = items.take(n - 1);
        assert(taken[n - 1] == items[n - 1]);
        if let ScopeDef::LoadItem(p) = def {
            if fewer.contains(p) {
                let k = choose|k: int| 0 <= k < fewer.len() && fewer[k] == p;
                assert(taken[k] == p);
            }
            if taken.contains(p) && p != items[n - 1] {
                let k = choose|k: int| 0 <= k < taken.len() && taken[k] == p;
                assert(fewer[k] == p);
            }
        }
    }
}

/// A statement binds exactly the definitions that it makes, each under the name that
/// it is written with, in the piece of code that the statement is in.
pub proof fn statements_bind_what_they_define(
    m: Module,
    id: StmtId,
    execution: ExecutionScope,
    def: ScopeDef,
)
    ensures
        has(stmt_binds(m, id, execution), def) <==> defines(m, id, def),
        are_called(m, stmt_binds(m, id, execution)),
        are_in(stmt_binds(m, id, execution), execution),
    decreases id.0, 1nat, 0nat,
{
    let env = stmt_binds(m, id, execution);
    let limit = id.0 as nat;
    match m.stmts@[id.0 as int] {
        Stmt::Def { func, stmts: _ } => {
            assert(env[0].def == ScopeDef::Function(id));
        },
        Stmt::If { test: _, if_stmts, elif_or_else_stmts } => {
            let first = stmts_bind(m, if_stmts@, limit, execution, if_stmts@.len());
            stmts_are_bound(m, if_stmts@, limit, execution, if_stmts@.len(), def);
            match elif_or_else_stmts {
                Some(ElseBranch::Elif(inner)) => {
                    if inner.0 < id.0 {
                        statements_bind_what_they_define(m, inner, execution, def);
                        has_in_both(first, stmt_binds(m, inner, execution), def);
                    } else {
                        assert(env =~= first);
                    }
                },
                Some(ElseBranch::Else(stmts)) => {
                    stmts_are_bound(m, stmts@, limit, execution, stmts@.len(), def);
                    has_in_both(
                        first,
                        stmts_bind(m, stmts@, limit, execution, stmts@.len()),
                        def,
                    );
                },
                None => {
                    assert(env =~= first);
                },
            }
        },
        Stmt::For { iterable: _, targets, stmts } => {
            targets_are_bound(m, targets@, m.exprs@.len(), execution, targets@.len(), def);
            stmts_are_bound(m, stmts@, limit, execution, stmts@.len(), def);
            has_in_both(
                targets_bind(m, targets@, m.exprs@.len(), execution, targets@.len()),
                stmts_bind(m, stmts@, limit, execution, stmts@.len()),
                def,
            );
        },
        Stmt::Assign { lhs, rhs: _, op: _, type_ref: _ } => {
            assignments_bind_their_targets(m, lhs, execution, def);
        },
        Stmt::Load { load_stmt: _, items } => {
            loads_bind_their_items(m, items@, execution, items@.len(), def);
            assert(items@.take(items@.len() as int) =~= items@);
        },
        _ => {},
    }
}

proof fn stmts_are_bound(
    m: Module,
    ids: Seq<StmtId>,
    limit: nat,
    execution: ExecutionScope,
    n: nat,
    def: ScopeDef,
)
    requires
        n <= ids.len(),
    ensures
        has(stmts_bind(m, ids, limit, execution, n), def) <==> exists|i: int|
            0 <= i < n && (#[trigger] ids[i]).0 < limit && defines(m, ids[i], def),
        are_called(m, stmts_bind(m, ids, limit, execution, n)),
        are_in(stmts_bind(m, ids, limit, execution, n), execution),
    decreases limit, 0nat, n,
{
    if n > 0 {
        let rest = stmts_bind(m, ids, limit, execution, (n - 1) as nat);
        stmts_are_bound(m, ids, limit, execution, (n - 1) as nat, def);
        if ids[n - 1].0 < limit {
            statements_bind_what_they_define(m, ids[n - 1], execution, def);
            has_in_both(rest, stmt_binds(m, ids[n - 1], execution), def);
        }
    }
}

/// A module binds exactly the definitions that its statements make, each under the
/// name that it is written with.
pub proof fn a_module_binds_what_it_defines(m: Module, def: ScopeDef)
    ensures
        has(module_binds(m), def) <==> exists|i: int|
            0 <= i < m.top_level@.len() && (#[trigger] m.top_level@[i]).0 < m.stmts@.len()
                && defines(m, m.top_level@[i], def),
        are_called(m, module_binds(m)),
        are_in(module_binds(m), ExecutionScope::Module),
{
    stmts_are_bound(
        m,
        m.top_level@,
        m.stmts@.len(),
        ExecutionScope::Module,
        m.top_level@.len(),
        def,
    );
}

/// Whether what every place sees is under the names of the definitions.
pub open spec fn all_called(m: Module, places: Seq<(ScopeHirId, Env)>) -> bool {
    forall|k: int| 0 <= k < places.len() ==> are_called(m, (#[trigger] places[k]).1)
}

proof fn clauses_are_called(m: Module, clauses: Seq<CompClause>, id: ExprId, n: nat)
    requires
        n <= clauses.len(),
    ensures
        are_called(m, clauses_bind(m, clauses, id, n)),
        are_in(clauses_bind(m, clauses, id, n), ExecutionScope::Comp(id)),
    decreases n,
{
    if n > 0 {
        clauses_are_called(m, clauses, id, (n - 1) as nat);
        if let CompClause::For { iterable: _, targets } = clauses[n - 1] {
            targets_are_bound(
                m,
                targets@,
                id.0 as nat,
                ExecutionScope::Comp(id),
                targets@.len(),
                ScopeDef::Variable(id),
            );
        }
    }
}

proof fn expr_sees_called(m: Module, id: ExprId, env: Env)
    requires
        are_called(m, env),
    ensures
        all_called(m, expr_places(m, id, env)),
    decreases id.0, 2nat, 0nat,
{
    let limit = id.0 as nat;
    match m.exprs@[id.0 as int] {
        Expr::Lambda { func, body } => {
            let defaults = default_parts(m, func.params@, func.params@.len());
            let execution = ExecutionScope::Lambda(id);
            let more = params_bind(m, func.params@, execution, func.params@.len());
            params_are_bound(
                m,
                func.params@,
                execution,
                func.params@.len(),
                ScopeDef::Variable(id),
            );
            exprs_see_called(m, defaults, limit, env, defaults.len());
            exprs_see_called(m, seq![body], limit, env + more, 1);
        },
        Expr::ListComp { expr, comp_clauses } => {
            let n = comp_clauses@.len();
            let more = clauses_bind(m, comp_clauses@, id, n);
            clauses_are_called(m, comp_clauses@, id, n);
            clauses_see_called(m, comp_clauses@, id, env, n);
            exprs_see_called(m, seq![expr], limit, env + more, 1);
        },
        Expr::DictComp { entry, comp_clauses } => {
            let n = comp_clauses@.len();
            let more = clauses_bind(m, comp_clauses@, id, n);
            clauses_are_called(m, comp_clauses@, id, n);
            clauses_see_called(m, comp_clauses@, id, env, n);
            exprs_see_called(m, seq![entry.key, entry.value], limit, env + more, 2);
        },
        e => {
            let parts = plain_parts(e);
            exprs_see_called(m, parts, limit, env, parts.len());
        },
    }
}

proof fn exprs_see_called(m: Module, ids: Seq<ExprId>, limit: nat, env: Env, n: nat)
    requires
        are_called(m, env),
    ensures
        all_called(m, exprs_places(m, ids, limit, env, n)),
    decreases limit, 0nat, n,
{
    if n > 0 {
        exprs_see_called(m, ids, limit, env, (n - 1) as nat);
        if ids[n - 1].0 < limit {
            expr_sees_called(m, ids[n - 1], env);
        }
    }
}

proof fn clauses_see_called(m: Module, clauses: Seq<CompClause>, id: ExprId, env: Env, n: nat)
    requires
        are_called(m, env),
        n <= clauses.len(),
    ensures
        all_called(m, clauses_places(m, clauses, id, env, n)),
    decreases id.0, 1nat, n,
{
    if n > 0 {
        let before = clauses_bind(m, clauses, id, (n - 1) as nat);
        let after = clauses_bind(m, clauses, id, n);
        clauses_see_called(m, clauses, id, env, (n - 1) as nat);
        clauses_are_called(m, clauses, id, (n - 1) as nat);
        clauses_are_called(m, clauses, id, n);
        match clauses[n - 1] {
            CompClause::For { iterable, targets } => {
                if iterable.0 < id.0 {
                    expr_sees_called(m, iterable, env + before);
                }
                exprs_see_called(m, targets@, id.0 as nat, env + after, targets@.len());
            },
            CompClause::If { test } => {
                if test.0 < id.0 {
                    expr_sees_called(m, test, env + before);
                }
            },
        }
    }
}

proof fn stmt_sees_called(m: Module, id: StmtId, env: Env, execution: ExecutionScope)
    requires
        are_called(m, env),
    ensures
        all_called(m, stmt_places(m, id, env, execution)),
    decreases id.0, 1nat, 0nat,
{
    let exprs = m.exprs@.len();
    let limit = id.0 as nat;
    let any = ScopeDef::Function(id);
    match m.stmts@[id.0 as int] {
        Stmt::Def { func, stmts: _ } => {
            let defaults = default_parts(m, func.params@, func.params@.len());
            exprs_see_called(m, defaults, exprs, env, defaults.len());
        },
        Stmt::If { test, if_stmts, elif_or_else_stmts } => {
            let n = if_stmts@.len();
            let more = stmts_bind(m, if_stmts@, limit, execution, n);
            exprs_see_called(m, seq![test], exprs, env, 1);
            stmts_see_called(m, if_stmts@, limit, env, execution, n);
            stmts_are_bound(m, if_stmts@, limit, execution, n, any);
            match elif_or_else_stmts {
                Some(ElseBranch::Elif(inner)) => {
                    if inner.0 < id.0 {
                        stmt_sees_called(m, inner, env + more, execution);
                    }
                },
                Some(ElseBranch::Else(stmts)) => {
                    stmts_see_called(m, stmts@, limit, env + more, execution, stmts@.len());
                },
                None => {},
            }
        },
        Stmt::For { iterable, targets, stmts } => {
            let more = targets_bind(m, targets@, exprs, execution, targets@.len());
            targets_are_bound(m, targets@, exprs, execution, targets@.len(), any);
            exprs_see_called(m, seq![iterable], exprs, env, 1);
            exprs_see_called(m, targets@, exprs, env + more, targets@.len());
            stmts_see_called(m, stmts@, limit, env + more, execution, stmts@.len());
        },
        Stmt::Return { expr } => {
            let parts = opt_part(expr);
            exprs_see_called(m, parts, exprs, env, parts.len());
        },
        Stmt::Assign { lhs, rhs, op: _, type_ref: _ } => {
            exprs_see_called(m, seq![rhs, lhs], exprs, env, 2);
        },
        Stmt::Expr { expr } => {
            exprs_see_called(m, seq![expr], exprs, env, 1);
        },
        _ => {},
    }
}

proof fn stmts_see_called(
    m: Module,
    ids: Seq<StmtId>,
    limit: nat,
    env: Env,
    execution: ExecutionScope,
    n: nat,
)
    requires
        are_called(m, env),
        n <= ids.len(),
    ensures
        all_called(m, stmts_places(m, ids, limit, env, execution, n)),
    decreases limit, 0nat, n,
{
    if n > 0 {
        let before = stmts_bind(m, ids, limit, execution, (n - 1) as nat);
        stmts_see_called(m, ids, limit, env, execution, (n - 1) as nat);
        stmts_are_bound(
            m,
            ids,
            limit,
            execution,
            (n - 1) as nat,
            ScopeDef::Function(ids[n - 1]),
        );
        if ids[n - 1].0 < limit {
            stmt_sees_called(m, ids[n - 1], env + before, execution);
        }
    }
}

proof fn function_sees_called(m: Module, id: StmtId, env: Env)
    requires
        are_called(m, env),
    ensures
        all_called(m, function_places(m, id, env)),
    decreases id.0, 1nat, 0nat,
{
    let limit = id.0 as nat;
    let any = ScopeDef::Function(id);
    match m.stmts@[id.0 as int] {
        Stmt::Def { func, stmts } => {
            let execution = ExecutionScope::Def(id);
            let n = stmts@.len();
            let start = env + params_bind(m, func.params@, execution, func.params@.len());
            let end = start + stmts_bind(m, stmts@, limit, execution, n);
            params_are_bound(m, func.params@, execution, func.params@.len(), any);
            stmts_are_bound(m, stmts@, limit, execution, n, any);
            stmts_see_called(m, stmts@, limit, start, execution, n);
            functions_see_called(m, stmts@, limit, end, n);
        },
        Stmt::If { test: _, if_stmts, elif_or_else_stmts } => {
            functions_see_called(m, if_stmts@, limit, env, if_stmts@.len());
            match elif_or_else_stmts {
                Some(ElseBranch::Elif(inner)) => {
                    if inner.0 < id.0 {
                        function_sees_called(m, inner, env);
                    }
                },
                Some(ElseBranch::Else(stmts)) => {
                    functions_see_called(m, stmts@, limit, env, stmts@.len());
                },
                None => {},
            }
        },
        Stmt::For { iterable: _, targets: _, stmts } => {
            functions_see_called(m, stmts@, limit, env, stmts@.len());
        },
        _ => {},
    }
}

proof fn functions_see_called(m: Module, ids: Seq<StmtId>, limit: nat, env: Env, n: nat)
    requires
        are_called(m, env),
    ensures
        all_called(m, functions_places(m, ids, limit, env, n)),
    decreases limit, 0nat, n,
{
    if n > 0 {
        functions_see_called(m, ids, limit, env, (n - 1) as nat);
        if ids[n - 1].0 < limit {
            function_sees_called(m, ids[n - 1], env);
        }
    }
}

/// What a place of a module sees is under the name that its definition is written
/// with.
pub proof fn places_see_names_as_written(m: Module, k: int, j: int)
    requires
        0 <= k < module_places(m).len(),
        0 <= j < module_places(m)[k].1.len(),
    ensures
        is_called(m, module_places(m)[k].1[j].def, module_places(m)[k].1[j].name),
{
    let n = m.top_level@.len();
    let limit = m.stmts@.len();
    a_module_binds_what_it_defines(m, ScopeDef::Function(StmtId(0)));
    stmts_see_called(m, m.top_level@, limit, Seq::empty(), ExecutionScope::Module, n);
    functions_see_called(m, m.top_level@, limit, module_binds(m), n);
    assert(all_called(m, module_places(m)));
}

/// Whether a search finds binding `k`: it has the name and is accepted, and none
/// further inside is.
pub open spec fn is_nearest(env: Env, name: Seq<char>, accept: Accept, k: int) -> bool {
    &&& 0 <= k < env.len()
    &&& env[k].name == name
    &&& accepts(accept, env[k].def)
    &&& forall|j: int|
        k < j < env.len() ==> !((#[trigger] env[j]).name == name && accepts(accept, env[j].def))
}

/// A search finds the last binding of a name that it accepts, and nothing exactly if
/// there is none.
pub proof fn the_last_binding_counts(env: Env, name: Seq<char>, accept: Accept)
    ensures
        match innermost(env, name, accept) {
            Some(b) => exists|k: int| #[trigger] is_nearest(env, name, accept, k) && env[k] == b,
            None => forall|j: int|
                0 <= j < env.len() ==> !((#[trigger] env[j]).name == name && accepts(
                    accept,
                    env[j].def,
                )),
        },
    decreases env.len(),
{
    if env.len() > 0 {
        if env.last().name == name && accepts(accept, env.last().def) {
            assert(is_nearest(env, name, accept, env.len() - 1));
        } else {
            let outer = env.drop_last();
            the_last_binding_counts(outer, name, accept);
            match innermost(env, name, accept) {
                Some(b) => {
                    let k = choose|k: int| #[trigger]
                        is_nearest(outer, name, accept, k) && outer[k] == b;
                    assert forall|j: int| k < j < env.len() implies !((#[trigger] env[j]).name
                        == name && accepts(accept, env[j].def)) by {
                        if j < outer.len() {
                            assert(outer[j] == env[j]);
                        }
                    }
                    assert(is_nearest(env, name, accept, k));
                },
                None => {
                    assert forall|j: int| 0 <= j < env.len() implies !((#[trigger] env[j]).name
                        == name && accepts(accept, env[j].def)) by {
                        if j < outer.len() {
                            assert(outer[j] == env[j]);
                        }
                    }
                },
            }
        }
    }
}

/// A binding that a search finds is the one that it gives.
pub proof fn the_nearest_is_found(env: Env, name: Seq<char>, accept: Accept, k: int)
    requires
        is_nearest(env, name, accept, k),
    ensures
        innermost(env, name, accept) == Some(env[k]),
{
    the_last_binding_counts(env, name, accept);
    let b = innermost(env, name, accept)->0;
    let j = choose|j: int| #[trigger] is_nearest(env, name, accept, j) && env[j] == b;
    if j < k {
        assert(env[k].name == name);
    } else if k < j {
        assert(env[j].name == name);
    }
}

/// Other files can load the variables and functions of a file, neither what it loads
/// itself nor what starts with an underscore.
pub proof fn exports_are_the_files_own(env: Env, name: Seq<char>, k: int)
    requires
        is_nearest(env, name, Accept::Exports, k),
    ensures
        env[k].def is Variable || env[k].def is Function,
        exported(env, name) == if name.len() > 0 && name[0] == '_' {
            None
        } else {
            Some(env[k].def)
        },
{
    the_nearest_is_found(env, name, Accept::Exports, k);
}

/// The definitions of a name start with the innermost. They are bindings of that name,
/// all in the piece of code of the innermost, up to the first in another one.
pub proof fn definitions_are_in_one_piece_of_code(env: Env, name: Seq<char>, k: int)
    requires
        is_nearest(env, name, Accept::Everything, k),
    ensures
        definitions(env, name, None).len() > 0,
        definitions(env, name, None)[0] == env[k].def,
        forall|def: ScopeDef| #[trigger]
            definitions(env, name, None).contains(def) <==> exists|i: int| #[trigger]
                runs_up_to(env, name, env[k].execution, i) && env[i].def == def,
{
    last_has_the_name(env, name, k);
    let inner = env.take(k + 1);
    assert(inner.last() == env[k]);
    let outer = env.take(k);
    assert(inner.drop_last() =~= outer);
    let rest = definitions(outer, name, Some(env[k].execution));
    assert(definitions(env, name, None) == seq![env[k].def] + rest);
    assert forall|def: ScopeDef| #[trigger]
        definitions(env, name, None).contains(def) <==> exists|i: int| #[trigger]
        runs_up_to(env, name, env[k].execution, i) && env[i].def == def by {
        let all = definitions(env, name, None);
        definitions_run(outer, name, env[k].execution, def);
        if all.contains(def) {
            let j = choose|j: int| 0 <= j < all.len() && all[j] == def;
            if j == 0 {
                assert(runs_up_to(env, name, env[k].execution, k));
            } else {
                assert(rest[j - 1] == def);
                assert(rest.contains(def));
                let i = choose|i: int| #[trigger]
                    runs_up_to(outer, name, env[k].execution, i) && outer[i].def == def;
                assert(runs_up_to(env, name, env[k].execution, i)) by {
                    assert forall|j: int| i <= j < env.len() && (#[trigger] env[j]).name
                        == name implies env[j].execution == env[k].execution by {
                        if j < k {
                            assert(outer[j] == env[j]);
                        }
                    }
                }
            }
        }
        if exists|i: int| #[trigger]
            runs_up_to(env, name, env[k].execution, i) && env[i].def == def {
            let i = choose|i: int| #[trigger]
                runs_up_to(env, name, env[k].execution, i) && env[i].def == def;
            if i >= k {
                assert(i == k);
                assert(all[0] == def);
            } else {
                assert(runs_up_to(outer, name, env[k].execution, i)) by {
                    assert forall|j: int| i <= j < outer.len() && (#[trigger] outer[j]).name
                        == name implies outer[j].execution == env[k].execution by {
                        assert(outer[j] == env[j]);
                    }
                }
                assert(rest.contains(def));
                let j = choose|j: int| 0 <= j < rest.len() && rest[j] == def;
                assert(all[j + 1] == def);
            }
        }
    }
}

/// Whether binding `i` has a name, and it and all bindings of that name further inside
/// are in a piece of code.
pub open spec fn runs_up_to(env: Env, name: Seq<char>, execution: ExecutionScope, i: int) -> bool {
    &&& 0 <= i < env.len()
    &&& env[i].name == name
    &&& forall|j: int|
        i <= j < env.len() && (#[trigger] env[j]).name == name ==> env[j].execution == execution
}

/// Bindings of other names at the end change nothing.
proof fn last_has_the_name(env: Env, name: Seq<char>, k: int)
    requires
        is_nearest(env, name, Accept::Everything, k),
    ensures
        definitions(env, name, None) == definitions(env.take(k + 1), name, None),
    decreases env.len(),
{
    if k == env.len() - 1 {
        assert(env.take(k + 1) =~= env);
    } else {
        let outer = env.drop_last();
        assert(env[env.len() - 1].name != name);
        assert forall|j: int| k < j < outer.len() implies !((#[trigger] outer[j]).name == name
            && accepts(Accept::Everything, outer[j].def)) by {
            assert(outer[j] == env[j]);
        }
        last_has_the_name(outer, name, k);
        assert(outer.take(k + 1) =~= env.take(k + 1));
    }
}

proof fn definitions_run(env: Env, name: Seq<char>, execution: ExecutionScope, def: ScopeDef)
    ensures
        definitions(env, name, Some(execution)).contains(def) <==> exists|i: int| #[trigger]
            runs_up_to(env, name, execution, i) && env[i].def == def,
    decreases env.len(),
{
    let all = definitions(env, name, Some(execution));
    if env.len() > 0 {
        let outer = env.drop_last();
        let last = env.len() - 1;
        definitions_run(outer, name, execution, def);
        let rest = definitions(outer, name, Some(execution));
        if env.last().name == name && env.last().execution != execution {
            assert forall|i: int| !#[trigger] runs_up_to(env, name, execution, i) by {
                assert(env[last].name == name);
            }
        } else {
            assert forall|i: int| 0 <= i < last implies #[trigger] runs_up_to(
                outer,
                name,
                execution,
                i,
            ) == runs_up_to(env, name, execution, i) by {
                if runs_up_to(outer, name, execution, i) {
                    assert forall|j: int| i <= j < env.len() && (#[trigger] env[j]).name
                        == name implies env[j].execution == execution by {
                        if j < last {
                            assert(outer[j] == env[j]);
                        }
                    }
                }
                if runs_up_to(env, name, execution, i) {
                    assert forall|j: int| i <= j < outer.len() && (#[trigger] outer[j]).name
                        == name implies outer[j].execution == execution by {
                        assert(outer[j] == env[j]);
                    }
                }
            }
            if all.contains(def) {
                let j = choose|j: int| 0 <= j < all.len() && all[j] == def;
                if env.last().name == name && j == 0 {
                    assert(runs_up_to(env, name, execution, last));
                } else {
                    if env.last().name == name {
                        assert(rest[j - 1] == def);
                    }
                    assert(rest.contains(def));
                    let i = choose|i: int| #[trigger]
                        runs_up_to(outer, name, execution, i) && outer[i].def == def;
                    assert(runs_up_to(env, name, execution, i) && env[i].def == def);
                }
            }
            if exists|i: int| #[trigger] runs_up_to(env, name, execution, i) && env[i].def == def {
                let i = choose|i: int| #[trigger]
                    runs_up_to(env, name, execution, i) && env[i].def == def;
                if i == last {
                    assert(all[0] == def);
                } else {
                    assert(runs_up_to(outer, name, execution, i) && outer[i].def == def);
                    let j = choose|j: int| 0 <= j < rest.len() && rest[j] == def;
                    if env.last().name == name {
                        assert(all[j + 1] == def);
                    } else {
                        assert(all[j] == def);
                    }
                }
            }
        }
    }
}

/// The alias of a loaded item is its local name. A module that loads
/// `alias = "loaded"` binds the alias to the item, and every place that sees the item
/// sees it under the alias: under the name that is loaded it finds something else, or
/// nothing.
pub proof fn an_alias_is_the_local_name(
    m: Module,
    k: int,
    item: LoadItemId,
    alias: Seq<char>,
    loaded: Seq<char>,
)
    requires
        0 <= k < m.top_level@.len(),
        m.top_level@[k].0 < m.stmts@.len(),
        m.stmts@[m.top_level@[k].0 as int] matches Stmt::Load { load_stmt: _, items }
            && items@.contains(item),
        m.load_items@[item.0 as int] matches LoadItem::Aliased { alias: a, name: n, load_stmt: _ }
            && a@ == alias && n@ == loaded,
    ensures
        forall|n: int|
            k < n <= m.top_level@.len() ==> #[trigger] sees(
                stmts_bind(m, m.top_level@, m.stmts@.len(), ExecutionScope::Module, n as nat),
                alias,
                ScopeDef::LoadItem(item),
                ExecutionScope::Module,
            ),
        sees(module_binds(m), alias, ScopeDef::LoadItem(item), ExecutionScope::Module),
        innermost(module_binds(m), alias, Accept::Prelude) is Some,
        forall|i: int, accept: Accept|
            0 <= i < module_places(m).len() && alias != loaded ==> {
                let found = #[trigger] innermost(module_places(m)[i].1, loaded, accept);
                found is Some ==> found->0.def != ScopeDef::LoadItem(item)
            },
{
    let def = ScopeDef::LoadItem(item);
    assert(defines(m, m.top_level@[k], def));
    assert forall|n: int| k < n <= m.top_level@.len() implies #[trigger] sees(
        stmts_bind(m, m.top_level@, m.stmts@.len(), ExecutionScope::Module, n as nat),
        alias,
        def,
        ExecutionScope::Module,
    ) by {
        let env = stmts_bind(
            m,
            m.top_level@,
            m.stmts@.len(),
            ExecutionScope::Module,
            n as nat,
        );
        stmts_are_bound(
            m,
            m.top_level@,
            m.stmts@.len(),
            ExecutionScope::Module,
            n as nat,
            def,
        );
        let j = choose|j: int| 0 <= j < env.len() && (#[trigger] env[j]).def == def;
        assert(is_called(m, env[j].def, env[j].name));
        assert(env[j] == (Binding { name: alias, def, execution: ExecutionScope::Module }));
    }
    let all: int = m.top_level@.len() as int;
    assert(all as nat == m.top_level@.len());
    assert(sees(
        stmts_bind(m, m.top_level@, m.stmts@.len(), ExecutionScope::Module, all as nat),
        alias,
        def,
        ExecutionScope::Module,
    ));
    the_last_binding_counts(module_binds(m), alias, Accept::Prelude);
    assert forall|i: int, accept: Accept|
        0 <= i < module_places(m).len() && alias != loaded implies {
        let found = #[trigger] innermost(module_places(m)[i].1, loaded, accept);
        found is Some ==> found->0.def != def
    } by {
        let env = module_places(m)[i].1;
        the_last_binding_counts(env, loaded, accept);
        if let Some(b) = innermost(env, loaded, accept) {
            let j = choose|j: int| #[trigger] is_nearest(env, loaded, accept, j) && env[j] == b;
            places_see_names_as_written(m, i, j);
        }
    }
}

/// Whether bindings hold a name for a definition, made in a piece of code.
pub open spec fn sees(
    env: Env,
    name: Seq<char>,
    def: ScopeDef,
    execution: ExecutionScope,
) -> bool {
    exists|j: int| 0 <= j < env.len() && #[trigger] env[j] == (Binding { name, def, execution })
}

/// Whether bindings happen only in lambdas and comprehensions.
pub open spec fn are_inner(env: Env) -> bool {
    forall|k: int|
        0 <= k < env.len() ==> (#[trigger] env[k]).execution is Lambda || env[k].execution is Comp
}

/// Whether every place sees some bindings and, further inside, only those of lambdas
/// and comprehensions.
pub open spec fn see_no_more(places: Seq<(ScopeHirId, Env)>, env: Env) -> bool {
    forall|k: int| 0 <= k < places.len() ==> sees_no_more((#[trigger] places[k]).1, env)
}

/// Whether some bindings are others, and further inside only those of lambdas and
/// comprehensions.
pub open spec fn sees_no_more(seen: Env, env: Env) -> bool {
    env.len() <= seen.len() && seen.take(env.len() as int) == env && are_inner(
        seen.skip(env.len() as int),
    )
}

proof fn inner_adds(env: Env, more: Env)
    requires
        are_inner(more),
    ensures
        sees_no_more(env + more, env),
{
    assert((env + more).take(env.len() as int) =~= env);
    assert((env + more).skip(env.len() as int) =~= more);
}

proof fn see_no_more_around(places: Seq<(ScopeHirId, Env)>, env: Env, more: Env)
    requires
        see_no_more(places, env + more),
        are_inner(more),
    ensures
        see_no_more(places, env),
{
    assert forall|k: int| 0 <= k < places.len() implies sees_no_more(
        (#[trigger] places[k]).1,
        env,
    ) by {
        let seen = places[k].1;
        assert(sees_no_more(seen, env + more));
        let rest = seen.skip((env + more).len() as int);
        assert(seen =~= (env + more) + rest);
        assert(seen.take(env.len() as int) =~= (env + more).take(env.len() as int));
        assert((env + more).take(env.len() as int) =~= env);
        let inside = seen.skip(env.len() as int);
        assert(inside =~= more + rest);
    }
}

proof fn expr_sees_no_more(m: Module, id: ExprId, env: Env)
    ensures
        see_no_more(expr_places(m, id, env), env),
    decreases id.0, 2nat, 0nat,
{
    let limit = id.0 as nat;
    assert(sees_no_more(env, env)) by {
        assert(env.take(env.len() as int) =~= env);
        assert(env.skip(env.len() as int) =~= Seq::<Binding>::empty());
    }
    match m.exprs@[id.0 as int] {
        Expr::Lambda { func, body } => {
            let defaults = default_parts(m, func.params@, func.params@.len());
            let execution = ExecutionScope::Lambda(id);
            let more = params_bind(m, func.params@, execution, func.params@.len());
            params_are_bound(
                m,
                func.params@,
                execution,
                func.params@.len(),
                ScopeDef::Variable(id),
            );
            exprs_see_no_more(m, defaults, limit, env, defaults.len());
            exprs_see_no_more(m, seq![body], limit, env + more, 1);
            see_no_more_around(exprs_places(m, seq![body], limit, env + more, 1), env, more);
        },
        Expr::ListComp { expr, comp_clauses } => {
            let n = comp_clauses@.len();
            let more = clauses_bind(m, comp_clauses@, id, n);
            clauses_are_called(m, comp_clauses@, id, n);
            clauses_see_no_more(m, comp_clauses@, id, env, n);
            exprs_see_no_more(m, seq![expr], limit, env + more, 1);
            see_no_more_around(exprs_places(m, seq![expr], limit, env + more, 1), env, more);
        },
        Expr::DictComp { entry, comp_clauses } => {
            let n = comp_clauses@.len();
            let more = clauses_bind(m, comp_clauses@, id, n);
            let parts = seq![entry.key, entry.value];
            clauses_are_called(m, comp_clauses@, id, n);
            clauses_see_no_more(m, comp_clauses@, id, env, n);
            exprs_see_no_more(m, parts, limit, env + more, 2);
            see_no_more_around(exprs_places(m, parts, limit, env + more, 2), env, more);
        },
        e => {
            let parts = plain_parts(e);
            exprs_see_no_more(m, parts, limit, env, parts.len());
        },
    }
}

proof fn exprs_see_no_more(m: Module, ids: Seq<ExprId>, limit: nat, env: Env, n: nat)
    ensures
        see_no_more(exprs_places(m, ids, limit, env, n), env),
    decreases limit, 0nat, n,
{
    if n > 0 {
        exprs_see_no_more(m, ids, limit, env, (n - 1) as nat);
        if ids[n - 1].0 < limit {
            expr_sees_no_more(m, ids[n - 1], env);
        }
    }
}

proof fn clauses_see_no_more(m: Module, clauses: Seq<CompClause>, id: ExprId, env: Env, n: nat)
    requires
        n <= clauses.len(),
    ensures
        see_no_more(clauses_places(m, clauses, id, env, n), env),
    decreases id.0, 1nat, n,
{
    if n > 0 {
        let before = clauses_bind(m, clauses, id, (n - 1) as nat);
        let after = clauses_bind(m, clauses, id, n);
        clauses_see_no_more(m, clauses, id, env, (n - 1) as nat);
        clauses_are_called(m, clauses, id, (n - 1) as nat);
        clauses_are_called(m, clauses, id, n);
        match clauses[n - 1] {
            CompClause::For { iterable, targets } => {
                if iterable.0 < id.0 {
                    expr_sees_no_more(m, iterable, env + before);
                    see_no_more_around(expr_places(m, iterable, env + before), env, before);
                }
                exprs_see_no_more(m, targets@, id.0 as nat, env + after, targets@.len());
                see_no_more_around(
                    exprs_places(m, targets@, id.0 as nat, env + after, targets@.len()),
                    env,
                    after,
                );
            },
            CompClause::If { test } => {
                if test.0 < id.0 {
                    expr_sees_no_more(m, test, env + before);
                    see_no_more_around(expr_places(m, test, env + before), env, before);
                }
            },
        }
    }
}

/// A statement that holds no other sees exactly what is bound before it: neither side
/// of an assignment sees what the assignment binds, and the default of a parameter
/// sees no parameter. Only lambdas and comprehensions bind more, for their own parts.
pub proof fn a_statement_does_not_see_itself(
    m: Module,
    id: StmtId,
    env: Env,
    execution: ExecutionScope,
    k: int,
)
    requires
        m.stmts@[id.0 as int] is Assign || m.stmts@[id.0 as int] is Expr || m.stmts@[id.0 as int]
            is Return || m.stmts@[id.0 as int] is Def,
        0 <= k < stmt_places(m, id, env, execution).len(),
    ensures
        sees_no_more(stmt_places(m, id, env, execution)[k].1, env),
{
    let exprs = m.exprs@.len();
    match m.stmts@[id.0 as int] {
        Stmt::Def { func, stmts: _ } => {
            let defaults = default_parts(m, func.params@, func.params@.len());
            exprs_see_no_more(m, defaults, exprs, env, defaults.len());
        },
        Stmt::Return { expr } => {
            let parts = opt_part(expr);
            exprs_see_no_more(m, parts, exprs, env, parts.len());
        },
        Stmt::Assign { lhs, rhs, op: _, type_ref: _ } => {
            exprs_see_no_more(m, seq![rhs, lhs], exprs, env, 2);
        },
        Stmt::Expr { expr } => {
            exprs_see_no_more(m, seq![expr], exprs, env, 1);
        },
        _ => {},
    }
}

proof fn stmts_see_start(
    m: Module,
    ids: Seq<StmtId>,
    limit: nat,
    env: Env,
    execution: ExecutionScope,
    n: nat,
)
    ensures
        forall|k: int|
            0 <= k < stmts_places(m, ids, limit, env, execution, n).len() ==> sees_first(
                (#[trigger] stmts_places(m, ids, limit, env, execution, n)[k]).1,
                env,
            ),
    decreases limit, 0nat, n,
{
    if n > 0 {
        let before = env + stmts_bind(m, ids, limit, execution, (n - 1) as nat);
        stmts_see_start(m, ids, limit, env, execution, (n - 1) as nat);
        let all = stmts_places(m, ids, limit, env, execution, n);
        let rest = stmts_places(m, ids, limit, env, execution, (n - 1) as nat);
        if ids[n - 1].0 < limit {
            stmt_sees_start(m, ids[n - 1], before, execution);
            let own = stmt_places(m, ids[n - 1], before, execution);
            assert forall|k: int| 0 <= k < all.len() implies sees_first(
                (#[trigger] all[k]).1,
                env,
            ) by {
                if k < rest.len() {
                    assert(all[k] == rest[k]);
                } else {
                    assert(all[k] == own[k - rest.len()]);
                    first_of_both(
                        own[k - rest.len()].1,
                        env,
                        stmts_bind(m, ids, limit, execution, (n - 1) as nat),
                    );
                }
            }
        }
    }
}

/// Whether what a place sees starts with some bindings.
pub open spec fn sees_first(seen: Env, env: Env) -> bool {
    env.len() <= seen.len() && seen.take(env.len() as int) == env
}

proof fn first_of_both(seen: Env, env: Env, more: Env)
    requires
        sees_first(seen, env + more),
    ensures
        sees_first(seen, env),
{
    assert(seen.take(env.len() as int) =~= seen.take((env + more).len() as int).take(
        env.len() as int,
    ));
    assert((env + more).take(env.len() as int) =~= env);
}

proof fn exprs_see_first(m: Module, ids: Seq<ExprId>, limit: nat, env: Env, n: nat)
    ensures
        forall|k: int|
            0 <= k < exprs_places(m, ids, limit, env, n).len() ==> sees_first(
                (#[trigger] exprs_places(m, ids, limit, env, n)[k]).1,
                env,
            ),
{
    exprs_see_no_more(m, ids, limit, env, n);
    let all = exprs_places(m, ids, limit, env, n);
    assert forall|k: int| 0 <= k < all.len() implies sees_first((#[trigger] all[k]).1, env) by {
        assert(sees_no_more(all[k].1, env));
    }
}

proof fn stmt_sees_start(m: Module, id: StmtId, env: Env, execution: ExecutionScope)
    ensures
        forall|k: int|
            0 <= k < stmt_places(m, id, env, execution).len() ==> sees_first(
                (#[trigger] stmt_places(m, id, env, execution)[k]).1,
                env,
            ),
    decreases id.0, 1nat, 0nat,
{
    let limit = id.0 as nat;
    let exprs = m.exprs@.len();
    let all = stmt_places(m, id, env, execution);
    match m.stmts@[id.0 as int] {
        Stmt::If { test, if_stmts, elif_or_else_stmts } => {
            let n = if_stmts@.len();
            let more = stmts_bind(m, if_stmts@, limit, execution, n);
            let a = exprs_places(m, seq![test], exprs, env, 1);
            let b = stmts_places(m, if_stmts@, limit, env, execution, n);
            exprs_see_first(m, seq![test], exprs, env, 1);
            stmts_see_start(m, if_stmts@, limit, env, execution, n);
            let c = match elif_or_else_stmts {
                Some(ElseBranch::Elif(inner)) => if inner.0 < id.0 {
                    stmt_places(m, inner, env + more, execution)
                } else {
                    Seq::empty()
                },
                Some(ElseBranch::Else(stmts)) => stmts_places(
                    m,
                    stmts@,
                    limit,
                    env + more,
                    execution,
                    stmts@.len(),
                ),
                None => Seq::empty(),
            };
            match elif_or_else_stmts {
                Some(ElseBranch::Elif(inner)) => {
                    if inner.0 < id.0 {
                        stmt_sees_start(m, inner, env + more, execution);
                    }
                },
                Some(ElseBranch::Else(stmts)) => {
                    stmts_see_start(m, stmts@, limit, env + more, execution, stmts@.len());
                },
                None => {},
            }
            assert(all =~= a.add(b).add(c));
            assert forall|k: int| 0 <= k < all.len() implies sees_first(
                (#[trigger] all[k]).1,
                env,
            ) by {
                if k < a.len() {
                    assert(all[k] == a[k]);
                } else if k < a.len() + b.len() {
                    assert(all[k] == b[k - a.len()]);
                } else {
                    assert(all[k] == c[k - a.len() - b.len()]);
                    first_of_both(c[k - a.len() - b.len()].1, env, more);
                }
            }
        },
        Stmt::For { iterable, targets, stmts } => {
            let more = targets_bind(m, targets@, exprs, execution, targets@.len());
            let a = exprs_places(m, seq![iterable], exprs, env, 1);
            let b = exprs_places(m, targets@, exprs, env + more, targets@.len());
            let c = stmts_places(m, stmts@, limit, env + more, execution, stmts@.len());
            exprs_see_first(m, seq![iterable], exprs, env, 1);
            exprs_see_first(m, targets@, exprs, env + more, targets@.len());
            stmts_see_start(m, stmts@, limit, env + more, execution, stmts@.len());
            assert(all =~= a.add(b).add(c));
            assert forall|k: int| 0 <= k < all.len() implies sees_first(
                (#[trigger] all[k]).1,
                env,
            ) by {
                if k < a.len() {
                    assert(all[k] == a[k]);
                } else if k < a.len() + b.len() {
                    assert(all[k] == b[k - a.len()]);
                    first_of_both(b[k - a.len()].1, env, more);
                } else {
                    assert(all[k] == c[k - a.len() - b.len()]);
                    first_of_both(c[k - a.len() - b.len()].1, env, more);
                }
            }
        },
        s => {
            if s is Assign || s is Expr || s is Return || s is Def {
                assert forall|k: int| 0 <= k < all.len() implies sees_first(
                    (#[trigger] all[k]).1,
                    env,
                ) by {
                    a_statement_does_not_see_itself(m, id, env, execution, k);
                }
            }
        },
    }
}

/// The statements in the body of a function see what stands around the function, and
/// then its parameters.
pub proof fn a_body_sees_its_parameters(m: Module, id: StmtId, env: Env, k: int)
    requires
        m.stmts@[id.0 as int] matches Stmt::Def { func, stmts } && 0 <= k < stmts_places(
            m,
            stmts@,
            id.0 as nat,
            env + params_bind(m, func.params@, ExecutionScope::Def(id), func.params@.len()),
            ExecutionScope::Def(id),
            stmts@.len(),
        ).len(),
    ensures
        0 <= k < function_places(m, id, env).len(),
        m.stmts@[id.0 as int] matches Stmt::Def { func, stmts: _ } ==> forall|p: ParamId|
            func.params@.contains(p) ==> #[trigger] sees(
                function_places(m, id, env)[k].1,
                m.params@[p.0 as int].label(),
                ScopeDef::Parameter(p),
                ExecutionScope::Def(id),
            ),
        sees_first(function_places(m, id, env)[k].1, env),
{
    if let Stmt::Def { func, stmts } = m.stmts@[id.0 as int] {
        let limit = id.0 as nat;
        let execution = ExecutionScope::Def(id);
        let n = stmts@.len();
        let params = params_bind(m, func.params@, execution, func.params@.len());
        let first = stmts_places(m, stmts@, limit, env + params, execution, n);
        let all = function_places(m, id, env);
        stmts_see_start(m, stmts@, limit, env + params, execution, n);
        assert(all[k] == first[k]);
        let seen = all[k].1;
        assert(sees_first(seen, env + params));
        first_of_both(seen, env, params);
        assert forall|p: ParamId| func.params@.contains(p) implies #[trigger] sees(
            seen,
            m.params@[p.0 as int].label(),
            ScopeDef::Parameter(p),
            execution,
        ) by {
            let def = ScopeDef::Parameter(p);
            params_are_bound(m, func.params@, execution, func.params@.len(), def);
            assert(func.params@.take(func.params@.len() as int) =~= func.params@);
            let j = choose|j: int| 0 <= j < params.len() && (#[trigger] params[j]).def == def;
            assert(is_called(m, params[j].def, params[j].name));
            assert(params[j].execution == execution);
            let shown = seen.take((env + params).len() as int);
            assert(shown[env.len() + j] == params[j]);
            assert(seen[env.len() + j] == params[j]);
        }
    }
}

/// What the globals of a kind of file offer under a name.
pub open spec fn offers(g: APIGlobals, name: Seq<char>) -> bool {
    g.functions@.contains_key(name) || g.variables@.contains_key(name)
}

/// A `REPO` file and a query see the globals of their own kind alone. All other files
/// with a kind see those of `.bzl` files, a module file also those of modules and a
/// workspace file also those of workspaces. Without a kind there are none.
pub proof fn a_file_sees_the_globals_of_its_kind(
    globals: BuiltinGlobals,
    context: Option<APIContext>,
    name: Seq<char>,
)
    ensures
        builtin_of(globals, context, name) is Some <==> match context {
            None => false,
            Some(APIContext::Repo) => offers(globals.repo_globals, name),
            Some(APIContext::Cquery) => offers(globals.cquery_globals, name),
            Some(APIContext::Module) => offers(globals.bzl_globals, name) || offers(
                globals.bzlmod_globals,
                name,
            ),
            Some(APIContext::Workspace) => offers(globals.bzl_globals, name) || offers(
                globals.workspace_globals,
                name,
            ),
            Some(APIContext::Bzl) | Some(APIContext::Build) | Some(APIContext::Prelude)
            | Some(APIContext::Vendor) => offers(globals.bzl_globals, name),
        },
        context is Some && context != Some(APIContext::Repo) && context != Some(APIContext::Cquery)
            && offers(globals.bzl_globals, name) ==> builtin_of(globals, context, name)
            == builtin_of(globals, Some(APIContext::Bzl), name),
        globals.bzl_globals.functions@.contains_key(name) ==> builtin_of(
            globals,
            Some(APIContext::Bzl),
            name,
        ) == Some(Ambient::BuiltinFunction(globals.bzl_globals.functions@[name])),
        !globals.bzl_globals.functions@.contains_key(name)
            && globals.bzl_globals.variables@.contains_key(name) ==> builtin_of(
            globals,
            Some(APIContext::Bzl),
            name,
        ) == Some(Ambient::BuiltinVariable(globals.bzl_globals.variables@[name])),
{
}

/// The prelude offers names to `BUILD` files and to no others, before the functions of
/// the language, and these come before the builtins.
pub proof fn the_prelude_is_for_build_files(
    file: File,
    prelude: Env,
    intrinsics: Seq<String>,
    globals: BuiltinGlobals,
    name: Seq<char>,
)
    ensures
        file.context() != Some(APIContext::Build) ==> ambient_of(
            file,
            Some(prelude),
            intrinsics,
            globals,
            name,
        ) == ambient_of(file, None, intrinsics, globals, name),
        file.context() == Some(APIContext::Build) ==> (ambient_of(
            file,
            Some(prelude),
            intrinsics,
            globals,
            name,
        ) is Some && ambient_of(file, Some(prelude), intrinsics, globals, name)->0 is Prelude
            <==> exists|k: int| #[trigger] is_nearest(prelude, name, Accept::Prelude, k)),
        (exists|i: int| 0 <= i < intrinsics.len() && (#[trigger] intrinsics[i])@ == name)
            ==> ambient_of(file, None, intrinsics, globals, name) == Some(Ambient::Intrinsic),
        !(exists|i: int| 0 <= i < intrinsics.len() && (#[trigger] intrinsics[i])@ == name)
            ==> ambient_of(file, None, intrinsics, globals, name) == builtin_of(
            globals,
            file.context(),
            name,
        ),
{
    the_last_binding_counts(prelude, name, Accept::Prelude);
}

proof fn holds_either(
    a: Seq<(ScopeHirId, Env)>,
    b: Seq<(ScopeHirId, Env)>,
    x: (ScopeHirId, Env),
)
    requires
        a.contains(x) || b.contains(x),
    ensures
        a.add(b).contains(x),
{
    if a.contains(x) {
        let k = choose|k: int| 0 <= k < a.len() && a[k] == x;
        assert(a.add(b)[k] == x);
    } else {
        let k = choose|k: int| 0 <= k < b.len() && b[k] == x;
        assert(a.add(b)[a.len() + k] == x);
    }
}

/// An expression is recorded with what it sees.
pub proof fn an_expression_is_recorded(m: Module, id: ExprId, env: Env)
    ensures
        expr_places(m, id, env).len() > 0,
        expr_places(m, id, env)[0] == (ScopeHirId::Expr(id), env),
        expr_places(m, id, env).contains((ScopeHirId::Expr(id), env)),
{
    assert(expr_places(m, id, env)[0] == (ScopeHirId::Expr(id), env));
}

proof fn listed_are_recorded(
    m: Module,
    ids: Seq<ExprId>,
    limit: nat,
    env: Env,
    n: nat,
    j: int,
)
    requires
        0 <= j < n <= ids.len(),
        ids[j].0 < limit,
    ensures
        exprs_places(m, ids, limit, env, n).contains((ScopeHirId::Expr(ids[j]), env)),
    decreases n,
{
    let x = (ScopeHirId::Expr(ids[j]), env);
    let rest = exprs_places(m, ids, limit, env, (n - 1) as nat);
    if j < n - 1 {
        listed_are_recorded(m, ids, limit, env, (n - 1) as nat, j);
        if ids[n - 1].0 < limit {
            holds_either(rest, expr_places(m, ids[n - 1], env), x);
        }
    } else {
        an_expression_is_recorded(m, ids[j], env);
        holds_either(rest, expr_places(m, ids[j], env), x);
    }
}

/// The parts of an expression that binds nothing see what the expression sees.
pub proof fn parts_see_what_the_whole_sees(m: Module, id: ExprId, env: Env, part: ExprId)
    requires
        m.wf(),
        id.0 < m.exprs@.len(),
        crate::flow_laws::children(m.exprs@[id.0 as int]).contains(part) || (
        m.exprs@[id.0 as int] matches Expr::If { if_expr, test, else_expr } && (part == if_expr
            || part == test || part == else_expr)),
    ensures
        expr_places(m, id, env).contains((ScopeHirId::Expr(part), env)),
{
    let e = m.exprs@[id.0 as int];
    let limit = id.0 as nat;
    let parts = plain_parts(e);
    let own = seq![(ScopeHirId::Expr(id), env)];
    assert(crate::def::expr_below(m.params@, e, limit));
    let j = if let Expr::If { if_expr, test, else_expr } = e {
        if part == if_expr {
            0int
        } else if part == test {
            1int
        } else {
            2int
        }
    } else {
        crate::flow_laws::plain_parts_are_children(e);
        choose|j: int| 0 <= j < parts.len() && parts[j] == part
    };
    assert(parts[j] == part);
    if let Expr::Call { callee, args } = e {
        if j > 0 {
            assert(args@[j - 1].value().0 < limit);
        }
    }
    if let Expr::Dict { entries } = e {
        crate::flow_laws::plain_parts_are_children(e);
        assert(entries@[j / 2].key.0 < limit);
    }
    listed_are_recorded(m, parts, limit, env, parts.len(), j);
    holds_either(
        own,
        exprs_places(m, parts, limit, env, parts.len()),
        (ScopeHirId::Expr(part), env),
    );
}

/// The body of a lambda sees its parameters, and their defaults do not.
pub proof fn a_lambda_sees_its_parameters(m: Module, id: ExprId, env: Env)
    requires
        m.wf(),
        id.0 < m.exprs@.len(),
        m.exprs@[id.0 as int] is Lambda,
    ensures
        m.exprs@[id.0 as int] matches Expr::Lambda { func, body } ==> {
            let inner = env + params_bind(
                m,
                func.params@,
                ExecutionScope::Lambda(id),
                func.params@.len(),
            );
            &&& expr_places(m, id, env).contains((ScopeHirId::Expr(body), inner))
            &&& forall|p: ParamId|
                func.params@.contains(p) ==> #[trigger] sees(
                    inner,
                    m.params@[p.0 as int].label(),
                    ScopeDef::Parameter(p),
                    ExecutionScope::Lambda(id),
                )
        },
{
    let limit = id.0 as nat;
    assert(crate::def::expr_below(m.params@, m.exprs@[id.0 as int], limit));
    if let Expr::Lambda { func, body } = m.exprs@[id.0 as int] {
        let execution = ExecutionScope::Lambda(id);
        let params = params_bind(m, func.params@, execution, func.params@.len());
        let inner = env + params;
        let defaults = default_parts(m, func.params@, func.params@.len());
        let own = seq![(ScopeHirId::Expr(id), env)];
        let first = exprs_places(m, defaults, limit, env, defaults.len());
        let second = exprs_places(m, seq![body], limit, inner, 1);
        listed_are_recorded(m, seq![body], limit, inner, 1, 0);
        holds_either(own.add(first), second, (ScopeHirId::Expr(body), inner));
        assert forall|p: ParamId| func.params@.contains(p) implies #[trigger] sees(
            inner,
            m.params@[p.0 as int].label(),
            ScopeDef::Parameter(p),
            execution,
        ) by {
            let def = ScopeDef::Parameter(p);
            params_are_bound(m, func.params@, execution, func.params@.len(), def);
            assert(func.params@.take(func.params@.len() as int) =~= func.params@);
            let j = choose|j: int| 0 <= j < params.len() && (#[trigger] params[j]).def == def;
            assert(is_called(m, params[j].def, params[j].name));
            assert(params[j].execution == execution);
            assert(inner[env.len() + j] == params[j]);
        }
    }
}

proof fn clause_targets_are_bound(
    m: Module,
    clauses: Seq<CompClause>,
    id: ExprId,
    n: nat,
    k: int,
    def: ScopeDef,
)
    requires
        0 <= k < n <= clauses.len(),
        clauses[k] matches CompClause::For { iterable: _, targets } && has(
            targets_bind(
                m,
                targets@,
                id.0 as nat,
                ExecutionScope::Comp(id),
                targets@.len(),
            ),
            def,
        ),
    ensures
        has(clauses_bind(m, clauses, id, n), def),
    decreases n,
{
    let rest = clauses_bind(m, clauses, id, (n - 1) as nat);
    if let CompClause::For { iterable: _, targets } = clauses[n - 1] {
        let own = targets_bind(
            m,
            targets@,
            id.0 as nat,
            ExecutionScope::Comp(id),
            targets@.len(),
        );
        has_in_both(rest, own, def);
    }
    if k < n - 1 {
        clause_targets_are_bound(m, clauses, id, (n - 1) as nat, k, def);
    }
}

/// What a comprehension collects sees the variables of all its loops, and what its first
/// loop runs over sees none of them.
pub proof fn a_comprehension_sees_its_variables(
    m: Module,
    id: ExprId,
    env: Env,
    k: int,
    e: ExprId,
)
    requires
        m.wf(),
        id.0 < m.exprs@.len(),
        m.exprs@[id.0 as int] matches Expr::ListComp { expr: _, comp_clauses } && 0 <= k
            < comp_clauses@.len() && (comp_clauses@[k] matches CompClause::For {
            iterable: _,
            targets,
        } && (exists|i: int|
            0 <= i < targets@.len() && (#[trigger] targets@[i]).0 < id.0 && is_target(
                m,
                targets@[i],
                e,
            ))),
    ensures
        m.exprs@[id.0 as int] matches Expr::ListComp { expr, comp_clauses } ==> {
            let inner = env + clauses_bind(m, comp_clauses@, id, comp_clauses@.len());
            &&& expr_places(m, id, env).contains((ScopeHirId::Expr(expr), inner))
            &&& m.exprs@[e.0 as int] matches Expr::Name { name } && sees(
                inner,
                name@,
                ScopeDef::Variable(e),
                ExecutionScope::Comp(id),
            )
            &&& comp_clauses@[0] matches CompClause::For { iterable, targets: _ } ==> expr_places(
                m,
                id,
                env,
            ).contains((ScopeHirId::Expr(iterable), env))
        },
{
    let limit = id.0 as nat;
    assert(crate::def::expr_below(m.params@, m.exprs@[id.0 as int], limit));
    if let Expr::ListComp { expr, comp_clauses } = m.exprs@[id.0 as int] {
        let clauses = comp_clauses@;
        let n = clauses.len();
        let more = clauses_bind(m, clauses, id, n);
        let inner = env + more;
        let own = seq![(ScopeHirId::Expr(id), env)];
        let first = clauses_places(m, clauses, id, env, n);
        let second = exprs_places(m, seq![expr], limit, inner, 1);
        listed_are_recorded(m, seq![expr], limit, inner, 1, 0);
        holds_either(own.add(first), second, (ScopeHirId::Expr(expr), inner));
        let def = ScopeDef::Variable(e);
        if let CompClause::For { iterable: _, targets } = clauses[k] {
            targets_are_bound(
                m,
                targets@,
                limit,
                ExecutionScope::Comp(id),
                targets@.len(),
                def,
            );
        }
        clause_targets_are_bound(m, clauses, id, n, k, def);
        clauses_are_called(m, clauses, id, n);
        let j = choose|j: int| 0 <= j < more.len() && (#[trigger] more[j]).def == def;
        assert(is_called(m, more[j].def, more[j].name));
        assert(more[j].execution == ExecutionScope::Comp(id));
        assert(inner[env.len() + j] == more[j]);
        if let CompClause::For { iterable, targets: _ } = clauses[0] {
            assert(iterable.0 < limit);
            first_iterable_is_recorded(m, clauses, id, env, n);
            let x = (ScopeHirId::Expr(iterable), env);
            holds_either(own, first, x);
            holds_either(own.add(first), second, x);
        }
    }
}

proof fn first_iterable_is_recorded(
    m: Module,
    clauses: Seq<CompClause>,
    id: ExprId,
    env: Env,
    n: nat,
)
    requires
        0 < n <= clauses.len(),
        clauses[0] matches CompClause::For { iterable, targets: _ } && iterable.0 < id.0,
    ensures
        clauses[0] matches CompClause::For { iterable, targets: _ } ==> clauses_places(
            m,
            clauses,
            id,
            env,
            n,
        ).contains((ScopeHirId::Expr(iterable), env)),
    decreases n,
{
    if let CompClause::For { iterable, targets } = clauses[0] {
        let x = (ScopeHirId::Expr(iterable), env);
        if n == 1 {
            let none = clauses_places(m, clauses, id, env, 0);
            assert(env + clauses_bind(m, clauses, id, 0) =~= env);
            let after = env + clauses_bind(m, clauses, id, 1);
            an_expression_is_recorded(m, iterable, env);
            holds_either(none, expr_places(m, iterable, env), x);
            holds_either(
                none.add(expr_places(m, iterable, env)),
                exprs_places(m, targets@, id.0 as nat, after, targets@.len()),
                x,
            );
        } else {
            first_iterable_is_recorded(m, clauses, id, env, (n - 1) as nat);
            let rest = clauses_places(m, clauses, id, env, (n - 1) as nat);
            let before = env + clauses_bind(m, clauses, id, (n - 1) as nat);
            let after = env + clauses_bind(m, clauses, id, n);
            match clauses[n - 1] {
                CompClause::For { iterable: next, targets: own } => {
                    let places = if next.0 < id.0 {
                        expr_places(m, next, before)
                    } else {
                        Seq::empty()
                    };
                    holds_either(rest, places, x);
                    holds_either(
                        rest.add(places),
                        exprs_places(m, own@, id.0 as nat, after, own@.len()),
                        x,
                    );
                },
                CompClause::If { test } => {
                    if test.0 < id.0 {
                        holds_either(rest, expr_places(m, test, before), x);
                    }
                },
            }
        }
    }
}

proof fn statement_is_recorded(
    m: Module,
    k: int,
    n: int,
    x: (ScopeHirId, Env),
)
    requires
        0 <= k < n <= m.top_level@.len(),
        m.top_level@[k].0 < m.stmts@.len(),
        stmt_places(
            m,
            m.top_level@[k],
            stmts_bind(m, m.top_level@, m.stmts@.len(), ExecutionScope::Module, k as nat),
            ExecutionScope::Module,
        ).contains(x),
    ensures
        stmts_places(
            m,
            m.top_level@,
            m.stmts@.len(),
            Seq::empty(),
            ExecutionScope::Module,
            n as nat,
        ).contains(x),
    decreases n,
{
    let limit = m.stmts@.len();
    let ids = m.top_level@;
    let rest = stmts_places(
        m,
        ids,
        limit,
        Seq::empty(),
        ExecutionScope::Module,
        (n - 1) as nat,
    );
    let before = stmts_bind(m, ids, limit, ExecutionScope::Module, (n - 1) as nat);
    assert(Seq::<Binding>::empty() + before =~= before);
    if k < n - 1 {
        statement_is_recorded(m, k, n - 1, x);
        if ids[n - 1].0 < limit {
            holds_either(rest, stmt_places(m, ids[n - 1], before, ExecutionScope::Module), x);
        }
    } else {
        holds_either(rest, stmt_places(m, ids[k], before, ExecutionScope::Module), x);
    }
}

/// Both sides of an assignment at the top of a module see exactly what the statements
/// before it bind.
pub proof fn an_assignment_sees_what_is_before(m: Module, k: int)
    requires
        m.wf(),
        0 <= k < m.top_level@.len(),
        m.stmts@[m.top_level@[k].0 as int] is Assign,
    ensures
        m.stmts@[m.top_level@[k].0 as int] matches Stmt::Assign { lhs, rhs, op: _, type_ref: _ }
            ==> {
            let before = stmts_bind(
                m,
                m.top_level@,
                m.stmts@.len(),
                ExecutionScope::Module,
                k as nat,
            );
            &&& module_places(m).contains((ScopeHirId::Expr(rhs), before))
            &&& module_places(m).contains((ScopeHirId::Expr(lhs), before))
        },
{
    let id = m.top_level@[k];
    assert(id.0 < m.stmts@.len());
    assert(crate::def::stmt_below(m, m.stmts@[id.0 as int], id.0 as nat));
    if let Stmt::Assign { lhs, rhs, op: _, type_ref: _ } = m.stmts@[id.0 as int] {
        let exprs = m.exprs@.len();
        let n = m.top_level@.len();
        let before = stmts_bind(
            m,
            m.top_level@,
            m.stmts@.len(),
            ExecutionScope::Module,
            k as nat,
        );
        let ids = seq![rhs, lhs];
        let own = seq![(ScopeHirId::Module, module_binds(m))];
        let all = stmts_places(
            m,
            m.top_level@,
            m.stmts@.len(),
            Seq::empty(),
            ExecutionScope::Module,
            n,
        );
        let bodies = functions_places(m, m.top_level@, m.stmts@.len(), module_binds(m), n);
        listed_are_recorded(m, ids, exprs, before, 2, 0);
        listed_are_recorded(m, ids, exprs, before, 2, 1);
        let x = (ScopeHirId::Expr(rhs), before);
        let y = (ScopeHirId::Expr(lhs), before);
        statement_is_recorded(m, k, n as int, x);
        statement_is_recorded(m, k, n as int, y);
        assert((n as int) as nat == n);
        holds_either(own, all, x);
        holds_either(own.add(all), bodies, x);
        holds_either(own, all, y);
        holds_either(own.add(all), bodies, y);
    }
}

/// A place sees what its first record says, and without a record nothing.
pub proof fn the_first_record_counts(
    seen: Seq<(ScopeHirId, Env)>,
    place: ScopeHirId,
    k: int,
)
    requires
        0 <= k <= seen.len(),
        forall|j: int| 0 <= j < k ==> (#[trigger] seen[j]).0 != place,
        k < seen.len() ==> seen[k].0 == place,
    ensures
        first_seen(seen, place) == if k < seen.len() {
            seen[k].1
        } else {
            Seq::empty()
        },
    decreases k,
{
    if k > 0 {
        let rest = seen.drop_first();
        assert(seen[0].0 != place);
        assert forall|j: int| 0 <= j < k - 1 implies (#[trigger] rest[j]).0 != place by {
            assert(rest[j] == seen[j + 1]);
        }
        if k < seen.len() {
            assert(rest[k - 1] == seen[k]);
        }
        the_first_record_counts(rest, place, k - 1);
    }
}

/// A place holds the offsets of its range, both ends included. An expression has the
/// range it was written in, a function that of its definition, and the module the whole
/// text.
pub proof fn places_hold_their_ranges(map: ModuleSourceMap, id: ExprId, stmt: StmtId, offset: u32)
    requires
        id.0 < map.expr_map_back@.len(),
        stmt.0 < map.stmt_map_back@.len(),
    ensures
        touches(place_range(map, ScopeHirId::Expr(id)), offset) <==> (
        map.expr_map_back@[id.0 as int] matches Some(range) && range.start <= offset <= range.end),
        touches(place_range(map, ScopeHirId::Def(stmt)), offset)
            <==> map.stmt_map_back@[stmt.0 as int].start <= offset
            <= map.stmt_map_back@[stmt.0 as int].end,
        touches(place_range(map, ScopeHirId::Module), offset) <==> map.root.start <= offset
            <= map.root.end,
{
}

/// At an offset the smallest place around it counts, and of two of one size the one that
/// is recorded later: an inner place counts before the ones around it.
pub proof fn the_smallest_place_counts(
    places: Seq<(ScopeHirId, Option<usize>)>,
    map: ModuleSourceMap,
    offset: u32,
    b: int,
    j: int,
)
    requires
        is_smallest(places, map, offset, b),
        0 <= j < places.len(),
        j != b,
        place_range(map, places[j].0) matches Some(range) && range.start <= offset <= range.end,
    ensures
        place_range(map, places[b].0) is Some,
        touches(place_range(map, places[b].0), offset),
        ({
            let own = place_range(map, places[b].0)->0;
            let other = place_range(map, places[j].0)->0;
            let size = own.end - own.start;
            let around = other.end - other.start;
            size < around || (size == around && j < b)
        }),
{
}

/// What another file can load is the variable or the function itself.
pub proof fn exports_are_definitions(e: Export)
    ensures
        e matches Export::Variable(expr) ==> definition_of(e) == ScopeDef::Variable(expr),
        e matches Export::Function(stmt) ==> definition_of(e) == ScopeDef::Function(stmt),
{
}

/// What a loop runs over sees what is bound before the loop, and its body sees the
/// variables of the loop besides.
pub proof fn a_loop_body_sees_its_variables(
    m: Module,
    id: StmtId,
    env: Env,
    execution: ExecutionScope,
    k: int,
    e: ExprId,
)
    requires
        m.wf(),
        id.0 < m.stmts@.len(),
        m.stmts@[id.0 as int] matches Stmt::For { iterable: _, targets, stmts } && (exists|i: int|
            0 <= i < targets@.len() && is_target(m, #[trigger] targets@[i], e)) && 0 <= k
            < stmts_places(
            m,
            stmts@,
            id.0 as nat,
            env + targets_bind(m, targets@, m.exprs@.len(), execution, targets@.len()),
            execution,
            stmts@.len(),
        ).len(),
    ensures
        m.stmts@[id.0 as int] matches Stmt::For { iterable, targets, stmts } ==> {
            let all = stmt_places(m, id, env, execution);
            let body = stmts_places(
                m,
                stmts@,
                id.0 as nat,
                env + targets_bind(m, targets@, m.exprs@.len(), execution, targets@.len()),
                execution,
                stmts@.len(),
            );
            let seen = all[all.len() - body.len() + k].1;
            &&& all.len() >= body.len()
            &&& all.contains((ScopeHirId::Expr(iterable), env))
            &&& sees_first(seen, env)
            &&& m.exprs@[e.0 as int] matches Expr::Name { name } && sees(
                seen,
                name@,
                ScopeDef::Variable(e),
                execution,
            )
        },
{
    let limit = id.0 as nat;
    let exprs = m.exprs@.len();
    assert(crate::def::stmt_below(m, m.stmts@[id.0 as int], limit));
    if let Stmt::For { iterable, targets, stmts } = m.stmts@[id.0 as int] {
        let more = targets_bind(m, targets@, exprs, execution, targets@.len());
        let first = exprs_places(m, seq![iterable], exprs, env, 1);
        let second = exprs_places(m, targets@, exprs, env + more, targets@.len());
        let body = stmts_places(m, stmts@, limit, env + more, execution, stmts@.len());
        let all = stmt_places(m, id, env, execution);
        assert(all =~= first.add(second).add(body));
        listed_are_recorded(m, seq![iterable], exprs, env, 1, 0);
        let x = (ScopeHirId::Expr(iterable), env);
        holds_either(first, second, x);
        holds_either(first.add(second), body, x);
        stmts_see_start(m, stmts@, limit, env + more, execution, stmts@.len());
        let seen = all[all.len() - body.len() + k].1;
        assert(all[all.len() - body.len() + k] == body[k]);
        assert(sees_first(seen, env + more));
        first_of_both(seen, env, more);
        let def = ScopeDef::Variable(e);
        let i = choose|i: int|
            0 <= i < targets@.len() && is_target(m, #[trigger] targets@[i], e);
        assert(targets@[i].0 < exprs);
        targets_are_bound(m, targets@, exprs, execution, targets@.len(), def);
        let j = choose|j: int| 0 <= j < more.len() && (#[trigger] more[j]).def == def;
        assert(is_called(m, more[j].def, more[j].name));
        assert(more[j].execution == execution);
        let shown = seen.take((env + more).len() as int);
        assert(shown[env.len() + j] == more[j]);
        assert(seen[env.len() + j] == more[j]);
    }
}

/// A function in another sees everything that the outer one binds, its parameters and
/// what its body binds in the end, also behind the inner function. The end of the outer
/// function is recorded with the same.
pub proof fn an_inner_function_sees_the_outer_one(m: Module, id: StmtId, env: Env, k: int)
    requires
        m.stmts@[id.0 as int] is Def,
        ({
            let inner = m.stmts@[id.0 as int];
            inner matches Stmt::Def { func, stmts } && 0 <= k < functions_places(
                m,
                stmts@,
                id.0 as nat,
                env + params_bind(m, func.params@, ExecutionScope::Def(id), func.params@.len())
                    + stmts_bind(m, stmts@, id.0 as nat, ExecutionScope::Def(id), stmts@.len()),
                stmts@.len(),
            ).len()
        }),
    ensures
        m.stmts@[id.0 as int] matches Stmt::Def { func, stmts } ==> {
            let end = env + params_bind(
                m,
                func.params@,
                ExecutionScope::Def(id),
                func.params@.len(),
            ) + stmts_bind(m, stmts@, id.0 as nat, ExecutionScope::Def(id), stmts@.len());
            let all = function_places(m, id, env);
            let nested = functions_places(m, stmts@, id.0 as nat, end, stmts@.len());
            &&& all.len() > nested.len()
            &&& all[all.len() - nested.len() - 1] == (ScopeHirId::Def(id), end)
            &&& sees_first(all[all.len() - nested.len() + k].1, end)
        },
{
    if let Stmt::Def { func, stmts } = m.stmts@[id.0 as int] {
        let limit = id.0 as nat;
        let execution = ExecutionScope::Def(id);
        let n = stmts@.len();
        let start = env + params_bind(m, func.params@, execution, func.params@.len());
        let end = start + stmts_bind(m, stmts@, limit, execution, n);
        let nested = functions_places(m, stmts@, limit, end, n);
        let all = function_places(m, id, env);
        crate::scope_laws::functions_see(m, stmts@, limit, end, n);
        assert(all[all.len() - nested.len() + k] == nested[k]);
        assert(crate::scope_laws::is_around(end, nested[k].1));
    }
}

} // verus!
