//! What holds of the scopes of every module.

use vstd::prelude::*;

use crate::def::{CompClause, ElseBranch, Expr, ExprId, Module, Stmt, StmtId};
use crate::scope::{
    clauses_bind, clauses_places, default_parts, expr_places, exprs_places, function_places,
    functions_places, module_binds, module_places, opt_part, params_bind, plain_parts, stmt_places,
    stmts_bind, stmts_places, targets_bind, Env, ExecutionScope, ScopeHirId,
};

verus! {

/// Whether some bindings are the outermost of others.
pub open spec fn is_around(outer: Env, inner: Env) -> bool {
    outer.len() <= inner.len() && inner.take(outer.len() as int) == outer
}

/// Whether every place sees some bindings, outermost.
pub open spec fn all_see(places: Seq<(ScopeHirId, Env)>, env: Env) -> bool {
    forall|k: int| 0 <= k < places.len() ==> is_around(env, (#[trigger] places[k]).1)
}

proof fn added_is_around(env: Env, more: Env)
    ensures
        is_around(env, env + more),
{
    assert((env + more).take(env.len() as int) =~= env);
}

proof fn around_through(a: Env, b: Env, c: Env)
    requires
        is_around(a, b),
        is_around(b, c),
    ensures
        is_around(a, c),
{
    assert(c.take(a.len() as int) =~= b.take(a.len() as int));
}

/// What sees inner bindings sees those around them.
proof fn all_see_outer(places: Seq<(ScopeHirId, Env)>, outer: Env, inner: Env)
    requires
        all_see(places, inner),
        is_around(outer, inner),
    ensures
        all_see(places, outer),
{
    assert forall|k: int| 0 <= k < places.len() implies is_around(
        outer,
        (#[trigger] places[k]).1,
    ) by {
        around_through(outer, inner, places[k].1);
    }
}

proof fn expr_sees(m: Module, id: ExprId, env: Env)
    ensures
        all_see(expr_places(m, id, env), env),
    decreases id.0, 2nat, 0nat,
{
    let limit = id.0 as nat;
    assert(env.take(env.len() as int) =~= env);
    match m.exprs@[id.0 as int] {
        Expr::Lambda { func, body } => {
            let defaults = default_parts(m, func.params@, func.params@.len());
            let more = params_bind(
                m,
                func.params@,
                ExecutionScope::Lambda(id),
                func.params@.len(),
            );
            exprs_see(m, defaults, limit, env, defaults.len());
            exprs_see(m, seq![body], limit, env + more, 1);
            added_is_around(env, more);
            all_see_outer(exprs_places(m, seq![body], limit, env + more, 1), env, env + more);
        },
        Expr::ListComp { expr, comp_clauses } => {
            let n = comp_clauses@.len();
            let more = clauses_bind(m, comp_clauses@, id, n);
            clauses_see(m, comp_clauses@, id, env, n);
            exprs_see(m, seq![expr], limit, env + more, 1);
            added_is_around(env, more);
            all_see_outer(exprs_places(m, seq![expr], limit, env + more, 1), env, env + more);
        },
        Expr::DictComp { entry, comp_clauses } => {
            let n = comp_clauses@.len();
            let more = clauses_bind(m, comp_clauses@, id, n);
            let parts = seq![entry.key, entry.value];
            clauses_see(m, comp_clauses@, id, env, n);
            exprs_see(m, parts, limit, env + more, 2);
            added_is_around(env, more);
            all_see_outer(exprs_places(m, parts, limit, env + more, 2), env, env + more);
        },
        e => {
            let parts = plain_parts(e);
            exprs_see(m, parts, limit, env, parts.len());
        },
    }
}

proof fn exprs_see(m: Module, ids: Seq<ExprId>, limit: nat, env: Env, n: nat)
    ensures
        all_see(exprs_places(m, ids, limit, env, n), env),
    decreases limit, 0nat, n,
{
    if n > 0 {
        exprs_see(m, ids, limit, env, (n - 1) as nat);
        if ids[n - 1].0 < limit {
            expr_sees(m, ids[n - 1], env);
        }
    }
}

proof fn clauses_see(m: Module, clauses: Seq<CompClause>, id: ExprId, env: Env, n: nat)
    ensures
        all_see(clauses_places(m, clauses, id, env, n), env),
    decreases id.0, 1nat, n,
{
    if n > 0 {
        let before = clauses_bind(m, clauses, id, (n - 1) as nat);
        let after = clauses_bind(m, clauses, id, n);
        clauses_see(m, clauses, id, env, (n - 1) as nat);
        added_is_around(env, before);
        added_is_around(env, after);
        match clauses[n - 1] {
            CompClause::For { iterable, targets } => {
                if iterable.0 < id.0 {
                    expr_sees(m, iterable, env + before);
                    all_see_outer(expr_places(m, iterable, env + before), env, env + before);
                }
                exprs_see(m, targets@, id.0 as nat, env + after, targets@.len());
                all_see_outer(
                    exprs_places(m, targets@, id.0 as nat, env + after, targets@.len()),
                    env,
                    env + after,
                );
            },
            CompClause::If { test } => {
                if test.0 < id.0 {
                    expr_sees(m, test, env + before);
                    all_see_outer(expr_places(m, test, env + before), env, env + before);
                }
            },
        }
    }
}

proof fn stmt_sees(m: Module, id: StmtId, env: Env, execution: ExecutionScope)
    ensures
        all_see(stmt_places(m, id, env, execution), env),
    decreases id.0, 1nat, 0nat,
{
    let exprs = m.exprs@.len();
    let limit = id.0 as nat;
    match m.stmts@[id.0 as int] {
        Stmt::Def { func, stmts: _ } => {
            let defaults = default_parts(m, func.params@, func.params@.len());
            exprs_see(m, defaults, exprs, env, defaults.len());
        },
        Stmt::If { test, if_stmts, elif_or_else_stmts } => {
            let n = if_stmts@.len();
            let more = stmts_bind(m, if_stmts@, limit, execution, n);
            exprs_see(m, seq![test], exprs, env, 1);
            stmts_see(m, if_stmts@, limit, env, execution, n);
            added_is_around(env, more);
            match elif_or_else_stmts {
                Some(ElseBranch::Elif(inner)) => {
                    if inner.0 < id.0 {
                        stmt_sees(m, inner, env + more, execution);
                        all_see_outer(
                            stmt_places(m, inner, env + more, execution),
                            env,
                            env + more,
                        );
                    }
                },
                Some(ElseBranch::Else(stmts)) => {
                    stmts_see(m, stmts@, limit, env + more, execution, stmts@.len());
                    all_see_outer(
                        stmts_places(m, stmts@, limit, env + more, execution, stmts@.len()),
                        env,
                        env + more,
                    );
                },
                None => {},
            }
        },
        Stmt::For { iterable, targets, stmts } => {
            let more = targets_bind(m, targets@, exprs, execution, targets@.len());
            exprs_see(m, seq![iterable], exprs, env, 1);
            exprs_see(m, targets@, exprs, env + more, targets@.len());
            stmts_see(m, stmts@, limit, env + more, execution, stmts@.len());
            added_is_around(env, more);
            all_see_outer(
                exprs_places(m, targets@, exprs, env + more, targets@.len()),
                env,
                env + more,
            );
            all_see_outer(
                stmts_places(m, stmts@, limit, env + more, execution, stmts@.len()),
                env,
                env + more,
            );
        },
        Stmt::Return { expr } => {
            let parts = opt_part(expr);
            exprs_see(m, parts, exprs, env, parts.len());
        },
        Stmt::Assign { lhs, rhs, op: _, type_ref: _ } => {
            exprs_see(m, seq![rhs, lhs], exprs, env, 2);
        },
        Stmt::Expr { expr } => {
            exprs_see(m, seq![expr], exprs, env, 1);
        },
        _ => {},
    }
}

proof fn stmts_see(
    m: Module,
    ids: Seq<StmtId>,
    limit: nat,
    env: Env,
    execution: ExecutionScope,
    n: nat,
)
    ensures
        all_see(stmts_places(m, ids, limit, env, execution, n), env),
    decreases limit, 0nat, n,
{
    if n > 0 {
        let before = stmts_bind(m, ids, limit, execution, (n - 1) as nat);
        stmts_see(m, ids, limit, env, execution, (n - 1) as nat);
        if ids[n - 1].0 < limit {
            stmt_sees(m, ids[n - 1], env + before, execution);
            added_is_around(env, before);
            all_see_outer(
                stmt_places(m, ids[n - 1], env + before, execution),
                env,
                env + before,
            );
        }
    }
}

proof fn function_sees(m: Module, id: StmtId, env: Env)
    ensures
        all_see(function_places(m, id, env), env),
    decreases id.0, 1nat, 0nat,
{
    let limit = id.0 as nat;
    match m.stmts@[id.0 as int] {
        Stmt::Def { func, stmts } => {
            let execution = ExecutionScope::Def(id);
            let n = stmts@.len();
            let params = params_bind(m, func.params@, execution, func.params@.len());
            let body = stmts_bind(m, stmts@, limit, execution, n);
            let start = env + params;
            let end = start + body;
            added_is_around(env, params);
            added_is_around(start, body);
            around_through(env, start, end);
            stmts_see(m, stmts@, limit, start, execution, n);
            all_see_outer(stmts_places(m, stmts@, limit, start, execution, n), env, start);
            functions_see(m, stmts@, limit, end, n);
            all_see_outer(functions_places(m, stmts@, limit, end, n), env, end);
        },
        Stmt::If { test: _, if_stmts, elif_or_else_stmts } => {
            functions_see(m, if_stmts@, limit, env, if_stmts@.len());
            match elif_or_else_stmts {
                Some(ElseBranch::Elif(inner)) => {
                    if inner.0 < id.0 {
                        function_sees(m, inner, env);
                    }
                },
                Some(ElseBranch::Else(stmts)) => {
                    functions_see(m, stmts@, limit, env, stmts@.len());
                },
                None => {},
            }
        },
        Stmt::For { iterable: _, targets: _, stmts } => {
            functions_see(m, stmts@, limit, env, stmts@.len());
        },
        _ => {},
    }
}

/// The bodies of functions see what stands around the functions, outermost.
pub proof fn functions_see(m: Module, ids: Seq<StmtId>, limit: nat, env: Env, n: nat)
    ensures
        all_see(functions_places(m, ids, limit, env, n), env),
    decreases limit, 0nat, n,
{
    if n > 0 {
        functions_see(m, ids, limit, env, (n - 1) as nat);
        if ids[n - 1].0 < limit {
            function_sees(m, ids[n - 1], env);
        }
    }
}

/// The places in the bodies of the functions of a module.
pub open spec fn body_places(m: Module) -> Seq<(ScopeHirId, Env)> {
    functions_places(m, m.top_level@, m.stmts@.len(), module_binds(m), m.top_level@.len())
}

/// The body of a function sees everything that its module binds, also what is bound
/// behind the function.
pub proof fn functions_see_the_module(m: Module, place: ScopeHirId, env: Env)
    requires
        body_places(m).contains((place, env)),
    ensures
        module_places(m).contains((place, env)),
        is_around(module_binds(m), env),
{
    functions_see(m, m.top_level@, m.stmts@.len(), module_binds(m), m.top_level@.len());
    let bodies = body_places(m);
    let k = choose|k: int| 0 <= k < bodies.len() && bodies[k] == (place, env);
    let all = module_places(m);
    assert(all[all.len() - bodies.len() + k] == bodies[k]);
}

/// The module is recorded before every place in it, so of places with one range the
/// inner one counts at an offset.
pub proof fn the_module_comes_first(m: Module)
    ensures
        module_places(m).len() > 0,
        module_places(m)[0] == (ScopeHirId::Module, module_binds(m)),
        forall|k: int|
            0 <= k < body_places(m).len() ==> #[trigger] body_places(m)[k] == module_places(
                m,
            )[module_places(m).len() - body_places(m).len() + k],
        module_places(m).len() > body_places(m).len(),
{
}

/// The parts of a statement at the top of a module see what the statements before
/// it bind, outermost.
pub proof fn statements_see_what_is_before(m: Module, k: int, place: ScopeHirId, env: Env)
    requires
        0 <= k < m.top_level@.len(),
        m.top_level@[k].0 < m.stmts@.len(),
        stmt_places(
            m,
            m.top_level@[k],
            stmts_bind(m, m.top_level@, m.stmts@.len(), ExecutionScope::Module, k as nat),
            ExecutionScope::Module,
        ).contains((place, env)),
    ensures
        module_places(m).contains((place, env)),
        is_around(
            stmts_bind(m, m.top_level@, m.stmts@.len(), ExecutionScope::Module, k as nat),
            env,
        ),
{
    let limit = m.stmts@.len();
    let before = stmts_bind(m, m.top_level@, limit, ExecutionScope::Module, k as nat);
    stmt_sees(m, m.top_level@[k], before, ExecutionScope::Module);
    stmts_hold(m, k + 1, m.top_level@.len() as int, place, env);
    let n = m.top_level@.len();
    let held = stmts_places(m, m.top_level@, limit, Seq::empty(), ExecutionScope::Module, n);
    let j = choose|j: int| 0 <= j < held.len() && held[j] == (place, env);
    assert(module_places(m)[1 + j] == held[j]);
    let own = stmt_places(m, m.top_level@[k], before, ExecutionScope::Module);
    let i = choose|i: int| 0 <= i < own.len() && own[i] == (place, env);
    assert(is_around(before, own[i].1));
}

proof fn stmts_hold(m: Module, k: int, n: int, place: ScopeHirId, env: Env)
    requires
        0 < k <= n <= m.top_level@.len(),
        m.top_level@[k - 1].0 < m.stmts@.len(),
        stmt_places(
            m,
            m.top_level@[k - 1],
            stmts_bind(m, m.top_level@, m.stmts@.len(), ExecutionScope::Module, (k - 1) as nat),
            ExecutionScope::Module,
        ).contains((place, env)),
    ensures
        stmts_places(
            m,
            m.top_level@,
            m.stmts@.len(),
            Seq::empty(),
            ExecutionScope::Module,
            n as nat,
        ).contains((place, env)),
    decreases n - k,
{
    let limit = m.stmts@.len();
    let rest = stmts_places(
        m,
        m.top_level@,
        limit,
        Seq::empty(),
        ExecutionScope::Module,
        (n - 1) as nat,
    );
    let all = stmts_places(
        m,
        m.top_level@,
        limit,
        Seq::empty(),
        ExecutionScope::Module,
        n as nat,
    );
    if k < n {
        stmts_hold(m, k, n - 1, place, env);
        let j = choose|j: int| 0 <= j < rest.len() && rest[j] == (place, env);
        assert(all[j] == rest[j]);
    } else {
        let before = stmts_bind(m, m.top_level@, limit, ExecutionScope::Module, (k - 1) as nat);
        assert(Seq::<crate::scope::Binding>::empty() + before =~= before);
        let own = stmt_places(m, m.top_level@[k - 1], before, ExecutionScope::Module);
        let i = choose|i: int| 0 <= i < own.len() && own[i] == (place, env);
        assert(all[rest.len() + i] == own[i]);
    }
}

} // verus!
