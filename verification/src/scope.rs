//! Scopes: which names are bound at which place of a module.
//!
//! A scope is a chain of bindings. Each binding makes a new scope below the one
//! before it, so that a place sees what is bound before it and nothing else.
//! The body of a function runs later: it sees what its surroundings bind in the
//! end.

use vstd::prelude::*;

use crate::def::{
    all_below, opt_below, params_below, stmts_below, Argument, CompClause, ElseBranch, Expr,
    ExprId, LoadItem, LoadItemId, Module, Name, Param, ParamId, Stmt, StmtId,
};

verus! {

/// What a name stands for.
#[derive(Clone, Copy, Debug, PartialEq, Eq, Structural)]
pub enum ScopeDef {
    Variable(ExprId),
    Function(StmtId),
    Parameter(ParamId),
    LoadItem(LoadItemId),
}

/// The piece of code in which a binding happens.
#[derive(Clone, Copy, Debug, PartialEq, Eq, Structural)]
pub enum ExecutionScope {
    Module,
    Def(StmtId),
    Lambda(ExprId),
    Comp(ExprId),
}

/// A binding of a name.
pub struct Binding {
    pub name: Seq<char>,
    pub def: ScopeDef,
    pub execution: ExecutionScope,
}

/// The bindings that a place sees, from the outermost on.
pub type Env = Seq<Binding>;

/// A place of a module: its end, an expression, or the end of a function.
#[derive(Clone, Copy, Debug, PartialEq, Eq, Structural)]
pub enum ScopeHirId {
    Module,
    Expr(ExprId),
    Def(StmtId),
}

/// A scope: one binding below a parent scope.
#[derive(Debug)]
pub struct Scope {
    pub parent: Option<usize>,
    pub name: Name,
    pub def: ScopeDef,
    pub execution: ExecutionScope,
}

/// The scopes of a module, and the scope of each place. No scope is empty.
#[derive(Debug)]
pub struct Scopes {
    pub scopes: Vec<Scope>,
    pub places: Vec<(ScopeHirId, Option<usize>)>,
}

/// The bindings of a scope and its parents.
pub open spec fn chain(scopes: Seq<Scope>, id: Option<usize>) -> Env
    decreases
            match id {
                Some(i) => i + 1,
                None => 0,
            },
{
    match id {
        Some(i) => if i < scopes.len() && (scopes[i as int].parent matches Some(p) ==> p < i) {
            chain(scopes, scopes[i as int].parent).push(
                Binding {
                    name: scopes[i as int].name@,
                    def: scopes[i as int].def,
                    execution: scopes[i as int].execution,
                },
            )
        } else {
            Seq::empty()
        },
        None => Seq::empty(),
    }
}

/// Whether a scope exists.
pub open spec fn scope_exists(scopes: Seq<Scope>, id: Option<usize>) -> bool {
    match id {
        Some(i) => i < scopes.len(),
        None => true,
    }
}

impl Scopes {
    /// Whether every scope stands behind its parent, and the scope of each place
    /// exists.
    pub open spec fn wf(self) -> bool {
        &&& forall|i: int|
            0 <= i < self.scopes@.len() ==> ((#[trigger] self.scopes@[i]).parent matches Some(p)
                ==> p < i)
        &&& forall|k: int|
            0 <= k < self.places@.len() ==> scope_exists(
                self.scopes@,
                (#[trigger] self.places@[k]).1,
            )
    }

    /// What each place sees, in the order in which the places are recorded.
    pub open spec fn seen(self) -> Seq<(ScopeHirId, Env)> {
        Seq::new(
            self.places@.len(),
            |k: int| (self.places@[k].0, chain(self.scopes@, self.places@[k].1)),
        )
    }

    /// Whether record `k` is the first of a place.
    pub open spec fn is_first(self, place: ScopeHirId, k: int) -> bool {
        &&& 0 <= k < self.places@.len()
        &&& self.places@[k].0 == place
        &&& forall|j: int| 0 <= j < k ==> (#[trigger] self.places@[j]).0 != place
    }

    /// Whether `later` has these scopes and maybe more.
    pub open spec fn leads_to(self, later: Scopes) -> bool {
        crate::lower_spec::grows(self.scopes@, later.scopes@)
    }
}

/// What an assignment to `expr` binds, from the left: names, also inside tuples,
/// lists and parentheses.
pub open spec fn target_binds(m: Module, expr: ExprId, execution: ExecutionScope) -> Env
    decreases expr.0, 1nat, 0nat,
{
    match m.exprs@[expr.0 as int] {
        Expr::Name { name } => seq![
            Binding { name: name@, def: ScopeDef::Variable(expr), execution },
        ],
        Expr::Tuple { exprs } => targets_bind(m, exprs@, expr.0 as nat, execution, exprs@.len()),
        Expr::List { exprs } => targets_bind(m, exprs@, expr.0 as nat, execution, exprs@.len()),
        Expr::Paren { expr: inner } => if inner.0 < expr.0 {
            target_binds(m, inner, execution)
        } else {
            Seq::empty()
        },
        _ => Seq::empty(),
    }
}

/// What assignments to the first `n` of `exprs`, all below `limit`, bind.
pub open spec fn targets_bind(
    m: Module,
    exprs: Seq<ExprId>,
    limit: nat,
    execution: ExecutionScope,
    n: nat,
) -> Env
    decreases limit, 0nat, n,
{
    if n == 0 {
        Seq::empty()
    } else {
        let rest = targets_bind(m, exprs, limit, execution, (n - 1) as nat);
        if exprs[n - 1].0 < limit {
            rest + target_binds(m, exprs[n - 1], execution)
        } else {
            rest
        }
    }
}

/// What the parameters of a function bind, the first `n`.
pub open spec fn params_bind(
    m: Module,
    ids: Seq<ParamId>,
    execution: ExecutionScope,
    n: nat,
) -> Env
    decreases n,
{
    if n == 0 {
        Seq::empty()
    } else {
        params_bind(m, ids, execution, (n - 1) as nat).push(
            Binding {
                name: m.params@[ids[n - 1].0 as int].label(),
                def: ScopeDef::Parameter(ids[n - 1]),
                execution,
            },
        )
    }
}

/// The name that a loaded item binds.
pub open spec fn load_name(item: LoadItem) -> Seq<char> {
    match item {
        LoadItem::Direct { name, load_stmt: _ } => name@,
        LoadItem::Aliased { alias, name: _, load_stmt: _ } => alias@,
    }
}

/// What the items of a `load` bind, the first `n`.
pub open spec fn load_binds(
    m: Module,
    items: Seq<LoadItemId>,
    execution: ExecutionScope,
    n: nat,
) -> Env
    decreases n,
{
    if n == 0 {
        Seq::empty()
    } else {
        load_binds(m, items, execution, (n - 1) as nat).push(
            Binding {
                name: load_name(m.load_items@[items[n - 1].0 as int]),
                def: ScopeDef::LoadItem(items[n - 1]),
                execution,
            },
        )
    }
}

/// What a statement binds in its surroundings.
pub open spec fn stmt_binds(m: Module, id: StmtId, execution: ExecutionScope) -> Env
    decreases id.0, 1nat, 0nat,
{
    match m.stmts@[id.0 as int] {
        Stmt::Def { func, stmts: _ } => seq![
            Binding { name: func.name@, def: ScopeDef::Function(id), execution },
        ],
        Stmt::If { test: _, if_stmts, elif_or_else_stmts } => {
            let first = stmts_bind(m, if_stmts@, id.0 as nat, execution, if_stmts@.len());
            first + match elif_or_else_stmts {
                Some(ElseBranch::Elif(inner)) => if inner.0 < id.0 {
                    stmt_binds(m, inner, execution)
                } else {
                    Seq::empty()
                },
                Some(ElseBranch::Else(stmts)) => stmts_bind(
                    m,
                    stmts@,
                    id.0 as nat,
                    execution,
                    stmts@.len(),
                ),
                None => Seq::empty(),
            }
        },
        Stmt::For { iterable: _, targets, stmts } => targets_bind(
            m,
            targets@,
            m.exprs@.len(),
            execution,
            targets@.len(),
        ) + stmts_bind(m, stmts@, id.0 as nat, execution, stmts@.len()),
        Stmt::Assign { lhs, rhs: _, op: _, type_ref: _ } => target_binds(m, lhs, execution),
        Stmt::Load { load_stmt: _, items } => load_binds(m, items@, execution, items@.len()),
        _ => Seq::empty(),
    }
}

/// What the first `n` of the statements `ids`, all below `limit`, bind.
pub open spec fn stmts_bind(
    m: Module,
    ids: Seq<StmtId>,
    limit: nat,
    execution: ExecutionScope,
    n: nat,
) -> Env
    decreases limit, 0nat, n,
{
    if n == 0 {
        Seq::empty()
    } else {
        let rest = stmts_bind(m, ids, limit, execution, (n - 1) as nat);
        if ids[n - 1].0 < limit {
            rest + stmt_binds(m, ids[n - 1], execution)
        } else {
            rest
        }
    }
}

/// The values that arguments pass.
pub open spec fn arg_values(args: Seq<Argument>) -> Seq<ExprId> {
    Seq::new(args.len(), |i: int| args[i].value())
}

/// An optional part as a list.
pub open spec fn opt_part(id: Option<ExprId>) -> Seq<ExprId> {
    match id {
        Some(id) => seq![id],
        None => Seq::empty(),
    }
}

/// The keys and values of the entries of a dictionary, the first `n`.
pub open spec fn entry_parts(entries: Seq<crate::def::DictEntry>, n: nat) -> Seq<ExprId>
    decreases n,
{
    if n == 0 {
        Seq::empty()
    } else {
        entry_parts(entries, (n - 1) as nat) + seq![entries[n - 1].key, entries[n - 1].value]
    }
}

/// The parts of an expression that see what the expression sees.
pub open spec fn plain_parts(e: Expr) -> Seq<ExprId> {
    match e {
        Expr::If { if_expr, test, else_expr } => seq![if_expr, test, else_expr],
        Expr::Unary { expr, op: _ } => seq![expr],
        Expr::Binary { lhs, rhs, op: _ } => seq![lhs, rhs],
        Expr::Dot { expr, field: _ } => seq![expr],
        Expr::Call { callee, args } => seq![callee] + arg_values(args@),
        Expr::Index { lhs, index } => seq![lhs, index],
        Expr::Slice { lhs, start, end, step } => seq![lhs] + opt_part(start) + opt_part(end)
            + opt_part(step),
        Expr::List { exprs } => exprs@,
        Expr::Tuple { exprs } => exprs@,
        Expr::Paren { expr } => seq![expr],
        Expr::Dict { entries } => entry_parts(entries@, entries@.len()),
        _ => Seq::empty(),
    }
}

/// The default values of parameters, the first `n`.
pub open spec fn default_parts(m: Module, ids: Seq<ParamId>, n: nat) -> Seq<ExprId>
    decreases n,
{
    if n == 0 {
        Seq::empty()
    } else {
        default_parts(m, ids, (n - 1) as nat) + opt_part(
            m.params@[ids[n - 1].0 as int].default_value(),
        )
    }
}

/// What is bound behind the first `n` clauses of comprehension `id`.
pub open spec fn clauses_bind(m: Module, clauses: Seq<CompClause>, id: ExprId, n: nat) -> Env
    decreases n,
{
    if n == 0 {
        Seq::empty()
    } else {
        let rest = clauses_bind(m, clauses, id, (n - 1) as nat);
        match clauses[n - 1] {
            CompClause::For { iterable: _, targets } => rest + targets_bind(
                m,
                targets@,
                id.0 as nat,
                ExecutionScope::Comp(id),
                targets@.len(),
            ),
            CompClause::If { test: _ } => rest,
        }
    }
}

/// What expression `id` and its parts see, in order, where the expression sees `env`.
pub open spec fn expr_places(m: Module, id: ExprId, env: Env) -> Seq<(ScopeHirId, Env)>
    decreases id.0, 2nat, 0nat,
{
    let own = seq![(ScopeHirId::Expr(id), env)];
    let limit = id.0 as nat;
    match m.exprs@[id.0 as int] {
        Expr::Lambda { func, body } => {
            let defaults = default_parts(m, func.params@, func.params@.len());
            let inner = env + params_bind(
                m,
                func.params@,
                ExecutionScope::Lambda(id),
                func.params@.len(),
            );
            own.add(exprs_places(m, defaults, limit, env, defaults.len())).add(
                exprs_places(m, seq![body], limit, inner, 1),
            )
        },
        Expr::ListComp { expr, comp_clauses } => {
            let n = comp_clauses@.len();
            let inner = env + clauses_bind(m, comp_clauses@, id, n);
            own.add(clauses_places(m, comp_clauses@, id, env, n)).add(
                exprs_places(m, seq![expr], limit, inner, 1),
            )
        },
        Expr::DictComp { entry, comp_clauses } => {
            let n = comp_clauses@.len();
            let inner = env + clauses_bind(m, comp_clauses@, id, n);
            own.add(clauses_places(m, comp_clauses@, id, env, n)).add(
                exprs_places(m, seq![entry.key, entry.value], limit, inner, 2),
            )
        },
        e => {
            let parts = plain_parts(e);
            own.add(exprs_places(m, parts, limit, env, parts.len()))
        },
    }
}

/// What the first `n` of `ids`, all below `limit`, and their parts see.
pub open spec fn exprs_places(
    m: Module,
    ids: Seq<ExprId>,
    limit: nat,
    env: Env,
    n: nat,
) -> Seq<(ScopeHirId, Env)>
    decreases limit, 0nat, n,
{
    if n == 0 {
        Seq::empty()
    } else {
        let rest = exprs_places(m, ids, limit, env, (n - 1) as nat);
        if ids[n - 1].0 < limit {
            rest.add(expr_places(m, ids[n - 1], env))
        } else {
            rest
        }
    }
}

/// What the first `n` clauses of comprehension `id` see: each what the clauses
/// before it bind, and the targets of a loop also what the loop binds.
pub open spec fn clauses_places(
    m: Module,
    clauses: Seq<CompClause>,
    id: ExprId,
    env: Env,
    n: nat,
) -> Seq<(ScopeHirId, Env)>
    decreases id.0, 1nat, n,
{
    if n == 0 {
        Seq::empty()
    } else {
        let rest = clauses_places(m, clauses, id, env, (n - 1) as nat);
        let before = env + clauses_bind(m, clauses, id, (n - 1) as nat);
        let after = env + clauses_bind(m, clauses, id, n);
        match clauses[n - 1] {
            CompClause::For { iterable, targets } => {
                let iterable_places = if iterable.0 < id.0 {
                    expr_places(m, iterable, before)
                } else {
                    Seq::empty()
                };
                rest.add(iterable_places).add(
                    exprs_places(m, targets@, id.0 as nat, after, targets@.len()),
                )
            },
            CompClause::If { test } => if test.0 < id.0 {
                rest.add(expr_places(m, test, before))
            } else {
                rest
            },
        }
    }
}

/// What the expressions of statement `id`, nested statements included but the
/// bodies of functions left out, see, where the statement sees `env`.
pub open spec fn stmt_places(
    m: Module,
    id: StmtId,
    env: Env,
    execution: ExecutionScope,
) -> Seq<(ScopeHirId, Env)>
    decreases id.0, 1nat, 0nat,
{
    let exprs = m.exprs@.len();
    match m.stmts@[id.0 as int] {
        Stmt::Def { func, stmts: _ } => {
            let defaults = default_parts(m, func.params@, func.params@.len());
            exprs_places(m, defaults, exprs, env, defaults.len())
        },
        Stmt::If { test, if_stmts, elif_or_else_stmts } => {
            let n = if_stmts@.len();
            let after = env + stmts_bind(m, if_stmts@, id.0 as nat, execution, n);
            exprs_places(m, seq![test], exprs, env, 1).add(
                stmts_places(m, if_stmts@, id.0 as nat, env, execution, n),
            ).add(
                match elif_or_else_stmts {
                    Some(ElseBranch::Elif(inner)) => if inner.0 < id.0 {
                        stmt_places(m, inner, after, execution)
                    } else {
                        Seq::empty()
                    },
                    Some(ElseBranch::Else(stmts)) => stmts_places(
                        m,
                        stmts@,
                        id.0 as nat,
                        after,
                        execution,
                        stmts@.len(),
                    ),
                    None => Seq::empty(),
                },
            )
        },
        Stmt::For { iterable, targets, stmts } => {
            let after = env + targets_bind(m, targets@, exprs, execution, targets@.len());
            exprs_places(m, seq![iterable], exprs, env, 1).add(
                exprs_places(m, targets@, exprs, after, targets@.len()),
            ).add(stmts_places(m, stmts@, id.0 as nat, after, execution, stmts@.len()))
        },
        Stmt::Return { expr } => {
            let parts = opt_part(expr);
            exprs_places(m, parts, exprs, env, parts.len())
        },
        Stmt::Assign { lhs, rhs, op: _, type_ref: _ } => exprs_places(
            m,
            seq![rhs, lhs],
            exprs,
            env,
            2,
        ),
        Stmt::Expr { expr } => exprs_places(m, seq![expr], exprs, env, 1),
        _ => Seq::empty(),
    }
}

/// What the expressions of the first `n` of the statements `ids`, all below
/// `limit`, see: each what the statements before it bind.
pub open spec fn stmts_places(
    m: Module,
    ids: Seq<StmtId>,
    limit: nat,
    env: Env,
    execution: ExecutionScope,
    n: nat,
) -> Seq<(ScopeHirId, Env)>
    decreases limit, 0nat, n,
{
    if n == 0 {
        Seq::empty()
    } else {
        let rest = stmts_places(m, ids, limit, env, execution, (n - 1) as nat);
        let before = env + stmts_bind(m, ids, limit, execution, (n - 1) as nat);
        if ids[n - 1].0 < limit {
            rest.add(stmt_places(m, ids[n - 1], before, execution))
        } else {
            rest
        }
    }
}

/// What the bodies of the functions in statement `id` see, where they run with
/// `env` around them.
pub open spec fn function_places(m: Module, id: StmtId, env: Env) -> Seq<(ScopeHirId, Env)>
    decreases id.0, 1nat, 0nat,
{
    let limit = id.0 as nat;
    match m.stmts@[id.0 as int] {
        Stmt::Def { func, stmts } => {
            let execution = ExecutionScope::Def(id);
            let n = stmts@.len();
            let start = env + params_bind(m, func.params@, execution, func.params@.len());
            let end = start + stmts_bind(m, stmts@, limit, execution, n);
            stmts_places(m, stmts@, limit, start, execution, n).push(
                (ScopeHirId::Def(id), end),
            ).add(functions_places(m, stmts@, limit, end, n))
        },
        Stmt::If { test: _, if_stmts, elif_or_else_stmts } => functions_places(
            m,
            if_stmts@,
            limit,
            env,
            if_stmts@.len(),
        ).add(
            match elif_or_else_stmts {
                Some(ElseBranch::Elif(inner)) => if inner.0 < id.0 {
                    function_places(m, inner, env)
                } else {
                    Seq::empty()
                },
                Some(ElseBranch::Else(stmts)) => functions_places(
                    m,
                    stmts@,
                    limit,
                    env,
                    stmts@.len(),
                ),
                None => Seq::empty(),
            },
        ),
        Stmt::For { iterable: _, targets: _, stmts } => functions_places(
            m,
            stmts@,
            limit,
            env,
            stmts@.len(),
        ),
        _ => Seq::empty(),
    }
}

/// What the bodies of the functions in the first `n` of the statements `ids`,
/// all below `limit`, see.
pub open spec fn functions_places(
    m: Module,
    ids: Seq<StmtId>,
    limit: nat,
    env: Env,
    n: nat,
) -> Seq<(ScopeHirId, Env)>
    decreases limit, 0nat, n,
{
    if n == 0 {
        Seq::empty()
    } else {
        let rest = functions_places(m, ids, limit, env, (n - 1) as nat);
        if ids[n - 1].0 < limit {
            rest.add(function_places(m, ids[n - 1], env))
        } else {
            rest
        }
    }
}

/// What a module binds.
pub open spec fn module_binds(m: Module) -> Env {
    stmts_bind(m, m.top_level@, m.stmts@.len(), ExecutionScope::Module, m.top_level@.len())
}

/// What each place of a module sees, in the order in which the places are recorded:
/// the module before everything in it, the end of a function behind the expressions
/// of its body and before the functions in it, and an expression before its parts.
pub open spec fn module_places(m: Module) -> Seq<(ScopeHirId, Env)> {
    let n = m.top_level@.len();
    let limit = m.stmts@.len();
    seq![(ScopeHirId::Module, module_binds(m))].add(
        stmts_places(m, m.top_level@, limit, Seq::empty(), ExecutionScope::Module, n),
    ).add(functions_places(m, m.top_level@, limit, module_binds(m), n))
}

/// Additions keep the bindings of a scope.
pub proof fn kept_chain(a: Seq<Scope>, b: Seq<Scope>, id: Option<usize>)
    requires
        crate::lower_spec::grows(a, b),
        scope_exists(a, id),
        forall|i: int| 0 <= i < a.len() ==> ((#[trigger] a[i]).parent matches Some(p) ==> p < i),
    ensures
        chain(a, id) == chain(b, id),
    decreases
            match id {
                Some(i) => i + 1,
                None => 0,
            },
{
    match id {
        Some(i) => {
            assert(a[i as int] == b[i as int]);
            kept_chain(a, b, a[i as int].parent);
        },
        None => {},
    }
}

impl Scopes {
    /// Adds a binding below a scope.
    fn bind(
        &mut self,
        parent: Option<usize>,
        name: Name,
        def: ScopeDef,
        execution: ExecutionScope,
    ) -> (id: Option<usize>)
        requires
            old(self).wf(),
            scope_exists(old(self).scopes@, parent),
        ensures
            final(self).wf(),
            old(self).leads_to(*final(self)),
            final(self).seen() == old(self).seen(),
            scope_exists(final(self).scopes@, id),
            chain(final(self).scopes@, id) == chain(old(self).scopes@, parent).push(
                Binding { name: name@, def, execution },
            ),
    {
        let id = self.scopes.len();
        let ghost before = *self;
        let ghost text = name@;
        self.scopes.push(Scope { parent, name, def, execution });
        proof {
            assert(before.leads_to(*self));
            same_seen(before, *self);
            kept_chain(before.scopes@, self.scopes@, parent);
            assert(self.scopes@[id as int].parent == parent);
            assert(chain(self.scopes@, Some(id)) == chain(self.scopes@, parent).push(
                Binding { name: text, def, execution },
            ));
        }
        Some(id)
    }

    /// Records the scope of a place, before all others if it is the outermost.
    fn record(&mut self, place: ScopeHirId, scope: Option<usize>)
        requires
            old(self).wf(),
            scope_exists(old(self).scopes@, scope),
        ensures
            final(self).wf(),
            final(self).scopes@ == old(self).scopes@,
            final(self).seen() == if place == ScopeHirId::Module {
                seq![(place, chain(old(self).scopes@, scope))].add(old(self).seen())
            } else {
                old(self).seen().push((place, chain(old(self).scopes@, scope)))
            },
    {
        let ghost before = *self;
        let at: usize = if place == ScopeHirId::Module {
            0
        } else {
            self.places.len()
        };
        self.places.insert(at, (place, scope));
        proof {
            let added = (place, chain(before.scopes@, scope));
            let n = at as int;
            assert(self.places@[n] == (place, scope));
            assert forall|k: int| 0 <= k < self.places@.len() implies scope_exists(
                self.scopes@,
                (#[trigger] self.places@[k]).1,
            ) by {
                if k < n {
                    assert(before.places@[k] == self.places@[k]);
                } else if k > n {
                    assert(before.places@[k - 1] == self.places@[k]);
                }
            }
            if place == ScopeHirId::Module {
                assert(self.seen() =~= seq![added].add(before.seen()));
            } else {
                assert(self.seen() =~= before.seen().push(added));
            }
        }
    }
}

/// New scopes change nothing about what places see.
proof fn same_seen(a: Scopes, b: Scopes)
    requires
        a.wf(),
        a.leads_to(b),
        a.places@ == b.places@,
    ensures
        a.seen() == b.seen(),
        forall|k: int|
            0 <= k < b.places@.len() ==> scope_exists(b.scopes@, (#[trigger] b.places@[k]).1),
{
    assert forall|k: int| 0 <= k < a.places@.len() implies a.seen()[k] == #[trigger] b.seen()[k] by {
        assert(scope_exists(a.scopes@, a.places@[k].1));
        kept_chain(a.scopes@, b.scopes@, a.places@[k].1);
    }
    assert(a.seen() =~= b.seen());
    assert forall|k: int| 0 <= k < b.places@.len() implies scope_exists(
        b.scopes@,
        (#[trigger] b.places@[k]).1,
    ) by {
        assert(scope_exists(a.scopes@, a.places@[k].1));
    }
}

/// New scopes on new scopes are new scopes.
proof fn leads_on(a: Scopes, b: Scopes, c: Scopes)
    requires
        a.leads_to(b),
        b.leads_to(c),
    ensures
        a.leads_to(c),
{
    crate::lower_proof::grows_on(a.scopes@, b.scopes@, c.scopes@);
}

/// A scope that existed exists with the same bindings.
proof fn kept_scope(a: Scopes, b: Scopes, id: Option<usize>)
    requires
        a.wf(),
        a.leads_to(b),
        scope_exists(a.scopes@, id),
    ensures
        scope_exists(b.scopes@, id),
        chain(a.scopes@, id) == chain(b.scopes@, id),
{
    kept_chain(a.scopes@, b.scopes@, id);
}

impl Scopes {
    /// Binds what an assignment to `expr` binds.
    fn bind_target(
        &mut self,
        m: &Module,
        expr: ExprId,
        scope: Option<usize>,
        execution: ExecutionScope,
    ) -> (r: Option<usize>)
        requires
            old(self).wf(),
            m.wf(),
            expr.0 < m.exprs@.len(),
            scope_exists(old(self).scopes@, scope),
        ensures
            final(self).wf(),
            old(self).leads_to(*final(self)),
            final(self).seen() == old(self).seen(),
            scope_exists(final(self).scopes@, r),
            chain(final(self).scopes@, r) == chain(old(self).scopes@, scope) + target_binds(
                *m,
                expr,
                execution,
            ),
        decreases expr.0, 1nat,
    {
        proof {
            assert(crate::def::expr_below(m.params@, m.exprs@[expr.0 as int], expr.0 as nat));
        }
        let ghost env = chain(self.scopes@, scope);
        match &m.exprs[expr.0] {
            Expr::Name { name } => {
                let r = self.bind(scope, name.dup(), ScopeDef::Variable(expr), execution);
                proof {
                    let b = Binding { name: name@, def: ScopeDef::Variable(expr), execution };
                    assert(env.push(b) =~= env + seq![b]);
                }
                r
            },
            Expr::Tuple { exprs } => self.bind_targets(m, exprs, expr.0, scope, execution),
            Expr::List { exprs } => self.bind_targets(m, exprs, expr.0, scope, execution),
            Expr::Paren { expr: inner } => self.bind_target(m, *inner, scope, execution),
            _ => {
                proof {
                    assert(env + Seq::<Binding>::empty() =~= env);
                }
                scope
            },
        }
    }

    /// Binds what assignments to `exprs`, all below `limit`, bind.
    fn bind_targets(
        &mut self,
        m: &Module,
        exprs: &Vec<ExprId>,
        limit: usize,
        scope: Option<usize>,
        execution: ExecutionScope,
    ) -> (r: Option<usize>)
        requires
            old(self).wf(),
            m.wf(),
            limit <= m.exprs@.len(),
            all_below(exprs@, limit as nat),
            scope_exists(old(self).scopes@, scope),
        ensures
            final(self).wf(),
            old(self).leads_to(*final(self)),
            final(self).seen() == old(self).seen(),
            scope_exists(final(self).scopes@, r),
            chain(final(self).scopes@, r) == chain(old(self).scopes@, scope) + targets_bind(
                *m,
                exprs@,
                limit as nat,
                execution,
                exprs@.len(),
            ),
        decreases limit, 0nat,
    {
        let ghost env = chain(self.scopes@, scope);
        let mut current = scope;
        let mut i: usize = 0;
        proof {
            assert(env + Seq::<Binding>::empty() =~= env);
        }
        while i < exprs.len()
            invariant
                i <= exprs@.len(),
                self.wf(),
                m.wf(),
                limit <= m.exprs@.len(),
                all_below(exprs@, limit as nat),
                old(self).leads_to(*self),
                self.seen() == old(self).seen(),
                scope_exists(self.scopes@, current),
                chain(self.scopes@, current) == env + targets_bind(
                    *m,
                    exprs@,
                    limit as nat,
                    execution,
                    i as nat,
                ),
            decreases exprs@.len() - i,
        {
            let ghost before = *self;
            let ghost bound = targets_bind(*m, exprs@, limit as nat, execution, i as nat);
            current = self.bind_target(m, exprs[i], current, execution);
            proof {
                leads_on(*old(self), before, *self);
                let more = target_binds(*m, exprs@[i as int], execution);
                assert(env + bound + more =~= env + (bound + more));
            }
            i = i + 1;
        }
        current
    }

    /// Binds the parameters of a function.
    fn bind_params(
        &mut self,
        m: &Module,
        ids: &Vec<ParamId>,
        scope: Option<usize>,
        execution: ExecutionScope,
    ) -> (r: Option<usize>)
        requires
            old(self).wf(),
            crate::call::params_exist(*m, ids@),
            scope_exists(old(self).scopes@, scope),
        ensures
            final(self).wf(),
            old(self).leads_to(*final(self)),
            final(self).seen() == old(self).seen(),
            scope_exists(final(self).scopes@, r),
            chain(final(self).scopes@, r) == chain(old(self).scopes@, scope) + params_bind(
                *m,
                ids@,
                execution,
                ids@.len(),
            ),
    {
        let ghost env = chain(self.scopes@, scope);
        let mut current = scope;
        let mut i: usize = 0;
        proof {
            assert(env + Seq::<Binding>::empty() =~= env);
        }
        while i < ids.len()
            invariant
                i <= ids@.len(),
                self.wf(),
                crate::call::params_exist(*m, ids@),
                old(self).leads_to(*self),
                self.seen() == old(self).seen(),
                scope_exists(self.scopes@, current),
                chain(self.scopes@, current) == env + params_bind(*m, ids@, execution, i as nat),
            decreases ids@.len() - i,
        {
            let ghost before = *self;
            let ghost bound = params_bind(*m, ids@, execution, i as nat);
            let id = ids[i];
            let name = m.params[id.0].name().dup();
            let ghost b = Binding { name: name@, def: ScopeDef::Parameter(id), execution };
            current = self.bind(current, name, ScopeDef::Parameter(id), execution);
            proof {
                leads_on(*old(self), before, *self);
                assert((env + bound).push(b) =~= env + bound.push(b));
            }
            i = i + 1;
        }
        current
    }

    /// Binds the items of a `load`.
    fn bind_load(
        &mut self,
        m: &Module,
        items: &Vec<LoadItemId>,
        scope: Option<usize>,
        execution: ExecutionScope,
    ) -> (r: Option<usize>)
        requires
            old(self).wf(),
            forall|i: int| 0 <= i < items@.len() ==> (#[trigger] items@[i]).0 < m.load_items@.len(),
            scope_exists(old(self).scopes@, scope),
        ensures
            final(self).wf(),
            old(self).leads_to(*final(self)),
            final(self).seen() == old(self).seen(),
            scope_exists(final(self).scopes@, r),
            chain(final(self).scopes@, r) == chain(old(self).scopes@, scope) + load_binds(
                *m,
                items@,
                execution,
                items@.len(),
            ),
    {
        let ghost env = chain(self.scopes@, scope);
        let mut current = scope;
        let mut i: usize = 0;
        proof {
            assert(env + Seq::<Binding>::empty() =~= env);
        }
        while i < items.len()
            invariant
                i <= items@.len(),
                self.wf(),
                forall|i: int|
                    0 <= i < items@.len() ==> (#[trigger] items@[i]).0 < m.load_items@.len(),
                old(self).leads_to(*self),
                self.seen() == old(self).seen(),
                scope_exists(self.scopes@, current),
                chain(self.scopes@, current) == env + load_binds(*m, items@, execution, i as nat),
            decreases items@.len() - i,
        {
            let ghost before = *self;
            let ghost bound = load_binds(*m, items@, execution, i as nat);
            let id = items[i];
            let name = match &m.load_items[id.0] {
                LoadItem::Direct { name, load_stmt: _ } => Name::from_str(name.as_str()),
                LoadItem::Aliased { alias, name: _, load_stmt: _ } => alias.dup(),
            };
            let ghost b = Binding { name: name@, def: ScopeDef::LoadItem(id), execution };
            current = self.bind(current, name, ScopeDef::LoadItem(id), execution);
            proof {
                leads_on(*old(self), before, *self);
                assert((env + bound).push(b) =~= env + bound.push(b));
            }
            i = i + 1;
        }
        current
    }

    /// Records what expression `id` and its parts see.
    fn walk_expr(&mut self, m: &Module, id: ExprId, scope: Option<usize>)
        requires
            old(self).wf(),
            m.wf(),
            id.0 < m.exprs@.len(),
            scope_exists(old(self).scopes@, scope),
        ensures
            final(self).wf(),
            old(self).leads_to(*final(self)),
            final(self).seen() == old(self).seen().add(
                expr_places(*m, id, chain(old(self).scopes@, scope)),
            ),
        decreases id.0, 2nat,
    {
        proof {
            assert(crate::def::expr_below(m.params@, m.exprs@[id.0 as int], id.0 as nat));
        }
        let ghost env = chain(self.scopes@, scope);
        let ghost start = *self;
        self.record(ScopeHirId::Expr(id), scope);
        let ghost own = *self;
        match &m.exprs[id.0] {
            Expr::Lambda { func, body } => {
                let defaults = default_exprs(m, &func.params, id.0);
                self.walk_exprs(m, &defaults, id.0, scope);
                let ghost first = *self;
                proof {
                    kept_scope(own, first, scope);
                }
                let inner = self.bind_params(m, &func.params, scope, ExecutionScope::Lambda(id));
                let ghost second = *self;
                let parts = vec![*body];
                self.walk_exprs(m, &parts, id.0, inner);
                proof {
                    leads_on(start, first, second);
                    leads_on(start, second, *self);
                    assert(parts@ =~= seq![*body]);
                    assert(self.seen() =~= start.seen().add(expr_places(*m, id, env)));
                }
            },
            Expr::ListComp { expr, comp_clauses } => {
                let inner = self.walk_clauses(m, comp_clauses, id, scope);
                let ghost first = *self;
                let parts = vec![*expr];
                self.walk_exprs(m, &parts, id.0, inner);
                proof {
                    leads_on(start, first, *self);
                    assert(parts@ =~= seq![*expr]);
                    assert(self.seen() =~= start.seen().add(expr_places(*m, id, env)));
                }
            },
            Expr::DictComp { entry, comp_clauses } => {
                let inner = self.walk_clauses(m, comp_clauses, id, scope);
                let ghost first = *self;
                let parts = vec![entry.key, entry.value];
                self.walk_exprs(m, &parts, id.0, inner);
                proof {
                    leads_on(start, first, *self);
                    assert(parts@ =~= seq![entry.key, entry.value]);
                    assert(self.seen() =~= start.seen().add(expr_places(*m, id, env)));
                }
            },
            e => {
                let parts = plain_exprs(m, e, id.0);
                self.walk_exprs(m, &parts, id.0, scope);
                proof {
                    assert(self.seen() =~= start.seen().add(expr_places(*m, id, env)));
                }
            },
        }
    }

    /// Records what `ids`, all below `limit`, and their parts see.
    fn walk_exprs(&mut self, m: &Module, ids: &Vec<ExprId>, limit: usize, scope: Option<usize>)
        requires
            old(self).wf(),
            m.wf(),
            limit <= m.exprs@.len(),
            all_below(ids@, limit as nat),
            scope_exists(old(self).scopes@, scope),
        ensures
            final(self).wf(),
            old(self).leads_to(*final(self)),
            final(self).seen() == old(self).seen().add(
                exprs_places(
                    *m,
                    ids@,
                    limit as nat,
                    chain(old(self).scopes@, scope),
                    ids@.len(),
                ),
            ),
        decreases limit, 0nat,
    {
        let ghost env = chain(self.scopes@, scope);
        let mut i: usize = 0;
        proof {
            assert(self.seen() =~= self.seen().add(Seq::empty()));
        }
        while i < ids.len()
            invariant
                i <= ids@.len(),
                self.wf(),
                m.wf(),
                limit <= m.exprs@.len(),
                all_below(ids@, limit as nat),
                old(self).wf(),
                old(self).leads_to(*self),
                scope_exists(old(self).scopes@, scope),
                env == chain(old(self).scopes@, scope),
                self.seen() == old(self).seen().add(
                    exprs_places(*m, ids@, limit as nat, env, i as nat),
                ),
            decreases ids@.len() - i,
        {
            let ghost before = *self;
            proof {
                kept_scope(*old(self), *self, scope);
            }
            self.walk_expr(m, ids[i], scope);
            proof {
                leads_on(*old(self), before, *self);
                assert(self.seen() =~= old(self).seen().add(
                    exprs_places(*m, ids@, limit as nat, env, (i + 1) as nat),
                ));
            }
            i = i + 1;
        }
    }

    /// Records what the clauses of comprehension `id` see, and binds what they
    /// bind.
    fn walk_clauses(
        &mut self,
        m: &Module,
        clauses: &Vec<CompClause>,
        id: ExprId,
        scope: Option<usize>,
    ) -> (r: Option<usize>)
        requires
            old(self).wf(),
            m.wf(),
            id.0 < m.exprs@.len(),
            crate::def::clauses_below(clauses@, id.0 as nat),
            scope_exists(old(self).scopes@, scope),
        ensures
            final(self).wf(),
            old(self).leads_to(*final(self)),
            scope_exists(final(self).scopes@, r),
            chain(final(self).scopes@, r) == chain(old(self).scopes@, scope) + clauses_bind(
                *m,
                clauses@,
                id,
                clauses@.len(),
            ),
            final(self).seen() == old(self).seen().add(
                clauses_places(
                    *m,
                    clauses@,
                    id,
                    chain(old(self).scopes@, scope),
                    clauses@.len(),
                ),
            ),
        decreases id.0, 1nat,
    {
        let ghost env = chain(self.scopes@, scope);
        let execution = ExecutionScope::Comp(id);
        let mut current = scope;
        let mut i: usize = 0;
        proof {
            assert(env + Seq::<Binding>::empty() =~= env);
            assert(self.seen() =~= self.seen().add(Seq::empty()));
        }
        while i < clauses.len()
            invariant
                i <= clauses@.len(),
                self.wf(),
                m.wf(),
                id.0 < m.exprs@.len(),
                execution == ExecutionScope::Comp(id),
                crate::def::clauses_below(clauses@, id.0 as nat),
                old(self).leads_to(*self),
                scope_exists(self.scopes@, current),
                chain(self.scopes@, current) == env + clauses_bind(*m, clauses@, id, i as nat),
                self.seen() == old(self).seen().add(
                    clauses_places(*m, clauses@, id, env, i as nat),
                ),
            decreases clauses@.len() - i,
        {
            let ghost before = *self;
            let ghost bound = clauses_bind(*m, clauses@, id, i as nat);
            proof {
                assert(clauses@[i as int] == clauses@[i as int]);
            }
            match &clauses[i] {
                CompClause::For { iterable, targets } => {
                    self.walk_expr(m, *iterable, current);
                    let ghost first = *self;
                    proof {
                        kept_scope(before, first, current);
                    }
                    current = self.bind_targets(m, targets, id.0, current, execution);
                    let ghost second = *self;
                    proof {
                        let more = targets_bind(
                            *m,
                            targets@,
                            id.0 as nat,
                            execution,
                            targets@.len(),
                        );
                        assert(env + bound + more =~= env + (bound + more));
                    }
                    self.walk_exprs(m, targets, id.0, current);
                    proof {
                        kept_scope(second, *self, current);
                        leads_on(before, first, second);
                        leads_on(before, second, *self);
                        leads_on(*old(self), before, *self);
                        assert(self.seen() =~= old(self).seen().add(
                            clauses_places(*m, clauses@, id, env, (i + 1) as nat),
                        ));
                    }
                },
                CompClause::If { test } => {
                    self.walk_expr(m, *test, current);
                    proof {
                        kept_scope(before, *self, current);
                        leads_on(*old(self), before, *self);
                        assert(self.seen() =~= old(self).seen().add(
                            clauses_places(*m, clauses@, id, env, (i + 1) as nat),
                        ));
                    }
                },
            }
            i = i + 1;
        }
        current
    }
}

/// The default values of parameters, all below `limit`.
fn default_exprs(m: &Module, ids: &Vec<ParamId>, limit: usize) -> (r: Vec<ExprId>)
    requires
        params_below(m.params@, ids@, limit as nat),
    ensures
        r@ == default_parts(*m, ids@, ids@.len()),
        all_below(r@, limit as nat),
{
    let mut out: Vec<ExprId> = Vec::new();
    let mut i: usize = 0;
    while i < ids.len()
        invariant
            i <= ids@.len(),
            params_below(m.params@, ids@, limit as nat),
            out@ == default_parts(*m, ids@, i as nat),
            all_below(out@, limit as nat),
        decreases ids@.len() - i,
    {
        let ghost before = out@;
        let ghost param = m.params@[ids@[i as int].0 as int];
        match &m.params[ids[i].0] {
            Param::Simple { name: _, default: Some(value), type_ref: _, doc: _ } => {
                out.push(*value);
                proof {
                    assert(opt_below(param.default_value(), limit as nat));
                    assert(out@ =~= before + seq![*value]);
                }
            },
            _ => {
                proof {
                    assert(before + Seq::<ExprId>::empty() =~= before);
                }
            },
        }
        i = i + 1;
    }
    out
}

/// The parts of an expression that see what the expression sees.
pub fn plain_exprs(m: &Module, e: &Expr, limit: usize) -> (r: Vec<ExprId>)
    requires
        crate::def::expr_below(m.params@, *e, limit as nat),
        !(e is Lambda),
        !(e is ListComp),
        !(e is DictComp),
    ensures
        r@ == plain_parts(*e),
        all_below(r@, limit as nat),
{
    let mut out: Vec<ExprId> = Vec::new();
    match e {
        Expr::If { if_expr, test, else_expr } => {
            out.push(*if_expr);
            out.push(*test);
            out.push(*else_expr);
        },
        Expr::Unary { expr, op: _ } => {
            out.push(*expr);
        },
        Expr::Binary { lhs, rhs, op: _ } => {
            out.push(*lhs);
            out.push(*rhs);
        },
        Expr::Dot { expr, field: _ } => {
            out.push(*expr);
        },
        Expr::Call { callee, args } => {
            out.push(*callee);
            let mut i: usize = 0;
            while i < args.len()
                invariant
                    i <= args@.len(),
                    callee.0 < limit,
                    forall|k: int|
                        0 <= k < args@.len() ==> (#[trigger] args@[k]).value().0 < limit,
                    out@ == seq![*callee] + arg_values(args@).take(i as int),
                    all_below(out@, limit as nat),
                decreases args@.len() - i,
            {
                let ghost before = out@;
                out.push(args[i].expr());
                proof {
                    assert(out@ =~= seq![*callee] + arg_values(args@).take(i + 1));
                }
                i = i + 1;
            }
            proof {
                assert(arg_values(args@).take(i as int) =~= arg_values(args@));
            }
        },
        Expr::Index { lhs, index } => {
            out.push(*lhs);
            out.push(*index);
        },
        Expr::Slice { lhs, start, end, step } => {
            out.push(*lhs);
            if let Some(start) = start {
                out.push(*start);
            }
            if let Some(end) = end {
                out.push(*end);
            }
            if let Some(step) = step {
                out.push(*step);
            }
            proof {
                assert(out@ =~= seq![*lhs] + opt_part(*start) + opt_part(*end) + opt_part(*step));
            }
        },
        Expr::List { exprs } => {
            out = copy_exprs(exprs);
        },
        Expr::Tuple { exprs } => {
            out = copy_exprs(exprs);
        },
        Expr::Paren { expr } => {
            out.push(*expr);
        },
        Expr::Dict { entries } => {
            let mut i: usize = 0;
            while i < entries.len()
                invariant
                    i <= entries@.len(),
                    forall|k: int|
                        0 <= k < entries@.len() ==> (#[trigger] entries@[k]).key.0 < limit
                            && entries@[k].value.0 < limit,
                    out@ == entry_parts(entries@, i as nat),
                    all_below(out@, limit as nat),
                decreases entries@.len() - i,
            {
                let ghost before = out@;
                let entry = entries[i];
                out.push(entry.key);
                out.push(entry.value);
                proof {
                    assert(entries@[i as int] == entry);
                    assert(out@ =~= before + seq![entry.key, entry.value]);
                }
                i = i + 1;
            }
        },
        _ => {},
    }
    proof {
        assert(out@ =~= plain_parts(*e));
    }
    out
}

/// The same expressions.
fn copy_exprs(exprs: &Vec<ExprId>) -> (r: Vec<ExprId>)
    ensures
        r@ == exprs@,
{
    let mut out: Vec<ExprId> = Vec::new();
    let mut i: usize = 0;
    while i < exprs.len()
        invariant
            i <= exprs@.len(),
            out@ == exprs@.take(i as int),
        decreases exprs@.len() - i,
    {
        out.push(exprs[i]);
        proof {
            assert(exprs@.take(i + 1) =~= exprs@.take(i as int).push(exprs@[i as int]));
        }
        i = i + 1;
    }
    proof {
        assert(exprs@.take(i as int) =~= exprs@);
    }
    out
}

impl Scopes {
    /// Records what the expressions of statement `id` see, and binds what it
    /// binds.
    fn walk_stmt(
        &mut self,
        m: &Module,
        id: StmtId,
        scope: Option<usize>,
        execution: ExecutionScope,
    ) -> (r: Option<usize>)
        requires
            old(self).wf(),
            m.wf(),
            id.0 < m.stmts@.len(),
            scope_exists(old(self).scopes@, scope),
        ensures
            final(self).wf(),
            old(self).leads_to(*final(self)),
            scope_exists(final(self).scopes@, r),
            chain(final(self).scopes@, r) == chain(old(self).scopes@, scope) + stmt_binds(
                *m,
                id,
                execution,
            ),
            final(self).seen() == old(self).seen().add(
                stmt_places(*m, id, chain(old(self).scopes@, scope), execution),
            ),
        decreases id.0, 1nat,
    {
        proof {
            assert(crate::def::stmt_below(*m, m.stmts@[id.0 as int], id.0 as nat));
        }
        let ghost env = chain(self.scopes@, scope);
        let ghost start = *self;
        let exprs = m.exprs.len();
        match &m.stmts[id.0] {
            Stmt::Def { func, stmts: _ } => {
                let defaults = default_exprs(m, &func.params, exprs);
                self.walk_exprs(m, &defaults, exprs, scope);
                let ghost first = *self;
                proof {
                    kept_scope(start, first, scope);
                }
                let r = self.bind(scope, func.name.dup(), ScopeDef::Function(id), execution);
                proof {
                    leads_on(start, first, *self);
                    let b = Binding { name: func.name@, def: ScopeDef::Function(id), execution };
                    assert(env.push(b) =~= env + seq![b]);
                }
                r
            },
            Stmt::If { test, if_stmts, elif_or_else_stmts } => {
                let parts = vec![*test];
                self.walk_exprs(m, &parts, exprs, scope);
                let ghost first = *self;
                proof {
                    assert(parts@ =~= seq![*test]);
                    kept_scope(start, first, scope);
                }
                let middle = self.walk_stmts(m, if_stmts, id.0, scope, execution);
                let ghost second = *self;
                let ghost bound = stmts_bind(
                    *m,
                    if_stmts@,
                    id.0 as nat,
                    execution,
                    if_stmts@.len(),
                );
                proof {
                    leads_on(start, first, second);
                }
                match elif_or_else_stmts {
                    Some(ElseBranch::Elif(inner)) => {
                        let r = self.walk_stmt(m, *inner, middle, execution);
                        proof {
                            leads_on(start, second, *self);
                            let more = stmt_binds(*m, *inner, execution);
                            assert(env + bound + more =~= env + (bound + more));
                            assert(self.seen() =~= start.seen().add(
                                stmt_places(*m, id, env, execution),
                            ));
                        }
                        r
                    },
                    Some(ElseBranch::Else(stmts)) => {
                        let r = self.walk_stmts(m, stmts, id.0, middle, execution);
                        proof {
                            leads_on(start, second, *self);
                            let more = stmts_bind(
                                *m,
                                stmts@,
                                id.0 as nat,
                                execution,
                                stmts@.len(),
                            );
                            assert(env + bound + more =~= env + (bound + more));
                            assert(self.seen() =~= start.seen().add(
                                stmt_places(*m, id, env, execution),
                            ));
                        }
                        r
                    },
                    None => {
                        proof {
                            assert(bound + Seq::<Binding>::empty() =~= bound);
                            assert(self.seen() =~= start.seen().add(
                                stmt_places(*m, id, env, execution),
                            ));
                        }
                        middle
                    },
                }
            },
            Stmt::For { iterable, targets, stmts } => {
                let parts = vec![*iterable];
                self.walk_exprs(m, &parts, exprs, scope);
                let ghost first = *self;
                proof {
                    assert(parts@ =~= seq![*iterable]);
                    kept_scope(start, first, scope);
                }
                let inner = self.bind_targets(m, targets, exprs, scope, execution);
                let ghost second = *self;
                self.walk_exprs(m, targets, exprs, inner);
                let ghost third = *self;
                proof {
                    kept_scope(second, third, inner);
                    leads_on(start, first, second);
                    leads_on(start, second, third);
                }
                let r = self.walk_stmts(m, stmts, id.0, inner, execution);
                proof {
                    leads_on(start, third, *self);
                    let bound = targets_bind(
                        *m,
                        targets@,
                        exprs as nat,
                        execution,
                        targets@.len(),
                    );
                    let more = stmts_bind(*m, stmts@, id.0 as nat, execution, stmts@.len());
                    assert(env + bound + more =~= env + (bound + more));
                    assert(self.seen() =~= start.seen().add(
                        stmt_places(*m, id, env, execution),
                    ));
                }
                r
            },
            Stmt::Return { expr } => {
                let mut parts: Vec<ExprId> = Vec::new();
                if let Some(expr) = expr {
                    parts.push(*expr);
                }
                proof {
                    assert(parts@ =~= opt_part(*expr));
                    assert(env + Seq::<Binding>::empty() =~= env);
                }
                self.walk_exprs(m, &parts, exprs, scope);
                proof {
                    kept_scope(start, *self, scope);
                }
                scope
            },
            Stmt::Assign { lhs, rhs, op: _, type_ref: _ } => {
                let parts = vec![*rhs, *lhs];
                proof {
                    assert(parts@ =~= seq![*rhs, *lhs]);
                }
                self.walk_exprs(m, &parts, exprs, scope);
                let ghost first = *self;
                proof {
                    kept_scope(start, first, scope);
                }
                let r = self.bind_target(m, *lhs, scope, execution);
                proof {
                    leads_on(start, first, *self);
                }
                r
            },
            Stmt::Expr { expr } => {
                let parts = vec![*expr];
                proof {
                    assert(parts@ =~= seq![*expr]);
                    assert(env + Seq::<Binding>::empty() =~= env);
                }
                self.walk_exprs(m, &parts, exprs, scope);
                proof {
                    kept_scope(start, *self, scope);
                }
                scope
            },
            Stmt::Load { load_stmt: _, items } => {
                let r = self.bind_load(m, items, scope, execution);
                proof {
                    assert(self.seen() =~= start.seen().add(Seq::empty()));
                }
                r
            },
            _ => {
                proof {
                    assert(env + Seq::<Binding>::empty() =~= env);
                    assert(self.seen() =~= start.seen().add(Seq::empty()));
                }
                scope
            },
        }
    }

    /// Records what the expressions of the statements `ids`, all below `limit`,
    /// see, and binds what they bind.
    fn walk_stmts(
        &mut self,
        m: &Module,
        ids: &Vec<StmtId>,
        limit: usize,
        scope: Option<usize>,
        execution: ExecutionScope,
    ) -> (r: Option<usize>)
        requires
            old(self).wf(),
            m.wf(),
            limit <= m.stmts@.len(),
            stmts_below(ids@, limit as nat),
            scope_exists(old(self).scopes@, scope),
        ensures
            final(self).wf(),
            old(self).leads_to(*final(self)),
            scope_exists(final(self).scopes@, r),
            chain(final(self).scopes@, r) == chain(old(self).scopes@, scope) + stmts_bind(
                *m,
                ids@,
                limit as nat,
                execution,
                ids@.len(),
            ),
            final(self).seen() == old(self).seen().add(
                stmts_places(
                    *m,
                    ids@,
                    limit as nat,
                    chain(old(self).scopes@, scope),
                    execution,
                    ids@.len(),
                ),
            ),
        decreases limit, 0nat,
    {
        let ghost env = chain(self.scopes@, scope);
        let mut current = scope;
        let mut i: usize = 0;
        proof {
            assert(env + Seq::<Binding>::empty() =~= env);
            assert(self.seen() =~= self.seen().add(Seq::empty()));
        }
        while i < ids.len()
            invariant
                i <= ids@.len(),
                self.wf(),
                m.wf(),
                limit <= m.stmts@.len(),
                stmts_below(ids@, limit as nat),
                old(self).leads_to(*self),
                scope_exists(self.scopes@, current),
                chain(self.scopes@, current) == env + stmts_bind(
                    *m,
                    ids@,
                    limit as nat,
                    execution,
                    i as nat,
                ),
                self.seen() == old(self).seen().add(
                    stmts_places(*m, ids@, limit as nat, env, execution, i as nat),
                ),
            decreases ids@.len() - i,
        {
            let ghost before = *self;
            let ghost bound = stmts_bind(*m, ids@, limit as nat, execution, i as nat);
            current = self.walk_stmt(m, ids[i], current, execution);
            proof {
                leads_on(*old(self), before, *self);
                let more = stmt_binds(*m, ids@[i as int], execution);
                assert(env + bound + more =~= env + (bound + more));
                assert(self.seen() =~= old(self).seen().add(
                    stmts_places(*m, ids@, limit as nat, env, execution, (i + 1) as nat),
                ));
            }
            i = i + 1;
        }
        current
    }

    /// Records what the bodies of the functions in statement `id` see.
    fn walk_function(&mut self, m: &Module, id: StmtId, scope: Option<usize>)
        requires
            old(self).wf(),
            m.wf(),
            id.0 < m.stmts@.len(),
            scope_exists(old(self).scopes@, scope),
        ensures
            final(self).wf(),
            old(self).leads_to(*final(self)),
            final(self).seen() == old(self).seen().add(
                function_places(*m, id, chain(old(self).scopes@, scope)),
            ),
        decreases id.0, 1nat,
    {
        proof {
            assert(crate::def::stmt_below(*m, m.stmts@[id.0 as int], id.0 as nat));
        }
        let ghost env = chain(self.scopes@, scope);
        let ghost begin = *self;
        match &m.stmts[id.0] {
            Stmt::Def { func, stmts } => {
                let execution = ExecutionScope::Def(id);
                let inner = self.bind_params(m, &func.params, scope, execution);
                let ghost first = *self;
                let end = self.walk_stmts(m, stmts, id.0, inner, execution);
                let ghost second = *self;
                self.record(ScopeHirId::Def(id), end);
                let ghost third = *self;
                proof {
                    leads_on(begin, first, second);
                    kept_scope(second, third, end);
                }
                self.walk_functions(m, stmts, id.0, end);
                proof {
                    leads_on(begin, third, *self);
                    assert(self.seen() =~= begin.seen().add(function_places(*m, id, env)));
                }
            },
            Stmt::If { test: _, if_stmts, elif_or_else_stmts } => {
                self.walk_functions(m, if_stmts, id.0, scope);
                let ghost first = *self;
                proof {
                    kept_scope(begin, first, scope);
                }
                match elif_or_else_stmts {
                    Some(ElseBranch::Elif(inner)) => {
                        self.walk_function(m, *inner, scope);
                        proof {
                            leads_on(begin, first, *self);
                        }
                    },
                    Some(ElseBranch::Else(stmts)) => {
                        self.walk_functions(m, stmts, id.0, scope);
                        proof {
                            leads_on(begin, first, *self);
                        }
                    },
                    None => {},
                }
                proof {
                    assert(self.seen() =~= begin.seen().add(function_places(*m, id, env)));
                }
            },
            Stmt::For { iterable: _, targets: _, stmts } => {
                self.walk_functions(m, stmts, id.0, scope);
            },
            _ => {
                proof {
                    assert(self.seen() =~= begin.seen().add(Seq::empty()));
                }
            },
        }
    }

    /// Records what the bodies of the functions in the statements `ids`, all
    /// below `limit`, see.
    fn walk_functions(&mut self, m: &Module, ids: &Vec<StmtId>, limit: usize, scope: Option<usize>)
        requires
            old(self).wf(),
            m.wf(),
            limit <= m.stmts@.len(),
            stmts_below(ids@, limit as nat),
            scope_exists(old(self).scopes@, scope),
        ensures
            final(self).wf(),
            old(self).leads_to(*final(self)),
            final(self).seen() == old(self).seen().add(
                functions_places(
                    *m,
                    ids@,
                    limit as nat,
                    chain(old(self).scopes@, scope),
                    ids@.len(),
                ),
            ),
        decreases limit, 0nat,
    {
        let ghost env = chain(self.scopes@, scope);
        let mut i: usize = 0;
        proof {
            assert(self.seen() =~= self.seen().add(Seq::empty()));
        }
        while i < ids.len()
            invariant
                i <= ids@.len(),
                self.wf(),
                m.wf(),
                limit <= m.stmts@.len(),
                stmts_below(ids@, limit as nat),
                old(self).wf(),
                old(self).leads_to(*self),
                scope_exists(old(self).scopes@, scope),
                env == chain(old(self).scopes@, scope),
                self.seen() == old(self).seen().add(
                    functions_places(*m, ids@, limit as nat, env, i as nat),
                ),
            decreases ids@.len() - i,
        {
            let ghost before = *self;
            proof {
                kept_scope(*old(self), *self, scope);
            }
            self.walk_function(m, ids[i], scope);
            proof {
                leads_on(*old(self), before, *self);
                assert(self.seen() =~= old(self).seen().add(
                    functions_places(*m, ids@, limit as nat, env, (i + 1) as nat),
                ));
            }
            i = i + 1;
        }
    }

    /// The scope of a place, if it was recorded; the first record counts.
    pub fn scope_for_hir_id(&self, place: ScopeHirId) -> (r: Option<Option<usize>>)
        requires
            self.wf(),
        ensures
            match r {
                Some(scope) => {
                    &&& scope_exists(self.scopes@, scope)
                    &&& exists|k: int| #[trigger] self.is_first(place, k) && self.places@[k].1 == scope
                },
                None => forall|k: int|
                    0 <= k < self.places@.len() ==> (#[trigger] self.places@[k]).0 != place,
            },
    {
        let mut k: usize = 0;
        while k < self.places.len()
            invariant
                k <= self.places@.len(),
                self.wf(),
                forall|j: int| 0 <= j < k ==> (#[trigger] self.places@[j]).0 != place,
            decreases self.places@.len() - k,
        {
            if self.places[k].0 == place {
                proof {
                    assert(self.is_first(place, k as int));
                }
                return Some(self.places[k].1);
            }
            k = k + 1;
        }
        None
    }
}

/// The scopes of a module.
pub fn module_scopes(m: &Module) -> (s: Scopes)
    requires
        m.wf(),
    ensures
        s.wf(),
        s.seen() == module_places(*m),
{
    let mut s = Scopes { scopes: Vec::new(), places: Vec::new() };
    proof {
        assert(s.seen() =~= Seq::empty());
    }
    let limit = m.stmts.len();
    let end = s.walk_stmts(m, &m.top_level, limit, None, ExecutionScope::Module);
    s.record(ScopeHirId::Module, end);
    proof {
        assert(Seq::<Binding>::empty() + module_binds(*m) =~= module_binds(*m));
    }
    s.walk_functions(m, &m.top_level, limit, end);
    proof {
        assert(s.seen() =~= module_places(*m));
    }
    s
}

} // verus!
