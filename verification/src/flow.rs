//! The control flow of a module: in which order its parts are evaluated, where
//! the flow splits and meets again, and where it ends.
//!
//! The flow is a list of steps over states: what is reachable, and which bindings
//! reach it. States are put aside on a stack and taken back.

use vstd::prelude::*;

use crate::def::{
    all_below, clauses_below, expr_below, stmt_below, stmts_below, CompClause, ElseBranch, Expr,
    ExprId, Module, Stmt, StmtId,
};
use crate::ops::{BinaryOp, LogicOp};
use crate::scope::{plain_exprs, plain_parts};

verus! {

/// What decides where the flow goes.
#[derive(Clone, Copy, Debug, PartialEq, Eq, Structural)]
pub enum Predicate {
    /// Each occurrence is independent of the others.
    Branch,
    /// The truth of a value selects an arm.
    Truthiness(ExprId),
    /// A call goes on unless it never returns.
    CallReturns(ExprId),
}

/// A step of the flow.
#[derive(Clone, Copy, Debug, PartialEq, Eq, Structural)]
pub enum FlowOp {
    /// Notes whether a statement is reachable. If it never is, so many steps are
    /// left out.
    Reach { stmt: StmtId, steps: usize },
    /// Notes the bindings that reach a name.
    Use(ExprId),
    /// Binds a name anew.
    Assign { target: ExprId, source: ExprId },
    /// Splits the flow: goes on where the predicate holds, and puts the state where
    /// it does not hold aside.
    Branch(Predicate),
    /// Exchanges the state with the one that was put aside last.
    Swap,
    /// Joins the state with the one that was put aside last.
    Merge,
    /// Goes on only where a predicate holds.
    Restrict(Predicate),
    /// Ends the flow.
    Stop,
    /// Puts the state aside, and starts with a new one.
    Enter,
    /// Puts a copy of the state aside.
    Keep,
    /// Drops the state, and takes back the one that was put aside last.
    Leave,
    /// Forgets the bindings, as at the head of a loop.
    Loop,
}

/// Whether an operator is a connective, and which.
pub open spec fn logic_of(op: Option<BinaryOp>) -> Option<LogicOp> {
    match op {
        Some(BinaryOp::Logic(op)) => Some(op),
        _ => None,
    }
}

/// The flow of an expression below `limit`.
pub open spec fn part_ops(m: Module, id: ExprId, limit: nat) -> Seq<FlowOp>
    decreases limit, 1nat, 0nat,
{
    if id.0 < limit {
        expr_ops(m, id)
    } else {
        seq![]
    }
}

/// The flow of the first of some expressions below `limit`.
pub open spec fn exprs_ops(m: Module, ids: Seq<ExprId>, limit: nat, n: nat) -> Seq<FlowOp>
    decreases limit, 2nat, n,
{
    if n == 0 {
        seq![]
    } else {
        exprs_ops(m, ids, limit, (n - 1) as nat) + part_ops(m, ids[n - 1], limit)
    }
}

/// The flow of an assignment to an expression below `limit`.
pub open spec fn target_ops(m: Module, id: ExprId, source: ExprId, limit: nat) -> Seq<FlowOp>
    decreases limit, 3nat, 0nat,
{
    if id.0 < limit {
        assign_ops(m, id, source)
    } else {
        seq![]
    }
}

/// The flow of assignments to the first of some expressions below `limit`.
pub open spec fn targets_ops(
    m: Module,
    ids: Seq<ExprId>,
    source: ExprId,
    limit: nat,
    n: nat,
) -> Seq<FlowOp>
    decreases limit, 4nat, n,
{
    if n == 0 {
        seq![]
    } else {
        targets_ops(m, ids, source, limit, (n - 1) as nat) + target_ops(
            m,
            ids[n - 1],
            source,
            limit,
        )
    }
}

/// The flow of an assignment to an expression.
pub open spec fn assign_ops(m: Module, id: ExprId, source: ExprId) -> Seq<FlowOp>
    decreases id.0, 5nat, 0nat,
{
    let e = m.exprs@[id.0 as int];
    match e {
        Expr::Name { name: _ } => seq![FlowOp::Assign { target: id, source }],
        Expr::Paren { expr } => target_ops(m, expr, source, id.0 as nat),
        Expr::Tuple { exprs } => targets_ops(m, exprs@, source, id.0 as nat, exprs@.len()),
        Expr::List { exprs } => targets_ops(m, exprs@, source, id.0 as nat, exprs@.len()),
        e => exprs_ops(m, plain_parts(e), id.0 as nat, plain_parts(e).len()),
    }
}

/// Whether one of the first clauses is a loop.
pub open spec fn has_loop(clauses: Seq<CompClause>, n: int) -> bool {
    exists|k: int| 0 <= k < n && #[trigger] clauses[k] is For
}

/// The flow of the first clauses of a comprehension. What follows may be skipped
/// once the first iterable is evaluated.
pub open spec fn clauses_ops(m: Module, clauses: Seq<CompClause>, limit: nat, n: nat) -> Seq<FlowOp>
    decreases limit, 5nat, n,
{
    if n == 0 {
        seq![]
    } else {
        clauses_ops(m, clauses, limit, (n - 1) as nat) + match clauses[n - 1] {
            CompClause::For { iterable, targets } => part_ops(m, iterable, limit) + (if has_loop(
                clauses,
                n - 1,
            ) {
                seq![]
            } else {
                seq![FlowOp::Branch(Predicate::Branch)]
            }) + targets_ops(m, targets@, iterable, limit, targets@.len()),
            CompClause::If { test } => part_ops(m, test, limit),
        }
    }
}

/// The flow of all clauses of a comprehension. A state is put aside in any case.
pub open spec fn skipped_ops(m: Module, clauses: Seq<CompClause>, limit: nat) -> Seq<FlowOp>
    decreases limit, 6nat, 0nat,
{
    clauses_ops(m, clauses, limit, clauses.len()) + if has_loop(clauses, clauses.len() as int) {
        seq![]
    } else {
        seq![FlowOp::Keep]
    }
}

/// The flow of an expression.
pub open spec fn expr_ops(m: Module, id: ExprId) -> Seq<FlowOp>
    decreases id.0, 7nat, 0nat,
{
    let limit = id.0 as nat;
    let e = m.exprs@[id.0 as int];
    match e {
        Expr::Name { name: _ } => seq![FlowOp::Use(id)],
        Expr::If { if_expr, test, else_expr } => part_ops(m, test, limit) + seq![
            FlowOp::Branch(Predicate::Truthiness(test)),
        ] + part_ops(m, if_expr, limit) + seq![FlowOp::Swap] + part_ops(m, else_expr, limit)
            + seq![FlowOp::Merge],
        Expr::Binary { lhs, rhs, op } => match logic_of(op) {
            Some(logic) => part_ops(m, lhs, limit) + seq![
                FlowOp::Branch(Predicate::Truthiness(lhs)),
            ] + (if logic == LogicOp::Or {
                seq![FlowOp::Swap]
            } else {
                seq![]
            }) + part_ops(m, rhs, limit) + seq![FlowOp::Merge],
            None => part_ops(m, lhs, limit) + part_ops(m, rhs, limit),
        },
        Expr::Lambda { func: _, body } => seq![FlowOp::Enter] + part_ops(m, body, limit) + seq![
            FlowOp::Leave,
        ],
        Expr::ListComp { expr, comp_clauses } => skipped_ops(m, comp_clauses@, limit) + part_ops(
            m,
            expr,
            limit,
        ) + seq![FlowOp::Merge],
        Expr::DictComp { entry, comp_clauses } => skipped_ops(m, comp_clauses@, limit) + part_ops(
            m,
            entry.key,
            limit,
        ) + part_ops(m, entry.value, limit) + seq![FlowOp::Merge],
        Expr::Call { callee: _, args: _ } => exprs_ops(
            m,
            plain_parts(e),
            limit,
            plain_parts(e).len(),
        ) + seq![FlowOp::Restrict(Predicate::CallReturns(id))],
        e => exprs_ops(m, plain_parts(e), limit, plain_parts(e).len()),
    }
}

/// The flow of the first of some statements below `limit`.
pub open spec fn stmts_ops(m: Module, ids: Seq<StmtId>, limit: nat, n: nat) -> Seq<FlowOp>
    decreases limit, 0nat, n,
{
    if n == 0 {
        seq![]
    } else {
        stmts_ops(m, ids, limit, (n - 1) as nat) + if ids[n - 1].0 < limit {
            let inner = stmt_ops(m, ids[n - 1]);
            seq![FlowOp::Reach { stmt: ids[n - 1], steps: inner.len() as usize }] + inner
        } else {
            seq![]
        }
    }
}

/// The flow of a statement.
pub open spec fn stmt_ops(m: Module, id: StmtId) -> Seq<FlowOp>
    decreases id.0, 1nat, 0nat,
{
    let limit = id.0 as nat;
    let exprs = m.exprs@.len();
    match m.stmts@[id.0 as int] {
        Stmt::Assign { lhs, rhs, op: _, type_ref: _ } => part_ops(m, rhs, exprs) + target_ops(
            m,
            lhs,
            rhs,
            exprs,
        ),
        Stmt::Def { func: _, stmts } => seq![FlowOp::Enter] + stmts_ops(
            m,
            stmts@,
            limit,
            stmts@.len(),
        ) + seq![FlowOp::Leave],
        Stmt::If { test, if_stmts, elif_or_else_stmts } => part_ops(m, test, exprs) + seq![
            FlowOp::Branch(Predicate::Branch),
        ] + stmts_ops(m, if_stmts@, limit, if_stmts@.len()) + seq![FlowOp::Swap] + (
        match elif_or_else_stmts {
            Some(ElseBranch::Elif(stmt)) => stmts_ops(m, seq![stmt], limit, 1),
            Some(ElseBranch::Else(stmts)) => stmts_ops(m, stmts@, limit, stmts@.len()),
            None => seq![],
        }) + seq![FlowOp::Merge],
        Stmt::Return { expr } => (match expr {
            Some(expr) => part_ops(m, expr, exprs),
            None => seq![],
        }) + seq![FlowOp::Stop],
        Stmt::Expr { expr } => part_ops(m, expr, exprs),
        Stmt::For { iterable, targets, stmts } => part_ops(m, iterable, exprs) + targets_ops(
            m,
            targets@,
            iterable,
            exprs,
            targets@.len(),
        ) + seq![FlowOp::Loop, FlowOp::Keep] + stmts_ops(m, stmts@, limit, stmts@.len()) + seq![
            FlowOp::Leave,
        ],
        Stmt::Break => seq![FlowOp::Stop],
        Stmt::Continue => seq![FlowOp::Stop],
        Stmt::Pass => seq![],
        Stmt::Load { load_stmt: _, items: _ } => seq![],
    }
}

/// The flow of a module.
pub open spec fn module_ops(m: Module) -> Seq<FlowOp> {
    stmts_ops(m, m.top_level@, m.stmts@.len(), m.top_level@.len())
}

/// Adds a step.
fn step(out: &mut Vec<FlowOp>, op: FlowOp)
    ensures
        final(out)@ == old(out)@ + seq![op],
{
    let ghost before = out@;
    out.push(op);
    proof {
        assert(out@ =~= before + seq![op]);
    }
}

/// Adds the flow of an expression.
pub fn flow_expr(m: &Module, id: ExprId, out: &mut Vec<FlowOp>)
    requires
        m.wf(),
        id.0 < m.exprs@.len(),
    ensures
        final(out)@ == old(out)@ + expr_ops(*m, id),
    decreases id.0, 7nat,
{
    let ghost start = out@;
    let e = &m.exprs[id.0];
    proof {
        assert(expr_below(m.params@, m.exprs@[id.0 as int], id.0 as nat));
    }
    match e {
        Expr::Name { name: _ } => {
            step(out, FlowOp::Use(id));
        },
        Expr::If { if_expr, test, else_expr } => {
            flow_expr(m, *test, out);
            step(out, FlowOp::Branch(Predicate::Truthiness(*test)));
            flow_expr(m, *if_expr, out);
            step(out, FlowOp::Swap);
            flow_expr(m, *else_expr, out);
            step(out, FlowOp::Merge);
        },
        Expr::Binary { lhs, rhs, op } => {
            flow_expr(m, *lhs, out);
            match op {
                Some(BinaryOp::Logic(logic)) => {
                    step(out, FlowOp::Branch(Predicate::Truthiness(*lhs)));
                    if *logic == LogicOp::Or {
                        step(out, FlowOp::Swap);
                    }
                    flow_expr(m, *rhs, out);
                    step(out, FlowOp::Merge);
                },
                _ => {
                    flow_expr(m, *rhs, out);
                },
            }
        },
        Expr::Lambda { func: _, body } => {
            step(out, FlowOp::Enter);
            flow_expr(m, *body, out);
            step(out, FlowOp::Leave);
        },
        Expr::ListComp { expr, comp_clauses } => {
            flow_clauses(m, comp_clauses, id.0, out);
            flow_expr(m, *expr, out);
            step(out, FlowOp::Merge);
        },
        Expr::DictComp { entry, comp_clauses } => {
            flow_clauses(m, comp_clauses, id.0, out);
            flow_expr(m, entry.key, out);
            flow_expr(m, entry.value, out);
            step(out, FlowOp::Merge);
        },
        Expr::Call { callee: _, args: _ } => {
            let parts = plain_exprs(m, e, id.0);
            flow_exprs(m, &parts, id.0, out);
            step(out, FlowOp::Restrict(Predicate::CallReturns(id)));
        },
        e => {
            let parts = plain_exprs(m, e, id.0);
            flow_exprs(m, &parts, id.0, out);
        },
    }
    proof {
        assert(out@ =~= start + expr_ops(*m, id));
    }
}

/// Adds the flow of expressions below `limit`.
fn flow_exprs(m: &Module, ids: &Vec<ExprId>, limit: usize, out: &mut Vec<FlowOp>)
    requires
        m.wf(),
        limit <= m.exprs@.len(),
        all_below(ids@, limit as nat),
    ensures
        final(out)@ == old(out)@ + exprs_ops(*m, ids@, limit as nat, ids@.len()),
    decreases limit, 2nat,
{
    let ghost start = out@;
    let mut i: usize = 0;
    proof {
        assert(start =~= start + exprs_ops(*m, ids@, limit as nat, 0));
    }
    while i < ids.len()
        invariant
            i <= ids@.len(),
            m.wf(),
            limit <= m.exprs@.len(),
            all_below(ids@, limit as nat),
            out@ == start + exprs_ops(*m, ids@, limit as nat, i as nat),
        decreases ids@.len() - i,
    {
        flow_expr(m, ids[i], out);
        proof {
            assert(part_ops(*m, ids@[i as int], limit as nat) == expr_ops(*m, ids@[i as int]));
            assert(out@ =~= start + exprs_ops(*m, ids@, limit as nat, (i + 1) as nat));
        }
        i = i + 1;
    }
}

/// Adds the flow of an assignment to an expression.
pub fn flow_assign(m: &Module, id: ExprId, source: ExprId, out: &mut Vec<FlowOp>)
    requires
        m.wf(),
        id.0 < m.exprs@.len(),
    ensures
        final(out)@ == old(out)@ + assign_ops(*m, id, source),
    decreases id.0, 5nat,
{
    let ghost start = out@;
    let e = &m.exprs[id.0];
    proof {
        assert(expr_below(m.params@, m.exprs@[id.0 as int], id.0 as nat));
    }
    match e {
        Expr::Name { name: _ } => {
            step(out, FlowOp::Assign { target: id, source });
        },
        Expr::Paren { expr } => {
            flow_assign(m, *expr, source, out);
        },
        Expr::Tuple { exprs } => {
            flow_targets(m, exprs, source, id.0, out);
        },
        Expr::List { exprs } => {
            flow_targets(m, exprs, source, id.0, out);
        },
        e => {
            let has_parts = match e {
                Expr::Lambda { .. } => false,
                Expr::ListComp { .. } => false,
                Expr::DictComp { .. } => false,
                _ => true,
            };
            if has_parts {
                let parts = plain_exprs(m, e, id.0);
                flow_exprs(m, &parts, id.0, out);
            } else {
                proof {
                    assert(exprs_ops(*m, plain_parts(*e), id.0 as nat, 0) =~= seq![]);
                }
            }
        },
    }
    proof {
        assert(out@ =~= start + assign_ops(*m, id, source));
    }
}

/// Adds the flow of assignments to expressions below `limit`.
fn flow_targets(
    m: &Module,
    ids: &Vec<ExprId>,
    source: ExprId,
    limit: usize,
    out: &mut Vec<FlowOp>,
)
    requires
        m.wf(),
        limit <= m.exprs@.len(),
        all_below(ids@, limit as nat),
    ensures
        final(out)@ == old(out)@ + targets_ops(*m, ids@, source, limit as nat, ids@.len()),
    decreases limit, 4nat,
{
    let ghost start = out@;
    let mut i: usize = 0;
    proof {
        assert(start =~= start + targets_ops(*m, ids@, source, limit as nat, 0));
    }
    while i < ids.len()
        invariant
            i <= ids@.len(),
            m.wf(),
            limit <= m.exprs@.len(),
            all_below(ids@, limit as nat),
            out@ == start + targets_ops(*m, ids@, source, limit as nat, i as nat),
        decreases ids@.len() - i,
    {
        flow_assign(m, ids[i], source, out);
        proof {
            assert(target_ops(*m, ids@[i as int], source, limit as nat) == assign_ops(
                *m,
                ids@[i as int],
                source,
            ));
            assert(out@ =~= start + targets_ops(*m, ids@, source, limit as nat, (i + 1) as nat));
        }
        i = i + 1;
    }
}

/// Adds the flow of the clauses of a comprehension.
fn flow_clauses(m: &Module, clauses: &Vec<CompClause>, limit: usize, out: &mut Vec<FlowOp>)
    requires
        m.wf(),
        limit <= m.exprs@.len(),
        clauses_below(clauses@, limit as nat),
    ensures
        final(out)@ == old(out)@ + skipped_ops(*m, clauses@, limit as nat),
    decreases limit, 6nat,
{
    let ghost start = out@;
    let mut branched = false;
    let mut i: usize = 0;
    proof {
        assert(start =~= start + clauses_ops(*m, clauses@, limit as nat, 0));
    }
    while i < clauses.len()
        invariant
            i <= clauses@.len(),
            m.wf(),
            limit <= m.exprs@.len(),
            clauses_below(clauses@, limit as nat),
            branched == has_loop(clauses@, i as int),
            out@ == start + clauses_ops(*m, clauses@, limit as nat, i as nat),
        decreases clauses@.len() - i,
    {
        let ghost before = branched;
        match &clauses[i] {
            CompClause::For { iterable, targets } => {
                flow_expr(m, *iterable, out);
                if !branched {
                    step(out, FlowOp::Branch(Predicate::Branch));
                    branched = true;
                }
                flow_targets(m, targets, *iterable, limit, out);
                proof {
                    assert(clauses@[i as int] is For);
                    assert(part_ops(*m, *iterable, limit as nat) == expr_ops(*m, *iterable));
                }
            },
            CompClause::If { test } => {
                flow_expr(m, *test, out);
                proof {
                    assert(part_ops(*m, *test, limit as nat) == expr_ops(*m, *test));
                }
            },
        }
        proof {
            assert(before == has_loop(clauses@, i as int));
            if before {
                let k = choose|k: int| 0 <= k < i && #[trigger] clauses@[k] is For;
                assert(clauses@[k] is For);
            }
            if has_loop(clauses@, i + 1) {
                let k = choose|k: int| 0 <= k < i + 1 && #[trigger] clauses@[k] is For;
                if k < i {
                    assert(has_loop(clauses@, i as int));
                }
            }
            assert(out@ =~= start + clauses_ops(*m, clauses@, limit as nat, (i + 1) as nat));
        }
        i = i + 1;
    }
    if !branched {
        step(out, FlowOp::Keep);
    }
    proof {
        assert(out@ =~= start + skipped_ops(*m, clauses@, limit as nat));
    }
}

/// Adds the flow of statements below `limit`.
fn flow_stmts(m: &Module, ids: &Vec<StmtId>, limit: usize, out: &mut Vec<FlowOp>)
    requires
        m.wf(),
        limit <= m.stmts@.len(),
        stmts_below(ids@, limit as nat),
    ensures
        final(out)@ == old(out)@ + stmts_ops(*m, ids@, limit as nat, ids@.len()),
    decreases limit, 0nat,
{
    let ghost start = out@;
    let mut i: usize = 0;
    proof {
        assert(start =~= start + stmts_ops(*m, ids@, limit as nat, 0));
    }
    while i < ids.len()
        invariant
            i <= ids@.len(),
            m.wf(),
            limit <= m.stmts@.len(),
            stmts_below(ids@, limit as nat),
            out@ == start + stmts_ops(*m, ids@, limit as nat, i as nat),
        decreases ids@.len() - i,
    {
        let ghost before = out@;
        let mut inner: Vec<FlowOp> = Vec::new();
        flow_stmt(m, ids[i], &mut inner);
        proof {
            assert(inner@ =~= stmt_ops(*m, ids@[i as int]));
        }
        let ghost steps = inner@;
        step(out, FlowOp::Reach { stmt: ids[i], steps: inner.len() });
        out.append(&mut inner);
        proof {
            assert(out@ =~= start + stmts_ops(*m, ids@, limit as nat, (i + 1) as nat));
        }
        i = i + 1;
    }
}

/// Adds the flow of a statement.
pub fn flow_stmt(m: &Module, id: StmtId, out: &mut Vec<FlowOp>)
    requires
        m.wf(),
        id.0 < m.stmts@.len(),
    ensures
        final(out)@ == old(out)@ + stmt_ops(*m, id),
    decreases id.0, 1nat,
{
    let ghost start = out@;
    proof {
        assert(stmt_below(*m, m.stmts@[id.0 as int], id.0 as nat));
    }
    match &m.stmts[id.0] {
        Stmt::Assign { lhs, rhs, op: _, type_ref: _ } => {
            flow_expr(m, *rhs, out);
            flow_assign(m, *lhs, *rhs, out);
        },
        Stmt::Def { func: _, stmts } => {
            step(out, FlowOp::Enter);
            flow_stmts(m, stmts, id.0, out);
            step(out, FlowOp::Leave);
        },
        Stmt::If { test, if_stmts, elif_or_else_stmts } => {
            flow_expr(m, *test, out);
            step(out, FlowOp::Branch(Predicate::Branch));
            flow_stmts(m, if_stmts, id.0, out);
            step(out, FlowOp::Swap);
            match elif_or_else_stmts {
                Some(ElseBranch::Elif(stmt)) => {
                    let mut stmts: Vec<StmtId> = Vec::new();
                    stmts.push(*stmt);
                    proof {
                        assert(stmts@ =~= seq![*stmt]);
                    }
                    flow_stmts(m, &stmts, id.0, out);
                },
                Some(ElseBranch::Else(stmts)) => {
                    flow_stmts(m, stmts, id.0, out);
                },
                None => {},
            }
            step(out, FlowOp::Merge);
        },
        Stmt::Return { expr } => {
            match expr {
                Some(expr) => {
                    flow_expr(m, *expr, out);
                },
                None => {},
            }
            step(out, FlowOp::Stop);
        },
        Stmt::Expr { expr } => {
            flow_expr(m, *expr, out);
        },
        Stmt::For { iterable, targets, stmts } => {
            flow_expr(m, *iterable, out);
            flow_targets(m, targets, *iterable, m.exprs.len(), out);
            step(out, FlowOp::Loop);
            step(out, FlowOp::Keep);
            flow_stmts(m, stmts, id.0, out);
            step(out, FlowOp::Leave);
        },
        Stmt::Break => {
            step(out, FlowOp::Stop);
        },
        Stmt::Continue => {
            step(out, FlowOp::Stop);
        },
        Stmt::Pass => {},
        Stmt::Load { load_stmt: _, items: _ } => {},
    }
    proof {
        assert(out@ =~= start + stmt_ops(*m, id));
    }
}

/// The flow of a module.
pub fn flow_index(m: &Module) -> (ops: Vec<FlowOp>)
    requires
        m.wf(),
    ensures
        ops@ == module_ops(*m),
{
    let mut ops: Vec<FlowOp> = Vec::new();
    flow_stmts(m, &m.top_level, m.stmts.len(), &mut ops);
    proof {
        assert(ops@ =~= module_ops(*m));
    }
    ops
}

/// How many states more are put aside after a step.
pub open spec fn change(op: FlowOp) -> int {
    match op {
        FlowOp::Branch(_) | FlowOp::Enter | FlowOp::Keep => 1,
        FlowOp::Merge | FlowOp::Leave => -1,
        _ => 0,
    }
}

/// How many states must have been put aside before a step.
pub open spec fn need(op: FlowOp) -> int {
    match op {
        FlowOp::Merge | FlowOp::Leave | FlowOp::Swap => 1,
        _ => 0,
    }
}

/// How many states more are put aside after the first steps.
pub open spec fn depth(ops: Seq<FlowOp>, n: int) -> int
    decreases n,
{
    if n <= 0 {
        0
    } else {
        depth(ops, n - 1) + change(ops[n - 1])
    }
}

/// Whether steps lead from so many states that are put aside to so many, and take
/// none back that was not put aside.
pub open spec fn goes(ops: Seq<FlowOp>, from: int, to: int) -> bool {
    &&& from + depth(ops, ops.len() as int) == to
    &&& forall|k: int|
        0 <= k < ops.len() ==> from + depth(ops, k) >= need(#[trigger] ops[k])
}

/// The first steps do not depend on those that follow.
proof fn depth_of_start(a: Seq<FlowOp>, b: Seq<FlowOp>, k: int)
    requires
        0 <= k <= a.len(),
    ensures
        depth(a + b, k) == depth(a, k),
    decreases k,
{
    if k > 0 {
        depth_of_start(a, b, k - 1);
        assert((a + b)[k - 1] == a[k - 1]);
    }
}

/// The depth behind some steps adds to that of those that follow.
proof fn depth_of_rest(a: Seq<FlowOp>, b: Seq<FlowOp>, k: int)
    requires
        0 <= k <= b.len(),
    ensures
        depth(a + b, a.len() + k) == depth(a, a.len() as int) + depth(b, k),
    decreases k,
{
    if k == 0 {
        depth_of_start(a, b, a.len() as int);
    } else {
        depth_of_rest(a, b, k - 1);
        assert((a + b)[a.len() + k - 1] == b[k - 1]);
    }
}

/// Steps that go on where others end go all the way.
proof fn goes_on(a: Seq<FlowOp>, b: Seq<FlowOp>, from: int, mid: int, to: int)
    requires
        goes(a, from, mid),
        goes(b, mid, to),
    ensures
        goes(a + b, from, to),
{
    let ops = a + b;
    depth_of_rest(a, b, b.len() as int);
    assert forall|k: int| 0 <= k < ops.len() implies from + depth(ops, k) >= need(
        #[trigger] ops[k],
    ) by {
        if k < a.len() {
            depth_of_start(a, b, k);
            assert(ops[k] == a[k]);
        } else {
            depth_of_rest(a, b, k - a.len());
            assert(ops[k] == b[k - a.len()]);
        }
    }
}

/// What needs nothing that was put aside before can go on from anywhere.
proof fn goes_above(ops: Seq<FlowOp>, from: int)
    requires
        goes(ops, 0, 0),
        from >= 0,
    ensures
        goes(ops, from, from),
{
    assert forall|k: int| 0 <= k < ops.len() implies from + depth(ops, k) >= need(
        #[trigger] ops[k],
    ) by {
        assert(depth(ops, k) >= need(ops[k]));
    }
}

/// A single step.
proof fn one_step(op: FlowOp, from: int)
    requires
        from >= need(op),
    ensures
        goes(seq![op], from, from + change(op)),
{
    let ops = seq![op];
    assert(depth(ops, 1) == depth(ops, 0) + change(ops[0]));
    assert forall|k: int| 0 <= k < ops.len() implies from + depth(ops, k) >= need(
        #[trigger] ops[k],
    ) by {
        assert(k == 0);
    }
}

/// The flow of an expression takes back exactly what it puts aside.
pub proof fn expr_is_balanced(m: Module, id: ExprId)
    ensures
        goes(expr_ops(m, id), 0, 0),
    decreases id.0, 7nat, 0nat,
{
    let limit = id.0 as nat;
    let e = m.exprs@[id.0 as int];
    match e {
        Expr::Name { name: _ } => {
            one_step(FlowOp::Use(id), 0);
        },
        Expr::If { if_expr, test, else_expr } => {
            let t = part_ops(m, test, limit);
            let a = part_ops(m, if_expr, limit);
            let b = part_ops(m, else_expr, limit);
            let branch = FlowOp::Branch(Predicate::Truthiness(test));
            part_is_balanced(m, test, limit);
            part_is_balanced(m, if_expr, limit);
            part_is_balanced(m, else_expr, limit);
            goes_above(a, 1);
            goes_above(b, 1);
            one_step(branch, 0);
            one_step(FlowOp::Swap, 1);
            one_step(FlowOp::Merge, 1);
            goes_on(t, seq![branch], 0, 0, 1);
            goes_on(t + seq![branch], a, 0, 1, 1);
            goes_on(t + seq![branch] + a, seq![FlowOp::Swap], 0, 1, 1);
            goes_on(t + seq![branch] + a + seq![FlowOp::Swap], b, 0, 1, 1);
            goes_on(t + seq![branch] + a + seq![FlowOp::Swap] + b, seq![FlowOp::Merge], 0, 1, 0);
        },
        Expr::Binary { lhs, rhs, op } => {
            let a = part_ops(m, lhs, limit);
            let b = part_ops(m, rhs, limit);
            part_is_balanced(m, lhs, limit);
            part_is_balanced(m, rhs, limit);
            match logic_of(op) {
                Some(logic) => {
                    let branch = FlowOp::Branch(Predicate::Truthiness(lhs));
                    let swap = if logic == LogicOp::Or {
                        seq![FlowOp::Swap]
                    } else {
                        seq![]
                    };
                    one_step(branch, 0);
                    one_step(FlowOp::Swap, 1);
                    one_step(FlowOp::Merge, 1);
                    goes_above(b, 1);
                    assert(goes(swap, 1, 1));
                    goes_on(a, seq![branch], 0, 0, 1);
                    goes_on(a + seq![branch], swap, 0, 1, 1);
                    goes_on(a + seq![branch] + swap, b, 0, 1, 1);
                    goes_on(a + seq![branch] + swap + b, seq![FlowOp::Merge], 0, 1, 0);
                },
                None => {
                    goes_on(a, b, 0, 0, 0);
                },
            }
        },
        Expr::Lambda { func: _, body } => {
            let b = part_ops(m, body, limit);
            part_is_balanced(m, body, limit);
            goes_above(b, 1);
            one_step(FlowOp::Enter, 0);
            one_step(FlowOp::Leave, 1);
            goes_on(seq![FlowOp::Enter], b, 0, 1, 1);
            goes_on(seq![FlowOp::Enter] + b, seq![FlowOp::Leave], 0, 1, 0);
        },
        Expr::ListComp { expr, comp_clauses } => {
            let c = skipped_ops(m, comp_clauses@, limit);
            let a = part_ops(m, expr, limit);
            skipped_is_put_aside(m, comp_clauses@, limit);
            part_is_balanced(m, expr, limit);
            goes_above(a, 1);
            one_step(FlowOp::Merge, 1);
            goes_on(c, a, 0, 1, 1);
            goes_on(c + a, seq![FlowOp::Merge], 0, 1, 0);
        },
        Expr::DictComp { entry, comp_clauses } => {
            let c = skipped_ops(m, comp_clauses@, limit);
            let a = part_ops(m, entry.key, limit);
            let b = part_ops(m, entry.value, limit);
            skipped_is_put_aside(m, comp_clauses@, limit);
            part_is_balanced(m, entry.key, limit);
            part_is_balanced(m, entry.value, limit);
            goes_above(a, 1);
            goes_above(b, 1);
            one_step(FlowOp::Merge, 1);
            goes_on(c, a, 0, 1, 1);
            goes_on(c + a, b, 0, 1, 1);
            goes_on(c + a + b, seq![FlowOp::Merge], 0, 1, 0);
        },
        Expr::Call { callee: _, args: _ } => {
            let parts = plain_parts(e);
            let back = FlowOp::Restrict(Predicate::CallReturns(id));
            exprs_are_balanced(m, parts, limit, parts.len());
            one_step(back, 0);
            goes_on(exprs_ops(m, parts, limit, parts.len()), seq![back], 0, 0, 0);
        },
        e => {
            let parts = plain_parts(e);
            exprs_are_balanced(m, parts, limit, parts.len());
        },
    }
}

proof fn part_is_balanced(m: Module, id: ExprId, limit: nat)
    ensures
        goes(part_ops(m, id, limit), 0, 0),
    decreases limit, 1nat, 0nat,
{
    if id.0 < limit {
        expr_is_balanced(m, id);
    }
}

proof fn exprs_are_balanced(m: Module, ids: Seq<ExprId>, limit: nat, n: nat)
    ensures
        goes(exprs_ops(m, ids, limit, n), 0, 0),
    decreases limit, 2nat, n,
{
    if n > 0 {
        exprs_are_balanced(m, ids, limit, (n - 1) as nat);
        part_is_balanced(m, ids[n - 1], limit);
        goes_on(
            exprs_ops(m, ids, limit, (n - 1) as nat),
            part_ops(m, ids[n - 1], limit),
            0,
            0,
            0,
        );
    }
}

proof fn target_is_balanced(m: Module, id: ExprId, source: ExprId, limit: nat)
    ensures
        goes(target_ops(m, id, source, limit), 0, 0),
    decreases limit, 3nat, 0nat,
{
    if id.0 < limit {
        assign_is_balanced(m, id, source);
    }
}

proof fn targets_are_balanced(m: Module, ids: Seq<ExprId>, source: ExprId, limit: nat, n: nat)
    ensures
        goes(targets_ops(m, ids, source, limit, n), 0, 0),
    decreases limit, 4nat, n,
{
    if n > 0 {
        targets_are_balanced(m, ids, source, limit, (n - 1) as nat);
        target_is_balanced(m, ids[n - 1], source, limit);
        goes_on(
            targets_ops(m, ids, source, limit, (n - 1) as nat),
            target_ops(m, ids[n - 1], source, limit),
            0,
            0,
            0,
        );
    }
}

/// The flow of an assignment takes back exactly what it puts aside.
pub proof fn assign_is_balanced(m: Module, id: ExprId, source: ExprId)
    ensures
        goes(assign_ops(m, id, source), 0, 0),
    decreases id.0, 5nat, 0nat,
{
    let limit = id.0 as nat;
    let e = m.exprs@[id.0 as int];
    match e {
        Expr::Name { name: _ } => {
            one_step(FlowOp::Assign { target: id, source }, 0);
        },
        Expr::Paren { expr } => {
            target_is_balanced(m, expr, source, limit);
        },
        Expr::Tuple { exprs } => {
            targets_are_balanced(m, exprs@, source, limit, exprs@.len());
        },
        Expr::List { exprs } => {
            targets_are_balanced(m, exprs@, source, limit, exprs@.len());
        },
        e => {
            exprs_are_balanced(m, plain_parts(e), limit, plain_parts(e).len());
        },
    }
}

/// How many states the first clauses put aside: one, once there is a loop.
spec fn aside(clauses: Seq<CompClause>, n: int) -> int {
    if has_loop(clauses, n) {
        1
    } else {
        0
    }
}

proof fn clauses_put_aside(m: Module, clauses: Seq<CompClause>, limit: nat, n: nat)
    requires
        n <= clauses.len(),
    ensures
        goes(clauses_ops(m, clauses, limit, n), 0, aside(clauses, n as int)),
    decreases limit, 5nat, n,
{
    if n > 0 {
        let before = clauses_ops(m, clauses, limit, (n - 1) as nat);
        let d = aside(clauses, n - 1);
        clauses_put_aside(m, clauses, limit, (n - 1) as nat);
        if has_loop(clauses, n - 1) {
            let k = choose|k: int| 0 <= k < n - 1 && #[trigger] clauses[k] is For;
            assert(clauses[k] is For);
        }
        match clauses[n - 1] {
            CompClause::For { iterable, targets } => {
                assert(clauses[n - 1] is For);
                let a = part_ops(m, iterable, limit);
                let b = targets_ops(m, targets@, iterable, limit, targets@.len());
                let branch = if has_loop(clauses, n - 1) {
                    seq![]
                } else {
                    seq![FlowOp::Branch(Predicate::Branch)]
                };
                part_is_balanced(m, iterable, limit);
                targets_are_balanced(m, targets@, iterable, limit, targets@.len());
                goes_above(a, d);
                goes_above(b, 1);
                one_step(FlowOp::Branch(Predicate::Branch), 0);
                assert(goes(branch, d, 1));
                goes_on(a, branch, d, d, 1);
                goes_on(a + branch, b, d, 1, 1);
                goes_on(before, a + branch + b, 0, d, 1);
            },
            CompClause::If { test } => {
                if has_loop(clauses, n as int) {
                    let k = choose|k: int| 0 <= k < n && #[trigger] clauses[k] is For;
                    assert(k < n - 1);
                    assert(has_loop(clauses, n - 1));
                }
                part_is_balanced(m, test, limit);
                goes_above(part_ops(m, test, limit), d);
                goes_on(before, part_ops(m, test, limit), 0, d, d);
            },
        }
    }
}

proof fn skipped_is_put_aside(m: Module, clauses: Seq<CompClause>, limit: nat)
    ensures
        goes(skipped_ops(m, clauses, limit), 0, 1),
    decreases limit, 6nat, 0nat,
{
    let c = clauses_ops(m, clauses, limit, clauses.len());
    clauses_put_aside(m, clauses, limit, clauses.len());
    let keep = if has_loop(clauses, clauses.len() as int) {
        seq![]
    } else {
        seq![FlowOp::Keep]
    };
    one_step(FlowOp::Keep, 0);
    assert(goes(keep, aside(clauses, clauses.len() as int), 1));
    goes_on(c, keep, 0, aside(clauses, clauses.len() as int), 1);
}

proof fn stmts_are_balanced(m: Module, ids: Seq<StmtId>, limit: nat, n: nat)
    ensures
        goes(stmts_ops(m, ids, limit, n), 0, 0),
    decreases limit, 0nat, n,
{
    if n > 0 {
        let before = stmts_ops(m, ids, limit, (n - 1) as nat);
        stmts_are_balanced(m, ids, limit, (n - 1) as nat);
        if ids[n - 1].0 < limit {
            let inner = stmt_ops(m, ids[n - 1]);
            let reach = FlowOp::Reach { stmt: ids[n - 1], steps: inner.len() as usize };
            stmt_is_balanced(m, ids[n - 1]);
            one_step(reach, 0);
            goes_on(seq![reach], inner, 0, 0, 0);
            goes_on(before, seq![reach] + inner, 0, 0, 0);
        } else {
            goes_on(before, seq![], 0, 0, 0);
        }
    }
}

/// The flow of a statement takes back exactly what it puts aside, so it can be left
/// out.
pub proof fn stmt_is_balanced(m: Module, id: StmtId)
    ensures
        goes(stmt_ops(m, id), 0, 0),
    decreases id.0, 1nat, 0nat,
{
    let limit = id.0 as nat;
    let exprs = m.exprs@.len();
    match m.stmts@[id.0 as int] {
        Stmt::Assign { lhs, rhs, op: _, type_ref: _ } => {
            part_is_balanced(m, rhs, exprs);
            target_is_balanced(m, lhs, rhs, exprs);
            goes_on(part_ops(m, rhs, exprs), target_ops(m, lhs, rhs, exprs), 0, 0, 0);
        },
        Stmt::Def { func: _, stmts } => {
            let b = stmts_ops(m, stmts@, limit, stmts@.len());
            stmts_are_balanced(m, stmts@, limit, stmts@.len());
            goes_above(b, 1);
            one_step(FlowOp::Enter, 0);
            one_step(FlowOp::Leave, 1);
            goes_on(seq![FlowOp::Enter], b, 0, 1, 1);
            goes_on(seq![FlowOp::Enter] + b, seq![FlowOp::Leave], 0, 1, 0);
        },
        Stmt::If { test, if_stmts, elif_or_else_stmts } => {
            let t = part_ops(m, test, exprs);
            let branch = FlowOp::Branch(Predicate::Branch);
            let a = stmts_ops(m, if_stmts@, limit, if_stmts@.len());
            let b = match elif_or_else_stmts {
                Some(ElseBranch::Elif(stmt)) => stmts_ops(m, seq![stmt], limit, 1),
                Some(ElseBranch::Else(stmts)) => stmts_ops(m, stmts@, limit, stmts@.len()),
                None => seq![],
            };
            part_is_balanced(m, test, exprs);
            stmts_are_balanced(m, if_stmts@, limit, if_stmts@.len());
            match elif_or_else_stmts {
                Some(ElseBranch::Elif(stmt)) => {
                    stmts_are_balanced(m, seq![stmt], limit, 1);
                },
                Some(ElseBranch::Else(stmts)) => {
                    stmts_are_balanced(m, stmts@, limit, stmts@.len());
                },
                None => {},
            }
            goes_above(a, 1);
            goes_above(b, 1);
            one_step(branch, 0);
            one_step(FlowOp::Swap, 1);
            one_step(FlowOp::Merge, 1);
            goes_on(t, seq![branch], 0, 0, 1);
            goes_on(t + seq![branch], a, 0, 1, 1);
            goes_on(t + seq![branch] + a, seq![FlowOp::Swap], 0, 1, 1);
            goes_on(t + seq![branch] + a + seq![FlowOp::Swap], b, 0, 1, 1);
            goes_on(t + seq![branch] + a + seq![FlowOp::Swap] + b, seq![FlowOp::Merge], 0, 1, 0);
        },
        Stmt::Return { expr } => {
            one_step(FlowOp::Stop, 0);
            match expr {
                Some(expr) => {
                    part_is_balanced(m, expr, exprs);
                    goes_on(part_ops(m, expr, exprs), seq![FlowOp::Stop], 0, 0, 0);
                },
                None => {
                    goes_on(seq![], seq![FlowOp::Stop], 0, 0, 0);
                },
            }
        },
        Stmt::Expr { expr } => {
            part_is_balanced(m, expr, exprs);
        },
        Stmt::For { iterable, targets, stmts } => {
            let t = part_ops(m, iterable, exprs);
            let a = targets_ops(m, targets@, iterable, exprs, targets@.len());
            let b = stmts_ops(m, stmts@, limit, stmts@.len());
            let head = seq![FlowOp::Loop, FlowOp::Keep];
            part_is_balanced(m, iterable, exprs);
            targets_are_balanced(m, targets@, iterable, exprs, targets@.len());
            stmts_are_balanced(m, stmts@, limit, stmts@.len());
            goes_above(b, 1);
            one_step(FlowOp::Loop, 0);
            one_step(FlowOp::Keep, 0);
            one_step(FlowOp::Leave, 1);
            assert(head =~= seq![FlowOp::Loop] + seq![FlowOp::Keep]);
            goes_on(seq![FlowOp::Loop], seq![FlowOp::Keep], 0, 0, 1);
            goes_on(t, a, 0, 0, 0);
            goes_on(t + a, head, 0, 0, 1);
            goes_on(t + a + head, b, 0, 1, 1);
            goes_on(t + a + head + b, seq![FlowOp::Leave], 0, 1, 0);
        },
        Stmt::Break => {
            one_step(FlowOp::Stop, 0);
        },
        Stmt::Continue => {
            one_step(FlowOp::Stop, 0);
        },
        Stmt::Pass => {},
        Stmt::Load { load_stmt: _, items: _ } => {},
    }
}

/// The flow of a module takes back exactly what it puts aside, and never takes back
/// a state that was not put aside.
pub proof fn flow_is_balanced(m: Module)
    ensures
        goes(module_ops(m), 0, 0),
{
    stmts_are_balanced(m, m.top_level@, m.stmts@.len(), m.top_level@.len());
}

} // verus!
