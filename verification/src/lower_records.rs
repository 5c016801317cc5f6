//! What lowering records besides the definitions themselves: the errors and the
//! logs, entry by entry, in order.
//!
//! Each function below says of one syntactic form what is recorded once it is
//! lowered, given what was recorded before. Nothing else is recorded, so what a
//! log holds for a key is settled by the text alone.

use vstd::prelude::*;

use crate::def::{
    missing_text, AssignmentSource, CompClause, Expr, ExprId, LoadItemId, ParamId, Stmt, StmtId,
    TypeCommentOwner,
};
use crate::lower_spec::{
    assignment_comment_of, chain_len, comment_of, def_comment, has_bare_range, has_range, has_stmt, is_load,
    load_skip, name_text, paren_count, slot_count, slot_gap, slot_order, slot_range, tested,
    top_level_error, Lowering, SyntaxError,
};
use crate::syntax;
use crate::syntax::{
    ArgItem, Clause, Comprehension, DictItem, ExprKind, ParameterForm, Parameters, Source, Span,
    StmtKind,
};

verus! {

/// The sizes of the arenas, the errors, and the logs of a module.
#[verifier::ext_equal]
pub struct Records {
    pub exprs: nat,
    pub stmts: nat,
    pub params: nat,
    pub load_items: nat,
    pub errors: Seq<(Span, Seq<char>)>,
    pub param_to_def_stmt: Seq<(ParamId, (StmtId, usize))>,
    pub assignment_sources: Seq<(ExprId, AssignmentSource)>,
    pub call_expr_with_impl_fn: Seq<(Seq<char>, ExprId)>,
    pub expr_nodes: Seq<(u32, ExprId)>,
    pub stmt_nodes: Seq<(u32, StmtId)>,
    pub param_nodes: Seq<(u32, ParamId)>,
    pub load_item_nodes: Seq<(u32, LoadItemId)>,
    pub function_names: Seq<(StmtId, Span)>,
    pub keyword_names: Seq<(ExprId, Span)>,
    pub type_comment_owners: Seq<(Span, TypeCommentOwner)>,
}

/// Errors, by their places and messages.
pub open spec fn errors_of(errors: Seq<SyntaxError>) -> Seq<(Span, Seq<char>)> {
    Seq::new(errors.len(), |i: int| (errors[i].range, errors[i].message@))
}

impl Lowering {
    /// What is recorded so far.
    #[verifier::opaque]
    pub open spec fn records(self) -> Records {
        Records {
            exprs: self.module.exprs@.len(),
            stmts: self.module.stmts@.len(),
            params: self.module.params@.len(),
            load_items: self.module.load_items@.len(),
            errors: errors_of(self.errors@),
            param_to_def_stmt: self.module.param_to_def_stmt@,
            assignment_sources: self.module.assignment_sources@,
            call_expr_with_impl_fn: Seq::new(
                self.module.call_expr_with_impl_fn@.len(),
                |i: int|
                    (
                        self.module.call_expr_with_impl_fn@[i].0@,
                        self.module.call_expr_with_impl_fn@[i].1,
                    ),
            ),
            expr_nodes: self.source_map.expr_nodes@,
            stmt_nodes: self.source_map.stmt_nodes@,
            param_nodes: self.source_map.param_nodes@,
            load_item_nodes: self.source_map.load_item_nodes@,
            function_names: self.source_map.function_names@,
            keyword_names: self.source_map.keyword_names@,
            type_comment_owners: self.source_map.type_comment_owners@,
        }
    }
}

/// For each clause of a comprehension the iterable, if it is a loop over one with a
/// range.
pub open spec fn loop_sources(st: Lowering, clauses: Seq<CompClause>) -> Seq<Option<ExprId>> {
    Seq::new(
        clauses.len(),
        |c: int|
            match clauses[c] {
                CompClause::For { iterable, targets: _ } => if st.source_map.expr_map_back@[iterable.0 as int] is Some {
                    Some(iterable)
                } else {
                    None
                },
                _ => None,
            },
    )
}

/// The loops of an expression that is a comprehension.
pub open spec fn loops_in(st: Lowering, expr: Expr) -> Seq<Option<ExprId>> {
    match expr {
        Expr::ListComp { expr: _, comp_clauses } => loop_sources(st, comp_clauses@),
        Expr::DictComp { entry: _, comp_clauses } => loop_sources(st, comp_clauses@),
        _ => seq![],
    }
}

/// The expression whose value goes to a statement, if it has a range.
pub open spec fn source_in(st: Lowering, stmt: Stmt) -> Option<ExprId> {
    match stmt {
        Stmt::Assign { lhs: _, rhs, op: _, type_ref: _ } => if st.source_map.expr_map_back@[rhs.0 as int] is Some {
            Some(rhs)
        } else {
            None
        },
        Stmt::For { iterable, targets: _, stmts: _ } => if st.source_map.expr_map_back@[iterable.0 as int] is Some {
            Some(iterable)
        } else {
            None
        },
        _ => None,
    }
}

/// The records of a file of which nothing is lowered.
pub open spec fn no_records() -> Records {
    Records {
        exprs: 0,
        stmts: 0,
        params: 0,
        load_items: 0,
        errors: seq![],
        param_to_def_stmt: seq![],
        assignment_sources: seq![],
        call_expr_with_impl_fn: seq![],
        expr_nodes: seq![],
        stmt_nodes: seq![],
        param_nodes: seq![],
        load_item_nodes: seq![],
        function_names: seq![],
        keyword_names: seq![],
        type_comment_owners: seq![],
    }
}

impl Records {
    /// The index of the next expression.
    pub open spec fn next_expr(self) -> ExprId {
        ExprId(self.exprs as usize)
    }

    /// The index of the next statement.
    pub open spec fn next_stmt(self) -> StmtId {
        StmtId(self.stmts as usize)
    }

    /// The index of the next parameter.
    pub open spec fn next_param(self) -> ParamId {
        ParamId(self.params as usize)
    }

    /// Some more expressions.
    pub open spec fn with_exprs(self, n: nat) -> Records {
        Records { exprs: self.exprs + n, ..self }
    }

    /// Some more statements of which nothing is recorded.
    pub open spec fn with_stmts(self, n: nat) -> Records {
        Records { stmts: self.stmts + n, ..self }
    }

    /// One more expression, and its index.
    pub open spec fn add_expr(self) -> (Records, ExprId) {
        (self.with_exprs(1), self.next_expr())
    }

    /// What the value of an expression is assigned to.
    pub open spec fn flow(self, expr: ExprId, target: AssignmentSource) -> Records {
        Records { assignment_sources: self.assignment_sources.push((expr, target)), ..self }
    }

    /// The loops of comprehension `id`, of the first clauses: an iterable that has a
    /// range goes to its clause.
    pub open spec fn loops(self, clauses: Seq<Option<ExprId>>, id: ExprId, n: nat) -> Records
        decreases n,
    {
        if n == 0 {
            self
        } else {
            let before = self.loops(clauses, id, (n - 1) as nat);
            match clauses[n - 1] {
                Some(iterable) => before.flow(
                    iterable,
                    AssignmentSource::Comprehension {
                        expression: id,
                        clause: (n - 1) as usize,
                    },
                ),
                None => before,
            }
        }
    }

    /// One more statement: what goes to it, the comment that belongs to it, and its
    /// node.
    pub open spec fn add_stmt(
        self,
        source: Option<ExprId>,
        comment: Option<Span>,
        node: Option<u32>,
    ) -> (Records, StmtId) {
        let id = self.next_stmt();
        let owner = TypeCommentOwner::Statement(id);
        (
            Records {
                stmts: self.stmts + 1,
                assignment_sources: match source {
                    Some(expr) => self.assignment_sources.push(
                        (expr, AssignmentSource::Statement(id)),
                    ),
                    None => self.assignment_sources,
                },
                type_comment_owners: match comment {
                    Some(range) => self.type_comment_owners.push((range, owner)),
                    None => self.type_comment_owners,
                },
                stmt_nodes: match node {
                    Some(node) => self.stmt_nodes.push((node, id)),
                    None => self.stmt_nodes,
                },
                ..self
            },
            id,
        )
    }

    /// The errors of one place.
    pub open spec fn report(self, range: Span, messages: Seq<Seq<char>>) -> Records {
        Records {
            errors: self.errors + Seq::new(messages.len(), |m: int| (range, messages[m])),
            ..self
        }
    }

    /// The function to which the first of some parameters belong.
    pub open spec fn params_of_def(self, params: Seq<ParamId>, id: StmtId, n: nat) -> Records
        decreases n,
    {
        if n == 0 {
            self
        } else {
            let before = self.params_of_def(params, id, (n - 1) as nat);
            Records {
                param_to_def_stmt: before.param_to_def_stmt.push(
                    (params[n - 1], (id, (n - 1) as usize)),
                ),
                ..before
            }
        }
    }

    /// One more parameter: its node, if it has one, and the comment that belongs to
    /// it.
    pub open spec fn add_param(self, node: Option<u32>, comment: Option<Span>) -> (
        Records,
        ParamId,
    ) {
        let id = self.next_param();
        (
            Records {
                params: self.params + 1,
                param_nodes: match node {
                    Some(node) => self.param_nodes.push((node, id)),
                    None => self.param_nodes,
                },
                type_comment_owners: match comment {
                    Some(range) => self.type_comment_owners.push(
                        (range, TypeCommentOwner::Parameter(id)),
                    ),
                    None => self.type_comment_owners,
                },
                ..self
            },
            id,
        )
    }

    /// One more loaded name.
    pub open spec fn add_load_item(self, node: u32) -> Records {
        Records {
            load_items: self.load_items + 1,
            load_item_nodes: self.load_item_nodes.push(
                (node, LoadItemId(self.load_items as usize)),
            ),
            ..self
        }
    }
}

/// The name that an expression is, if it is nothing but a name.
pub open spec fn plain_name(e: syntax::Expr, parent: Span) -> Option<Seq<char>>
    decreases e,
{
    if paren_count(e, parent) > 0 || !e.supported {
        None
    } else {
        match e.kind {
            ExprKind::Name { id } => if id@.len() > 0 {
                Some(name_text(id@))
            } else {
                None
            },
            ExprKind::Bool2 { op: _, values } => if values@.len() == 1 {
                plain_name(values@[0], e.range)
            } else {
                None
            },
            ExprKind::Compare { operands, ops } => if operands@.len() > 0 && chain_len(
                operands@.len(),
                ops@.len(),
            ) == 1 {
                plain_name(operands@[0], e.range)
            } else {
                None
            },
            _ => None,
        }
    }
}

/// The function that implements the result of a call: the first keyword argument
/// `implementation`, `k` or later, whose value is a name.
pub open spec fn implementation(items: Seq<ArgItem>, range: Span, k: int) -> Option<Seq<char>>
    decreases items.len() - k,
{
    if k < 0 || k >= items.len() {
        None
    } else {
        let rest = implementation(items, range, k + 1);
        match items[k] {
            ArgItem::Keyword { range: _, node: _, name: Some(written), value } => if name_text(
                written.text@,
            ) == "implementation"@ && plain_name(value, range) is Some {
                plain_name(value, range)
            } else {
                rest
            },
            _ => rest,
        }
    }
}

/// What a parameter is, as far as errors go.
pub struct Outline {
    pub label: Seq<char>,
    pub star: bool,
    pub star_star: bool,
    pub default: bool,
}

/// What place `slot` of a list of parameters is; a bare star has no name.
pub open spec fn outline(p: Parameters, slot: int) -> Outline {
    if 0 <= slot < p.items@.len() {
        let item = p.items@[slot];
        Outline {
            label: name_text(item.name@),
            star: item.form is Variadic,
            star_star: item.form is KeywordVariadic,
            default: match item.form {
                ParameterForm::Plain { default } => default is Some,
                _ => false,
            },
        }
    } else {
        Outline { label: missing_text(), star: true, star_star: false, default: false }
    }
}

/// What the parameters are, in the order in which they start.
pub open spec fn outlines(p: Parameters) -> Seq<Outline> {
    let order = slot_order(p, slot_count(p));
    Seq::new(order.len(), |k: int| outline(p, order[k]))
}

/// The errors of the `k`-th parameter: a name that was there, one without a default
/// behind one with a default and before any star, a second star, and one behind two
/// stars.
pub open spec fn outline_errors(all: Seq<Outline>, k: int) -> Seq<Seq<char>> {
    let param = all[k];
    let star = exists|j: int| 0 <= j < k && (#[trigger] all[j]).star;
    let star_star = exists|j: int| 0 <= j < k && (#[trigger] all[j]).star_star;
    let default = exists|j: int| 0 <= j < k && (#[trigger] all[j]).default;
    let duplicate = param.label != missing_text() && exists|j: int|
        0 <= j < k && (#[trigger] all[j]).label == param.label;
    let first = if duplicate {
        seq!["Duplicate parameter "@ + param.label]
    } else {
        seq![]
    };
    let follows = if star_star {
        seq!["Parameter cannot follow \"**\" parameter"@]
    } else {
        seq![]
    };
    if param.star_star {
        first + (if star_star {
            seq!["Only one \"**\" parameter is allowed"@]
        } else {
            seq![]
        })
    } else if param.star {
        first + (if star {
            seq!["Only one \"*\" parameter is allowed"@]
        } else {
            seq![]
        }) + follows
    } else {
        first + (if default && !star && !param.default {
            seq!["Non-default parameter cannot follow default parameter"@]
        } else {
            seq![]
        }) + follows
    }
}

/// What is recorded after an expression without its parentheses.
pub open spec fn after_bare(src: Source, r: Records, e: syntax::Expr) -> (Records, ExprId)
    decreases e, 0nat,
{
    if !e.supported {
        r.add_expr()
    } else {
        match e.kind {
            ExprKind::If { test, body, orelse } => {
                let first = after_expr(src, r, *body, e.range).0;
                let second = after_expr(src, first, *test, e.range).0;
                after_expr(src, second, *orelse, e.range).0.add_expr()
            },
            ExprKind::Unary { op: _, operand } => after_expr(src, r, *operand, e.range).0.add_expr(),
            ExprKind::Binary { left, op: _, right } => {
                let first = after_expr(src, r, *left, e.range).0;
                after_expr(src, first, *right, e.range).0.add_expr()
            },
            ExprKind::Bool2 { op: _, values } => after_chain(
                src,
                r,
                values@,
                e.range,
                values@.len(),
            ),
            ExprKind::Compare { operands, ops } => after_chain(
                src,
                r,
                operands@,
                e.range,
                chain_len(operands@.len(), ops@.len()),
            ),
            ExprKind::Lambda { parameters, body } => {
                let first = match parameters {
                    Some(p) => after_params(src, r, *p, slot_count(*p)).0,
                    None => r,
                };
                after_expr(src, first, *body, e.range).0.add_expr()
            },
            ExprKind::List { elts } => after_exprs(src, r, elts@, e.range).add_expr(),
            ExprKind::Tuple { elts, parenthesized: _ } => after_exprs(
                src,
                r,
                elts@,
                e.range,
            ).add_expr(),
            ExprKind::ListComp { elt, generators } => {
                let first = after_expr(src, r, *elt, e.range).0;
                let (second, clauses) = after_comp(src, first, generators@);
                (
                    second.loops(clauses, second.next_expr(), clauses.len()).with_exprs(1),
                    second.next_expr(),
                )
            },
            ExprKind::Dict { items } => after_entries(src, r, items@, e.range).add_expr(),
            ExprKind::DictComp { key, value, generators } => {
                let first = after_expr(src, r, *key, e.range).0;
                let second = after_expr(src, first, *value, e.range).0;
                let (third, clauses) = after_comp(src, second, generators@);
                (
                    third.loops(clauses, third.next_expr(), clauses.len()).with_exprs(1),
                    third.next_expr(),
                )
            },
            ExprKind::Attribute { value, attr: _ } => after_expr(
                src,
                r,
                *value,
                e.range,
            ).0.add_expr(),
            ExprKind::Call { func, arguments } => {
                let first = after_expr(src, r, *func, e.range).0;
                let second = after_args(src, first, arguments.items@, arguments.range);
                let (third, id) = second.add_expr();
                match implementation(arguments.items@, arguments.range, 0) {
                    Some(name) => (
                        Records {
                            call_expr_with_impl_fn: third.call_expr_with_impl_fn.push((name, id)),
                            ..third
                        },
                        id,
                    ),
                    None => (third, id),
                }
            },
            ExprKind::Subscript { value, slice } => {
                let first = after_expr(src, r, *value, e.range).0;
                match slice.kind {
                    ExprKind::Slice { lower, upper, step } => {
                        let second = after_opt(src, first, lower, e.range);
                        let third = after_opt(src, second, upper, e.range);
                        after_opt(src, third, step, e.range).add_expr()
                    },
                    _ => after_expr(src, first, *slice, e.range).0.add_expr(),
                }
            },
            _ => r.add_expr(),
        }
    }
}

/// What is recorded after an expression inside `parent`: its node, unless it is
/// missing, and its parentheses.
pub open spec fn after_expr(src: Source, r: Records, e: syntax::Expr, parent: Span) -> (
    Records,
    ExprId,
)
    decreases e, 1nat,
{
    let (first, bare) = after_bare(src, r, e);
    let n = paren_count(e, parent);
    let second = if has_bare_range(e) {
        Records { expr_nodes: first.expr_nodes.push((e.node, bare)), ..first }
    } else {
        first
    };
    (
        second.with_exprs(n),
        if n == 0 {
            bare
        } else {
            ExprId((second.exprs + n - 1) as usize)
        },
    )
}

/// What is recorded after a list of expressions inside `parent`.
pub open spec fn after_exprs(
    src: Source,
    r: Records,
    elts: Seq<syntax::Expr>,
    parent: Span,
) -> Records
    decreases elts, 0nat,
{
    if elts.len() == 0 {
        r
    } else {
        after_expr(src, after_exprs(src, r, elts.drop_last(), parent), elts.last(), parent).0
    }
}

/// What is recorded after an optional expression inside `parent`.
pub open spec fn after_opt(
    src: Source,
    r: Records,
    e: Option<Box<syntax::Expr>>,
    parent: Span,
) -> Records
    decreases e, 0nat,
{
    match e {
        Some(e) => after_expr(src, r, *e, parent).0,
        None => r,
    }
}

/// What is recorded after the first `k` operands of a chain.
pub open spec fn after_chain(
    src: Source,
    r: Records,
    values: Seq<syntax::Expr>,
    parent: Span,
    k: nat,
) -> (Records, ExprId)
    decreases values, k,
{
    if k == 0 || k > values.len() {
        r.add_expr()
    } else if k == 1 {
        after_expr(src, r, values[0], parent)
    } else {
        let first = after_chain(src, r, values, parent, (k - 1) as nat).0;
        after_expr(src, first, values[k - 1], parent).0.add_expr()
    }
}

/// What is recorded after the arguments of a call.
pub open spec fn after_args(src: Source, r: Records, items: Seq<ArgItem>, range: Span) -> Records
    decreases items, 0nat,
{
    if items.len() == 0 {
        r
    } else {
        after_arg(src, after_args(src, r, items.drop_last(), range), items.last(), range)
    }
}

/// What is recorded after one argument of a call: the name of a keyword belongs to
/// its value.
pub open spec fn after_arg(src: Source, r: Records, item: ArgItem, range: Span) -> Records
    decreases item, 0nat,
{
    match item {
        ArgItem::Arg(e) => match e.kind {
            ExprKind::Starred { value } => after_expr(src, r, *value, e.range).0,
            _ => after_expr(src, r, e, range).0,
        },
        ArgItem::Keyword { range: _, node: _, name, value } => {
            let (first, id) = after_expr(src, r, value, range);
            match name {
                Some(written) => Records {
                    keyword_names: first.keyword_names.push((id, written.range)),
                    ..first
                },
                None => first,
            }
        },
    }
}

/// What is recorded after the target of a loop.
pub open spec fn after_targets(
    src: Source,
    r: Records,
    target: syntax::Expr,
    parent: Span,
) -> Records
    decreases target, 2nat,
{
    match target.kind {
        ExprKind::Tuple { elts, parenthesized: false } => after_exprs(
            src,
            r,
            elts@,
            target.range,
        ),
        _ => after_expr(src, r, target, parent).0,
    }
}

/// What is recorded after the generators of a comprehension, and for each of its
/// clauses the iterable, if it is a loop over one with a range.
pub open spec fn after_comp(src: Source, r: Records, generators: Seq<Comprehension>) -> (
    Records,
    Seq<Option<ExprId>>,
)
    decreases generators, 0nat,
{
    if generators.len() == 0 {
        (r, seq![])
    } else {
        let g = generators.last();
        let (before, clauses) = after_comp(src, r, generators.drop_last());
        let (first, iterable) = after_expr(src, before, g.iter, g.range);
        let second = after_targets(src, first, g.target, g.range);
        let looped = if has_range(g.iter, g.range) {
            Some(iterable)
        } else {
            None
        };
        (
            after_exprs(src, second, g.ifs@, g.range),
            clauses.push(looped) + Seq::new(g.ifs@.len(), |i: int| None::<ExprId>),
        )
    }
}

/// What is recorded after the items of a dictionary; one without a key is left out.
pub open spec fn after_entries(
    src: Source,
    r: Records,
    items: Seq<DictItem>,
    parent: Span,
) -> Records
    decreases items, 0nat,
{
    if items.len() == 0 {
        r
    } else {
        let before = after_entries(src, r, items.drop_last(), parent);
        match items.last().key {
            Some(key) => after_expr(
                src,
                after_expr(src, before, key, parent).0,
                items.last().value,
                parent,
            ).0,
            None => before,
        }
    }
}

/// What is recorded after the first `n` parameters, in the order in which they
/// start, and their indices. Behind a default come the errors of its parameter.
pub open spec fn after_params(src: Source, r: Records, p: Parameters, n: nat) -> (
    Records,
    Seq<ParamId>,
)
    decreases p, n,
{
    if n == 0 {
        (r, seq![])
    } else {
        let k = n - 1;
        let order = slot_order(p, slot_count(p));
        let slot = order[k];
        let (before, ids) = after_params(src, r, p, (n - 1) as nat);
        let first = if 0 <= slot < p.items@.len() {
            match p.items@[slot].form {
                ParameterForm::Plain { default } => after_opt(
                    src,
                    before,
                    default,
                    p.items@[slot].owner,
                ),
                _ => before,
            }
        } else {
            before
        };
        let (second, id) = first.report(
            slot_range(p, slot),
            outline_errors(outlines(p), k),
        ).add_param(
            if 0 <= slot < p.items@.len() {
                Some(p.items@[slot].node)
            } else {
                None
            },
            comment_at(src, comment_of(src, slot_gap(p, order, k))),
        );
        (second, ids.push(id))
    }
}

/// Where a comment stands.
pub open spec fn comment_at(src: Source, comment: Option<int>) -> Option<Span> {
    match comment {
        Some(c) => Some(src.comments@[c].range),
        None => None,
    }
}

/// An expression that has a range when it is lowered.
pub open spec fn ranged(e: syntax::Expr, parent: Span, id: ExprId) -> Option<ExprId> {
    if has_range(e, parent) {
        Some(id)
    } else {
        None
    }
}

/// What is recorded after a statement, and its index, if it has a definition.
pub open spec fn after_stmt(src: Source, r: Records, s: syntax::Stmt) -> (Records, Option<StmtId>)
    decreases s, 1nat,
{
    match s.kind {
        StmtKind::FunctionDef { name, parameters, body, suite } => {
            let (first, params) = after_params(src, r, parameters, slot_count(parameters));
            let second = after_suite(src, first, body@, suite);
            let (third, id) = second.add_stmt(
                None,
                comment_at(src, def_comment(src, body@, suite)),
                Some(s.node),
            );
            let fourth = if name.text@.len() > 0 {
                Records { function_names: third.function_names.push((id, name.range)), ..third }
            } else {
                third
            };
            (fourth.params_of_def(params, id, params.len()), Some(id))
        },
        StmtKind::If { test, body, suite, clauses } => {
            let first = after_expr(src, r, test, s.range).0;
            let second = after_suite(src, first, body@, suite);
            let third = after_clauses(src, second, clauses@);
            let (last, id) = third.with_stmts(tested(clauses@, clauses@.len()).len()).add_stmt(
                None,
                None,
                Some(s.node),
            );
            (last, Some(id))
        },
        StmtKind::For { target, iter, body, suite } => {
            let (first, iterable) = after_expr(src, r, iter, s.range);
            let second = after_targets(src, first, target, s.range);
            let third = after_suite(src, second, body@, suite);
            let (last, id) = third.add_stmt(ranged(iter, s.range, iterable), None, Some(s.node));
            (last, Some(id))
        },
        StmtKind::Return { value } => {
            let first = match value {
                Some(value) => after_expr(src, r, value, s.range).0,
                None => r,
            };
            let (last, id) = first.add_stmt(None, None, Some(s.node));
            (last, Some(id))
        },
        StmtKind::Assign { targets, value } => {
            let first = if targets@.len() > 0 {
                after_expr(src, r, targets@[0], s.range).0
            } else {
                r.with_exprs(1)
            };
            after_assignment(src, s, after_expr(src, first, value, s.range), value)
        },
        StmtKind::AugAssign { target, op: _, value } => {
            let first = after_expr(src, r, target, s.range).0;
            after_assignment(src, s, after_expr(src, first, value, s.range), value)
        },
        StmtKind::Expr { value } => if is_load(s) {
            match value.kind {
                ExprKind::Call { func: _, arguments } => {
                    let first = after_load(
                        r,
                        arguments.items@,
                        (arguments.items@.len() - load_skip(arguments.items@)) as nat,
                    );
                    let (second, id) = first.add_stmt(None, None, Some(value.node));
                    (
                        Records { stmt_nodes: second.stmt_nodes.push((s.node, id)), ..second },
                        Some(id),
                    )
                },
                _ => (r, None),
            }
        } else {
            let first = after_expr(src, r, value, s.range).0;
            if has_range(value, s.range) {
                let (last, id) = first.add_stmt(None, None, Some(s.node));
                (last, Some(id))
            } else {
                (first, None)
            }
        },
        StmtKind::Other => (r, None),
        _ => {
            let (last, id) = r.add_stmt(None, None, Some(s.node));
            (last, Some(id))
        },
    }
}

/// What is recorded after an assignment whose value is lowered.
pub open spec fn after_assignment(
    src: Source,
    s: syntax::Stmt,
    lowered: (Records, ExprId),
    value: syntax::Expr,
) -> (Records, Option<StmtId>) {
    let (last, id) = lowered.0.add_stmt(
        ranged(value, s.range, lowered.1),
        comment_at(src, assignment_comment_of(src, s.range)),
        Some(s.node),
    );
    (last, Some(id))
}

/// What is recorded after the first `n` names of a `load`.
pub open spec fn after_load(r: Records, items: Seq<ArgItem>, n: nat) -> Records
    decreases n,
{
    if n == 0 {
        r
    } else {
        after_load(r, items, (n - 1) as nat).add_load_item(
            match items[n - 1 + load_skip(items)] {
                ArgItem::Arg(e) => e.node,
                ArgItem::Keyword { range: _, node, name: _, value: _ } => node,
            },
        )
    }
}

/// What is recorded after a list of statements.
pub open spec fn after_stmts(src: Source, r: Records, body: Seq<syntax::Stmt>) -> Records
    decreases body, 0nat,
{
    if body.len() == 0 {
        r
    } else {
        after_stmt(src, after_stmts(src, r, body.drop_last()), body.last()).0
    }
}

/// What is recorded after the suite below a header.
pub open spec fn after_suite(
    src: Source,
    r: Records,
    body: Seq<syntax::Stmt>,
    suite: Option<Span>,
) -> Records
    decreases body, 1nat,
{
    if suite is Some {
        after_stmts(src, r, body)
    } else {
        r
    }
}

/// What is recorded after the tests and the suites of the clauses of an `if`.
pub open spec fn after_clauses(src: Source, r: Records, clauses: Seq<Clause>) -> Records
    decreases clauses, 0nat,
{
    if clauses.len() == 0 {
        r
    } else {
        let c = clauses.last();
        let before = after_clauses(src, r, clauses.drop_last());
        let first = match c.test {
            Some(test) => after_expr(src, before, test, c.range).0,
            None => before,
        };
        after_suite(src, first, c.body@, c.suite)
    }
}

/// The ranges of the statements `ids`.
pub open spec fn stmt_ranges(st: Lowering, ids: Seq<StmtId>) -> Seq<Span> {
    Seq::new(ids.len(), |i: int| st.source_map.stmt_map_back@[ids[i].0 as int])
}

/// What is recorded after the statements at the top level: behind each condition and
/// each loop its error. `ranges` are those of the statements that have a definition.
pub open spec fn after_top(
    src: Source,
    r: Records,
    body: Seq<syntax::Stmt>,
    ranges: Seq<Span>,
) -> Records
    decreases body.len(),
{
    if body.len() == 0 {
        r
    } else if has_stmt(body.last()) {
        let before = after_top(src, r, body.drop_last(), ranges.drop_last());
        let next = after_stmt(src, before, body.last()).0;
        match top_level_error(body.last()) {
            Some(message) => next.report(ranges.last(), seq![message]),
            None => next,
        }
    } else {
        after_stmt(src, after_top(src, r, body.drop_last(), ranges), body.last()).0
    }
}

} // verus!
