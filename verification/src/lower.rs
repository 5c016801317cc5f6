//! Lowering: from parsed source text to the definitions of a module.

use std::sync::Arc;

use ruff_source_file::LineIndex;
use vstd::prelude::*;

use crate::common::File;
use crate::def::{
    all_below, clauses_below, expr_below, missing_text, opt_below, params_below, shapes,
    stmt_below, stmts_below, texts, Argument, AssignmentSource, CompClause, DictEntry, ElseBranch,
    Expr, ExprId, FunctionData, Literal, LoadItem, LoadItemId, LoadStmtData, Module,
    ModuleSourceMap, Name, Param, ParamId, Stmt, StmtId, TypeCommentOwner, TypeRef,
};
use crate::lower_laws::{lookups_give_back, recorded_once};
use crate::lower_proof::{
    errors_fit, expr_exists, fits, implementation_is_named, kept_args, kept_chain, kept_comp,
    kept_covered, kept_entries, kept_expr, kept_expr_opt, kept_exprs, kept_flow, kept_member,
    kept_param, kept_params, kept_report, kept_stmts, kept_suite, kept_targets, kept_typed,
    kept_wf, leads_on, stmts_exist, suite_exists,
};
use crate::lower_records::{
    after_arg, after_args, after_bare, after_chain, after_clauses, after_comp, after_entries,
    after_expr, after_exprs, after_load, after_opt, after_params, after_stmt, after_stmts,
    after_suite, after_targets, after_top, comment_at, errors_of, loop_sources, loops_in, no_records, outline,
    outline_errors, outlines, source_in, stmt_ranges, Records,
};
use crate::lower_spec::{
    arc_shapes, arg_at, args_at, assign_op_of, assigned_type, assignment_comment_of, bare_at,
    below_parens, binary_op_of, chain_at, chain_len, chain_range, clause_range, comment_of,
    comp_at, comp_sources, compare_op_of, compare_ops_of, covered, def_comment, doc_of_param,
    doc_text, entries_at, expr_at, expr_opt_at, exprs_at, first_comment, func_param_shapes,
    has_range, has_stmt, hull_opt, ignored_lines_at, impl_fn_name, inner_parens, is_load,
    last_else, load_item_at, load_module, load_skip, logic_op_of, logic_ops_of, name_text,
    outer_range, param_at, param_doc, param_errors, param_type, param_typed, params_at, params_of,
    paren_count, reported, segment_texts, slot_count, slot_gap, slot_order, slot_range, stmt_at,
    stmts_at, string_in, suite_at, tail_at, tail_range, targets_at, terminator, top_level_error, tested, text_of,
    type_shape, type_shape_opt, type_shapes, unary_op_of, wrapped, Lowering, SyntaxError,
};
use crate::ops::{
    ArithAssignOp, ArithOp, AssignOp, BinaryOp, BitwiseAssignOp, BitwiseOp, CmpOp, LogicOp,
    MemberOp, UnaryArithOp, UnaryOp,
};
use crate::syntax;
use crate::syntax::{
    ArgItem, Arguments, BoolOp, Clause, Comparison, Comprehension, DictItem, ExprKind,
    FunctionType, Identifier, Operator, Parameter, ParameterForm, Parameters, PrefixOp, Source,
    Span, StmtKind, TypeExpr,
};
use crate::positions::{line_of, line_starts, rising};
use crate::text::{lines_from, trimmed, views, without_leading};

verus! {

/// The operator that Starlark has for a binary operator.
pub fn binary_op(op: Operator) -> (r: Option<BinaryOp>)
    ensures
        r == binary_op_of(op),
{
    match op {
        Operator::Add => Some(BinaryOp::Arith(ArithOp::Add)),
        Operator::Sub => Some(BinaryOp::Arith(ArithOp::Sub)),
        Operator::Mult => Some(BinaryOp::Arith(ArithOp::Mul)),
        Operator::Div => Some(BinaryOp::Arith(ArithOp::Div)),
        Operator::FloorDiv => Some(BinaryOp::Arith(ArithOp::Flr)),
        Operator::Mod => Some(BinaryOp::Arith(ArithOp::Mod)),
        Operator::BitAnd => Some(BinaryOp::Bitwise(BitwiseOp::And)),
        Operator::BitOr => Some(BinaryOp::Bitwise(BitwiseOp::Or)),
        Operator::BitXor => Some(BinaryOp::Bitwise(BitwiseOp::Xor)),
        Operator::LShift => Some(BinaryOp::Bitwise(BitwiseOp::Shl)),
        Operator::RShift => Some(BinaryOp::Bitwise(BitwiseOp::Shr)),
        Operator::Pow => None,
        Operator::MatMult => None,
    }
}

/// The operator that Starlark has for an augmented assignment.
pub fn assign_op(op: Operator) -> (r: Option<AssignOp>)
    ensures
        r == assign_op_of(op),
{
    match op {
        Operator::Add => Some(AssignOp::Arith(ArithAssignOp::Add)),
        Operator::Sub => Some(AssignOp::Arith(ArithAssignOp::Sub)),
        Operator::Mult => Some(AssignOp::Arith(ArithAssignOp::Mul)),
        Operator::Div => Some(AssignOp::Arith(ArithAssignOp::Div)),
        Operator::FloorDiv => Some(AssignOp::Arith(ArithAssignOp::Flr)),
        Operator::Mod => Some(AssignOp::Arith(ArithAssignOp::Mod)),
        Operator::BitAnd => Some(AssignOp::Bitwise(BitwiseAssignOp::And)),
        Operator::BitOr => Some(AssignOp::Bitwise(BitwiseAssignOp::Or)),
        Operator::BitXor => Some(AssignOp::Bitwise(BitwiseAssignOp::Xor)),
        Operator::LShift => Some(AssignOp::Bitwise(BitwiseAssignOp::Shl)),
        Operator::RShift => Some(AssignOp::Bitwise(BitwiseAssignOp::Shr)),
        Operator::Pow => None,
        Operator::MatMult => None,
    }
}

/// The operator that Starlark has for a comparison.
pub fn compare_op(op: Comparison) -> (r: Option<BinaryOp>)
    ensures
        r == compare_op_of(op),
{
    match op {
        Comparison::Eq => Some(BinaryOp::Cmp(CmpOp::Eq)),
        Comparison::NotEq => Some(BinaryOp::Cmp(CmpOp::Ne)),
        Comparison::Lt => Some(BinaryOp::Cmp(CmpOp::Lt)),
        Comparison::LtE => Some(BinaryOp::Cmp(CmpOp::Le)),
        Comparison::Gt => Some(BinaryOp::Cmp(CmpOp::Gt)),
        Comparison::GtE => Some(BinaryOp::Cmp(CmpOp::Ge)),
        Comparison::In => Some(BinaryOp::MemberOp(MemberOp::In)),
        Comparison::NotIn => Some(BinaryOp::MemberOp(MemberOp::NotIn)),
        Comparison::Is => None,
        Comparison::IsNot => None,
    }
}

/// The operator that Starlark has for a prefix operator.
pub fn unary_op(op: PrefixOp) -> (r: UnaryOp)
    ensures
        r == unary_op_of(op),
{
    match op {
        PrefixOp::Invert => UnaryOp::Inv,
        PrefixOp::Not => UnaryOp::Not,
        PrefixOp::UAdd => UnaryOp::Arith(UnaryArithOp::Add),
        PrefixOp::USub => UnaryOp::Arith(UnaryArithOp::Sub),
    }
}

/// The name that an identifier stands for.
pub fn lower_name(text: &str) -> (r: Name)
    ensures
        r@ == name_text(text@),
{
    if text.is_empty() || crate::text::same(text, "load") {
        Name::missing()
    } else {
        Name::from_str(text)
    }
}

/// The number of parentheses of `e` that stand inside `parent`.
pub fn parens_inside(e: &syntax::Expr, parent: Span) -> (r: usize)
    ensures
        r == paren_count(*e, parent),
        r <= e.parens@.len(),
{
    let mut k: usize = 0;
    while k < e.parens.len() && e.parens[k].start >= parent.start
        invariant
            k <= e.parens@.len(),
            inner_parens(e.parens@, parent, k as nat) == paren_count(*e, parent),
        decreases e.parens@.len() - k,
    {
        k = k + 1;
    }
    k
}

/// The range of `e` with its parentheses inside `parent`.
pub fn expr_range(e: &syntax::Expr, parent: Span) -> (r: Span)
    ensures
        r == outer_range(*e, parent),
{
    let n = parens_inside(e, parent);
    if n == 0 {
        e.range
    } else {
        e.parens[n - 1]
    }
}

/// The type comment that belongs to `range`.
pub fn comment_in(src: &Source, range: Span) -> (r: Option<usize>)
    ensures
        match r {
            Some(k) => comment_of(*src, range) == Some(k as int) && k < src.comments@.len(),
            None => comment_of(*src, range) is None,
        },
{
    let mut k: usize = 0;
    while k < src.comments.len() && src.comments[k].range.start < range.start
        invariant
            k <= src.comments@.len(),
            first_comment(src.comments@, range.start, k as int) == first_comment(
                src.comments@,
                range.start,
                0,
            ),
        decreases src.comments@.len() - k,
    {
        k = k + 1;
    }
    if k < src.comments.len() && range.contains_range(src.comments[k].range) {
        Some(k)
    } else {
        None
    }
}

/// The type comment behind an assignment with the range `range`.
pub fn assignment_comment(src: &Source, range: Span) -> (r: Option<usize>)
    ensures
        match r {
            Some(k) => assignment_comment_of(*src, range) == Some(k as int) && k
                < src.comments@.len(),
            None => assignment_comment_of(*src, range) is None,
        },
{
    let mut k: usize = 0;
    while k < src.terminators.len() && src.terminators[k] < range.end
        invariant
            k <= src.terminators@.len(),
            terminator(*src, range.end, k as int) == terminator(*src, range.end, 0),
        decreases src.terminators@.len() - k,
    {
        k = k + 1;
    }
    let end: u32 = if k < src.terminators.len() {
        src.terminators[k]
    } else {
        src.len
    };
    let stop: u32 = if end <= range.end {
        range.end
    } else {
        end
    };
    comment_in(src, Span { start: range.end, end: stop })
}

/// The value of the first string inside `range`.
pub fn load_string(src: &Source, range: Span) -> (r: String)
    ensures
        r@ == string_in(*src, range, 0),
{
    let mut k: usize = 0;
    while k < src.strings.len()
        invariant
            k <= src.strings@.len(),
            string_in(*src, range, k as int) == string_in(*src, range, 0),
        decreases src.strings@.len() - k,
    {
        if range.contains_range(src.strings[k].range) && !src.strings[k].is_bytes {
            return src.strings[k].value.clone();
        }
        k = k + 1;
    }
    String::new()
}

/// The description of the parameter `name` in a docstring.
pub fn find_doc(doc: &Option<String>, name: &str) -> (r: Option<String>)
    ensures
        text_of(r) == param_doc(text_of(*doc), name@),
{
    match doc {
        None => None,
        Some(written) => {
            let lines = crate::text::lines(written.as_str());
            let mut prefix = name.to_owned();
            prefix.push(':');
            let wanted = crate::text::chars_of(prefix.as_str());
            proof {
                assert(prefix@ =~= name@ + seq![':']);
            }
            let ghost all = lines_from(written@, 0);
            let mut k: usize = 0;
            while k < lines.len()
                invariant
                    k <= lines@.len(),
                    text_of(*doc) == Some(written@),
                    all == lines_from(written@, 0),
                    lines@.len() == all.len(),
                    forall|i: int| 0 <= i < lines@.len() ==> (#[trigger] lines@[i])@ == all[i],
                    wanted@ == name@ + seq![':'],
                    doc_of_param(all, name@, k as int) == doc_of_param(all, name@, 0),
                decreases lines@.len() - k,
            {
                let entry = crate::text::chars_of(crate::text::trim(lines[k].as_str()).as_str());
                let start = crate::text::skip_char(entry.as_slice(), '*', 0, entry.len());
                proof {
                    assert(entry@.subrange(0, entry@.len() as int) =~= entry@);
                    let rest = entry@.subrange(start as int, entry@.len() as int);
                    assert(rest == without_leading(trimmed(all[k as int]), '*'));
                    if start + wanted@.len() <= entry@.len() {
                        assert(entry@.subrange(start as int, start + wanted@.len())
                            =~= rest.subrange(0, wanted@.len() as int));
                        assert(entry@.subrange(start + wanted@.len(), entry@.len() as int)
                            =~= rest.subrange(wanted@.len() as int, rest.len() as int));
                    }
                }
                if crate::text::chars_at(entry.as_slice(), wanted.as_slice(), start) {
                    let from: usize = start + wanted.len();
                    let text = crate::text::string_of(entry.as_slice(), from, entry.len());
                    return Some(crate::text::trim(text.as_str()));
                }
                k = k + 1;
            }
            None
        },
    }
}

/// The type that a comment writes.
pub fn lower_type(node: &TypeExpr) -> (r: TypeRef)
    ensures
        r.shape() == type_shape(*node),
    decreases node,
{
    match node {
        TypeExpr::Path { segments, args } => {
            let mut names: Vec<Name> = Vec::new();
            let mut i: usize = 0;
            while i < segments.len()
                invariant
                    i <= segments@.len(),
                    names@.len() == i,
                    forall|k: int| 0 <= k < i ==> (#[trigger] names@[k])@ == segments@[k]@,
                decreases segments@.len() - i,
            {
                names.push(Name::from_str(segments[i].as_str()));
                i = i + 1;
            }
            proof {
                assert(texts(names@) =~= segment_texts(segments@));
            }
            match args {
                None => TypeRef::Path(names, None),
                Some(args) => {
                    let types = lower_types(args);
                    TypeRef::Path(names, Some(types))
                },
            }
        },
        TypeExpr::Union { types } => TypeRef::Union(lower_types(types)),
        TypeExpr::NoneType => TypeRef::Name(Name::from_str("None"), None),
        TypeExpr::Ellipsis => TypeRef::Ellipsis,
    }
}

/// The types of a list, in order.
pub fn lower_types(types: &Vec<TypeExpr>) -> (r: Vec<TypeRef>)
    ensures
        shapes(r@) == type_shapes(types@),
    decreases types,
{
    let mut out: Vec<TypeRef> = Vec::new();
    let mut i: usize = 0;
    while i < types.len()
        invariant
            i <= types@.len(),
            out@.len() == i,
            forall|k: int| 0 <= k < i ==> (#[trigger] out@[k]).shape() == type_shape(types@[k]),
        decreases types@.len() - i,
    {
        out.push(lower_type(&types[i]));
        i = i + 1;
    }
    proof {
        assert(shapes(out@) =~= type_shapes(types@));
    }
    out
}

/// The type that a comment writes, if there is one.
pub fn lower_type_opt(ty: &Option<TypeExpr>) -> (r: TypeRef)
    ensures
        r.shape() == type_shape_opt(*ty),
{
    match ty {
        Some(ty) => lower_type(ty),
        None => TypeRef::Unknown,
    }
}

/// The range of place `k` of a list of parameters.
pub fn place_range(p: &Parameters, k: usize) -> (r: Span)
    requires
        k < slot_count(*p),
    ensures
        r == slot_range(*p, k as int),
{
    if k < p.items.len() {
        p.items[k].range
    } else {
        match p.bare_star {
            Some(range) => range,
            None => p.range,
        }
    }
}

/// The places of a list of parameters in the order in which they start.
pub fn ordered_slots(p: &Parameters) -> (order: Vec<usize>)
    ensures
        order@.len() == slot_order(*p, slot_count(*p)).len(),
        forall|i: int|
            0 <= i < order@.len() ==> #[trigger] order@[i] == slot_order(*p, slot_count(*p))[i]
                && order@[i] < slot_count(*p),
{
    let count: usize = p.items.len();
    let mut order: Vec<usize> = Vec::new();
    let mut n: usize = 0;
    while n < count
        invariant
            n <= count == p.items@.len(),
            order@.len() == n,
            order@.map_values(|k: usize| k as int) == slot_order(*p, n as nat),
            forall|i: int| 0 <= i < order@.len() ==> #[trigger] order@[i] < n,
        decreases count - n,
    {
        insert_place_of(p, &mut order, n);
        n = n + 1;
    }
    if p.bare_star.is_some() {
        insert_place_of(p, &mut order, n);
    }
    proof {
        let seen = order@.map_values(|k: usize| k as int);
        assert(seen == slot_order(*p, slot_count(*p)));
        assert forall|i: int| 0 <= i < order@.len() implies #[trigger] order@[i] == slot_order(
            *p,
            slot_count(*p),
        )[i] by {
            assert(seen[i] == order@[i]);
        }
    }
    order
}

/// Puts place `n` behind every place that does not start later.
fn insert_place_of(p: &Parameters, order: &mut Vec<usize>, n: usize)
    requires
        n < slot_count(*p),
        old(order)@.len() == n,
        old(order)@.map_values(|k: usize| k as int) == slot_order(*p, n as nat),
        forall|i: int| 0 <= i < old(order)@.len() ==> #[trigger] old(order)@[i] < n,
    ensures
        final(order)@.len() == n + 1,
        final(order)@.map_values(|k: usize| k as int) == slot_order(*p, (n + 1) as nat),
        forall|i: int| 0 <= i < final(order)@.len() ==> #[trigger] final(order)@[i] < n + 1,
{
    let start = place_range(p, n).start;
    let ghost seen = order@.map_values(|k: usize| k as int);
    let mut at: usize = order.len();
    while at > 0 && place_range(p, order[at - 1]).start > start
        invariant
            at <= order@.len() == n,
            n < slot_count(*p),
            start == slot_range(*p, n as int).start,
            seen == order@.map_values(|k: usize| k as int),
            forall|i: int| 0 <= i < order@.len() ==> #[trigger] order@[i] < n,
            forall|j: int|
                at <= j < seen.len() ==> slot_range(*p, #[trigger] seen[j]).start > start,
        decreases at,
    {
        assert(seen[at - 1] == order@[at - 1]);
        at = at - 1;
    }
    proof {
        if at > 0 {
            assert(seen[at - 1] == order@[at - 1]);
        }
        crate::lower_proof::insert_place(*p, seen, n as int, at as int);
    }
    order.insert(at, n);
    proof {
        assert(order@.map_values(|k: usize| k as int) =~= seen.insert(at as int, n as int));
    }
}

impl Lowering {
    /// Adds an expression with its range. The loops of a comprehension become
    /// the places where the elements of their iterables go.
    fn alloc_expr(&mut self, expr: Expr, range: Span) -> (id: ExprId)
        requires
            old(self).wf(),
            expr_below(
                old(self).module.params@,
                expr,
                old(self).module.exprs@.len(),
            ),
        ensures
            final(self).wf(),
            old(self).leads_to(*final(self)),
            id.0 == old(self).module.exprs@.len(),
            final(self).located(id, range),
            final(self).module.exprs@[id.0 as int] == expr,
            id == old(self).records().next_expr(),
            final(self).records() == old(self).records().loops(
                loops_in(*old(self), expr),
                id,
                loops_in(*old(self), expr).len(),
            ).with_exprs(1),
            match expr {
                Expr::ListComp { expr: _, comp_clauses } => comp_sources(
                    *final(self),
                    comp_clauses@,
                    id,
                ),
                Expr::DictComp { entry: _, comp_clauses } => comp_sources(
                    *final(self),
                    comp_clauses@,
                    id,
                ),
                _ => true,
            },
    {
        let id = ExprId(self.module.exprs.len());
        match &expr {
            Expr::ListComp { expr: _, comp_clauses } => self.record_loops(comp_clauses, id),
            Expr::DictComp { entry: _, comp_clauses } => self.record_loops(comp_clauses, id),
            _ => {},
        }
        let ghost before = *self;
        let ghost node = expr;
        self.module.exprs.push(expr);
        self.source_map.expr_map_back.push(Some(range));
        proof {
            reveal(Lowering::records);
            assert(self.records() =~~= before.records().with_exprs(1));
            assert(before.leads_to(*self));
            leads_on(*old(self), before, *self);
            kept_wf(before.module, self.module);
            match node {
                Expr::ListComp { expr: _, comp_clauses } => {
                    crate::lower_proof::kept_comp_sources(before, *self, comp_clauses@, id);
                },
                Expr::DictComp { entry: _, comp_clauses } => {
                    crate::lower_proof::kept_comp_sources(before, *self, comp_clauses@, id);
                },
                _ => {},
            }
        }
        id
    }

    /// Records the loops of comprehension `id` as the places where the elements
    /// of their iterables go.
    fn record_loops(&mut self, clauses: &Vec<CompClause>, id: ExprId)
        requires
            old(self).wf(),
            clauses_below(clauses@, old(self).module.exprs@.len()),
        ensures
            final(self).wf(),
            old(self).leads_to(*final(self)),
            final(self).module.exprs@ == old(self).module.exprs@,
            final(self).module.params@ == old(self).module.params@,
            comp_sources(*final(self), clauses@, id),
            final(self).records() == old(self).records().loops(
                loop_sources(*old(self), clauses@),
                id,
                clauses@.len(),
            ),
    {
        let mut c: usize = 0;
        while c < clauses.len()
            invariant
                c <= clauses@.len(),
                self.wf(),
                old(self).leads_to(*self),
                self.module.exprs@ == old(self).module.exprs@,
                self.module.params@ == old(self).module.params@,
                self.source_map == old(self).source_map,
                self.records() == old(self).records().loops(
                    loop_sources(*old(self), clauses@),
                    id,
                    c as nat,
                ),
                clauses_below(clauses@, self.module.exprs@.len()),
                forall|k: int|
                    0 <= k < c ==> match #[trigger] clauses@[k] {
                        CompClause::For { iterable, targets: _ } => self.flows_to(
                            iterable,
                            AssignmentSource::Comprehension { expression: id, clause: k as usize },
                        ),
                        _ => true,
                    },
            decreases clauses@.len() - c,
        {
            let ghost before = *self;
            match &clauses[c] {
                CompClause::For { iterable, targets: _ } => {
                    proof {
                        assert(clauses@[c as int] matches CompClause::For { iterable: i, targets: t }
                            && i.0 < self.module.exprs@.len());
                    }
                    if self.source_map.expr_map_back[iterable.0].is_some() {
                        let place = AssignmentSource::Comprehension { expression: id, clause: c };
                        self.module.assignment_sources.push((*iterable, place));
                        proof {
                            reveal(Lowering::records);
                            assert(self.records() =~~= before.records().flow(*iterable, place));
                            let log = self.module.assignment_sources@;
                            assert(log[log.len() - 1] == (*iterable, place));
                        }
                    }
                },
                _ => {},
            }
            proof {
                assert(before.leads_to(*self));
                leads_on(*old(self), before, *self);
                kept_wf(before.module, self.module);
                assert forall|k: int| 0 <= k < c implies match #[trigger] clauses@[k] {
                    CompClause::For { iterable, targets: _ } => self.flows_to(
                        iterable,
                        AssignmentSource::Comprehension { expression: id, clause: k as usize },
                    ),
                    _ => true,
                } by {
                    match clauses@[k] {
                        CompClause::For { iterable, targets: _ } => kept_flow(
                            before,
                            *self,
                            iterable,
                            AssignmentSource::Comprehension { expression: id, clause: k as usize },
                        ),
                        _ => {},
                    }
                }
            }
            c = c + 1;
        }
    }

    /// Adds an expression that the source leaves out.
    fn lower_expr_missing(&mut self) -> (id: ExprId)
        requires
            old(self).wf(),
        ensures
            final(self).wf(),
            old(self).leads_to(*final(self)),
            final(self).missing(id),
            (final(self).records(), id) == old(self).records().add_expr(),
    {
        let ghost before = *self;
        let id = ExprId(self.module.exprs.len());
        self.module.exprs.push(Expr::Missing);
        self.source_map.expr_map_back.push(None);
        proof {
            reveal(Lowering::records);
            assert(self.records() =~~= before.records().with_exprs(1));
            kept_wf(before.module, self.module);
        }
        id
    }

    /// Lowers an expression with its parentheses inside `parent`.
    pub fn lower_expr(&mut self, src: &Source, e: &syntax::Expr, parent: Span) -> (id: ExprId)
        requires
            old(self).wf(),
        ensures
            final(self).wf(),
            old(self).leads_to(*final(self)),
            expr_at(*src, *e, parent, *final(self), id),
            (final(self).records(), id) == after_expr(*src, old(self).records(), *e, parent),
        decreases e, 1nat,
    {
        let bare = self.lower_bare_expr(src, e);
        proof {
            crate::lower_proof::bare_exists(*src, *e, *self, bare);
        }
        let ghost lowered = *self;
        let is_missing = match &self.module.exprs[bare.0] {
            Expr::Missing => true,
            _ => false,
        };
        if !is_missing {
            self.source_map.expr_nodes.push((e.node, bare));
            proof {
                reveal(Lowering::records);
                assert(self.records() =~~= (Records {
                    expr_nodes: lowered.records().expr_nodes.push((e.node, bare)),
                    ..lowered.records()
                }));
                let log = self.source_map.expr_nodes@;
                assert(log[log.len() - 1] == (e.node, bare));
                kept_wf(lowered.module, self.module);
            }
        }
        proof {
            assert(lowered.leads_to(*self));
            leads_on(*old(self), lowered, *self);
            crate::lower_proof::kept_bare(*src, *e, lowered, *self, bare);
        }
        let ghost start = *self;
        let count = parens_inside(e, parent);
        let mut id = bare;
        let mut k: usize = 0;
        while k < count
            invariant
                k <= count <= e.parens@.len(),
                self.wf(),
                old(self).leads_to(start),
                start.leads_to(*self),
                start.wf(),
                bare.0 < start.module.exprs@.len(),
                id.0 < self.module.exprs@.len(),
                wrapped(*self, e.parens@, k as nat, id),
                below_parens(self.module.exprs@, id, k as nat) == bare,
                self.records() == start.records().with_exprs(k as nat),
                id == if k == 0 {
                    bare
                } else {
                    ExprId((start.records().exprs + k - 1) as usize)
                },
            decreases count - k,
        {
            let ghost before = *self;
            let inner = id;
            id = self.alloc_expr(Expr::Paren { expr: inner }, e.parens[k]);
            proof {
                leads_on(start, before, *self);
                crate::lower_proof::kept_wrapped(before, *self, e.parens@, k as nat, inner);
            }
            k = k + 1;
        }
        proof {
            leads_on(*old(self), start, *self);
            crate::lower_proof::kept_bare(*src, *e, start, *self, bare);
            assert(start.module.exprs@[bare.0 as int] == self.module.exprs@[bare.0 as int]);
            if !is_missing {
                kept_member(
                    start.source_map.expr_nodes@,
                    self.source_map.expr_nodes@,
                    (e.node, bare),
                );
            }
        }
        id
    }

    /// Lowers a list of expressions inside `parent`.
    fn lower_exprs(
        &mut self,
        src: &Source,
        elts: &Vec<syntax::Expr>,
        parent: Span,
    ) -> (ids: Vec<ExprId>)
        requires
            old(self).wf(),
        ensures
            final(self).wf(),
            old(self).leads_to(*final(self)),
            exprs_at(*src, elts@, parent, *final(self), ids@),
            all_below(ids@, final(self).module.exprs@.len()),
            final(self).records() == after_exprs(*src, old(self).records(), elts@, parent),
        decreases elts, 0nat,
    {
        let mut ids: Vec<ExprId> = Vec::new();
        let mut i: usize = 0;
        while i < elts.len()
            invariant
                i <= elts@.len(),
                ids@.len() == i,
                self.wf(),
                old(self).leads_to(*self),
                forall|k: int|
                    0 <= k < i ==> expr_at(*src, elts@[k], parent, *self, #[trigger] ids@[k]),
                all_below(ids@, self.module.exprs@.len()),
                self.records() == after_exprs(
                    *src,
                    old(self).records(),
                    elts@.take(i as int),
                    parent,
                ),
            decreases elts@.len() - i,
        {
            let ghost before = *self;
            let id = self.lower_expr(src, &elts[i], parent);
            proof {
                assert(elts@.take(i + 1).drop_last() =~= elts@.take(i as int));
                leads_on(*old(self), before, *self);
                expr_exists(*src, elts@[i as int], parent, *self, id);
                assert forall|k: int| 0 <= k < i implies expr_at(
                    *src,
                    elts@[k],
                    parent,
                    *self,
                    #[trigger] ids@[k],
                ) by {
                    kept_expr(*src, elts@[k], parent, before, *self, ids@[k]);
                }
            }
            ids.push(id);
            i = i + 1;
        }
        proof {
            assert(elts@.take(i as int) =~= elts@);
        }
        ids
    }

    /// Lowers an optional expression inside `parent`.
    fn lower_expr_opt(
        &mut self,
        src: &Source,
        e: &Option<Box<syntax::Expr>>,
        parent: Span,
    ) -> (id: Option<ExprId>)
        requires
            old(self).wf(),
        ensures
            final(self).wf(),
            old(self).leads_to(*final(self)),
            expr_opt_at(*src, *e, parent, *final(self), id),
            opt_below(id, final(self).module.exprs@.len()),
            final(self).records() == after_opt(*src, old(self).records(), *e, parent),
        decreases e, 0nat,
    {
        match e {
            Some(e) => {
                let id = self.lower_expr(src, e, parent);
                proof {
                    expr_exists(*src, **e, parent, *self, id);
                }
                Some(id)
            },
            None => None,
        }
    }

    /// Lowers a chain of operands with an operator between each two, from the
    /// left. Operands beyond the operators are left out.
    fn lower_chain(
        &mut self,
        src: &Source,
        values: &Vec<syntax::Expr>,
        ops: &Vec<Option<BinaryOp>>,
        parent: Span,
    ) -> (id: ExprId)
        requires
            old(self).wf(),
        ensures
            final(self).wf(),
            old(self).leads_to(*final(self)),
            chain_at(
                *src,
                values@,
                ops@,
                parent,
                *final(self),
                id,
                chain_len(values@.len(), ops@.len()),
            ),
            (final(self).records(), id) == after_chain(
                *src,
                old(self).records(),
                values@,
                parent,
                chain_len(values@.len(), ops@.len()),
            ),
        decreases values, 0nat,
    {
        if values.len() == 0 {
            return self.lower_expr_missing();
        }
        let mut id = self.lower_expr(src, &values[0], parent);
        proof {
            expr_exists(*src, values@[0], parent, *self, id);
        }
        let mut range = expr_range(&values[0], parent);
        let mut k: usize = 1;
        while k < values.len() && k - 1 < ops.len()
            invariant
                1 <= k <= values@.len(),
                k - 1 <= ops@.len(),
                self.wf(),
                old(self).leads_to(*self),
                id.0 < self.module.exprs@.len(),
                range == chain_range(values@, parent, k as nat),
                chain_at(*src, values@, ops@, parent, *self, id, k as nat),
                (self.records(), id) == after_chain(
                    *src,
                    old(self).records(),
                    values@,
                    parent,
                    k as nat,
                ),
            decreases values@.len() - k,
        {
            let ghost first = *self;
            let rhs = self.lower_expr(src, &values[k], parent);
            let ghost second = *self;
            proof {
                expr_exists(*src, values@[k as int], parent, second, rhs);
            }
            range = range.cover(expr_range(&values[k], parent));
            let lhs = id;
            id = self.alloc_expr(Expr::Binary { lhs, rhs, op: ops[k - 1] }, range);
            proof {
                leads_on(first, second, *self);
                leads_on(*old(self), first, *self);
                kept_chain(*src, values@, ops@, parent, first, *self, lhs, k as nat);
                kept_expr(*src, values@[k as int], parent, second, *self, rhs);
            }
            k = k + 1;
        }
        id
    }

    /// Lowers the arguments of a call.
    fn lower_args(&mut self, src: &Source, arguments: &Arguments) -> (args: Vec<Argument>)
        requires
            old(self).wf(),
        ensures
            final(self).wf(),
            old(self).leads_to(*final(self)),
            args_at(*src, arguments.items@, arguments.range, *final(self), args@),
            final(self).records() == after_args(
                *src,
                old(self).records(),
                arguments.items@,
                arguments.range,
            ),
        decreases arguments, 0nat,
    {
        let mut args: Vec<Argument> = Vec::new();
        let mut i: usize = 0;
        while i < arguments.items.len()
            invariant
                i <= arguments.items@.len(),
                args@.len() == i,
                self.wf(),
                old(self).leads_to(*self),
                forall|k: int|
                    0 <= k < i ==> arg_at(
                        *src,
                        arguments.items@[k],
                        arguments.range,
                        *self,
                        #[trigger] args@[k],
                    ),
                self.records() == after_args(
                    *src,
                    old(self).records(),
                    arguments.items@.take(i as int),
                    arguments.range,
                ),
            decreases arguments.items@.len() - i,
        {
            let ghost before = *self;
            let arg = self.lower_arg(src, &arguments.items[i], arguments.range);
            proof {
                assert(arguments.items@.take(i + 1).drop_last() =~= arguments.items@.take(
                    i as int,
                ));
                leads_on(*old(self), before, *self);
                assert forall|k: int| 0 <= k < i implies arg_at(
                    *src,
                    arguments.items@[k],
                    arguments.range,
                    *self,
                    #[trigger] args@[k],
                ) by {
                    crate::lower_proof::kept_arg(
                        *src,
                        arguments.items@[k],
                        arguments.range,
                        before,
                        *self,
                        args@[k],
                    );
                }
            }
            args.push(arg);
            i = i + 1;
        }
        proof {
            assert(arguments.items@.take(i as int) =~= arguments.items@);
        }
        args
    }

    /// Lowers one argument of a call.
    fn lower_arg(&mut self, src: &Source, item: &ArgItem, range: Span) -> (arg: Argument)
        requires
            old(self).wf(),
        ensures
            final(self).wf(),
            old(self).leads_to(*final(self)),
            arg_at(*src, *item, range, *final(self), arg),
            final(self).records() == after_arg(*src, old(self).records(), *item, range),
        decreases item, 0nat,
    {
        match item {
            ArgItem::Arg(e) => match &e.kind {
                ExprKind::Starred { value } => {
                    let expr = self.lower_expr(src, value, e.range);
                    Argument::UnpackedList { expr }
                },
                _ => {
                    let expr = self.lower_expr(src, e, range);
                    Argument::Simple { expr }
                },
            },
            ArgItem::Keyword { range: _, node: _, name, value } => {
                let expr = self.lower_expr(src, value, range);
                match name {
                    Some(written) => {
                        let ghost before = *self;
                        self.source_map.keyword_names.push((expr, written.range));
                        proof {
                            reveal(Lowering::records);
                            assert(self.records() =~~= (Records {
                                keyword_names: before.records().keyword_names.push(
                                    (expr, written.range),
                                ),
                                ..before.records()
                            }));
                            let log = self.source_map.keyword_names@;
                            assert(log[log.len() - 1] == (expr, written.range));
                            assert(before.leads_to(*self));
                            leads_on(*old(self), before, *self);
                            kept_wf(before.module, self.module);
                            kept_expr(*src, *value, range, before, *self, expr);
                        }
                        Argument::Keyword { name: lower_name(written.text.as_str()), expr }
                    },
                    None => Argument::UnpackedDict { expr },
                }
            },
        }
    }

    /// Lowers the target of a loop.
    fn lower_loop_variables(
        &mut self,
        src: &Source,
        target: &syntax::Expr,
        parent: Span,
    ) -> (targets: Vec<ExprId>)
        requires
            old(self).wf(),
        ensures
            final(self).wf(),
            old(self).leads_to(*final(self)),
            targets_at(*src, *target, parent, *final(self), targets@),
            all_below(targets@, final(self).module.exprs@.len()),
            final(self).records() == after_targets(*src, old(self).records(), *target, parent),
        decreases target, 2nat,
    {
        match &target.kind {
            ExprKind::Tuple { elts, parenthesized: false } => {
                return self.lower_exprs(src, elts, target.range);
            },
            _ => {},
        }
        let id = self.lower_expr(src, target, parent);
        proof {
            expr_exists(*src, *target, parent, *self, id);
        }
        let mut targets: Vec<ExprId> = Vec::new();
        targets.push(id);
        targets
    }

    /// Lowers the generators of a comprehension.
    fn lower_comp_clauses(
        &mut self,
        src: &Source,
        generators: &Vec<Comprehension>,
    ) -> (clauses: Vec<CompClause>)
        requires
            old(self).wf(),
        ensures
            final(self).wf(),
            old(self).leads_to(*final(self)),
            comp_at(*src, generators@, *final(self), clauses@),
            clauses_below(clauses@, final(self).module.exprs@.len()),
            (final(self).records(), loop_sources(*final(self), clauses@)) == after_comp(
                *src,
                old(self).records(),
                generators@,
            ),
        decreases generators, 0nat,
    {
        let mut clauses: Vec<CompClause> = Vec::new();
        let mut i: usize = 0;
        while i < generators.len()
            invariant
                i <= generators@.len(),
                self.wf(),
                old(self).leads_to(*self),
                comp_at(*src, generators@.take(i as int), *self, clauses@),
                clauses_below(clauses@, self.module.exprs@.len()),
                (self.records(), loop_sources(*self, clauses@)) == after_comp(
                    *src,
                    old(self).records(),
                    generators@.take(i as int),
                ),
            decreases generators@.len() - i,
        {
            let ghost before = *self;
            let ghost done = clauses@;
            let ghost g = generators@[i as int];
            let range = generators[i].range;
            let iterable = self.lower_expr(src, &generators[i].iter, range);
            let ghost first = *self;
            let targets = self.lower_loop_variables(src, &generators[i].target, range);
            let ghost second = *self;
            proof {
                leads_on(before, first, second);
                leads_on(*old(self), before, second);
                expr_exists(*src, g.iter, range, first, iterable);
                kept_expr(*src, g.iter, range, first, second, iterable);
                kept_comp(*src, generators@.take(i as int), before, second, done);
            }
            clauses.push(CompClause::For { iterable, targets });
            let ghost base = done.len() as int;
            proof {
                assert(second.leads_to(second));
                assert(g.ifs@.take(0) =~= seq![]);
            }
            let mut j: usize = 0;
            while j < generators[i].ifs.len()
                invariant
                    i < generators@.len(),
                    g == generators@[i as int],
                    range == g.range,
                    j <= g.ifs@.len(),
                    base == done.len(),
                    clauses@.len() == base + 1 + j,
                    clauses@.take(base) == done,
                    clauses@[base] == (CompClause::For { iterable, targets }),
                    self.wf(),
                    old(self).leads_to(*self),
                    comp_at(*src, generators@.take(i as int), *self, done),
                    expr_at(*src, g.iter, range, *self, iterable),
                    targets_at(*src, g.target, range, *self, targets@),
                    forall|k: int|
                        0 <= k < j ==> match #[trigger] clauses@[base + 1 + k] {
                            CompClause::If { test } => expr_at(
                                *src,
                                g.ifs@[k],
                                range,
                                *self,
                                test,
                            ),
                            _ => false,
                        },
                    clauses_below(clauses@, self.module.exprs@.len()),
                    second.leads_to(*self),
                    self.records() == after_exprs(
                        *src,
                        second.records(),
                        g.ifs@.take(j as int),
                        range,
                    ),
                decreases g.ifs@.len() - j,
            {
                let ghost third = *self;
                let ghost earlier = clauses@;
                let test = self.lower_expr(src, &generators[i].ifs[j], range);
                proof {
                    leads_on(*old(self), third, *self);
                    leads_on(second, third, *self);
                    assert(g.ifs@.take(j + 1).drop_last() =~= g.ifs@.take(j as int));
                    expr_exists(*src, g.ifs@[j as int], range, *self, test);
                    kept_comp(*src, generators@.take(i as int), third, *self, done);
                    kept_expr(*src, g.iter, range, third, *self, iterable);
                    kept_targets(*src, g.target, range, third, *self, targets@);
                }
                clauses.push(CompClause::If { test });
                proof {
                    assert(clauses@.take(base) =~= earlier.take(base));
                    assert forall|k: int| 0 <= k < j + 1 implies match #[trigger] clauses@[base + 1
                        + k] {
                        CompClause::If { test } => expr_at(*src, g.ifs@[k], range, *self, test),
                        _ => false,
                    } by {
                        if k < j {
                            assert(clauses@[base + 1 + k] == earlier[base + 1 + k]);
                            match earlier[base + 1 + k] {
                                CompClause::If { test } => kept_expr(
                                    *src,
                                    g.ifs@[k],
                                    range,
                                    third,
                                    *self,
                                    test,
                                ),
                                _ => {},
                            }
                        }
                    }
                }
                j = j + 1;
            }
            proof {
                let taken = generators@.take(i + 1);
                assert(taken.last() == g);
                assert(taken.drop_last() =~= generators@.take(i as int));
                assert(g.ifs@.take(j as int) =~= g.ifs@);
                leads_on(before, second, *self);
                expr_exists(*src, g.iter, range, *self, iterable);
                let looped = if has_range(g.iter, range) {
                    Some(iterable)
                } else {
                    None
                };
                assert(loop_sources(*self, clauses@) =~= loop_sources(before, done).push(looped)
                    + Seq::new(g.ifs@.len(), |i: int| None::<ExprId>)) by {
                    assert forall|k: int| 0 <= k < base implies loop_sources(*self, clauses@)[k]
                        == loop_sources(before, done)[k] by {
                        assert(clauses@.take(base)[k] == clauses@[k]);
                        match done[k] {
                            CompClause::For { iterable, targets: _ } => {
                                assert(iterable.0 < before.module.exprs@.len());
                                assert(before.source_map.expr_map_back@[iterable.0 as int]
                                    == self.source_map.expr_map_back@[iterable.0 as int]);
                            },
                            _ => {},
                        }
                    }
                    assert forall|k: int| base < k < clauses@.len() implies (
                    #[trigger] loop_sources(*self, clauses@)[k]) is None by {
                        assert(clauses@[base + 1 + (k - base - 1)] is If);
                    }
                }
            }
            i = i + 1;
        }
        proof {
            assert(generators@.take(i as int) =~= generators@);
        }
        clauses
    }

    /// Lowers the items of a dictionary.
    fn lower_entries(
        &mut self,
        src: &Source,
        items: &Vec<DictItem>,
        parent: Span,
    ) -> (entries: Vec<DictEntry>)
        requires
            old(self).wf(),
        ensures
            final(self).wf(),
            old(self).leads_to(*final(self)),
            entries_at(*src, items@, parent, *final(self), entries@),
            forall|i: int|
                0 <= i < entries@.len() ==> (#[trigger] entries@[i]).key.0
                    < final(self).module.exprs@.len() && entries@[i].value.0
                    < final(self).module.exprs@.len(),
            final(self).records() == after_entries(*src, old(self).records(), items@, parent),
        decreases items, 0nat,
    {
        let mut entries: Vec<DictEntry> = Vec::new();
        let mut i: usize = 0;
        while i < items.len()
            invariant
                i <= items@.len(),
                self.wf(),
                old(self).leads_to(*self),
                entries_at(*src, items@.take(i as int), parent, *self, entries@),
                forall|k: int|
                    0 <= k < entries@.len() ==> (#[trigger] entries@[k]).key.0
                        < self.module.exprs@.len() && entries@[k].value.0
                        < self.module.exprs@.len(),
                self.records() == after_entries(
                    *src,
                    old(self).records(),
                    items@.take(i as int),
                    parent,
                ),
            decreases items@.len() - i,
        {
            let ghost before = *self;
            let ghost taken = items@.take(i + 1);
            proof {
                assert(taken.drop_last() =~= items@.take(i as int));
                assert(taken.last() == items@[i as int]);
            }
            match &items[i].key {
                Some(key) => {
                    let key_id = self.lower_expr(src, key, parent);
                    let ghost first = *self;
                    let value = self.lower_expr(src, &items[i].value, parent);
                    proof {
                        leads_on(before, first, *self);
                        leads_on(*old(self), before, *self);
                        kept_expr(*src, *key, parent, first, *self, key_id);
                        expr_exists(*src, *key, parent, *self, key_id);
                        expr_exists(*src, items@[i as int].value, parent, *self, value);
                        kept_entries(
                            *src,
                            items@.take(i as int),
                            parent,
                            before,
                            *self,
                            entries@,
                        );
                    }
                    let ghost earlier = entries@;
                    entries.push(DictEntry { key: key_id, value });
                    proof {
                        assert(entries@.drop_last() =~= earlier);
                    }
                },
                None => {},
            }
            i = i + 1;
        }
        proof {
            assert(items@.take(i as int) =~= items@);
        }
        entries
    }

    /// Adds a parameter with its range.
    fn alloc_param(&mut self, param: Param, range: Span) -> (id: ParamId)
        requires
            old(self).wf(),
        ensures
            final(self).wf(),
            old(self).leads_to(*final(self)),
            final(self).module.exprs@ == old(self).module.exprs@,
            id.0 == old(self).module.params@.len(),
            id.0 < final(self).module.params@.len(),
            final(self).module.params@[id.0 as int] == param,
            final(self).source_map.param_map_back@[id.0 as int] == range,
            (final(self).records(), id) == old(self).records().add_param(None, None),
    {
        let ghost before = *self;
        let id = ParamId(self.module.params.len());
        self.module.params.push(param);
        self.source_map.param_map_back.push(range);
        proof {
            reveal(Lowering::records);
            assert(self.records() =~~= before.records().add_param(None, None).0);
            kept_wf(before.module, self.module);
        }
        id
    }

    /// Reports errors about `range`.
    fn report(&mut self, range: Span, messages: &Vec<String>)
        requires
            old(self).wf(),
        ensures
            final(self).wf(),
            old(self).leads_to(*final(self)),
            final(self).module == old(self).module,
            forall|m: int|
                0 <= m < messages@.len() ==> reported(
                    final(self).errors@,
                    range,
                    #[trigger] messages@[m]@,
                ),
            final(self).records() == old(self).records().report(range, views(messages@)),
    {
        let mut m: usize = 0;
        proof {
            assert(self.records() =~~= self.records().report(range, views(messages@).take(0)));
        }
        while m < messages.len()
            invariant
                m <= messages@.len(),
                self.wf(),
                old(self).leads_to(*self),
                self.module == old(self).module,
                forall|k: int|
                    0 <= k < m ==> reported(self.errors@, range, #[trigger] messages@[k]@),
                self.records() == old(self).records().report(
                    range,
                    views(messages@).take(m as int),
                ),
            decreases messages@.len() - m,
        {
            let ghost before = *self;
            let message = messages[m].clone();
            self.errors.push(SyntaxError { range, message });
            proof {
                leads_on(*old(self), before, *self);
                kept_wf(before.module, self.module);
                let all = views(messages@);
                let told = old(self).records();
                let error = (range, messages@[m as int]@);
                assert(all.take(m + 1)[m as int] == messages@[m as int]@);
                assert(told.report(range, all.take(m + 1)).errors =~= told.report(
                    range,
                    all.take(m as int),
                ).errors.push(error));
                assert(self.records() =~~= told.report(range, all.take(m + 1))) by {
                    reveal(Lowering::records);
                    assert(errors_of(self.errors@) =~= errors_of(before.errors@).push(error));
                    assert(self.records() =~~= (Records {
                        errors: before.records().errors.push(error),
                        ..before.records()
                    }));
                }
                let n = before.errors@.len() as int;
                assert(self.errors@[n].range == range && self.errors@[n].message@
                    == messages@[m as int]@);
                assert forall|k: int| 0 <= k < m implies reported(
                    self.errors@,
                    range,
                    #[trigger] messages@[k]@,
                ) by {
                    kept_report(before.errors@, self.errors@, range, messages@[k]@);
                }
            }
            m = m + 1;
        }
        proof {
            assert(views(messages@).take(m as int) =~= views(messages@));
        }
    }

    /// The type of the `k`-th parameter: that of its own comment, or else that
    /// of the function's comment.
    fn lower_param_type(
        src: &Source,
        comment: Option<usize>,
        types: &Vec<Arc<TypeRef>>,
        k: usize,
    ) -> (r: Option<Arc<TypeRef>>)
        requires
            comment is Some ==> comment->0 < src.comments@.len(),
        ensures
            match comment {
                Some(c) => r is Some && r->0.shape() == type_shape_opt(src.comments@[c as int].ty),
                None => if k < types@.len() {
                    r == Some(types@[k as int])
                } else {
                    r is None
                },
            },
    {
        match comment {
            Some(c) => Some(Arc::new(lower_type_opt(&src.comments[c].ty))),
            None => if k < types.len() {
                Some(types[k].clone())
            } else {
                None
            },
        }
    }

    /// Lowers place `slot` of a list of parameters, leaving its index open.
    fn lower_param(
        &mut self,
        src: &Source,
        p: &Parameters,
        slot: usize,
        type_ref: Option<Arc<TypeRef>>,
        doc: &Option<String>,
    ) -> (param: Param)
        requires
            old(self).wf(),
            slot < slot_count(*p),
        ensures
            final(self).wf(),
            old(self).leads_to(*final(self)),
            param_type(param) == type_ref,
            opt_below(param.default_value(), final(self).module.exprs@.len()),
            if slot < p.items@.len() {
                let item = p.items@[slot as int];
                let text = name_text(item.name@);
                match (item.form, param) {
                    (
                        ParameterForm::Plain { default: wanted },
                        Param::Simple { name, default, type_ref: _, doc: text_doc },
                    ) => {
                        &&& name@ == text
                        &&& text_of(text_doc) == param_doc(text_of(*doc), text)
                        &&& expr_opt_at(*src, wanted, item.owner, *final(self), default)
                    },
                    (
                        ParameterForm::Variadic,
                        Param::ArgsList { name, type_ref: _, doc: text_doc },
                    ) => {
                        &&& name@ == text
                        &&& text_of(text_doc) == param_doc(text_of(*doc), text)
                    },
                    (
                        ParameterForm::KeywordVariadic,
                        Param::KwargsDict { name, type_ref: _, doc: text_doc },
                    ) => {
                        &&& name@ == text
                        &&& text_of(text_doc) == param_doc(text_of(*doc), text)
                    },
                    _ => false,
                }
            } else {
                match param {
                    Param::ArgsList { name, type_ref: _, doc: None } => name@ == missing_text(),
                    _ => false,
                }
            },
            final(self).records() == if slot < p.items@.len() {
                match p.items@[slot as int].form {
                    ParameterForm::Plain { default } => after_opt(
                        *src,
                        old(self).records(),
                        default,
                        p.items@[slot as int].owner,
                    ),
                    _ => old(self).records(),
                }
            } else {
                old(self).records()
            },
            fits(param, outline(*p, slot as int)),
        decreases p, 0nat,
    {
        if slot < p.items.len() {
            let name = lower_name(p.items[slot].name.as_str());
            let text = find_doc(doc, name.as_str());
            match &p.items[slot].form {
                ParameterForm::Plain { default } => {
                    let value = self.lower_expr_opt(src, default, p.items[slot].owner);
                    Param::Simple { name, default: value, type_ref, doc: text }
                },
                ParameterForm::Variadic => Param::ArgsList { name, type_ref, doc: text },
                ParameterForm::KeywordVariadic => Param::KwargsDict { name, type_ref, doc: text },
            }
        } else {
            Param::ArgsList { name: Name::missing(), type_ref, doc: None }
        }
    }

    /// The errors of `param`, which follows the parameters `ids`.
    pub fn parameter_errors(&self, ids: &Vec<ParamId>, param: &Param) -> (r: Vec<String>)
        requires
            forall|i: int| 0 <= i < ids@.len() ==> (#[trigger] ids@[i]).0 < self.module.params@.len(),
        ensures
            r@.len() == param_errors(params_of(*self, ids@).push(*param), ids@.len() as int).len(),
            forall|m: int|
                0 <= m < r@.len() ==> (#[trigger] r@[m])@ == param_errors(
                    params_of(*self, ids@).push(*param),
                    ids@.len() as int,
                )[m],
    {
        let ghost all = params_of(*self, ids@).push(*param);
        let mut star = false;
        let mut star_star = false;
        let mut default = false;
        let mut duplicate = false;
        let mut i: usize = 0;
        while i < ids.len()
            invariant
                i <= ids@.len(),
                all == params_of(*self, ids@).push(*param),
                forall|i: int|
                    0 <= i < ids@.len() ==> (#[trigger] ids@[i]).0 < self.module.params@.len(),
                star == exists|j: int| 0 <= j < i && #[trigger] all[j] is ArgsList,
                star_star == exists|j: int| 0 <= j < i && #[trigger] all[j] is KwargsDict,
                default == exists|j: int|
                    0 <= j < i && (#[trigger] all[j]) is Simple && all[j].default_value() is Some,
                duplicate == exists|j: int|
                    0 <= j < i && (#[trigger] all[j]).label() == param.label(),
            decreases ids@.len() - i,
        {
            let other = &self.module.params[ids[i].0];
            assert(all[i as int] == *other);
            match other {
                Param::Simple { name: _, default: value, type_ref: _, doc: _ } => {
                    if value.is_some() {
                        default = true;
                    }
                },
                Param::ArgsList { .. } => {
                    star = true;
                },
                Param::KwargsDict { .. } => {
                    star_star = true;
                },
            }
            if crate::text::same(other.name().as_str(), param.name().as_str()) {
                duplicate = true;
            }
            i = i + 1;
        }
        proof {
            assert(all[ids@.len() as int] == *param);
        }
        let mut out: Vec<String> = Vec::new();
        if duplicate && !param.name().is_missing() {
            out.push(crate::text::join("Duplicate parameter ", param.name().as_str()));
        }
        match param {
            Param::Simple { name: _, default: value, type_ref: _, doc: _ } => {
                if default && !star && value.is_none() {
                    out.push("Non-default parameter cannot follow default parameter".to_owned());
                }
                if star_star {
                    out.push("Parameter cannot follow \"**\" parameter".to_owned());
                }
            },
            Param::ArgsList { .. } => {
                if star {
                    out.push("Only one \"*\" parameter is allowed".to_owned());
                }
                if star_star {
                    out.push("Parameter cannot follow \"**\" parameter".to_owned());
                }
            },
            Param::KwargsDict { .. } => {
                if star_star {
                    out.push("Only one \"**\" parameter is allowed".to_owned());
                }
            },
        }
        out
    }

    /// Lowers the parameters of a function in the order in which they start.
    /// `types` are those of the function's comment, `doc` is its docstring.
    pub fn lower_params(
        &mut self,
        src: &Source,
        p: &Parameters,
        types: &Vec<Arc<TypeRef>>,
        doc: &Option<String>,
    ) -> (ids: Vec<ParamId>)
        requires
            old(self).wf(),
        ensures
            final(self).wf(),
            old(self).leads_to(*final(self)),
            params_at(*src, *p, arc_shapes(types@), text_of(*doc), *final(self), ids@),
            params_below(final(self).module.params@, ids@, final(self).module.exprs@.len()),
            (final(self).records(), ids@) == after_params(
                *src,
                old(self).records(),
                *p,
                slot_count(*p),
            ),
        decreases p, 1nat,
    {
        let order = ordered_slots(p);
        let ghost slots = slot_order(*p, slot_count(*p));
        let ghost text = text_of(*doc);
        proof {
            crate::lower_proof::slots_have_turns(*p, slot_count(*p));
        }
        let mut ids: Vec<ParamId> = Vec::new();
        let mut k: usize = 0;
        while k < order.len()
            invariant
                k <= order@.len(),
                ids@.len() == k,
                slots == slot_order(*p, slot_count(*p)),
                text == text_of(*doc),
                order@.len() == slots.len(),
                forall|i: int|
                    0 <= i < order@.len() ==> #[trigger] order@[i] == slots[i] && order@[i]
                        < slot_count(*p),
                self.wf(),
                old(self).leads_to(*self),
                forall|j: int|
                    0 <= j < k ==> {
                        &&& param_at(*src, *p, slots[j], text, *self, #[trigger] ids@[j])
                        &&& param_typed(*src, *p, j, arc_shapes(types@), *self, ids@[j])
                    },
                forall|j: int, m: int|
                    0 <= j < k && 0 <= m < param_errors(params_of(*self, ids@), j).len()
                        ==> reported(
                        self.errors@,
                        slot_range(*p, slots[j]),
                        #[trigger] param_errors(params_of(*self, ids@), j)[m],
                    ),
                params_below(self.module.params@, ids@, self.module.exprs@.len()),
                (self.records(), ids@) == after_params(*src, old(self).records(), *p, k as nat),
                forall|j: int|
                    0 <= j < k ==> fits(#[trigger] params_of(*self, ids@)[j], outlines(*p)[j]),
                order@.len() == slot_count(*p),
            decreases order@.len() - k,
        {
            let ghost before = *self;
            let ghost earlier = ids@;
            let slot = order[k];
            let range = place_range(p, slot);
            let end: u32 = if k + 1 < order.len() {
                place_range(p, order[k + 1]).start
            } else {
                p.range.end
            };
            let stop: u32 = if end <= range.end {
                range.end
            } else {
                end
            };
            let comment = comment_in(src, Span { start: range.end, end: stop });
            let type_ref = Self::lower_param_type(src, comment, types, k);
            let param = self.lower_param(src, p, slot, type_ref, doc);
            let ghost first = *self;
            let ghost made = param;
            proof {
                leads_on(*old(self), before, first);
                crate::lower_proof::kept_params_below(
                    before.module.params@,
                    first.module.params@,
                    earlier,
                    before.module.exprs@.len(),
                    first.module.exprs@.len(),
                );
            }
            let messages = self.parameter_errors(&ids, &param);
            proof {
                let all = params_of(first, earlier).push(made);
                assert forall|j: int| 0 <= j <= k implies fits(#[trigger] all[j], outlines(*p)[j]) by {
                    if j < k {
                        assert(earlier[j].0 < before.module.params@.len());
                        assert(params_of(before, earlier)[j] == all[j]);
                    }
                }
                errors_fit(all, outlines(*p), k as int);
                assert(views(messages@) =~= outline_errors(outlines(*p), k as int));
            }
            self.report(range, &messages);
            let ghost second = *self;
            let id = self.alloc_param(param, range);
            let ghost third = *self;
            if slot < p.items.len() {
                self.source_map.param_nodes.push((p.items[slot].node, id));
                proof {
                    let log = self.source_map.param_nodes@;
                    assert(log[log.len() - 1] == (p.items@[slot as int].node, id));
                    kept_wf(third.module, self.module);
                }
            }
            let ghost fourth = *self;
            if let Some(c) = comment {
                let owner = (src.comments[c].range, TypeCommentOwner::Parameter(id));
                self.source_map.type_comment_owners.push(owner);
                proof {
                    let log = self.source_map.type_comment_owners@;
                    assert(log[log.len() - 1] == owner);
                    kept_wf(fourth.module, self.module);
                }
            }
            ids.push(id);
            proof {
                reveal(Lowering::records);
                assert(self.records() =~~= second.records().add_param(
                    if slot < p.items@.len() {
                        Some(p.items@[slot as int].node)
                    } else {
                        None
                    },
                    match comment {
                        Some(c) => Some(src.comments@[c as int].range),
                        None => None,
                    },
                ).0);
                leads_on(first, second, third);
                assert(third.leads_to(fourth));
                assert(fourth.leads_to(*self));
                leads_on(first, third, fourth);
                leads_on(first, fourth, *self);
                leads_on(before, first, *self);
                leads_on(second, third, fourth);
                leads_on(second, fourth, *self);
                leads_on(*old(self), before, *self);
                if slot < p.items@.len() {
                    kept_member(
                        fourth.source_map.param_nodes@,
                        self.source_map.param_nodes@,
                        (p.items@[slot as int].node, id),
                    );
                    match p.items@[slot as int].form {
                        ParameterForm::Plain { default: wanted } => kept_expr_opt(
                            *src,
                            wanted,
                            p.items@[slot as int].owner,
                            first,
                            *self,
                            made.default_value(),
                        ),
                        _ => {},
                    }
                }
                assert(slot_gap(*p, slots, k as int) == (Span { start: range.end, end: stop }));
                assert(param_at(*src, *p, slots[k as int], text, *self, id));
                assert(param_typed(*src, *p, k as int, arc_shapes(types@), *self, id));
                assert forall|j: int| 0 <= j < k + 1 implies param_at(
                    *src,
                    *p,
                    slots[j],
                    text,
                    *self,
                    #[trigger] ids@[j],
                ) && param_typed(*src, *p, j, arc_shapes(types@), *self, ids@[j]) by {
                    if j < k {
                        assert(ids@[j] == earlier[j]);
                        kept_param(*src, *p, slots[j], text, before, *self, ids@[j]);
                        kept_typed(*src, *p, j, arc_shapes(types@), before, *self, ids@[j]);
                    }
                }
                let old_params = params_of(before, earlier);
                let new_params = params_of(*self, ids@);
                assert(new_params =~= params_of(first, earlier).push(made)) by {
                    assert forall|j: int| 0 <= j < k implies new_params[j] == params_of(
                        first,
                        earlier,
                    )[j] by {
                        assert(earlier[j].0 < first.module.params@.len());
                        assert(first.module.params@[earlier[j].0 as int]
                            == self.module.params@[earlier[j].0 as int]);
                    }
                }
                assert forall|j: int| 0 <= j < k + 1 implies fits(
                    #[trigger] new_params[j],
                    outlines(*p)[j],
                ) by {
                    if j < k {
                        assert(earlier[j].0 < before.module.params@.len());
                        assert(old_params[j] == new_params[j]);
                    }
                }
                assert forall|j: int, m: int|
                    0 <= j < k + 1 && 0 <= m < param_errors(new_params, j).len() implies reported(
                    self.errors@,
                    slot_range(*p, slots[j]),
                    #[trigger] param_errors(new_params, j)[m],
                ) by {
                    if j < k {
                        assert forall|i: int| 0 <= i <= j implies old_params[i] == new_params[i] by {
                            assert(earlier[i].0 < before.module.params@.len());
                            assert(before.module.params@[earlier[i].0 as int]
                                == self.module.params@[earlier[i].0 as int]);
                        }
                        crate::lower_proof::same_param_errors(old_params, new_params, j);
                        kept_report(
                            before.errors@,
                            self.errors@,
                            slot_range(*p, slots[j]),
                            param_errors(old_params, j)[m],
                        );
                    } else {
                        assert(messages@[m]@ == param_errors(new_params, j)[m]);
                        kept_report(
                            second.errors@,
                            self.errors@,
                            range,
                            param_errors(new_params, j)[m],
                        );
                    }
                }
                crate::lower_proof::kept_params_below(
                    first.module.params@,
                    self.module.params@,
                    earlier,
                    first.module.exprs@.len(),
                    self.module.exprs@.len(),
                );
            }
            k = k + 1;
        }
        ids
    }

    /// Lowers an expression without its parentheses.
    #[verifier::rlimit(60)]
    pub fn lower_bare_expr(&mut self, src: &Source, e: &syntax::Expr) -> (id: ExprId)
        requires
            old(self).wf(),
        ensures
            final(self).wf(),
            old(self).leads_to(*final(self)),
            bare_at(*src, *e, *final(self), id),
            (final(self).records(), id) == after_bare(*src, old(self).records(), *e),
        decreases e, 0nat,
    {
        let ghost start = *self;
        if !e.supported {
            return self.lower_expr_missing();
        }
        match &e.kind {
            ExprKind::Name { id } => {
                if id.as_str().is_empty() {
                    return self.lower_expr_missing();
                }
                self.alloc_expr(Expr::Name { name: lower_name(id.as_str()) }, e.range)
            },
            ExprKind::Int { value } => {
                let n: u64 = match value {
                    Some(n) => *n,
                    None => 0,
                };
                self.alloc_expr(Expr::Literal { literal: Literal::Int(n) }, e.range)
            },
            ExprKind::Float => self.alloc_expr(Expr::Literal { literal: Literal::Float }, e.range),
            ExprKind::Bool { value } => self.alloc_expr(
                Expr::Literal { literal: Literal::Bool(*value) },
                e.range,
            ),
            ExprKind::NoneLiteral => self.alloc_expr(
                Expr::Literal { literal: Literal::NoneValue },
                e.range,
            ),
            ExprKind::Str { value } => {
                let text = match value {
                    Some(text) => text.clone(),
                    None => String::new(),
                };
                self.alloc_expr(Expr::Literal { literal: Literal::Str(text) }, e.range)
            },
            ExprKind::Bytes => self.alloc_expr(Expr::Literal { literal: Literal::Bytes }, e.range),
            ExprKind::If { test, body, orelse } => {
                let if_expr = self.lower_expr(src, body, e.range);
                let ghost first = *self;
                let condition = self.lower_expr(src, test, e.range);
                let ghost second = *self;
                let else_expr = self.lower_expr(src, orelse, e.range);
                let ghost third = *self;
                proof {
                    leads_on(start, first, second);
                    leads_on(start, second, third);
                    leads_on(first, second, third);
                    expr_exists(*src, **body, e.range, first, if_expr);
                    expr_exists(*src, **test, e.range, second, condition);
                    expr_exists(*src, **orelse, e.range, third, else_expr);
                }
                let id = self.alloc_expr(
                    Expr::If { if_expr, test: condition, else_expr },
                    e.range,
                );
                proof {
                    leads_on(start, third, *self);
                    leads_on(first, third, *self);
                    leads_on(second, third, *self);
                    kept_expr(*src, **body, e.range, first, *self, if_expr);
                    kept_expr(*src, **test, e.range, second, *self, condition);
                    kept_expr(*src, **orelse, e.range, third, *self, else_expr);
                }
                id
            },
            ExprKind::Unary { op, operand } => {
                let expr = self.lower_expr(src, operand, e.range);
                let ghost first = *self;
                proof {
                    expr_exists(*src, **operand, e.range, first, expr);
                }
                let id = self.alloc_expr(Expr::Unary { expr, op: Some(unary_op(*op)) }, e.range);
                proof {
                    leads_on(start, first, *self);
                    kept_expr(*src, **operand, e.range, first, *self, expr);
                }
                id
            },
            ExprKind::Binary { left, op, right } => {
                let lhs = self.lower_expr(src, left, e.range);
                let ghost first = *self;
                let rhs = self.lower_expr(src, right, e.range);
                let ghost second = *self;
                proof {
                    leads_on(start, first, second);
                    expr_exists(*src, **left, e.range, first, lhs);
                    expr_exists(*src, **right, e.range, second, rhs);
                }
                let id = self.alloc_expr(Expr::Binary { lhs, rhs, op: binary_op(*op) }, e.range);
                proof {
                    leads_on(start, second, *self);
                    leads_on(first, second, *self);
                    kept_expr(*src, **left, e.range, first, *self, lhs);
                    kept_expr(*src, **right, e.range, second, *self, rhs);
                }
                id
            },
            ExprKind::Bool2 { op, values } => {
                let connective = BinaryOp::Logic(
                    match op {
                        BoolOp::And => LogicOp::And,
                        BoolOp::Or => LogicOp::Or,
                    },
                );
                let mut ops: Vec<Option<BinaryOp>> = Vec::new();
                let mut i: usize = 1;
                while i < values.len()
                    invariant
                        1 <= i,
                        i <= values@.len() || ops@.len() == 0,
                        ops@.len() == i - 1,
                        connective == logic_op_of(*op),
                        forall|k: int| 0 <= k < ops@.len() ==> #[trigger] ops@[k] == Some(
                            connective,
                        ),
                    decreases values@.len() - i,
                {
                    ops.push(Some(connective));
                    i = i + 1;
                }
                proof {
                    assert(ops@ =~= logic_ops_of(*op, values@.len()));
                }
                self.lower_chain(src, values, &ops, e.range)
            },
            ExprKind::Compare { operands, ops } => {
                let mut found: Vec<Option<BinaryOp>> = Vec::new();
                let mut i: usize = 0;
                while i < ops.len()
                    invariant
                        i <= ops@.len(),
                        found@.len() == i,
                        forall|k: int|
                            0 <= k < i ==> #[trigger] found@[k] == compare_op_of(ops@[k]),
                    decreases ops@.len() - i,
                {
                    found.push(compare_op(ops[i]));
                    i = i + 1;
                }
                proof {
                    assert(found@ =~= compare_ops_of(ops@));
                }
                self.lower_chain(src, operands, &found, e.range)
            },
            ExprKind::Lambda { parameters, body } => {
                let params = match parameters {
                    Some(p) => {
                        let no_types: Vec<Arc<TypeRef>> = Vec::new();
                        proof {
                            assert(arc_shapes(no_types@) =~= Seq::empty());
                        }
                        self.lower_params(src, p, &no_types, &None)
                    },
                    None => Vec::new(),
                };
                let ghost first = *self;
                let ghost ids = params@;
                let value = self.lower_expr(src, body, e.range);
                let ghost second = *self;
                proof {
                    leads_on(start, first, second);
                    expr_exists(*src, **body, e.range, second, value);
                    crate::lower_proof::kept_params_below(
                        first.module.params@,
                        second.module.params@,
                        ids,
                        first.module.exprs@.len(),
                        second.module.exprs@.len(),
                    );
                }
                let func = Arc::new(
                    FunctionData {
                        file: self.file,
                        name: Name::from_str("lambda"),
                        ret_type_ref: None,
                        doc: None,
                        range: e.range,
                        params,
                    },
                );
                let id = self.alloc_expr(Expr::Lambda { func, body: value }, e.range);
                proof {
                    leads_on(start, second, *self);
                    leads_on(first, second, *self);
                    kept_expr(*src, **body, e.range, second, *self, value);
                    match parameters {
                        Some(p) => kept_params(
                            *src,
                            **p,
                            Seq::empty(),
                            None,
                            first,
                            *self,
                            ids,
                        ),
                        None => {},
                    }
                }
                id
            },
            ExprKind::List { elts } => {
                let exprs = self.lower_exprs(src, elts, e.range);
                let ghost first = *self;
                let ghost ids = exprs@;
                let id = self.alloc_expr(Expr::List { exprs }, e.range);
                proof {
                    leads_on(start, first, *self);
                    kept_exprs(*src, elts@, e.range, first, *self, ids);
                }
                id
            },
            ExprKind::Tuple { elts, parenthesized: _ } => {
                let exprs = self.lower_exprs(src, elts, e.range);
                let ghost first = *self;
                let ghost ids = exprs@;
                let id = self.alloc_expr(Expr::Tuple { exprs }, e.range);
                proof {
                    leads_on(start, first, *self);
                    kept_exprs(*src, elts@, e.range, first, *self, ids);
                }
                id
            },
            ExprKind::ListComp { elt, generators } => {
                let expr = self.lower_expr(src, elt, e.range);
                let ghost first = *self;
                let comp_clauses = self.lower_comp_clauses(src, generators);
                let ghost second = *self;
                let ghost clauses = comp_clauses@;
                proof {
                    leads_on(start, first, second);
                    expr_exists(*src, **elt, e.range, first, expr);
                }
                let id = self.alloc_expr(Expr::ListComp { expr, comp_clauses }, e.range);
                proof {
                    leads_on(start, second, *self);
                    leads_on(first, second, *self);
                    kept_expr(*src, **elt, e.range, first, *self, expr);
                    kept_comp(*src, generators@, second, *self, clauses);
                }
                id
            },
            ExprKind::Dict { items } => {
                let entries = self.lower_entries(src, items, e.range);
                let ghost first = *self;
                let ghost ids = entries@;
                let id = self.alloc_expr(Expr::Dict { entries }, e.range);
                proof {
                    leads_on(start, first, *self);
                    kept_entries(*src, items@, e.range, first, *self, ids);
                }
                id
            },
            ExprKind::DictComp { key, value, generators } => {
                let key_id = self.lower_expr(src, key, e.range);
                let ghost first = *self;
                let value_id = self.lower_expr(src, value, e.range);
                let ghost second = *self;
                let comp_clauses = self.lower_comp_clauses(src, generators);
                let ghost third = *self;
                let ghost clauses = comp_clauses@;
                proof {
                    leads_on(start, first, second);
                    leads_on(start, second, third);
                    leads_on(first, second, third);
                    expr_exists(*src, **key, e.range, first, key_id);
                    expr_exists(*src, **value, e.range, second, value_id);
                }
                let entry = DictEntry { key: key_id, value: value_id };
                let id = self.alloc_expr(Expr::DictComp { entry, comp_clauses }, e.range);
                proof {
                    leads_on(start, third, *self);
                    leads_on(first, third, *self);
                    leads_on(second, third, *self);
                    kept_expr(*src, **key, e.range, first, *self, key_id);
                    kept_expr(*src, **value, e.range, second, *self, value_id);
                    kept_comp(*src, generators@, third, *self, clauses);
                }
                id
            },
            ExprKind::Attribute { value, attr } => {
                let field = lower_name(attr.as_str());
                let expr = self.lower_expr(src, value, e.range);
                let ghost first = *self;
                proof {
                    expr_exists(*src, **value, e.range, first, expr);
                }
                let id = self.alloc_expr(Expr::Dot { expr, field }, e.range);
                proof {
                    leads_on(start, first, *self);
                    kept_expr(*src, **value, e.range, first, *self, expr);
                }
                id
            },
            ExprKind::Call { func, arguments } => self.lower_call(src, e, func, arguments),
            ExprKind::Subscript { value, slice } => {
                let lhs = self.lower_expr(src, value, e.range);
                let ghost first = *self;
                proof {
                    expr_exists(*src, **value, e.range, first, lhs);
                }
                match &slice.kind {
                    ExprKind::Slice { lower, upper, step } => {
                        let from = self.lower_expr_opt(src, lower, e.range);
                        let ghost second = *self;
                        let to = self.lower_expr_opt(src, upper, e.range);
                        let ghost third = *self;
                        let stride = self.lower_expr_opt(src, step, e.range);
                        let ghost fourth = *self;
                        proof {
                            leads_on(start, first, second);
                            leads_on(start, second, third);
                            leads_on(start, third, fourth);
                            leads_on(first, second, third);
                            leads_on(first, third, fourth);
                            leads_on(second, third, fourth);
                        }
                        let id = self.alloc_expr(
                            Expr::Slice { lhs, start: from, end: to, step: stride },
                            e.range,
                        );
                        proof {
                            leads_on(start, fourth, *self);
                            leads_on(first, fourth, *self);
                            leads_on(second, fourth, *self);
                            leads_on(third, fourth, *self);
                            kept_expr(*src, **value, e.range, first, *self, lhs);
                            kept_expr_opt(*src, *lower, e.range, second, *self, from);
                            kept_expr_opt(*src, *upper, e.range, third, *self, to);
                            kept_expr_opt(*src, *step, e.range, fourth, *self, stride);
                        }
                        id
                    },
                    _ => {
                        let index = self.lower_expr(src, slice, e.range);
                        let ghost second = *self;
                        proof {
                            leads_on(start, first, second);
                            expr_exists(*src, **slice, e.range, second, index);
                        }
                        let id = self.alloc_expr(Expr::Index { lhs, index }, e.range);
                        proof {
                            leads_on(start, second, *self);
                            leads_on(first, second, *self);
                            kept_expr(*src, **value, e.range, first, *self, lhs);
                            kept_expr(*src, **slice, e.range, second, *self, index);
                        }
                        id
                    },
                }
            },
            ExprKind::Slice { .. } => self.lower_expr_missing(),
            ExprKind::Starred { .. } => self.lower_expr_missing(),
            ExprKind::Other => self.lower_expr_missing(),
        }
    }

    /// Lowers a call, and remembers the function that implements its result.
    fn lower_call(
        &mut self,
        src: &Source,
        e: &syntax::Expr,
        func: &syntax::Expr,
        arguments: &Arguments,
    ) -> (id: ExprId)
        requires
            old(self).wf(),
            e.supported,
            e.kind matches ExprKind::Call { func: f, arguments: a } && *f == *func && a
                == *arguments,
        ensures
            final(self).wf(),
            old(self).leads_to(*final(self)),
            bare_at(*src, *e, *final(self), id),
            (final(self).records(), id) == after_bare(*src, old(self).records(), *e),
        decreases e.kind, 0nat,
    {
        let ghost start = *self;
        let callee = self.lower_expr(src, func, e.range);
        let ghost first = *self;
        let args = self.lower_args(src, arguments);
        let ghost second = *self;
        let ghost ids = args@;
        proof {
            leads_on(start, first, second);
            expr_exists(*src, *func, e.range, first, callee);
            kept_args(*src, arguments.items@, arguments.range, second, second, ids);
        }
        let name = self.find_impl_fn(&args);
        proof {
            implementation_is_named(*src, arguments.items@, arguments.range, second, ids, 0);
        }
        let id = self.alloc_expr(Expr::Call { callee, args }, e.range);
        let ghost third = *self;
        proof {
            leads_on(start, second, third);
            leads_on(first, second, third);
            kept_expr(*src, *func, e.range, first, third, callee);
            kept_args(*src, arguments.items@, arguments.range, second, third, ids);
        }
        if let Some(name) = name {
            let ghost entry = (name, id);
            self.module.call_expr_with_impl_fn.push((name, id));
            proof {
                reveal(Lowering::records);
                assert(self.records() =~~= (Records {
                    call_expr_with_impl_fn: third.records().call_expr_with_impl_fn.push(
                        (entry.0@, id),
                    ),
                    ..third.records()
                }));
                let log = self.module.call_expr_with_impl_fn@;
                assert(log[log.len() - 1] == entry);
                assert(third.leads_to(*self));
                kept_wf(third.module, self.module);
                leads_on(start, third, *self);
                kept_expr(*src, *func, e.range, third, *self, callee);
                kept_args(*src, arguments.items@, arguments.range, third, *self, ids);
            }
        }
        id
    }

    /// The first keyword argument `implementation` whose value is a name.
    fn find_impl_fn(&self, args: &Vec<Argument>) -> (r: Option<Name>)
        requires
            forall|i: int|
                0 <= i < args@.len() ==> (#[trigger] args@[i]).value().0
                    < self.module.exprs@.len(),
        ensures
            r == impl_fn_name(self.module.exprs@, args@, 0),
    {
        let mut k: usize = 0;
        while k < args.len()
            invariant
                k <= args@.len(),
                forall|i: int|
                    0 <= i < args@.len() ==> (#[trigger] args@[i]).value().0
                        < self.module.exprs@.len(),
                impl_fn_name(self.module.exprs@, args@, k as int) == impl_fn_name(
                    self.module.exprs@,
                    args@,
                    0,
                ),
            decreases args@.len() - k,
        {
            match &args[k] {
                Argument::Keyword { name, expr } => {
                    assert(args@[k as int].value() == *expr);
                    if crate::text::same(name.as_str(), "implementation") {
                        match &self.module.exprs[expr.0] {
                            Expr::Name { name } => {
                                return Some(name.dup());
                            },
                            _ => {},
                        }
                    }
                },
                _ => {},
            }
            k = k + 1;
        }
        None
    }

    /// Adds a statement with its range, for the syntax node `node` if it has
    /// one. The comment at `comment` belongs to it. The statement is the place
    /// where what it assigns or walks over goes.
    fn alloc_stmt(
        &mut self,
        stmt: Stmt,
        range: Span,
        comment: Option<Span>,
        node: Option<u32>,
    ) -> (id: StmtId)
        requires
            old(self).wf(),
            stmt_below(old(self).module, stmt, old(self).module.stmts@.len()),
        ensures
            final(self).wf(),
            old(self).leads_to(*final(self)),
            id.0 == old(self).module.stmts@.len(),
            final(self).stmt_located(id, range),
            final(self).module.stmts@[id.0 as int] == stmt,
            (final(self).records(), id) == old(self).records().add_stmt(
                source_in(*old(self), stmt),
                comment,
                node,
            ),
            node is Some ==> final(self).source_map.stmt_nodes@.contains((node->0, id)),
            comment is Some ==> final(self).source_map.type_comment_owners@.contains(
                (comment->0, TypeCommentOwner::Statement(id)),
            ),
            match stmt {
                Stmt::Assign { lhs: _, rhs, op: _, type_ref: _ } => final(self).flows_to(
                    rhs,
                    AssignmentSource::Statement(id),
                ),
                Stmt::For { iterable, targets: _, stmts: _ } => final(self).flows_to(
                    iterable,
                    AssignmentSource::Statement(id),
                ),
                _ => true,
            },
    {
        let ghost before = *self;
        let id = StmtId(self.module.stmts.len());
        let source = match &stmt {
            Stmt::Assign { lhs: _, rhs, op: _, type_ref: _ } => Some(*rhs),
            Stmt::For { iterable, targets: _, stmts: _ } => Some(*iterable),
            _ => None,
        };
        if let Some(source) = source {
            if self.source_map.expr_map_back[source.0].is_some() {
                let entry = (source, AssignmentSource::Statement(id));
                self.module.assignment_sources.push(entry);
                proof {
                    let log = self.module.assignment_sources@;
                    assert(log[log.len() - 1] == entry);
                }
            }
        }
        if let Some(range) = comment {
            let entry = (range, TypeCommentOwner::Statement(id));
            self.source_map.type_comment_owners.push(entry);
            proof {
                let log = self.source_map.type_comment_owners@;
                assert(log[log.len() - 1] == entry);
            }
        }
        if let Some(node) = node {
            self.source_map.stmt_nodes.push((node, id));
            proof {
                let log = self.source_map.stmt_nodes@;
                assert(log[log.len() - 1] == (node, id));
            }
        }
        self.module.stmts.push(stmt);
        self.source_map.stmt_map_back.push(range);
        proof {
            reveal(Lowering::records);
            assert(self.records() =~~= before.records().add_stmt(
                source_in(before, self.module.stmts@[id.0 as int]),
                comment,
                node,
            ).0);
            kept_wf(before.module, self.module);
            crate::lower_proof::kept_stmt_below(
                before.module,
                self.module,
                self.module.stmts@[id.0 as int],
                before.module.stmts@.len(),
            );
        }
        id
    }

    /// `range` widened to hold the statements `ids`.
    fn cover_statements(&self, range: Span, ids: &Vec<StmtId>) -> (r: Span)
        requires
            stmts_below(ids@, self.source_map.stmt_map_back@.len()),
        ensures
            r == covered(*self, range, ids@),
    {
        let mut out = range;
        let mut i: usize = 0;
        while i < ids.len()
            invariant
                i <= ids@.len(),
                stmts_below(ids@, self.source_map.stmt_map_back@.len()),
                out == covered(*self, range, ids@.take(i as int)),
            decreases ids@.len() - i,
        {
            out = out.cover(self.source_map.stmt_map_back[ids[i].0]);
            proof {
                let taken = ids@.take(i + 1);
                assert(taken.drop_last() =~= ids@.take(i as int));
                assert(taken.last() == ids@[i as int]);
            }
            i = i + 1;
        }
        proof {
            assert(ids@.take(i as int) =~= ids@);
        }
        out
    }

    /// Lowers a list of statements, leaving out those without a definition.
    fn lower_stmts(&mut self, src: &Source, body: &Vec<syntax::Stmt>) -> (ids: Vec<StmtId>)
        requires
            old(self).wf(),
        ensures
            final(self).wf(),
            old(self).leads_to(*final(self)),
            stmts_at(*src, body@, *final(self), ids@),
            final(self).records() == after_stmts(*src, old(self).records(), body@),
        decreases body, 0nat,
    {
        let mut ids: Vec<StmtId> = Vec::new();
        let mut i: usize = 0;
        while i < body.len()
            invariant
                i <= body@.len(),
                self.wf(),
                old(self).leads_to(*self),
                stmts_at(*src, body@.take(i as int), *self, ids@),
                self.records() == after_stmts(
                    *src,
                    old(self).records(),
                    body@.take(i as int),
                ),
            decreases body@.len() - i,
        {
            let ghost before = *self;
            let ghost earlier = ids@;
            let ghost taken = body@.take(i + 1);
            let id = self.lower_stmt(src, &body[i]);
            proof {
                leads_on(*old(self), before, *self);
                kept_stmts(*src, body@.take(i as int), before, *self, earlier);
                assert(taken.drop_last() =~= body@.take(i as int));
                assert(taken.last() == body@[i as int]);
            }
            if let Some(id) = id {
                ids.push(id);
                proof {
                    assert(ids@.drop_last() =~= earlier);
                }
            }
            i = i + 1;
        }
        proof {
            assert(body@.take(i as int) =~= body@);
        }
        ids
    }

    /// Lowers the suite below a header; without one there is nothing in it.
    fn lower_suite(
        &mut self,
        src: &Source,
        body: &Vec<syntax::Stmt>,
        suite: Option<Span>,
    ) -> (ids: Vec<StmtId>)
        requires
            old(self).wf(),
        ensures
            final(self).wf(),
            old(self).leads_to(*final(self)),
            suite_at(*src, body@, suite, *final(self), ids@),
            stmts_below(ids@, final(self).module.stmts@.len()),
            final(self).records() == after_suite(*src, old(self).records(), body@, suite),
        decreases body, 1nat,
    {
        if suite.is_none() {
            return Vec::new();
        }
        let ids = self.lower_stmts(src, body);
        proof {
            stmts_exist(*src, body@, *self, ids@);
        }
        ids
    }

    /// Lowers a statement, if it has a definition.
    pub fn lower_stmt(&mut self, src: &Source, s: &syntax::Stmt) -> (r: Option<StmtId>)
        requires
            old(self).wf(),
        ensures
            final(self).wf(),
            old(self).leads_to(*final(self)),
            match r {
                Some(id) => has_stmt(*s) && stmt_at(*src, *s, *final(self), id),
                None => !has_stmt(*s),
            },
            (final(self).records(), r) == after_stmt(*src, old(self).records(), *s),
        decreases s, 1nat,
    {
        let ghost start = *self;
        match &s.kind {
            StmtKind::FunctionDef { name, parameters, body, suite } => {
                Some(self.lower_def(src, s, name, parameters, body, *suite))
            },
            StmtKind::If { test, body, suite, clauses } => {
                Some(self.lower_if(src, s, test, body, *suite, clauses))
            },
            StmtKind::For { target, iter, body, suite } => {
                Some(self.lower_for(src, s, target, iter, body, *suite))
            },
            StmtKind::Return { value } => {
                match value {
                    Some(value) => {
                        let expr = self.lower_expr(src, value, s.range);
                        let ghost first = *self;
                        proof {
                            expr_exists(*src, *value, s.range, first, expr);
                        }
                        let id = self.alloc_stmt(
                            Stmt::Return { expr: Some(expr) },
                            s.range,
                            None,
                            Some(s.node),
                        );
                        proof {
                            leads_on(start, first, *self);
                            kept_expr(*src, *value, s.range, first, *self, expr);
                        }
                        Some(id)
                    },
                    None => Some(
                        self.alloc_stmt(Stmt::Return { expr: None }, s.range, None, Some(s.node)),
                    ),
                }
            },
            StmtKind::Break => Some(self.alloc_stmt(Stmt::Break, s.range, None, Some(s.node))),
            StmtKind::Continue => Some(
                self.alloc_stmt(Stmt::Continue, s.range, None, Some(s.node)),
            ),
            StmtKind::Pass => Some(self.alloc_stmt(Stmt::Pass, s.range, None, Some(s.node))),
            StmtKind::Assign { targets, value } => {
                let lhs = if targets.len() > 0 {
                    self.lower_expr(src, &targets[0], s.range)
                } else {
                    self.lower_expr_missing()
                };
                let ghost first = *self;
                let rhs = self.lower_expr(src, value, s.range);
                let ghost second = *self;
                proof {
                    leads_on(start, first, second);
                    if targets@.len() > 0 {
                        expr_exists(*src, targets@[0], s.range, first, lhs);
                    }
                    expr_exists(*src, *value, s.range, second, rhs);
                }
                let id = self.alloc_assignment(
                    src,
                    s,
                    lhs,
                    rhs,
                    Some(AssignOp::Normal),
                );
                proof {
                    leads_on(start, second, *self);
                    leads_on(first, second, *self);
                    if targets@.len() > 0 {
                        kept_expr(*src, targets@[0], s.range, first, *self, lhs);
                    } else {
                        crate::lower_proof::kept_missing(first, *self, lhs);
                    }
                    kept_expr(*src, *value, s.range, second, *self, rhs);
                }
                Some(id)
            },
            StmtKind::AugAssign { target, op, value } => {
                let lhs = self.lower_expr(src, target, s.range);
                let ghost first = *self;
                let rhs = self.lower_expr(src, value, s.range);
                let ghost second = *self;
                proof {
                    leads_on(start, first, second);
                    expr_exists(*src, *target, s.range, first, lhs);
                    expr_exists(*src, *value, s.range, second, rhs);
                }
                let id = self.alloc_assignment(src, s, lhs, rhs, assign_op(*op));
                proof {
                    leads_on(start, second, *self);
                    leads_on(first, second, *self);
                    kept_expr(*src, *target, s.range, first, *self, lhs);
                    kept_expr(*src, *value, s.range, second, *self, rhs);
                }
                Some(id)
            },
            StmtKind::Expr { value } => {
                if let ExprKind::Call { func, arguments } = &value.kind {
                    if let ExprKind::Name { id } = &func.kind {
                        if crate::text::same(id.as_str(), "load") {
                            return Some(self.lower_load(src, s, value, arguments));
                        }
                    }
                }
                let expr = self.lower_expr(src, value, s.range);
                let ghost first = *self;
                proof {
                    expr_exists(*src, *value, s.range, first, expr);
                }
                match self.source_map.expr_map_back[expr.0] {
                    Some(range) => {
                        let id = self.alloc_stmt(Stmt::Expr { expr }, range, None, Some(s.node));
                        proof {
                            leads_on(start, first, *self);
                            kept_expr(*src, *value, s.range, first, *self, expr);
                            assert(first.source_map.expr_map_back@[expr.0 as int]
                                == self.source_map.expr_map_back@[expr.0 as int]);
                        }
                        Some(id)
                    },
                    None => None,
                }
            },
            StmtKind::Other => None,
        }
    }

    /// Adds an assignment with the type of the comment behind it.
    fn alloc_assignment(
        &mut self,
        src: &Source,
        s: &syntax::Stmt,
        lhs: ExprId,
        rhs: ExprId,
        op: Option<AssignOp>,
    ) -> (id: StmtId)
        requires
            old(self).wf(),
            lhs.0 < old(self).module.exprs@.len(),
            rhs.0 < old(self).module.exprs@.len(),
        ensures
            final(self).wf(),
            old(self).leads_to(*final(self)),
            final(self).stmt_located(id, s.range),
            final(self).source_map.stmt_nodes@.contains((s.node, id)),
            final(self).flows_to(rhs, AssignmentSource::Statement(id)),
            match final(self).module.stmts@[id.0 as int] {
                Stmt::Assign { lhs: l, rhs: r, op: o, type_ref } => {
                    &&& l == lhs
                    &&& r == rhs
                    &&& o == op
                    &&& assigned_type(*src, s.range, *final(self), type_ref, id)
                },
                _ => false,
            },
            (final(self).records(), id) == old(self).records().add_stmt(
                if old(self).source_map.expr_map_back@[rhs.0 as int] is Some {
                    Some(rhs)
                } else {
                    None
                },
                comment_at(*src, assignment_comment_of(*src, s.range)),
                Some(s.node),
            ),
    {
        match assignment_comment(src, s.range) {
            Some(c) => {
                let place = src.comments[c].range;
                let ty = Arc::new(lower_type_opt(&src.comments[c].ty));
                self.alloc_stmt(
                    Stmt::Assign { lhs, rhs, op, type_ref: Some((ty, place)) },
                    s.range,
                    Some(place),
                    Some(s.node),
                )
            },
            None => self.alloc_stmt(
                Stmt::Assign { lhs, rhs, op, type_ref: None },
                s.range,
                None,
                Some(s.node),
            ),
        }
    }

    /// Lowers a loop.
    fn lower_for(
        &mut self,
        src: &Source,
        s: &syntax::Stmt,
        target: &syntax::Expr,
        iter: &syntax::Expr,
        body: &Vec<syntax::Stmt>,
        suite: Option<Span>,
    ) -> (id: StmtId)
        requires
            old(self).wf(),
            s.kind matches StmtKind::For { target: t, iter: i, body: b, suite: u } && t == *target
                && i == *iter && b == *body && u == suite,
        ensures
            final(self).wf(),
            old(self).leads_to(*final(self)),
            stmt_at(*src, *s, *final(self), id),
            (final(self).records(), Some(id)) == after_stmt(*src, old(self).records(), *s),
        decreases s, 0nat,
    {
        let ghost start = *self;
        let iterable = self.lower_expr(src, iter, s.range);
        let ghost first = *self;
        let targets = self.lower_loop_variables(src, target, s.range);
        let ghost second = *self;
        let ghost target_ids = targets@;
        let stmts = self.lower_suite(src, body, suite);
        let ghost third = *self;
        let ghost ids = stmts@;
        proof {
            leads_on(start, first, second);
            leads_on(start, second, third);
            leads_on(first, second, third);
            expr_exists(*src, *iter, s.range, first, iterable);
            suite_exists(*src, body@, suite, third, ids);
        }
        let covered_range = self.cover_statements(s.range, &stmts);
        let range = match suite {
            Some(suite) => covered_range.cover(suite),
            None => covered_range,
        };
        let id = self.alloc_stmt(
            Stmt::For { iterable, targets, stmts },
            range,
            None,
            Some(s.node),
        );
        proof {
            leads_on(start, third, *self);
            leads_on(first, third, *self);
            leads_on(second, third, *self);
            kept_expr(*src, *iter, s.range, first, *self, iterable);
            kept_targets(*src, *target, s.range, second, *self, target_ids);
            kept_suite(*src, body@, suite, third, *self, ids);
            kept_covered(third, *self, s.range, ids);
        }
        id
    }

    /// Lowers a condition with its clauses.
    fn lower_if(
        &mut self,
        src: &Source,
        s: &syntax::Stmt,
        test: &syntax::Expr,
        body: &Vec<syntax::Stmt>,
        suite: Option<Span>,
        clauses: &Vec<Clause>,
    ) -> (id: StmtId)
        requires
            old(self).wf(),
            s.kind matches StmtKind::If { test: t, body: b, suite: u, clauses: c } && t == *test
                && b == *body && u == suite && c == *clauses,
        ensures
            final(self).wf(),
            old(self).leads_to(*final(self)),
            stmt_at(*src, *s, *final(self), id),
            (final(self).records(), Some(id)) == after_stmt(*src, old(self).records(), *s),
        decreases s, 0nat,
    {
        let ghost start = *self;
        let condition = self.lower_expr(src, test, s.range);
        let ghost first = *self;
        let if_stmts = self.lower_suite(src, body, suite);
        let ghost second = *self;
        let ghost ids = if_stmts@;
        let (branch, tail) = self.lower_clauses(src, clauses);
        let ghost third = *self;
        let ghost rest = branch;
        proof {
            leads_on(start, first, second);
            leads_on(start, second, third);
            leads_on(first, second, third);
            expr_exists(*src, *test, s.range, first, condition);
            suite_exists(*src, body@, suite, second, ids);
        }
        let with_tail = match tail {
            Some(tail) => s.range.cover(tail),
            None => s.range,
        };
        let covered_range = self.cover_statements(with_tail, &if_stmts);
        let range = match suite {
            Some(suite) => covered_range.cover(suite),
            None => covered_range,
        };
        let id = self.alloc_stmt(
            Stmt::If { test: condition, if_stmts, elif_or_else_stmts: branch },
            range,
            None,
            Some(s.node),
        );
        proof {
            leads_on(start, third, *self);
            leads_on(first, third, *self);
            leads_on(second, third, *self);
            kept_expr(*src, *test, s.range, first, *self, condition);
            kept_suite(*src, body@, suite, second, *self, ids);
            kept_covered(third, *self, with_tail, ids);
            crate::lower_proof::kept_tail(*src, clauses@, 0, third, *self, rest);
        }
        id
    }

    /// Lowers the clauses of a condition to nested conditions, with the range
    /// of them all.
    fn lower_clauses(&mut self, src: &Source, clauses: &Vec<Clause>) -> (r: (
        Option<ElseBranch>,
        Option<Span>,
    ))
        requires
            old(self).wf(),
        ensures
            final(self).wf(),
            old(self).leads_to(*final(self)),
            tail_at(*src, clauses@, 0, *final(self), r.0),
            r.1 == tail_range(clauses@, *final(self), r.0),
            match r.0 {
                Some(ElseBranch::Elif(id)) => id.0 < final(self).module.stmts@.len(),
                Some(ElseBranch::Else(ids)) => stmts_below(
                    ids@,
                    final(self).module.stmts@.len(),
                ),
                None => true,
            },
            final(self).records() == after_clauses(
                *src,
                old(self).records(),
                clauses@,
            ).with_stmts(tested(clauses@, clauses@.len()).len()),
        decreases clauses, 0nat,
    {
        let mut branches: Vec<(Span, ExprId, Vec<StmtId>)> = Vec::new();
        let mut last: Option<(Span, Vec<StmtId>)> = None;
        let mut i: usize = 0;
        while i < clauses.len()
            invariant
                i <= clauses@.len(),
                self.wf(),
                old(self).leads_to(*self),
                branches@.len() == tested(clauses@, i as nat).len(),
                forall|b: int|
                    0 <= b < branches@.len() ==> branch_at(
                        *src,
                        clauses@[tested(clauses@, i as nat)[b]],
                        *self,
                        #[trigger] branches@[b],
                    ),
                else_at(*src, clauses@, i as nat, *self, last),
                self.records() == after_clauses(
                    *src,
                    old(self).records(),
                    clauses@.take(i as int),
                ),
            decreases clauses@.len() - i,
        {
            let ghost before = *self;
            let ghost earlier = branches@;
            let ghost c = clauses@[i as int];
            let ghost order = tested(clauses@, i as nat);
            proof {
                crate::lower_proof::tested_in(clauses@, i as nat);
                crate::lower_proof::last_else_in(clauses@, i as nat);
                assert(clauses@.take(i + 1).drop_last() =~= clauses@.take(i as int));
                assert(clauses@.take(i + 1).last() == c);
            }
            let test = match &clauses[i].test {
                Some(test) => {
                    let id = self.lower_expr(src, test, clauses[i].range);
                    proof {
                        expr_exists(*src, *test, c.range, *self, id);
                    }
                    Some(id)
                },
                None => None,
            };
            let ghost first = *self;
            let stmts = self.lower_suite(src, &clauses[i].body, clauses[i].suite);
            proof {
                leads_on(before, first, *self);
                leads_on(*old(self), before, *self);
                suite_exists(*src, c.body@, c.suite, *self, stmts@);
                assert forall|b: int| 0 <= b < earlier.len() implies branch_at(
                    *src,
                    clauses@[order[b]],
                    *self,
                    #[trigger] earlier[b],
                ) by {
                    kept_branch(*src, clauses@[order[b]], before, *self, earlier[b]);
                }
                kept_else(*src, clauses@, i as nat, before, *self, last);
            }
            let whole = match clauses[i].suite {
                Some(suite) => clauses[i].range.cover(suite),
                None => clauses[i].range,
            };
            let range = self.cover_statements(whole, &stmts);
            match test {
                Some(test) => {
                    proof {
                        kept_expr(*src, c.test->0, c.range, first, *self, test);
                    }
                    branches.push((range, test, stmts));
                    proof {
                        let now = tested(clauses@, (i + 1) as nat);
                        assert forall|b: int| 0 <= b < branches@.len() implies branch_at(
                            *src,
                            clauses@[now[b]],
                            *self,
                            #[trigger] branches@[b],
                        ) by {
                            if b < earlier.len() {
                                assert(branches@[b] == earlier[b]);
                                assert(now[b] == order[b]);
                            }
                        }
                    }
                },
                None => {
                    last = Some((range, stmts));
                },
            }
            i = i + 1;
        }
        let ghost order = tested(clauses@, clauses@.len());
        let ghost count = branches@.len();
        let ghost parts = self.records();
        proof {
            assert(clauses@.take(i as int) =~= clauses@);
            crate::lower_proof::tested_in(clauses@, clauses@.len());
            crate::lower_proof::last_else_in(clauses@, clauses@.len());
        }
        let (mut branch, mut tail) = match last {
            Some((range, stmts)) => {
                proof {
                    suite_exists(
                        *src,
                        clauses@[last_else(clauses@, clauses@.len())->0].body@,
                        clauses@[last_else(clauses@, clauses@.len())->0].suite,
                        *self,
                        stmts@,
                    );
                }
                (Some(ElseBranch::Else(stmts)), Some(range))
            },
            None => (None, None),
        };
        while branches.len() > 0
            invariant
                self.wf(),
                old(self).leads_to(*self),
                order == tested(clauses@, clauses@.len()),
                count == order.len() <= clauses@.len(),
                branches@.len() <= count,
                forall|b: int| 0 <= b < order.len() ==> 0 <= #[trigger] order[b] < clauses@.len(),
                forall|b: int|
                    0 <= b < branches@.len() ==> branch_at(
                        *src,
                        clauses@[order[b]],
                        *self,
                        #[trigger] branches@[b],
                    ),
                tail_at(*src, clauses@, branches@.len(), *self, branch),
                tail == tail_range(clauses@, *self, branch),
                self.records() == parts.with_stmts((count - branches@.len()) as nat),
                match branch {
                    Some(ElseBranch::Elif(id)) => id.0 < self.module.stmts@.len(),
                    Some(ElseBranch::Else(ids)) => stmts_below(ids@, self.module.stmts@.len()),
                    None => true,
                },
            decreases branches@.len(),
        {
            let ghost before = *self;
            let ghost earlier = branches@;
            let ghost inner = branch;
            let (range, test, if_stmts) = branches.pop().unwrap();
            let ghost ids = if_stmts@;
            let ghost k = branches@.len();
            let ghost c = clauses@[order[k as int]];
            proof {
                assert(branch_at(*src, c, before, earlier[k as int]));
                expr_exists(*src, c.test->0, c.range, before, test);
                suite_exists(*src, c.body@, c.suite, before, ids);
            }
            let whole = match tail {
                Some(tail) => range.cover(tail),
                None => range,
            };
            let id = self.alloc_stmt(
                Stmt::If { test, if_stmts, elif_or_else_stmts: branch },
                whole,
                None,
                None,
            );
            proof {
                leads_on(*old(self), before, *self);
                assert forall|b: int| 0 <= b < branches@.len() implies branch_at(
                    *src,
                    clauses@[order[b]],
                    *self,
                    #[trigger] branches@[b],
                ) by {
                    assert(branches@[b] == earlier[b]);
                    kept_branch(*src, clauses@[order[b]], before, *self, branches@[b]);
                }
                kept_expr(*src, c.test->0, c.range, before, *self, test);
                kept_suite(*src, c.body@, c.suite, before, *self, ids);
                kept_covered(before, *self, hull_opt(c.range, c.suite), ids);
                crate::lower_proof::kept_tail(
                    *src,
                    clauses@,
                    earlier.len(),
                    before,
                    *self,
                    inner,
                );
                assert(earlier.len() == k + 1);
            }
            branch = Some(ElseBranch::Elif(id));
            tail = Some(whole);
        }
        (branch, tail)
    }

    /// Lowers a function.
    fn lower_def(
        &mut self,
        src: &Source,
        s: &syntax::Stmt,
        name: &Identifier,
        parameters: &Parameters,
        body: &Vec<syntax::Stmt>,
        suite: Option<Span>,
    ) -> (id: StmtId)
        requires
            old(self).wf(),
            s.kind matches StmtKind::FunctionDef { name: n, parameters: p, body: b, suite: u } && n
                == *name && p == *parameters && b == *body && u == suite,
        ensures
            final(self).wf(),
            old(self).leads_to(*final(self)),
            stmt_at(*src, *s, *final(self), id),
            (final(self).records(), Some(id)) == after_stmt(*src, old(self).records(), *s),
        decreases s, 0nat,
    {
        let ghost start = *self;
        let comment = match suite {
            Some(suite) => {
                let first: u32 = if body.len() > 0 {
                    body[0].range.start
                } else {
                    suite.end
                };
                let end: u32 = if first <= suite.start {
                    suite.start
                } else {
                    first
                };
                comment_in(src, Span { start: suite.start, end })
            },
            None => None,
        };
        let ghost written = match def_comment(*src, body@, suite) {
            Some(c) => src.comments@[c].function,
            None => None,
        };
        let mut types: Vec<Arc<TypeRef>> = Vec::new();
        let mut ret_type_ref: Option<Arc<TypeRef>> = None;
        if let Some(c) = comment {
            if let Some(f) = &src.comments[c].function {
                types = lower_param_types(f);
                ret_type_ref = Some(Arc::new(lower_type_opt(&f.ret)));
            }
        }
        let ghost shapes_of_params = match written {
            Some(f) => func_param_shapes(f),
            None => Seq::empty(),
        };
        proof {
            assert(arc_shapes(types@) =~= shapes_of_params);
        }
        let doc = match suite {
            Some(_) => docstring(body),
            None => None,
        };
        let ghost doc_words = text_of(doc);
        let params = self.lower_params(src, parameters, &types, &doc);
        let ghost first = *self;
        let ghost param_ids = params@;
        let stmts = self.lower_suite(src, body, suite);
        let ghost second = *self;
        let ghost ids = stmts@;
        proof {
            leads_on(start, first, second);
            suite_exists(*src, body@, suite, second, ids);
            crate::lower_proof::kept_params_below(
                first.module.params@,
                second.module.params@,
                param_ids,
                first.module.exprs@.len(),
                second.module.exprs@.len(),
            );
        }
        let covered_range = self.cover_statements(s.range, &stmts);
        let range = match suite {
            Some(suite) => covered_range.cover(suite),
            None => covered_range,
        };
        let func = Arc::new(
            FunctionData {
                file: self.file,
                name: lower_name(name.text.as_str()),
                ret_type_ref,
                doc,
                range,
                params,
            },
        );
        let comment_range = match comment {
            Some(c) => Some(src.comments[c].range),
            None => None,
        };
        let id = self.alloc_stmt(
            Stmt::Def { func: func.clone(), stmts },
            range,
            comment_range,
            Some(s.node),
        );
        let ghost third = *self;
        if !name.text.as_str().is_empty() {
            self.source_map.function_names.push((id, name.range));
            proof {
                reveal(Lowering::records);
                assert(self.records() =~~= (Records {
                    function_names: third.records().function_names.push((id, name.range)),
                    ..third.records()
                }));
                let log = self.source_map.function_names@;
                assert(log[log.len() - 1] == (id, name.range));
                kept_wf(third.module, self.module);
            }
        }
        let ghost fourth = *self;
        proof {
            assert(third.leads_to(fourth));
        }
        self.record_params(&func.params, id);
        proof {
            leads_on(start, second, third);
            leads_on(start, third, fourth);
            leads_on(start, fourth, *self);
            leads_on(second, third, fourth);
            leads_on(second, fourth, *self);
            leads_on(first, second, *self);
            leads_on(third, fourth, *self);
            kept_params(
                *src,
                *parameters,
                shapes_of_params,
                doc_words,
                first,
                *self,
                param_ids,
            );
            kept_suite(*src, body@, suite, second, *self, ids);
            kept_covered(second, *self, s.range, ids);
            assert(third.module.stmts@[id.0 as int] == self.module.stmts@[id.0 as int]);
            assert(third.source_map.stmt_map_back@[id.0 as int]
                == self.source_map.stmt_map_back@[id.0 as int]);
            kept_member(third.source_map.stmt_nodes@, self.source_map.stmt_nodes@, (s.node, id));
            if comment_range is Some {
                kept_member(
                    third.source_map.type_comment_owners@,
                    self.source_map.type_comment_owners@,
                    (comment_range->0, TypeCommentOwner::Statement(id)),
                );
            }
            if name.text@.len() > 0 {
                kept_member(
                    fourth.source_map.function_names@,
                    self.source_map.function_names@,
                    (id, name.range),
                );
            }
        }
        id
    }

    /// Records the function `id` to which parameters belong.
    fn record_params(&mut self, params: &Vec<ParamId>, id: StmtId)
        requires
            old(self).wf(),
        ensures
            final(self).wf(),
            old(self).leads_to(*final(self)),
            forall|i: int|
                0 <= i < params@.len() ==> final(self).module.param_to_def_stmt@.contains(
                    (#[trigger] params@[i], (id, i as usize)),
                ),
            final(self).records() == old(self).records().params_of_def(
                params@,
                id,
                params@.len(),
            ),
    {
        let mut i: usize = 0;
        while i < params.len()
            invariant
                i <= params@.len(),
                self.wf(),
                old(self).leads_to(*self),
                forall|k: int|
                    0 <= k < i ==> self.module.param_to_def_stmt@.contains(
                        (#[trigger] params@[k], (id, k as usize)),
                    ),
                self.records() == old(self).records().params_of_def(params@, id, i as nat),
            decreases params@.len() - i,
        {
            let ghost before = *self;
            let entry = (params[i], (id, i));
            self.module.param_to_def_stmt.push(entry);
            proof {
                reveal(Lowering::records);
                assert(self.records() =~~= (Records {
                    param_to_def_stmt: before.records().param_to_def_stmt.push(entry),
                    ..before.records()
                }));
                let log = self.module.param_to_def_stmt@;
                assert(log[log.len() - 1] == entry);
                assert(before.leads_to(*self));
                leads_on(*old(self), before, *self);
                kept_wf(before.module, self.module);
                assert forall|k: int| 0 <= k < i implies log.contains(
                    (#[trigger] params@[k], (id, k as usize)),
                ) by {
                    kept_member(
                        before.module.param_to_def_stmt@,
                        log,
                        (params@[k], (id, k as usize)),
                    );
                }
            }
            i = i + 1;
        }
    }

    /// Lowers a call of `load`.
    fn lower_load(
        &mut self,
        src: &Source,
        s: &syntax::Stmt,
        call: &syntax::Expr,
        arguments: &Arguments,
    ) -> (id: StmtId)
        requires
            old(self).wf(),
            is_load(*s),
            s.kind matches StmtKind::Expr { value } && value == *call,
            call.kind matches ExprKind::Call { func: f, arguments: a } && a == *arguments,
        ensures
            final(self).wf(),
            old(self).leads_to(*final(self)),
            stmt_at(*src, *s, *final(self), id),
            (final(self).records(), Some(id)) == after_stmt(*src, old(self).records(), *s),
    {
        let ghost start = *self;
        let mut skip: usize = 0;
        let mut module = String::new();
        if arguments.items.len() > 0 {
            if let ArgItem::Arg(e) = &arguments.items[0] {
                module = load_string(src, e.range);
                skip = 1;
            }
        }
        let range = call.range;
        let load_stmt = Arc::new(LoadStmtData { module, range });
        let mut items: Vec<LoadItemId> = Vec::new();
        let mut i: usize = skip;
        while i < arguments.items.len()
            invariant
                skip <= i <= arguments.items@.len(),
                skip == load_skip(arguments.items@),
                items@.len() == i - skip,
                load_stmt.module@ == load_module(*src, arguments.items@),
                load_stmt.range == range,
                range == call.range,
                self.wf(),
                old(self).leads_to(*self),
                forall|k: int|
                    0 <= k < items@.len() ==> load_item_at(
                        *src,
                        arguments.items@[k + skip],
                        load_stmt.module@,
                        range,
                        *self,
                        #[trigger] items@[k],
                    ),
                self.records() == after_load(
                    old(self).records(),
                    arguments.items@,
                    (i - skip) as nat,
                ),
            decreases arguments.items@.len() - i,
        {
            let ghost before = *self;
            let ghost earlier = items@;
            let id = LoadItemId(self.module.load_items.len());
            match &arguments.items[i] {
                ArgItem::Arg(e) => {
                    let name = load_string(src, e.range);
                    self.module.load_items.push(
                        LoadItem::Direct { name, load_stmt: load_stmt.clone() },
                    );
                    self.source_map.load_item_map_back.push(e.range);
                    self.source_map.load_item_nodes.push((e.node, id));
                    proof {
                        let log = self.source_map.load_item_nodes@;
                        assert(log[log.len() - 1] == (e.node, id));
                    }
                },
                ArgItem::Keyword { range: whole, node, name: written, value } => {
                    let alias = match written {
                        Some(written) => lower_name(written.text.as_str()),
                        None => Name::missing(),
                    };
                    let name = load_string(src, value.range);
                    self.module.load_items.push(
                        LoadItem::Aliased { alias, name, load_stmt: load_stmt.clone() },
                    );
                    self.source_map.load_item_map_back.push(*whole);
                    self.source_map.load_item_nodes.push((*node, id));
                    proof {
                        let log = self.source_map.load_item_nodes@;
                        assert(log[log.len() - 1] == (*node, id));
                    }
                },
            }
            items.push(id);
            proof {
                reveal(Lowering::records);
                assert(self.records() =~~= before.records().add_load_item(
                    match arguments.items@[i as int] {
                        ArgItem::Arg(e) => e.node,
                        ArgItem::Keyword { range: _, node, name: _, value: _ } => node,
                    },
                ));
                assert(before.leads_to(*self));
                leads_on(*old(self), before, *self);
                kept_wf(before.module, self.module);
                assert forall|k: int| 0 <= k < items@.len() implies load_item_at(
                    *src,
                    arguments.items@[k + skip],
                    load_stmt.module@,
                    range,
                    *self,
                    #[trigger] items@[k],
                ) by {
                    if k < earlier.len() {
                        assert(items@[k] == earlier[k]);
                        crate::lower_proof::kept_load_item(
                            *src,
                            arguments.items@[k + skip],
                            load_stmt.module@,
                            range,
                            before,
                            *self,
                            items@[k],
                        );
                    }
                }
            }
            i = i + 1;
        }
        let ghost first = *self;
        let ghost ids = items@;
        let id = self.alloc_stmt(
            Stmt::Load { load_stmt: load_stmt.clone(), items },
            range,
            None,
            Some(call.node),
        );
        let ghost second = *self;
        self.source_map.stmt_nodes.push((s.node, id));
        proof {
            reveal(Lowering::records);
            assert(self.records() =~~= (Records {
                stmt_nodes: second.records().stmt_nodes.push((s.node, id)),
                ..second.records()
            }));
            let log = self.source_map.stmt_nodes@;
            assert(log[log.len() - 1] == (s.node, id));
            assert(second.leads_to(*self));
            kept_wf(second.module, self.module);
            leads_on(start, first, second);
            leads_on(start, second, *self);
            leads_on(first, second, *self);
            kept_member(second.source_map.stmt_nodes@, log, (call.node, id));
            assert forall|k: int| 0 <= k < ids.len() implies load_item_at(
                *src,
                arguments.items@[k + skip],
                load_stmt.module@,
                range,
                *self,
                #[trigger] ids[k],
            ) by {
                crate::lower_proof::kept_load_item(
                    *src,
                    arguments.items@[k + skip],
                    load_stmt.module@,
                    range,
                    first,
                    *self,
                    ids[k],
                );
            }
        }
        id
    }
}

/// Whether a lowered clause with a test is what `c` means.
spec fn branch_at(src: Source, c: Clause, st: Lowering, branch: (Span, ExprId, Vec<StmtId>)) -> bool {
    &&& c.test is Some
    &&& expr_at(src, c.test->0, c.range, st, branch.1)
    &&& suite_at(src, c.body@, c.suite, st, branch.2@)
    &&& branch.0 == clause_range(c, st, branch.2@)
}

/// Whether `last` is what the last of the first `n` clauses without a test means.
spec fn else_at(
    src: Source,
    clauses: Seq<Clause>,
    n: nat,
    st: Lowering,
    last: Option<(Span, Vec<StmtId>)>,
) -> bool {
    match (last_else(clauses, n), last) {
        (Some(c), Some((range, ids))) => {
            &&& suite_at(src, clauses[c].body@, clauses[c].suite, st, ids@)
            &&& range == clause_range(clauses[c], st, ids@)
        },
        (None, None) => true,
        _ => false,
    }
}

/// Additions keep a lowered clause.
proof fn kept_branch(
    src: Source,
    c: Clause,
    a: Lowering,
    b: Lowering,
    branch: (Span, ExprId, Vec<StmtId>),
)
    requires
        a.leads_to(b),
        branch_at(src, c, a, branch),
    ensures
        branch_at(src, c, b, branch),
{
    kept_expr(src, c.test->0, c.range, a, b, branch.1);
    kept_suite(src, c.body@, c.suite, a, b, branch.2@);
    suite_exists(src, c.body@, c.suite, a, branch.2@);
    kept_covered(a, b, hull_opt(c.range, c.suite), branch.2@);
}

/// Additions keep the lowered `else`.
proof fn kept_else(
    src: Source,
    clauses: Seq<Clause>,
    n: nat,
    a: Lowering,
    b: Lowering,
    last: Option<(Span, Vec<StmtId>)>,
)
    requires
        a.leads_to(b),
        else_at(src, clauses, n, a, last),
    ensures
        else_at(src, clauses, n, b, last),
{
    match (last_else(clauses, n), last) {
        (Some(c), Some((range, ids))) => {
            kept_suite(src, clauses[c].body@, clauses[c].suite, a, b, ids@);
            suite_exists(src, clauses[c].body@, clauses[c].suite, a, ids@);
            kept_covered(a, b, hull_opt(clauses[c].range, clauses[c].suite), ids@);
        },
        _ => {},
    }
}

/// The types of the parameters in a function's comment.
pub fn lower_param_types(f: &FunctionType) -> (r: Vec<Arc<TypeRef>>)
    ensures
        arc_shapes(r@) == func_param_shapes(*f),
{
    let mut out: Vec<Arc<TypeRef>> = Vec::new();
    if let Some(params) = &f.params {
        let mut i: usize = 0;
        while i < params.len()
            invariant
                i <= params@.len(),
                out@.len() == i,
                forall|k: int|
                    0 <= k < i ==> (#[trigger] out@[k]).shape() == type_shape_opt(params@[k]),
            decreases params@.len() - i,
        {
            out.push(Arc::new(lower_type_opt(&params[i])));
            i = i + 1;
        }
    }
    proof {
        assert(arc_shapes(out@) =~= func_param_shapes(*f));
    }
    out
}

/// The docstring of a body.
pub fn docstring(body: &Vec<syntax::Stmt>) -> (r: Option<String>)
    ensures
        text_of(r) == doc_text(body@, 0),
{
    let mut k: usize = 0;
    while k < body.len()
        invariant
            k <= body@.len(),
            doc_text(body@, k as int) == doc_text(body@, 0),
        decreases body@.len() - k,
    {
        if let StmtKind::Expr { value } = &body[k].kind {
            if value.supported && expr_range(value, body[k].range) == value.range {
                match &value.kind {
                    ExprKind::Str { value } => {
                        return match value {
                            Some(text) => Some(text.clone()),
                            None => None,
                        };
                    },
                    ExprKind::Int { .. } => {
                        return None;
                    },
                    ExprKind::Float => {
                        return None;
                    },
                    ExprKind::Bool { .. } => {
                        return None;
                    },
                    ExprKind::NoneLiteral => {
                        return None;
                    },
                    ExprKind::Bytes => {
                        return None;
                    },
                    _ => {},
                }
            }
        }
        k = k + 1;
    }
    None
}

/// The lines of the comments that ask to ignore type errors.
fn ignored_lines(src: &Source, index: &LineIndex) -> (lines: Vec<usize>)
    requires
        rising(line_starts(*index)),
    ensures
        ignored_lines_at(src.comments@, line_starts(*index), lines@),
{
    let mut lines: Vec<usize> = Vec::new();
    let mut i: usize = 0;
    while i < src.comments.len()
        invariant
            i <= src.comments@.len(),
            rising(line_starts(*index)),
            ignored_lines_at(src.comments@.take(i as int), line_starts(*index), lines@),
        decreases src.comments@.len() - i,
    {
        let ghost taken = src.comments@.take(i + 1);
        let ghost earlier = lines@;
        proof {
            assert(taken.drop_last() =~= src.comments@.take(i as int));
            assert(taken.last() == src.comments@[i as int]);
        }
        if src.comments[i].ignores {
            lines.push(line_of(index, src.comments[i].range.start));
            proof {
                assert(lines@.drop_last() =~= earlier);
            }
        }
        i = i + 1;
    }
    proof {
        assert(src.comments@.take(i as int) =~= src.comments@);
    }
    lines
}

/// Lowers a file: its top-level statements, with an error for each condition
/// and each loop among them, and the lines on which type errors are ignored. What
/// is recorded under an index is given back by a lookup.
pub fn lower_module(file: File, src: &Source, index: &LineIndex) -> (r: Lowering)
    requires
        rising(line_starts(*index)),
    ensures
        r.wf(),
        r.file == file,
        r.source_map.root == (Span { start: 0, end: src.len }),
        stmts_at(*src, src.body@, r, r.module.top_level@),
        ignored_lines_at(
            src.comments@,
            line_starts(*index),
            r.module.type_ignore_comment_lines@,
        ),
        r.records() == after_top(
            *src,
            no_records(),
            src.body@,
            stmt_ranges(r, r.module.top_level@),
        ),
        lookups_give_back(r),
{
    let mut st = Lowering {
        file,
        module: Module {
            exprs: Vec::new(),
            stmts: Vec::new(),
            params: Vec::new(),
            load_items: Vec::new(),
            top_level: Vec::new(),
            type_ignore_comment_lines: ignored_lines(src, index),
            param_to_def_stmt: Vec::new(),
            assignment_sources: Vec::new(),
            call_expr_with_impl_fn: Vec::new(),
        },
        source_map: ModuleSourceMap {
            root: Span { start: 0, end: src.len },
            expr_map_back: Vec::new(),
            stmt_map_back: Vec::new(),
            param_map_back: Vec::new(),
            load_item_map_back: Vec::new(),
            expr_nodes: Vec::new(),
            stmt_nodes: Vec::new(),
            param_nodes: Vec::new(),
            load_item_nodes: Vec::new(),
            function_names: Vec::new(),
            keyword_names: Vec::new(),
            type_comment_owners: Vec::new(),
        },
        errors: Vec::new(),
    };
    let ghost start = st;
    proof {
        reveal(Lowering::records);
        assert(st.records() =~~= no_records());
    }
    let mut top_level: Vec<StmtId> = Vec::new();
    let mut i: usize = 0;
    proof {
        assert(src.body@.take(0) =~= seq![]);
    }
    while i < src.body.len()
        invariant
            i <= src.body@.len(),
            st.wf(),
            start.leads_to(st),
            stmts_at(*src, src.body@.take(i as int), st, top_level@),
            stmts_below(top_level@, st.module.stmts@.len()),
            st.records() == after_top(
                *src,
                no_records(),
                src.body@.take(i as int),
                stmt_ranges(st, top_level@),
            ),
        decreases src.body@.len() - i,
    {
        let ghost before = st;
        let ghost earlier = top_level@;
        let ghost taken = src.body@.take(i + 1);
        let ghost told = stmt_ranges(st, top_level@);
        let id = st.lower_stmt(src, &src.body[i]);
        let ghost lowered = st;
        proof {
            leads_on(start, before, lowered);
            kept_stmts(*src, src.body@.take(i as int), before, lowered, earlier);
            assert(taken.drop_last() =~= src.body@.take(i as int));
            assert(taken.last() == src.body@[i as int]);
            assert(stmt_ranges(lowered, earlier) =~= told);
        }
        if let Some(id) = id {
            top_level.push(id);
            proof {
                assert(top_level@.drop_last() =~= earlier);
                assert(stmts_at(*src, taken, lowered, top_level@));
                stmts_exist(*src, taken, lowered, top_level@);
                let ranges = stmt_ranges(lowered, top_level@);
                assert(ranges.drop_last() =~= told);
                assert(ranges.last() == lowered.source_map.stmt_map_back@[id.0 as int]);
            }
            let message = match &src.body[i].kind {
                StmtKind::If { .. } => Some(
                    "Starlark does not allow top-level if statements".to_owned(),
                ),
                StmtKind::For { .. } => Some(
                    "Starlark does not allow top-level for statements".to_owned(),
                ),
                _ => None,
            };
            if let Some(message) = message {
                let range = st.source_map.stmt_map_back[id.0];
                let messages = vec![message];
                st.report(range, &messages);
                proof {
                    leads_on(start, lowered, st);
                    kept_stmts(*src, taken, lowered, st, top_level@);
                    assert(views(messages@) =~= seq![top_level_error(src.body@[i as int])->0]);
                    assert(stmt_ranges(st, top_level@) =~= stmt_ranges(lowered, top_level@));
                }
            }
        }
        i = i + 1;
    }
    proof {
        assert(src.body@.take(i as int) =~= src.body@);
    }
    let ghost done = st;
    st.module.top_level = top_level;
    proof {
        assert(stmt_ranges(st, st.module.top_level@) =~= stmt_ranges(done, st.module.top_level@));
        assert(st.records() == done.records()) by {
            reveal(Lowering::records);
        }
        recorded_once(*src, st, stmt_ranges(st, st.module.top_level@));
        kept_stmts(*src, src.body@, done, st, st.module.top_level@);
        assert forall|k: int| 0 <= k < st.module.stmts@.len() implies stmt_below(
            st.module,
            #[trigger] st.module.stmts@[k],
            k as nat,
        ) by {
            crate::lower_proof::kept_stmt_below(
                done.module,
                st.module,
                done.module.stmts@[k],
                k as nat,
            );
        }
    }
    st
}

} // verus!
