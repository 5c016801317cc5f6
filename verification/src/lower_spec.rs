//! What it means that a module holds the definitions of a piece of syntax.
//!
//! Lowering only adds to a module. Each relation below says of one syntactic
//! form where in the module it stands; all of them survive later additions.

use std::sync::Arc;

use vstd::prelude::*;

use crate::common::File;
use crate::def::{
    missing_text, Argument, AssignmentSource, CompClause, DictEntry, ElseBranch, Expr, ExprId,
    Literal, LoadItem, LoadItemId, Module, ModuleSourceMap, Name, Param, ParamId, Stmt, StmtId,
    TypeCommentOwner, TypeRef, TypeShape,
};
use crate::ops::{
    ArithAssignOp, ArithOp, AssignOp, BinaryOp, BitwiseAssignOp, BitwiseOp, CmpOp, LogicOp,
    MemberOp, UnaryArithOp, UnaryOp,
};
use crate::syntax;
use crate::syntax::{
    ArgItem, BoolOp, Clause, Comparison, Comprehension, DictItem, ExprKind, FunctionType, Operator,
    Parameter, ParameterForm, Parameters, PrefixOp, Source, Span, StmtKind, TypeComment, TypeExpr,
};
use crate::positions::is_line_of;
use crate::text::{has_prefix, lines_from, trimmed, without_leading};

verus! {

/// An error in the use of the language, with the place it is about.
#[derive(Debug)]
pub struct SyntaxError {
    pub range: Span,
    pub message: String,
}

/// A module under construction, with its source map and the errors found.
#[derive(Debug)]
pub struct Lowering {
    pub file: File,
    pub module: Module,
    pub source_map: ModuleSourceMap,
    pub errors: Vec<SyntaxError>,
}

/// Whether `b` is `a` with something added behind.
pub open spec fn grows<T>(a: Seq<T>, b: Seq<T>) -> bool {
    &&& a.len() <= b.len()
    &&& forall|i: int| 0 <= i < a.len() ==> #[trigger] a[i] == b[i]
}

impl Lowering {
    /// Whether `later` is this module with something added.
    pub open spec fn leads_to(self, later: Lowering) -> bool {
        &&& self.file == later.file
        &&& grows(self.module.exprs@, later.module.exprs@)
        &&& grows(self.module.stmts@, later.module.stmts@)
        &&& grows(self.module.params@, later.module.params@)
        &&& grows(self.module.load_items@, later.module.load_items@)
        &&& grows(self.module.param_to_def_stmt@, later.module.param_to_def_stmt@)
        &&& grows(self.module.assignment_sources@, later.module.assignment_sources@)
        &&& grows(self.module.call_expr_with_impl_fn@, later.module.call_expr_with_impl_fn@)
        &&& grows(self.source_map.expr_map_back@, later.source_map.expr_map_back@)
        &&& grows(self.source_map.stmt_map_back@, later.source_map.stmt_map_back@)
        &&& grows(self.source_map.param_map_back@, later.source_map.param_map_back@)
        &&& grows(self.source_map.load_item_map_back@, later.source_map.load_item_map_back@)
        &&& grows(self.source_map.expr_nodes@, later.source_map.expr_nodes@)
        &&& grows(self.source_map.stmt_nodes@, later.source_map.stmt_nodes@)
        &&& grows(self.source_map.param_nodes@, later.source_map.param_nodes@)
        &&& grows(self.source_map.load_item_nodes@, later.source_map.load_item_nodes@)
        &&& grows(self.source_map.function_names@, later.source_map.function_names@)
        &&& grows(self.source_map.keyword_names@, later.source_map.keyword_names@)
        &&& grows(self.source_map.type_comment_owners@, later.source_map.type_comment_owners@)
        &&& grows(self.errors@, later.errors@)
        &&& self.source_map.root == later.source_map.root
        &&& self.module.type_ignore_comment_lines == later.module.type_ignore_comment_lines
    }

    /// Whether the arenas and their ranges fit together.
    pub open spec fn wf(self) -> bool {
        &&& self.module.exprs@.len() == self.source_map.expr_map_back@.len()
        &&& self.module.stmts@.len() == self.source_map.stmt_map_back@.len()
        &&& self.module.params@.len() == self.source_map.param_map_back@.len()
        &&& self.module.load_items@.len() == self.source_map.load_item_map_back@.len()
        &&& self.module.wf()
    }

    /// Whether expression `id` exists and has the range `range`.
    pub open spec fn located(self, id: ExprId, range: Span) -> bool {
        &&& id.0 < self.module.exprs@.len()
        &&& id.0 < self.source_map.expr_map_back@.len()
        &&& self.source_map.expr_map_back@[id.0 as int] == Some(range)
    }

    /// Whether expression `id` is a synthetic one without a range.
    pub open spec fn missing(self, id: ExprId) -> bool {
        &&& id.0 < self.module.exprs@.len()
        &&& id.0 < self.source_map.expr_map_back@.len()
        &&& self.module.exprs@[id.0 as int] is Missing
        &&& self.source_map.expr_map_back@[id.0 as int] is None
    }

    /// Whether statement `id` exists and has the range `range`.
    pub open spec fn stmt_located(self, id: StmtId, range: Span) -> bool {
        &&& id.0 < self.module.stmts@.len()
        &&& id.0 < self.source_map.stmt_map_back@.len()
        &&& self.source_map.stmt_map_back@[id.0 as int] == range
    }

    /// Where the value of `expr` goes. A synthetic expression has no source.
    pub open spec fn flows_to(self, expr: ExprId, target: AssignmentSource) -> bool {
        &&& expr.0 < self.source_map.expr_map_back@.len()
        &&& self.source_map.expr_map_back@[expr.0 as int] is Some
            ==> self.module.assignment_sources@.contains((expr, target))
    }
}

/// The name that an identifier stands for. `load` is no name.
pub open spec fn name_text(text: Seq<char>) -> Seq<char> {
    if text.len() == 0 || text == "load"@ {
        missing_text()
    } else {
        text
    }
}

/// The number of parentheses, from index `k` outwards, that stand inside `parent`.
pub open spec fn inner_parens(parens: Seq<Span>, parent: Span, k: nat) -> nat
    decreases parens.len() - k,
{
    if k >= parens.len() || parens[k as int].start < parent.start {
        k
    } else {
        inner_parens(parens, parent, k + 1)
    }
}

/// The number of parentheses of `e` that stand inside `parent`.
pub open spec fn paren_count(e: syntax::Expr, parent: Span) -> nat {
    inner_parens(e.parens@, parent, 0)
}

/// The range of `e` with its parentheses inside `parent`.
pub open spec fn outer_range(e: syntax::Expr, parent: Span) -> Span {
    let n = paren_count(e, parent);
    if n == 0 || n > e.parens@.len() {
        e.range
    } else {
        e.parens@[n - 1]
    }
}

/// The expression below `n` parentheses.
pub open spec fn below_parens(exprs: Seq<Expr>, id: ExprId, n: nat) -> ExprId
    decreases n,
{
    if n == 0 {
        id
    } else if id.0 < exprs.len() {
        match exprs[id.0 as int] {
            Expr::Paren { expr } => below_parens(exprs, expr, (n - 1) as nat),
            _ => id,
        }
    } else {
        id
    }
}

/// Whether expression `id` is the first `n` of `parens` around something.
pub open spec fn wrapped(st: Lowering, parens: Seq<Span>, n: nat, id: ExprId) -> bool
    decreases n,
{
    n == 0 || {
        &&& n <= parens.len()
        &&& st.located(id, parens[n - 1])
        &&& match st.module.exprs@[id.0 as int] {
            Expr::Paren { expr } => wrapped(st, parens, (n - 1) as nat, expr),
            _ => false,
        }
    }
}

/// The operator that Starlark has for a binary operator.
pub open spec fn binary_op_of(op: Operator) -> Option<BinaryOp> {
    match op {
        Operator::Add => Some(BinaryOp::Arith(ArithOp::Add)),
        Operator::Sub => Some(BinaryOp::Arith(ArithOp::Sub)),
        Operator::Mult => Some(BinaryOp::Arith(ArithOp::Mul)),
        Operator::Div => Some(BinaryOp::Arith(ArithOp::Div)),
        Operator::FloorDiv => Some(BinaryOp::Arith(ArithOp::Flr)),
        Operator::Mod => Some(BinaryOp::Arith(ArithOp::Mod)),
        Operator::BitAnd => Some(BinaryOp::Bitwise(BitwiseOp::And)),
        Operator::BitOr => Some(BinaryOp::Bitwise(BitwiseOp::Or)),
        Operator::BitXor => Some(BinaryOp::Bitwise(BitwiseOp::Xor)),
        Operator::LShift => Some(BinaryOp::Bitwise(BitwiseOp::Shl)),
        Operator::RShift => Some(BinaryOp::Bitwise(BitwiseOp::Shr)),
        Operator::Pow => None,
        Operator::MatMult => None,
    }
}

/// The operator that Starlark has for an augmented assignment.
pub open spec fn assign_op_of(op: Operator) -> Option<AssignOp> {
    match op {
        Operator::Add => Some(AssignOp::Arith(ArithAssignOp::Add)),
        Operator::Sub => Some(AssignOp::Arith(ArithAssignOp::Sub)),
        Operator::Mult => Some(AssignOp::Arith(ArithAssignOp::Mul)),
        Operator::Div => Some(AssignOp::Arith(ArithAssignOp::Div)),
        Operator::FloorDiv => Some(AssignOp::Arith(ArithAssignOp::Flr)),
        Operator::Mod => Some(AssignOp::Arith(ArithAssignOp::Mod)),
        Operator::BitAnd => Some(AssignOp::Bitwise(BitwiseAssignOp::And)),
        Operator::BitOr => Some(AssignOp::Bitwise(BitwiseAssignOp::Or)),
        Operator::BitXor => Some(AssignOp::Bitwise(BitwiseAssignOp::Xor)),
        Operator::LShift => Some(AssignOp::Bitwise(BitwiseAssignOp::Shl)),
        Operator::RShift => Some(AssignOp::Bitwise(BitwiseAssignOp::Shr)),
        Operator::Pow => None,
        Operator::MatMult => None,
    }
}

/// The operator that Starlark has for a comparison.
pub open spec fn compare_op_of(op: Comparison) -> Option<BinaryOp> {
    match op {
        Comparison::Eq => Some(BinaryOp::Cmp(CmpOp::Eq)),
        Comparison::NotEq => Some(BinaryOp::Cmp(CmpOp::Ne)),
        Comparison::Lt => Some(BinaryOp::Cmp(CmpOp::Lt)),
        Comparison::LtE => Some(BinaryOp::Cmp(CmpOp::Le)),
        Comparison::Gt => Some(BinaryOp::Cmp(CmpOp::Gt)),
        Comparison::GtE => Some(BinaryOp::Cmp(CmpOp::Ge)),
        Comparison::In => Some(BinaryOp::MemberOp(MemberOp::In)),
        Comparison::NotIn => Some(BinaryOp::MemberOp(MemberOp::NotIn)),
        Comparison::Is => None,
        Comparison::IsNot => None,
    }
}

/// The operator that Starlark has for a prefix operator.
pub open spec fn unary_op_of(op: PrefixOp) -> UnaryOp {
    match op {
        PrefixOp::Invert => UnaryOp::Inv,
        PrefixOp::Not => UnaryOp::Not,
        PrefixOp::UAdd => UnaryOp::Arith(UnaryArithOp::Add),
        PrefixOp::USub => UnaryOp::Arith(UnaryArithOp::Sub),
    }
}

/// The operator between the operands of a connective.
pub open spec fn logic_op_of(op: BoolOp) -> BinaryOp {
    BinaryOp::Logic(
        match op {
            BoolOp::And => LogicOp::And,
            BoolOp::Or => LogicOp::Or,
        },
    )
}

/// The operators of a chain of comparisons.
pub open spec fn compare_ops_of(ops: Seq<Comparison>) -> Seq<Option<BinaryOp>> {
    Seq::new(ops.len(), |i: int| compare_op_of(ops[i]))
}

/// The operators of a chain of `n` operands with one connective.
pub open spec fn logic_ops_of(op: BoolOp, n: nat) -> Seq<Option<BinaryOp>> {
    Seq::new(
        if n == 0 {
            0
        } else {
            (n - 1) as nat
        },
        |i: int| Some(logic_op_of(op)),
    )
}

/// The number of operands of a chain that its operators connect.
pub open spec fn chain_len(values: nat, ops: nat) -> nat {
    if values == 0 {
        0
    } else if values - 1 <= ops {
        values
    } else {
        ops + 1
    }
}

/// The range of the first `k` operands of a chain, with their parentheses.
pub open spec fn chain_range(values: Seq<syntax::Expr>, parent: Span, k: nat) -> Span
    decreases k,
{
    if k <= 1 {
        outer_range(values[0], parent)
    } else {
        chain_range(values, parent, (k - 1) as nat).hull(outer_range(values[k - 1], parent))
    }
}

/// The type that a comment writes.
pub open spec fn type_shape(ty: TypeExpr) -> TypeShape
    decreases ty,
{
    match ty {
        TypeExpr::Path { segments, args: None } => TypeShape::Path(segment_texts(segments@), None),
        TypeExpr::Path { segments, args: Some(args) } => TypeShape::Path(
            segment_texts(segments@),
            Some(type_shapes(args@)),
        ),
        TypeExpr::Union { types } => TypeShape::Union(type_shapes(types@)),
        TypeExpr::NoneType => TypeShape::Name("None"@, None),
        TypeExpr::Ellipsis => TypeShape::Ellipsis,
    }
}

/// The types of a list, in order.
pub open spec fn type_shapes(types: Seq<TypeExpr>) -> Seq<TypeShape>
    decreases types,
{
    Seq::new(
        types.len(),
        |i: int|
            if 0 <= i < types.len() {
                type_shape(types[i])
            } else {
                TypeShape::Unknown
            },
    )
}

/// The texts of a dotted path.
pub open spec fn segment_texts(segments: Seq<String>) -> Seq<Seq<char>> {
    Seq::new(segments.len(), |i: int| segments[i]@)
}

/// An absent type is unknown.
pub open spec fn type_shape_opt(ty: Option<TypeExpr>) -> TypeShape {
    match ty {
        Some(ty) => type_shape(ty),
        None => TypeShape::Unknown,
    }
}

/// The index of the first comment that starts at or behind `from`, `k` or later.
pub open spec fn first_comment(comments: Seq<TypeComment>, from: u32, k: int) -> int
    decreases comments.len() - k,
{
    if k < 0 || k >= comments.len() || comments[k].range.start >= from {
        k
    } else {
        first_comment(comments, from, k + 1)
    }
}

/// The comment that belongs to `range`: the first that starts at or behind its
/// start, if it ends inside.
pub open spec fn comment_of(src: Source, range: Span) -> Option<int> {
    let k = first_comment(src.comments@, range.start, 0);
    if 0 <= k < src.comments@.len() && range.encloses(src.comments@[k].range) {
        Some(k)
    } else {
        None
    }
}

/// The start of the first terminator at or behind `from`, `k` or later, or the
/// end of the text.
pub open spec fn terminator(src: Source, from: u32, k: int) -> u32
    decreases src.terminators@.len() - k,
{
    if k < 0 || k >= src.terminators@.len() {
        src.len
    } else if src.terminators@[k] >= from {
        src.terminators@[k]
    } else {
        terminator(src, from, k + 1)
    }
}

/// The comment behind an assignment with the range `range`, on the same line.
pub open spec fn assignment_comment_of(src: Source, range: Span) -> Option<int> {
    comment_of(
        src,
        Span { start: range.end, end: syntax::upper_of(terminator(src, range.end, 0), range.end) },
    )
}

/// The value of the first string inside `range`, token `k` or later.
pub open spec fn string_in(src: Source, range: Span, k: int) -> Seq<char>
    decreases src.strings@.len() - k,
{
    if k < 0 || k >= src.strings@.len() {
        Seq::empty()
    } else if range.encloses(src.strings@[k].range) && !src.strings@[k].is_bytes {
        src.strings@[k].value@
    } else {
        string_in(src, range, k + 1)
    }
}

/// The description that one line of a docstring gives of a parameter.
pub open spec fn doc_of_line(line: Seq<char>, name: Seq<char>) -> Option<Seq<char>> {
    let entry = without_leading(trimmed(line), '*');
    let prefix = name + seq![':'];
    if has_prefix(entry, prefix) {
        Some(trimmed(entry.subrange(prefix.len() as int, entry.len() as int)))
    } else {
        None
    }
}

/// The description of a parameter in the lines of a docstring, `k` or later.
pub open spec fn doc_of_param(lines: Seq<Seq<char>>, name: Seq<char>, k: int) -> Option<Seq<char>>
    decreases lines.len() - k,
{
    if k < 0 || k >= lines.len() {
        None
    } else if doc_of_line(lines[k], name) is Some {
        doc_of_line(lines[k], name)
    } else {
        doc_of_param(lines, name, k + 1)
    }
}

/// The text of an optional string.
pub open spec fn text_of(s: Option<String>) -> Option<Seq<char>> {
    match s {
        Some(s) => Some(s@),
        None => None,
    }
}

/// The description of the parameter `name` in a docstring.
pub open spec fn param_doc(doc: Option<Seq<char>>, name: Seq<char>) -> Option<Seq<char>> {
    match doc {
        Some(doc) => doc_of_param(lines_from(doc, 0), name, 0),
        None => None,
    }
}

/// The number of places in a list of parameters: a bare star counts as one.
pub open spec fn slot_count(p: Parameters) -> nat {
    if p.bare_star is Some {
        p.items@.len() + 1
    } else {
        p.items@.len()
    }
}

/// The range of place `k`; the bare star is the last.
pub open spec fn slot_range(p: Parameters, k: int) -> Span {
    if 0 <= k < p.items@.len() {
        p.items@[k].range
    } else {
        p.bare_star->0
    }
}

/// `order` with `k` put behind every place that does not start later.
pub open spec fn insert_slot(p: Parameters, order: Seq<int>, k: int) -> Seq<int>
    decreases order.len(),
{
    if order.len() == 0 || slot_range(p, order.last()).start <= slot_range(p, k).start {
        order.push(k)
    } else {
        insert_slot(p, order.drop_last(), k).push(order.last())
    }
}

/// The first `n` places in the order in which they start.
pub open spec fn slot_order(p: Parameters, n: nat) -> Seq<int>
    decreases n,
{
    if n == 0 {
        Seq::empty()
    } else {
        insert_slot(p, slot_order(p, (n - 1) as nat), n - 1)
    }
}

/// The range in which the comment of the `k`-th parameter stands.
pub open spec fn slot_gap(p: Parameters, order: Seq<int>, k: int) -> Span {
    let range = slot_range(p, order[k]);
    let end = if k + 1 < order.len() {
        slot_range(p, order[k + 1]).start
    } else {
        p.range.end
    };
    Span { start: range.end, end: syntax::upper_of(end, range.end) }
}

/// The errors of parameter `k`, given those before it.
pub open spec fn param_errors(params: Seq<Param>, k: int) -> Seq<Seq<char>> {
    let param = params[k];
    let star = exists|j: int| 0 <= j < k && #[trigger] params[j] is ArgsList;
    let star_star = exists|j: int| 0 <= j < k && #[trigger] params[j] is KwargsDict;
    let default = exists|j: int|
        0 <= j < k && (#[trigger] params[j]) is Simple && params[j].default_value() is Some;
    let duplicate = param.label() != missing_text() && exists|j: int|
        0 <= j < k && (#[trigger] params[j]).label() == param.label();
    let first = if duplicate {
        seq!["Duplicate parameter "@ + param.label()]
    } else {
        Seq::empty()
    };
    let follows = if star_star {
        seq!["Parameter cannot follow \"**\" parameter"@]
    } else {
        Seq::empty()
    };
    match param {
        Param::Simple { .. } => {
            let order = if default && !star && param.default_value() is None {
                seq!["Non-default parameter cannot follow default parameter"@]
            } else {
                Seq::empty()
            };
            first + order + follows
        },
        Param::ArgsList { .. } => {
            let order = if star {
                seq!["Only one \"*\" parameter is allowed"@]
            } else {
                Seq::empty()
            };
            first + order + follows
        },
        Param::KwargsDict { .. } => {
            let order = if star_star {
                seq!["Only one \"**\" parameter is allowed"@]
            } else {
                Seq::empty()
            };
            first + order
        },
    }
}

/// Whether `errors` holds one with the range and the message.
pub open spec fn reported(errors: Seq<SyntaxError>, range: Span, message: Seq<char>) -> bool {
    exists|i: int|
        0 <= i < errors.len() && (#[trigger] errors[i]).range == range && errors[i].message@
            == message
}

/// The first keyword argument `implementation` whose value is a name, `k` or later.
pub open spec fn impl_fn_name(exprs: Seq<Expr>, args: Seq<Argument>, k: int) -> Option<Name>
    decreases args.len() - k,
{
    if k < 0 || k >= args.len() {
        None
    } else {
        let rest = impl_fn_name(exprs, args, k + 1);
        match args[k] {
            Argument::Keyword { name, expr } => if name@ == "implementation"@ {
                match exprs[expr.0 as int] {
                    Expr::Name { name } => Some(name),
                    _ => rest,
                }
            } else {
                rest
            },
            _ => rest,
        }
    }
}

/// Whether an expression gets a range when it is lowered.
pub open spec fn has_range(e: syntax::Expr, parent: Span) -> bool
    decreases e, 1nat,
{
    paren_count(e, parent) > 0 || has_bare_range(e)
}

/// Whether an expression gets a range of its own when it is lowered, leaving
/// parentheses aside.
pub open spec fn has_bare_range(e: syntax::Expr) -> bool
    decreases e, 0nat,
{
    &&& e.supported
    &&& match e.kind {
        ExprKind::Name { id } => id@.len() > 0,
        ExprKind::Bool2 { op: _, values } => chain_has_range(
            values@,
            e.range,
            if values@.len() == 0 {
                0
            } else {
                (values@.len() - 1) as nat
            },
        ),
        ExprKind::Compare { operands, ops } => chain_has_range(operands@, e.range, ops@.len()),
        ExprKind::Slice { .. } => false,
        ExprKind::Starred { .. } => false,
        ExprKind::Other => false,
        _ => true,
    }
}

/// Whether a chain of operands gets a range when it is lowered.
pub open spec fn chain_has_range(values: Seq<syntax::Expr>, parent: Span, ops: nat) -> bool
    decreases values, 0nat,
{
    values.len() > 0 && (chain_len(values.len(), ops) > 1 || has_range(values[0], parent))
}

/// Whether expression `id` is what `e` means inside `parent`.
pub open spec fn expr_at(
    src: Source,
    e: syntax::Expr,
    parent: Span,
    st: Lowering,
    id: ExprId,
) -> bool
    decreases e, 1nat,
{
    let n = paren_count(e, parent);
    let bare = below_parens(st.module.exprs@, id, n);
    &&& wrapped(st, e.parens@, n, id)
    &&& bare_at(src, e, st, bare)
    &&& st.module.exprs@[bare.0 as int] is Missing || st.source_map.expr_nodes@.contains(
        (e.node, bare),
    )
}

/// Whether the expressions `ids` are what `elts` mean inside `parent`, one by one.
pub open spec fn exprs_at(
    src: Source,
    elts: Seq<syntax::Expr>,
    parent: Span,
    st: Lowering,
    ids: Seq<ExprId>,
) -> bool
    decreases elts, 0nat,
{
    &&& ids.len() == elts.len()
    &&& forall|i: int|
        0 <= i < elts.len() ==> expr_at(src, elts[i], parent, st, #[trigger] ids[i])
}

/// Whether `id` is what an optional expression means inside `parent`.
pub open spec fn expr_opt_at(
    src: Source,
    e: Option<Box<syntax::Expr>>,
    parent: Span,
    st: Lowering,
    id: Option<ExprId>,
) -> bool
    decreases e, 0nat,
{
    match (e, id) {
        (Some(e), Some(id)) => expr_at(src, *e, parent, st, id),
        (None, None) => true,
        _ => false,
    }
}

/// Whether expression `id` is what the first `k` operands of a chain mean.
pub open spec fn chain_at(
    src: Source,
    values: Seq<syntax::Expr>,
    ops: Seq<Option<BinaryOp>>,
    parent: Span,
    st: Lowering,
    id: ExprId,
    k: nat,
) -> bool
    decreases values, k,
{
    if k == 0 || k > values.len() {
        st.missing(id)
    } else if k == 1 {
        expr_at(src, values[0], parent, st, id)
    } else {
        &&& st.located(id, chain_range(values, parent, k))
        &&& match st.module.exprs@[id.0 as int] {
            Expr::Binary { lhs, rhs, op } => {
                &&& op == ops[k - 2]
                &&& chain_at(src, values, ops, parent, st, lhs, (k - 1) as nat)
                &&& expr_at(src, values[k - 1], parent, st, rhs)
            },
            _ => false,
        }
    }
}

/// Whether `args` are what the arguments of a call mean.
pub open spec fn args_at(
    src: Source,
    items: Seq<ArgItem>,
    range: Span,
    st: Lowering,
    args: Seq<Argument>,
) -> bool
    decreases items, 0nat,
{
    &&& args.len() == items.len()
    &&& forall|i: int| 0 <= i < items.len() ==> arg_at(src, items[i], range, st, #[trigger] args[i])
}

/// Whether `arg` is what one argument of a call means.
pub open spec fn arg_at(
    src: Source,
    item: ArgItem,
    range: Span,
    st: Lowering,
    arg: Argument,
) -> bool
    decreases item, 0nat,
{
    match item {
        ArgItem::Arg(e) => match e.kind {
            ExprKind::Starred { value } => match arg {
                Argument::UnpackedList { expr } => expr_at(src, *value, e.range, st, expr),
                _ => false,
            },
            _ => match arg {
                Argument::Simple { expr } => expr_at(src, e, range, st, expr),
                _ => false,
            },
        },
        ArgItem::Keyword { range: _, node: _, name: Some(written), value } => match arg {
            Argument::Keyword { name, expr } => {
                &&& name@ == name_text(written.text@)
                &&& expr_at(src, value, range, st, expr)
                &&& st.source_map.keyword_names@.contains((expr, written.range))
            },
            _ => false,
        },
        ArgItem::Keyword { range: _, node: _, name: None, value } => match arg {
            Argument::UnpackedDict { expr } => expr_at(src, value, range, st, expr),
            _ => false,
        },
    }
}

/// Whether `targets` are what the target of a loop means: the elements of a
/// tuple without parentheses, or the target itself.
pub open spec fn targets_at(
    src: Source,
    target: syntax::Expr,
    parent: Span,
    st: Lowering,
    targets: Seq<ExprId>,
) -> bool
    decreases target, 2nat,
{
    match target.kind {
        ExprKind::Tuple { elts, parenthesized: false } => exprs_at(
            src,
            elts@,
            target.range,
            st,
            targets,
        ),
        _ => targets.len() == 1 && expr_at(src, target, parent, st, targets[0]),
    }
}

/// Whether `clauses` are what the generators of a comprehension mean: for each
/// its loop, then its conditions.
pub open spec fn comp_at(
    src: Source,
    generators: Seq<Comprehension>,
    st: Lowering,
    clauses: Seq<CompClause>,
) -> bool
    decreases generators, 0nat,
{
    if generators.len() == 0 {
        clauses.len() == 0
    } else {
        let g = generators.last();
        let base = clauses.len() - g.ifs@.len() - 1;
        &&& base >= 0
        &&& comp_at(src, generators.drop_last(), st, clauses.take(base))
        &&& match clauses[base] {
            CompClause::For { iterable, targets } => {
                &&& expr_at(src, g.iter, g.range, st, iterable)
                &&& targets_at(src, g.target, g.range, st, targets@)
            },
            _ => false,
        }
        &&& forall|j: int|
            0 <= j < g.ifs@.len() ==> match #[trigger] clauses[base + 1 + j] {
                CompClause::If { test } => expr_at(src, g.ifs@[j], g.range, st, test),
                _ => false,
            }
    }
}

/// Whether the loops of comprehension `id` are recorded as the places where the
/// elements of their iterables go.
pub open spec fn comp_sources(st: Lowering, clauses: Seq<CompClause>, id: ExprId) -> bool {
    forall|c: int|
        0 <= c < clauses.len() ==> match #[trigger] clauses[c] {
            CompClause::For { iterable, targets: _ } => st.flows_to(
                iterable,
                AssignmentSource::Comprehension { expression: id, clause: c as usize },
            ),
            _ => true,
        }
}

/// Whether `entries` are what the items of a dictionary mean; one without a key
/// has no entry.
pub open spec fn entries_at(
    src: Source,
    items: Seq<DictItem>,
    parent: Span,
    st: Lowering,
    entries: Seq<DictEntry>,
) -> bool
    decreases items, 0nat,
{
    if items.len() == 0 {
        entries.len() == 0
    } else {
        let item = items.last();
        match item.key {
            Some(key) => {
                &&& entries.len() > 0
                &&& expr_at(src, key, parent, st, entries.last().key)
                &&& expr_at(src, item.value, parent, st, entries.last().value)
                &&& entries_at(src, items.drop_last(), parent, st, entries.drop_last())
            },
            None => entries_at(src, items.drop_last(), parent, st, entries),
        }
    }
}

/// Whether parameter `id` is what place `slot` of a list of parameters means.
pub open spec fn param_at(
    src: Source,
    p: Parameters,
    slot: int,
    doc: Option<Seq<char>>,
    st: Lowering,
    id: ParamId,
) -> bool
    decreases p, 0nat,
{
    &&& id.0 < st.module.params@.len()
    &&& id.0 < st.source_map.param_map_back@.len()
    &&& st.source_map.param_map_back@[id.0 as int] == slot_range(p, slot)
    &&& if 0 <= slot < p.items@.len() {
        let item = p.items@[slot];
        let text = name_text(item.name@);
        &&& st.source_map.param_nodes@.contains((item.node, id))
        &&& match (item.form, st.module.params@[id.0 as int]) {
            (
                ParameterForm::Plain { default: wanted },
                Param::Simple { name, default, type_ref: _, doc: text_doc },
            ) => {
                &&& name@ == text
                &&& text_of(text_doc) == param_doc(doc, text)
                &&& expr_opt_at(src, wanted, item.owner, st, default)
            },
            (ParameterForm::Variadic, Param::ArgsList { name, type_ref: _, doc: text_doc }) => {
                &&& name@ == text
                &&& text_of(text_doc) == param_doc(doc, text)
            },
            (
                ParameterForm::KeywordVariadic,
                Param::KwargsDict { name, type_ref: _, doc: text_doc },
            ) => {
                &&& name@ == text
                &&& text_of(text_doc) == param_doc(doc, text)
            },
            _ => false,
        }
    } else {
        match st.module.params@[id.0 as int] {
            Param::ArgsList { name, type_ref: _, doc: None } => name@ == missing_text(),
            _ => false,
        }
    }
}

/// The written type of a parameter.
pub open spec fn param_type(param: Param) -> Option<Arc<TypeRef>> {
    match param {
        Param::Simple { name: _, default: _, type_ref, doc: _ } => type_ref,
        Param::ArgsList { name: _, type_ref, doc: _ } => type_ref,
        Param::KwargsDict { name: _, type_ref, doc: _ } => type_ref,
    }
}

/// The parameters with the indices `ids`.
pub open spec fn params_of(st: Lowering, ids: Seq<ParamId>) -> Seq<Param> {
    Seq::new(ids.len(), |i: int| st.module.params@[ids[i].0 as int])
}

/// Whether the `k`-th parameter has the type that belongs to it: that of its
/// own comment, or else that of the function's comment.
pub open spec fn param_typed(
    src: Source,
    p: Parameters,
    k: int,
    types: Seq<TypeShape>,
    st: Lowering,
    id: ParamId,
) -> bool {
    let written = param_type(st.module.params@[id.0 as int]);
    match comment_of(src, slot_gap(p, slot_order(p, slot_count(p)), k)) {
        Some(c) => {
            &&& written is Some
            &&& written->0.shape() == type_shape_opt(src.comments@[c].ty)
            &&& st.source_map.type_comment_owners@.contains(
                (src.comments@[c].range, TypeCommentOwner::Parameter(id)),
            )
        },
        None => if 0 <= k < types.len() {
            written is Some && written->0.shape() == types[k]
        } else {
            written is None
        },
    }
}

/// Whether the parameters `ids` are what a list of parameters means: each place
/// in the order in which the places start, with its type, its description and
/// its errors.
pub open spec fn params_at(
    src: Source,
    p: Parameters,
    types: Seq<TypeShape>,
    doc: Option<Seq<char>>,
    st: Lowering,
    ids: Seq<ParamId>,
) -> bool
    decreases p, 1nat,
{
    let order = slot_order(p, slot_count(p));
    &&& ids.len() == order.len()
    &&& forall|k: int|
        0 <= k < order.len() ==> {
            &&& param_at(src, p, order[k], doc, st, #[trigger] ids[k])
            &&& param_typed(src, p, k, types, st, ids[k])
        }
    &&& forall|k: int, m: int|
        0 <= k < order.len() && 0 <= m < param_errors(params_of(st, ids), k).len() ==> reported(
            st.errors@,
            slot_range(p, order[k]),
            #[trigger] param_errors(params_of(st, ids), k)[m],
        )
}

/// Whether expression `id` is what `e` means, leaving parentheses aside.
pub open spec fn bare_at(src: Source, e: syntax::Expr, st: Lowering, id: ExprId) -> bool
    decreases e, 0nat,
{
    let node = st.module.exprs@[id.0 as int];
    if !e.supported {
        st.missing(id)
    } else {
        match e.kind {
            ExprKind::Name { id: text } => if text@.len() == 0 {
                st.missing(id)
            } else {
                st.located(id, e.range) && match node {
                    Expr::Name { name } => name@ == name_text(text@),
                    _ => false,
                }
            },
            ExprKind::Int { value } => st.located(id, e.range) && match node {
                Expr::Literal { literal: Literal::Int(n) } => n == match value {
                    Some(n) => n,
                    None => 0,
                },
                _ => false,
            },
            ExprKind::Float => st.located(id, e.range) && node == (Expr::Literal {
                literal: Literal::Float,
            }),
            ExprKind::Bool { value } => st.located(id, e.range) && node == (Expr::Literal {
                literal: Literal::Bool(value),
            }),
            ExprKind::NoneLiteral => st.located(id, e.range) && node == (Expr::Literal {
                literal: Literal::NoneValue,
            }),
            ExprKind::Str { value } => st.located(id, e.range) && match node {
                Expr::Literal { literal: Literal::Str(text) } => text@ == match value {
                    Some(value) => value@,
                    None => Seq::empty(),
                },
                _ => false,
            },
            ExprKind::Bytes => st.located(id, e.range) && node == (Expr::Literal {
                literal: Literal::Bytes,
            }),
            ExprKind::If { test, body, orelse } => st.located(id, e.range) && match node {
                Expr::If { if_expr, test: condition, else_expr } => {
                    &&& expr_at(src, *body, e.range, st, if_expr)
                    &&& expr_at(src, *test, e.range, st, condition)
                    &&& expr_at(src, *orelse, e.range, st, else_expr)
                },
                _ => false,
            },
            ExprKind::Unary { op, operand } => st.located(id, e.range) && match node {
                Expr::Unary { expr, op: found } => {
                    &&& found == Some(unary_op_of(op))
                    &&& expr_at(src, *operand, e.range, st, expr)
                },
                _ => false,
            },
            ExprKind::Binary { left, op, right } => st.located(id, e.range) && match node {
                Expr::Binary { lhs, rhs, op: found } => {
                    &&& found == binary_op_of(op)
                    &&& expr_at(src, *left, e.range, st, lhs)
                    &&& expr_at(src, *right, e.range, st, rhs)
                },
                _ => false,
            },
            ExprKind::Bool2 { op, values } => {
                let ops = logic_ops_of(op, values@.len());
                chain_at(
                    src,
                    values@,
                    ops,
                    e.range,
                    st,
                    id,
                    chain_len(values@.len(), ops.len()),
                )
            },
            ExprKind::Compare { operands, ops } => chain_at(
                src,
                operands@,
                compare_ops_of(ops@),
                e.range,
                st,
                id,
                chain_len(operands@.len(), ops@.len()),
            ),
            ExprKind::Lambda { parameters, body } => st.located(id, e.range) && match node {
                Expr::Lambda { func, body: value } => {
                    &&& func.file == st.file
                    &&& func.name@ == "lambda"@
                    &&& func.ret_type_ref is None
                    &&& func.doc is None
                    &&& func.range == e.range
                    &&& match parameters {
                        Some(p) => params_at(src, *p, Seq::empty(), None, st, func.params@),
                        None => func.params@.len() == 0,
                    }
                    &&& expr_at(src, *body, e.range, st, value)
                },
                _ => false,
            },
            ExprKind::List { elts } => st.located(id, e.range) && match node {
                Expr::List { exprs } => exprs_at(src, elts@, e.range, st, exprs@),
                _ => false,
            },
            ExprKind::Tuple { elts, parenthesized: _ } => st.located(id, e.range) && match node {
                Expr::Tuple { exprs } => exprs_at(src, elts@, e.range, st, exprs@),
                _ => false,
            },
            ExprKind::ListComp { elt, generators } => st.located(id, e.range) && match node {
                Expr::ListComp { expr, comp_clauses } => {
                    &&& expr_at(src, *elt, e.range, st, expr)
                    &&& comp_at(src, generators@, st, comp_clauses@)
                    &&& comp_sources(st, comp_clauses@, id)
                },
                _ => false,
            },
            ExprKind::Dict { items } => st.located(id, e.range) && match node {
                Expr::Dict { entries } => entries_at(src, items@, e.range, st, entries@),
                _ => false,
            },
            ExprKind::DictComp { key, value, generators } => st.located(id, e.range) && match node {
                Expr::DictComp { entry, comp_clauses } => {
                    &&& expr_at(src, *key, e.range, st, entry.key)
                    &&& expr_at(src, *value, e.range, st, entry.value)
                    &&& comp_at(src, generators@, st, comp_clauses@)
                    &&& comp_sources(st, comp_clauses@, id)
                },
                _ => false,
            },
            ExprKind::Attribute { value, attr } => st.located(id, e.range) && match node {
                Expr::Dot { expr, field } => {
                    &&& field@ == name_text(attr@)
                    &&& expr_at(src, *value, e.range, st, expr)
                },
                _ => false,
            },
            ExprKind::Call { func, arguments } => st.located(id, e.range) && match node {
                Expr::Call { callee, args } => {
                    let name = impl_fn_name(st.module.exprs@, args@, 0);
                    &&& expr_at(src, *func, e.range, st, callee)
                    &&& args_at(src, arguments.items@, arguments.range, st, args@)
                    &&& name is Some ==> st.module.call_expr_with_impl_fn@.contains((name->0, id))
                },
                _ => false,
            },
            ExprKind::Subscript { value, slice } => st.located(id, e.range) && match slice.kind {
                ExprKind::Slice { lower, upper, step } => match node {
                    Expr::Slice { lhs, start, end, step: stride } => {
                        &&& expr_at(src, *value, e.range, st, lhs)
                        &&& expr_opt_at(src, lower, e.range, st, start)
                        &&& expr_opt_at(src, upper, e.range, st, end)
                        &&& expr_opt_at(src, step, e.range, st, stride)
                    },
                    _ => false,
                },
                _ => match node {
                    Expr::Index { lhs, index } => {
                        &&& expr_at(src, *value, e.range, st, lhs)
                        &&& expr_at(src, *slice, e.range, st, index)
                    },
                    _ => false,
                },
            },
            ExprKind::Slice { .. } => st.missing(id),
            ExprKind::Starred { .. } => st.missing(id),
            ExprKind::Other => st.missing(id),
        }
    }
}

/// The types of the parameters in a function's comment.
pub open spec fn func_param_shapes(f: FunctionType) -> Seq<TypeShape> {
    match f.params {
        Some(params) => Seq::new(params@.len(), |i: int| type_shape_opt(params@[i])),
        None => Seq::empty(),
    }
}

/// The contents of shared types.
pub open spec fn arc_shapes(types: Seq<Arc<TypeRef>>) -> Seq<TypeShape> {
    Seq::new(types.len(), |i: int| types[i].shape())
}

/// The comment of a function: the first in its suite before its first statement.
pub open spec fn def_comment(src: Source, body: Seq<syntax::Stmt>, suite: Option<Span>) -> Option<
    int,
> {
    match suite {
        Some(suite) => comment_of(
            src,
            Span {
                start: suite.start,
                end: syntax::upper_of(
                    if body.len() > 0 {
                        body[0].range.start
                    } else {
                        suite.end
                    },
                    suite.start,
                ),
            },
        ),
        None => None,
    }
}

/// Whether a statement is a literal without parentheses around it.
pub open spec fn is_literal_stmt(s: syntax::Stmt) -> bool {
    match s.kind {
        StmtKind::Expr { value } => {
            &&& value.supported
            &&& outer_range(value, s.range) == value.range
            &&& match value.kind {
                ExprKind::Int { .. } => true,
                ExprKind::Float => true,
                ExprKind::Bool { .. } => true,
                ExprKind::NoneLiteral => true,
                ExprKind::Str { .. } => true,
                ExprKind::Bytes => true,
                _ => false,
            }
        },
        _ => false,
    }
}

/// The docstring of a body, statement `k` or later: its first literal, if that
/// is a string.
pub open spec fn doc_text(body: Seq<syntax::Stmt>, k: int) -> Option<Seq<char>>
    decreases body.len() - k,
{
    if k < 0 || k >= body.len() {
        None
    } else if is_literal_stmt(body[k]) {
        match body[k].kind {
            StmtKind::Expr { value } => match value.kind {
                ExprKind::Str { value } => text_of(value),
                _ => None,
            },
            _ => None,
        }
    } else {
        doc_text(body, k + 1)
    }
}

/// Whether a statement is a call of `load`.
pub open spec fn is_load(s: syntax::Stmt) -> bool {
    match s.kind {
        StmtKind::Expr { value } => match value.kind {
            ExprKind::Call { func, arguments: _ } => match func.kind {
                ExprKind::Name { id } => id@ == "load"@,
                _ => false,
            },
            _ => false,
        },
        _ => false,
    }
}

/// Whether a statement has a definition. Unsupported statements have none.
pub open spec fn has_stmt(s: syntax::Stmt) -> bool {
    match s.kind {
        StmtKind::Other => false,
        StmtKind::Expr { value } => is_load(s) || has_range(value, s.range),
        _ => true,
    }
}

/// `range` widened to hold the statements `ids`.
pub open spec fn covered(st: Lowering, range: Span, ids: Seq<StmtId>) -> Span
    decreases ids.len(),
{
    if ids.len() == 0 {
        range
    } else {
        covered(st, range, ids.drop_last()).hull(
            st.source_map.stmt_map_back@[ids.last().0 as int],
        )
    }
}

/// `range` widened to hold an optional range.
pub open spec fn hull_opt(range: Span, other: Option<Span>) -> Span {
    match other {
        Some(other) => range.hull(other),
        None => range,
    }
}

/// The first `n` clauses that have a test.
pub open spec fn tested(clauses: Seq<Clause>, n: nat) -> Seq<int>
    decreases n,
{
    if n == 0 {
        Seq::empty()
    } else if clauses[n - 1].test is Some {
        tested(clauses, (n - 1) as nat).push(n - 1)
    } else {
        tested(clauses, (n - 1) as nat)
    }
}

/// The last of the first `n` clauses that has no test.
pub open spec fn last_else(clauses: Seq<Clause>, n: nat) -> Option<int>
    decreases n,
{
    if n == 0 {
        None
    } else if clauses[n - 1].test is None {
        Some(n - 1)
    } else {
        last_else(clauses, (n - 1) as nat)
    }
}

/// The range of a clause with its suite and its statements.
pub open spec fn clause_range(c: Clause, st: Lowering, ids: Seq<StmtId>) -> Span {
    covered(st, hull_opt(c.range, c.suite), ids)
}

/// The range of what follows the suite of an `if`.
pub open spec fn tail_range(
    clauses: Seq<Clause>,
    st: Lowering,
    branch: Option<ElseBranch>,
) -> Option<Span> {
    match branch {
        Some(ElseBranch::Elif(id)) => Some(st.source_map.stmt_map_back@[id.0 as int]),
        Some(ElseBranch::Else(ids)) => match last_else(clauses, clauses.len()) {
            Some(k) => Some(clause_range(clauses[k], st, ids@)),
            None => None,
        },
        None => None,
    }
}

/// Whether the loaded name `id` is what one argument of a `load` means.
pub open spec fn load_item_at(
    src: Source,
    item: ArgItem,
    module: Seq<char>,
    range: Span,
    st: Lowering,
    id: LoadItemId,
) -> bool {
    &&& id.0 < st.module.load_items@.len()
    &&& id.0 < st.source_map.load_item_map_back@.len()
    &&& match (item, st.module.load_items@[id.0 as int]) {
        (ArgItem::Arg(e), LoadItem::Direct { name, load_stmt }) => {
            &&& name@ == string_in(src, e.range, 0)
            &&& load_stmt.module@ == module
            &&& load_stmt.range == range
            &&& st.source_map.load_item_map_back@[id.0 as int] == e.range
            &&& st.source_map.load_item_nodes@.contains((e.node, id))
        },
        (
            ArgItem::Keyword { range: whole, node, name: written, value },
            LoadItem::Aliased { alias, name, load_stmt },
        ) => {
            &&& alias@ == match written {
                Some(written) => name_text(written.text@),
                None => missing_text(),
            }
            &&& name@ == string_in(src, value.range, 0)
            &&& load_stmt.module@ == module
            &&& load_stmt.range == range
            &&& st.source_map.load_item_map_back@[id.0 as int] == whole
            &&& st.source_map.load_item_nodes@.contains((node, id))
        },
        _ => false,
    }
}

/// The module that a `load` names: its first argument, unless that is named.
pub open spec fn load_module(src: Source, items: Seq<ArgItem>) -> Seq<char> {
    if items.len() > 0 {
        match items[0] {
            ArgItem::Arg(e) => string_in(src, e.range, 0),
            _ => Seq::empty(),
        }
    } else {
        Seq::empty()
    }
}

/// The number of arguments of a `load` that name its module.
pub open spec fn load_skip(items: Seq<ArgItem>) -> int {
    if items.len() > 0 && items[0] is Arg {
        1
    } else {
        0
    }
}

/// Whether statement `id` is what the call `e` of `load` means.
pub open spec fn load_at(
    src: Source,
    e: syntax::Expr,
    arguments: Seq<ArgItem>,
    st: Lowering,
    id: StmtId,
) -> bool {
    &&& st.stmt_located(id, e.range)
    &&& st.source_map.stmt_nodes@.contains((e.node, id))
    &&& match st.module.stmts@[id.0 as int] {
        Stmt::Load { load_stmt, items } => {
            let skip = load_skip(arguments);
            &&& load_stmt.module@ == load_module(src, arguments)
            &&& load_stmt.range == e.range
            &&& items@.len() == arguments.len() - skip
            &&& forall|i: int|
                0 <= i < items@.len() ==> load_item_at(
                    src,
                    arguments[i + skip],
                    load_stmt.module@,
                    e.range,
                    st,
                    #[trigger] items@[i],
                )
        },
        _ => false,
    }
}

/// Whether the type of an assignment is that of the comment behind it.
pub open spec fn assigned_type(
    src: Source,
    range: Span,
    st: Lowering,
    type_ref: Option<(Arc<TypeRef>, Span)>,
    id: StmtId,
) -> bool {
    match (assignment_comment_of(src, range), type_ref) {
        (Some(c), Some((ty, place))) => {
            &&& ty.shape() == type_shape_opt(src.comments@[c].ty)
            &&& place == src.comments@[c].range
            &&& st.source_map.type_comment_owners@.contains(
                (place, TypeCommentOwner::Statement(id)),
            )
        },
        (None, None) => true,
        _ => false,
    }
}

/// Whether the statements `ids` are what `body` means, one for each statement
/// that has a definition.
pub open spec fn stmts_at(
    src: Source,
    body: Seq<syntax::Stmt>,
    st: Lowering,
    ids: Seq<StmtId>,
) -> bool
    decreases body, 0nat,
{
    if body.len() == 0 {
        ids.len() == 0
    } else if has_stmt(body.last()) {
        &&& ids.len() > 0
        &&& stmt_at(src, body.last(), st, ids.last())
        &&& stmts_at(src, body.drop_last(), st, ids.drop_last())
    } else {
        stmts_at(src, body.drop_last(), st, ids)
    }
}

/// Whether the statements `ids` are what the suite below a header means.
pub open spec fn suite_at(
    src: Source,
    body: Seq<syntax::Stmt>,
    suite: Option<Span>,
    st: Lowering,
    ids: Seq<StmtId>,
) -> bool
    decreases body, 1nat,
{
    if suite is Some {
        stmts_at(src, body, st, ids)
    } else {
        ids.len() == 0
    }
}

/// Whether `branch` is what the clauses of an `if` mean, from the `k`-th one
/// with a test on: nested `if` statements that end in the last `else`.
pub open spec fn tail_at(
    src: Source,
    clauses: Seq<Clause>,
    k: nat,
    st: Lowering,
    branch: Option<ElseBranch>,
) -> bool
    decreases clauses, clauses.len() - k,
{
    let order = tested(clauses, clauses.len());
    if k >= order.len() || k >= clauses.len() {
        match last_else(clauses, clauses.len()) {
            Some(c) => match branch {
                Some(ElseBranch::Else(ids)) => 0 <= c < clauses.len() && suite_at(
                    src,
                    clauses[c].body@,
                    clauses[c].suite,
                    st,
                    ids@,
                ),
                _ => false,
            },
            None => branch is None,
        }
    } else {
        let at = order[k as int];
        &&& 0 <= at < clauses.len()
        &&& match branch {
            Some(ElseBranch::Elif(id)) => {
                &&& id.0 < st.module.stmts@.len()
                &&& id.0 < st.source_map.stmt_map_back@.len()
                &&& match st.module.stmts@[id.0 as int] {
                    Stmt::If { test, if_stmts, elif_or_else_stmts } => {
                        &&& clauses[at].test is Some
                        &&& expr_at(src, clauses[at].test->0, clauses[at].range, st, test)
                        &&& suite_at(src, clauses[at].body@, clauses[at].suite, st, if_stmts@)
                        &&& tail_at(src, clauses, k + 1, st, elif_or_else_stmts)
                        &&& st.source_map.stmt_map_back@[id.0 as int] == hull_opt(
                            clause_range(clauses[at], st, if_stmts@),
                            tail_range(clauses, st, elif_or_else_stmts),
                        )
                    },
                    _ => false,
                }
            },
            _ => false,
        }
    }
}

/// Whether statement `id` is what `s` means.
pub open spec fn stmt_at(src: Source, s: syntax::Stmt, st: Lowering, id: StmtId) -> bool
    decreases s, 1nat,
{
    let node = st.module.stmts@[id.0 as int];
    &&& st.source_map.stmt_nodes@.contains((s.node, id))
    &&& id.0 < st.module.stmts@.len()
    &&& id.0 < st.source_map.stmt_map_back@.len()
    &&& match s.kind {
        StmtKind::FunctionDef { name, parameters, body, suite } => match node {
            Stmt::Def { func, stmts } => {
                let comment = def_comment(src, body@, suite);
                let written = match comment {
                    Some(c) => src.comments@[c].function,
                    None => None,
                };
                let doc = if suite is Some {
                    doc_text(body@, 0)
                } else {
                    None
                };
                &&& func.file == st.file
                &&& func.name@ == name_text(name.text@)
                &&& match written {
                    Some(f) => func.ret_type_ref is Some && func.ret_type_ref->0.shape()
                        == type_shape_opt(f.ret),
                    None => func.ret_type_ref is None,
                }
                &&& text_of(func.doc) == doc
                &&& func.range == hull_opt(covered(st, s.range, stmts@), suite)
                &&& params_at(
                    src,
                    parameters,
                    match written {
                        Some(f) => func_param_shapes(f),
                        None => Seq::empty(),
                    },
                    doc,
                    st,
                    func.params@,
                )
                &&& suite_at(src, body@, suite, st, stmts@)
                &&& st.stmt_located(id, func.range)
                &&& comment is Some ==> st.source_map.type_comment_owners@.contains(
                    (src.comments@[comment->0].range, TypeCommentOwner::Statement(id)),
                )
                &&& name.text@.len() > 0 ==> st.source_map.function_names@.contains(
                    (id, name.range),
                )
                &&& forall|i: int|
                    0 <= i < func.params@.len() ==> st.module.param_to_def_stmt@.contains(
                        (#[trigger] func.params@[i], (id, i as usize)),
                    )
            },
            _ => false,
        },
        StmtKind::If { test, body, suite, clauses } => match node {
            Stmt::If { test: condition, if_stmts, elif_or_else_stmts } => {
                &&& expr_at(src, test, s.range, st, condition)
                &&& suite_at(src, body@, suite, st, if_stmts@)
                &&& tail_at(src, clauses@, 0, st, elif_or_else_stmts)
                &&& st.stmt_located(
                    id,
                    hull_opt(
                        covered(
                            st,
                            hull_opt(s.range, tail_range(clauses@, st, elif_or_else_stmts)),
                            if_stmts@,
                        ),
                        suite,
                    ),
                )
            },
            _ => false,
        },
        StmtKind::For { target, iter, body, suite } => match node {
            Stmt::For { iterable, targets, stmts } => {
                &&& expr_at(src, iter, s.range, st, iterable)
                &&& targets_at(src, target, s.range, st, targets@)
                &&& suite_at(src, body@, suite, st, stmts@)
                &&& st.flows_to(iterable, AssignmentSource::Statement(id))
                &&& st.stmt_located(id, hull_opt(covered(st, s.range, stmts@), suite))
            },
            _ => false,
        },
        StmtKind::Return { value } => match (value, node) {
            (Some(value), Stmt::Return { expr: Some(expr) }) => {
                &&& expr_at(src, value, s.range, st, expr)
                &&& st.stmt_located(id, s.range)
            },
            (None, Stmt::Return { expr: None }) => st.stmt_located(id, s.range),
            _ => false,
        },
        StmtKind::Break => node is Break && st.stmt_located(id, s.range),
        StmtKind::Continue => node is Continue && st.stmt_located(id, s.range),
        StmtKind::Pass => node is Pass && st.stmt_located(id, s.range),
        StmtKind::Assign { targets, value } => match node {
            Stmt::Assign { lhs, rhs, op, type_ref } => {
                &&& if targets@.len() > 0 {
                    expr_at(src, targets@[0], s.range, st, lhs)
                } else {
                    st.missing(lhs)
                }
                &&& expr_at(src, value, s.range, st, rhs)
                &&& op == Some(AssignOp::Normal)
                &&& assigned_type(src, s.range, st, type_ref, id)
                &&& st.flows_to(rhs, AssignmentSource::Statement(id))
                &&& st.stmt_located(id, s.range)
            },
            _ => false,
        },
        StmtKind::AugAssign { target, op: written, value } => match node {
            Stmt::Assign { lhs, rhs, op, type_ref } => {
                &&& expr_at(src, target, s.range, st, lhs)
                &&& expr_at(src, value, s.range, st, rhs)
                &&& op == assign_op_of(written)
                &&& assigned_type(src, s.range, st, type_ref, id)
                &&& st.flows_to(rhs, AssignmentSource::Statement(id))
                &&& st.stmt_located(id, s.range)
            },
            _ => false,
        },
        StmtKind::Expr { value } => if is_load(s) {
            match value.kind {
                ExprKind::Call { func: _, arguments } => load_at(
                    src,
                    value,
                    arguments.items@,
                    st,
                    id,
                ),
                _ => false,
            }
        } else {
            match node {
                Stmt::Expr { expr } => {
                    &&& expr_at(src, value, s.range, st, expr)
                    &&& st.source_map.expr_map_back@[expr.0 as int] == Some(
                        st.source_map.stmt_map_back@[id.0 as int],
                    )
                },
                _ => false,
            }
        },
        StmtKind::Other => false,
    }
}

/// Whether `lines` are those of the comments that ask to ignore type errors.
pub open spec fn ignored_lines_at(
    comments: Seq<TypeComment>,
    starts: Seq<u32>,
    lines: Seq<usize>,
) -> bool
    decreases comments.len(),
{
    if comments.len() == 0 {
        lines.len() == 0
    } else if comments.last().ignores {
        &&& lines.len() > 0
        &&& is_line_of(starts, comments.last().range.start, lines.last() as int)
        &&& ignored_lines_at(comments.drop_last(), starts, lines.drop_last())
    } else {
        ignored_lines_at(comments.drop_last(), starts, lines)
    }
}

/// The error of a statement that stands at the top level.
pub open spec fn top_level_error(s: syntax::Stmt) -> Option<Seq<char>> {
    match s.kind {
        StmtKind::If { .. } => Some("Starlark does not allow top-level if statements"@),
        StmtKind::For { .. } => Some("Starlark does not allow top-level for statements"@),
        _ => None,
    }
}

} // verus!
