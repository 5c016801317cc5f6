//! What is lowered reads as it was written.
//!
//! A file that is parsed and the module that it is lowered to are both spelled out,
//! word by word, in the order of the text. The words are the same.

use vstd::prelude::*;

use crate::def::{
    missing_text, Argument, CompClause, DictEntry, ElseBranch, Expr, ExprId, Literal, LoadItem,
    LoadItemId, Module, Param, ParamId, Stmt, StmtId,
};
use crate::lower_spec::{
    arg_at, args_at, bare_at, below_parens, chain_at, chain_len, comp_at, compare_ops_of,
    entries_at, expr_at, expr_opt_at, exprs_at, has_stmt, is_load, last_else, load_item_at,
    load_skip, logic_ops_of, param_at, params_at, paren_count, slot_count, slot_order, stmt_at,
    stmts_at, string_in, suite_at, tail_at, targets_at, tested, wrapped, Lowering,
};
use crate::ops::BinaryOp;
use crate::ops_laws::{written, written_comparison};
use crate::syntax;
use crate::syntax::{
    ArgItem, BoolOp, Clause, Comparison, Comprehension, DictItem, ExprKind, Operator, ParameterForm,
    Parameters, PrefixOp, Source, Span, StmtKind,
};

verus! {

/// A word of a text.
pub enum Word {
    /// Punctuation, a keyword or an operator.
    Mark(Seq<char>),
    Name(Seq<char>),
    Int(u64),
    Float,
    Bool(bool),
    NoneValue,
    Str(Seq<char>),
    Bytes,
    /// What Starlark does not have.
    Gone,
}

/// A mark.
pub open spec fn mark(text: Seq<char>) -> Seq<Word> {
    seq![Word::Mark(text)]
}

/// Words in so many parentheses.
pub open spec fn in_parens(words: Seq<Word>, n: nat) -> Seq<Word>
    decreases n,
{
    if n == 0 {
        words
    } else {
        mark("("@) + in_parens(words, (n - 1) as nat) + mark(")"@)
    }
}

/// The name that is written, but for `load` and nothing.
pub open spec fn name_word(text: Seq<char>) -> Word {
    if text.len() == 0 || text == "load"@ {
        Word::Name(missing_text())
    } else {
        Word::Name(text)
    }
}

/// An operator that Starlark has, or none.
pub open spec fn operator_words(op: Operator) -> Seq<Word> {
    if op == Operator::Pow || op == Operator::MatMult {
        seq![Word::Gone]
    } else {
        mark(written(op))
    }
}

/// A comparison that Starlark has, or none.
pub open spec fn comparison_words(op: Comparison) -> Seq<Word> {
    if op == Comparison::Is || op == Comparison::IsNot {
        seq![Word::Gone]
    } else {
        mark(written_comparison(op))
    }
}

/// The words of an expression inside `parent`.
pub open spec fn words(e: syntax::Expr, parent: Span) -> Seq<Word>
    decreases e, 1nat,
{
    in_parens(bare_words(e), paren_count(e, parent))
}

/// The words of the first expressions of a list.
pub open spec fn list_words(elts: Seq<syntax::Expr>, parent: Span, n: nat) -> Seq<Word>
    decreases elts, n,
{
    if n == 0 || n > elts.len() {
        seq![]
    } else {
        list_words(elts, parent, (n - 1) as nat) + words(elts[n - 1], parent) + mark(","@)
    }
}

/// The words of an optional expression.
pub open spec fn opt_words(e: Option<Box<syntax::Expr>>, parent: Span) -> Seq<Word>
    decreases e, 0nat,
{
    match e {
        Some(e) => words(*e, parent),
        None => seq![],
    }
}

/// The words of the first operands of a chain with one connective.
pub open spec fn connected_words(
    values: Seq<syntax::Expr>,
    op: BoolOp,
    parent: Span,
    n: nat,
) -> Seq<Word>
    decreases values, n,
{
    if n == 0 || n > values.len() {
        seq![Word::Gone]
    } else if n == 1 {
        words(values[0], parent)
    } else {
        connected_words(values, op, parent, (n - 1) as nat) + mark(
            match op {
                BoolOp::And => "and"@,
                BoolOp::Or => "or"@,
            },
        ) + words(values[n - 1], parent)
    }
}

/// The words of the first operands of a chain of comparisons.
pub open spec fn compared_words(
    values: Seq<syntax::Expr>,
    ops: Seq<Comparison>,
    parent: Span,
    n: nat,
) -> Seq<Word>
    decreases values, n,
{
    if n == 0 || n > values.len() {
        seq![Word::Gone]
    } else if n == 1 {
        words(values[0], parent)
    } else {
        compared_words(values, ops, parent, (n - 1) as nat) + comparison_words(ops[n - 2]) + words(
            values[n - 1],
            parent,
        )
    }
}

/// The words of the first arguments of a call.
pub open spec fn args_words(items: Seq<ArgItem>, range: Span, n: nat) -> Seq<Word>
    decreases items, n,
{
    if n == 0 || n > items.len() {
        seq![]
    } else {
        args_words(items, range, (n - 1) as nat) + arg_words(items[n - 1], range) + mark(","@)
    }
}

/// The words of an argument.
pub open spec fn arg_words(item: ArgItem, range: Span) -> Seq<Word>
    decreases item, 0nat,
{
    match item {
        ArgItem::Arg(e) => match e.kind {
            ExprKind::Starred { value } => mark("*"@) + words(*value, e.range),
            _ => words(e, range),
        },
        ArgItem::Keyword { range: _, node: _, name: Some(name), value } => seq![
            name_word(name.text@),
        ] + mark("="@) + words(value, range),
        ArgItem::Keyword { range: _, node: _, name: None, value } => mark("**"@) + words(
            value,
            range,
        ),
    }
}

/// The words of the target of a loop.
pub open spec fn target_words(target: syntax::Expr, parent: Span) -> Seq<Word>
    decreases target, 2nat,
{
    match target.kind {
        ExprKind::Tuple { elts, parenthesized: false } => list_words(
            elts@,
            target.range,
            elts@.len(),
        ),
        _ => words(target, parent) + mark(","@),
    }
}

/// The words of the first conditions of a loop in a comprehension.
pub open spec fn tests_words(ifs: Seq<syntax::Expr>, parent: Span, n: nat) -> Seq<Word>
    decreases ifs, n,
{
    if n == 0 || n > ifs.len() {
        seq![]
    } else {
        tests_words(ifs, parent, (n - 1) as nat) + mark("if"@) + words(ifs[n - 1], parent)
    }
}

/// The words of the first loops of a comprehension, each with its conditions.
pub open spec fn comp_words(generators: Seq<Comprehension>) -> Seq<Word>
    decreases generators, 0nat,
{
    if generators.len() == 0 {
        seq![]
    } else {
        let g = generators.last();
        comp_words(generators.drop_last()) + (mark("for"@) + target_words(g.target, g.range)
            + mark("in"@) + words(g.iter, g.range)) + tests_words(g.ifs@, g.range, g.ifs@.len())
    }
}

/// The words of the entries of a dictionary; one without a key is left out.
pub open spec fn items_words(items: Seq<DictItem>, parent: Span) -> Seq<Word>
    decreases items, 0nat,
{
    if items.len() == 0 {
        seq![]
    } else {
        let item = items.last();
        items_words(items.drop_last(), parent) + match item.key {
            Some(key) => words(key, parent) + mark(":"@) + words(item.value, parent) + mark(","@),
            None => seq![],
        }
    }
}

/// The words of the parameter at a place of a list of parameters.
pub open spec fn slot_words(p: Parameters, slot: int) -> Seq<Word>
    decreases p, 0nat,
{
    if 0 <= slot < p.items@.len() {
        let item = p.items@[slot];
        let name = seq![name_word(item.name@)];
        match item.form {
            ParameterForm::Plain { default: Some(default) } => name + mark("="@) + words(
                *default,
                item.owner,
            ),
            ParameterForm::Plain { default: None } => name,
            ParameterForm::Variadic => mark("*"@) + name,
            ParameterForm::KeywordVariadic => mark("**"@) + name,
        }
    } else {
        mark("*"@) + seq![Word::Name(missing_text())]
    }
}

/// The words of the first parameters of a list, in the order of the text.
pub open spec fn slots_words(p: Parameters, order: Seq<int>, n: nat) -> Seq<Word>
    decreases p, 1nat, n,
{
    if n == 0 {
        seq![]
    } else {
        slots_words(p, order, (n - 1) as nat) + slot_words(p, order[n - 1]) + mark(","@)
    }
}

/// The words of a list of parameters.
pub open spec fn params_words(p: Parameters) -> Seq<Word>
    decreases p, 2nat,
{
    let order = slot_order(p, slot_count(p));
    slots_words(p, order, order.len())
}

/// The words of an expression, leaving the parentheses around it aside.
pub open spec fn bare_words(e: syntax::Expr) -> Seq<Word>
    decreases e, 0nat,
{
    let at = e.range;
    if !e.supported {
        seq![Word::Gone]
    } else {
        match e.kind {
            ExprKind::Name { id } => if id@.len() == 0 {
                seq![Word::Gone]
            } else {
                seq![name_word(id@)]
            },
            ExprKind::Int { value: Some(n) } => seq![Word::Int(n)],
            ExprKind::Int { value: None } => seq![Word::Int(0)],
            ExprKind::Float => seq![Word::Float],
            ExprKind::Bool { value } => seq![Word::Bool(value)],
            ExprKind::NoneLiteral => seq![Word::NoneValue],
            ExprKind::Str { value: Some(text) } => seq![Word::Str(text@)],
            ExprKind::Str { value: None } => seq![Word::Str(Seq::empty())],
            ExprKind::Bytes => seq![Word::Bytes],
            ExprKind::If { test, body, orelse } => words(*body, at) + mark("if"@) + words(
                *test,
                at,
            ) + mark("else"@) + words(*orelse, at),
            ExprKind::Unary { op, operand } => mark(
                match op {
                    PrefixOp::Invert => "~"@,
                    PrefixOp::Not => "!"@,
                    PrefixOp::UAdd => "+"@,
                    PrefixOp::USub => "-"@,
                },
            ) + words(*operand, at),
            ExprKind::Binary { left, op, right } => words(*left, at) + operator_words(op) + words(
                *right,
                at,
            ),
            ExprKind::Bool2 { op, values } => connected_words(values@, op, at, values@.len()),
            ExprKind::Compare { operands, ops } => compared_words(
                operands@,
                ops@,
                at,
                chain_len(operands@.len(), ops@.len()),
            ),
            ExprKind::Lambda { parameters: Some(p), body } => mark("lambda"@) + params_words(*p)
                + mark(":"@) + words(*body, at),
            ExprKind::Lambda { parameters: None, body } => mark("lambda"@) + mark(":"@) + words(
                *body,
                at,
            ),
            ExprKind::List { elts } => mark("["@) + list_words(elts@, at, elts@.len()) + mark(
                "]"@,
            ),
            ExprKind::Tuple { elts, parenthesized: _ } => mark("<"@) + list_words(
                elts@,
                at,
                elts@.len(),
            ) + mark(">"@),
            ExprKind::ListComp { elt, generators } => mark("["@) + words(*elt, at) + comp_words(
                generators@,
            ) + mark("]"@),
            ExprKind::Dict { items } => mark("{"@) + items_words(items@, at) + mark("}"@),
            ExprKind::DictComp { key, value, generators } => mark("{"@) + words(*key, at) + mark(
                ":"@,
            ) + words(*value, at) + comp_words(generators@) + mark("}"@),
            ExprKind::Attribute { value, attr } => words(*value, at) + mark("."@) + seq![
                name_word(attr@),
            ],
            ExprKind::Call { func, arguments } => words(*func, at) + mark("("@) + args_words(
                arguments.items@,
                arguments.range,
                arguments.items@.len(),
            ) + mark(")"@),
            ExprKind::Subscript { value, slice } => match slice.kind {
                ExprKind::Slice { lower, upper, step } => words(*value, at) + mark("["@)
                    + opt_words(lower, at) + mark(":"@) + opt_words(upper, at) + mark(":"@)
                    + opt_words(step, at) + mark("]"@),
                _ => words(*value, at) + mark("["@) + words(*slice, at) + mark("]"@),
            },
            ExprKind::Slice { .. } => seq![Word::Gone],
            ExprKind::Starred { .. } => seq![Word::Gone],
            ExprKind::Other => seq![Word::Gone],
        }
    }
}

/// The words of an expression of a module below `limit`.
pub open spec fn part_read(m: Module, id: ExprId, limit: nat) -> Seq<Word>
    decreases limit, 1nat, 0nat,
{
    if id.0 < limit {
        expr_read(m, id)
    } else {
        seq![]
    }
}

/// The words of an optional expression of a module below `limit`.
pub open spec fn opt_read(m: Module, id: Option<ExprId>, limit: nat) -> Seq<Word>
    decreases limit, 2nat, 0nat,
{
    match id {
        Some(id) => part_read(m, id, limit),
        None => seq![],
    }
}

/// The words of the first expressions of a list in a module.
pub open spec fn list_read(m: Module, ids: Seq<ExprId>, limit: nat, n: nat) -> Seq<Word>
    decreases limit, 2nat, n,
{
    if n == 0 {
        seq![]
    } else {
        list_read(m, ids, limit, (n - 1) as nat) + part_read(m, ids[n - 1], limit) + mark(","@)
    }
}

/// The words of the first arguments of a call in a module.
pub open spec fn args_read(m: Module, args: Seq<Argument>, limit: nat, n: nat) -> Seq<Word>
    decreases limit, 2nat, n,
{
    if n == 0 {
        seq![]
    } else {
        args_read(m, args, limit, (n - 1) as nat) + (match args[n - 1] {
            Argument::Simple { expr } => part_read(m, expr, limit),
            Argument::Keyword { name, expr } => seq![Word::Name(name@)] + mark("="@) + part_read(
                m,
                expr,
                limit,
            ),
            Argument::UnpackedList { expr } => mark("*"@) + part_read(m, expr, limit),
            Argument::UnpackedDict { expr } => mark("**"@) + part_read(m, expr, limit),
        }) + mark(","@)
    }
}

/// The words of the first clauses of a comprehension in a module.
pub open spec fn clauses_read(m: Module, clauses: Seq<CompClause>, limit: nat, n: nat) -> Seq<Word>
    decreases limit, 3nat, n,
{
    if n == 0 {
        seq![]
    } else {
        clauses_read(m, clauses, limit, (n - 1) as nat) + match clauses[n - 1] {
            CompClause::For { iterable, targets } => mark("for"@) + list_read(
                m,
                targets@,
                limit,
                targets@.len(),
            ) + mark("in"@) + part_read(m, iterable, limit),
            CompClause::If { test } => mark("if"@) + part_read(m, test, limit),
        }
    }
}

/// The words of the first entries of a dictionary in a module.
pub open spec fn entries_read(m: Module, entries: Seq<DictEntry>, limit: nat, n: nat) -> Seq<Word>
    decreases limit, 2nat, n,
{
    if n == 0 {
        seq![]
    } else {
        let entry = entries[n - 1];
        entries_read(m, entries, limit, (n - 1) as nat) + (part_read(m, entry.key, limit) + mark(
            ":"@,
        ) + part_read(m, entry.value, limit) + mark(","@))
    }
}

/// The words of the first parameters of a function in a module.
pub open spec fn params_read(m: Module, ids: Seq<ParamId>, limit: nat, n: nat) -> Seq<Word>
    decreases limit, 3nat, n,
{
    if n == 0 {
        seq![]
    } else {
        params_read(m, ids, limit, (n - 1) as nat) + (match m.params@[ids[n - 1].0 as int] {
            Param::Simple { name, default: Some(default), type_ref: _, doc: _ } => seq![
                Word::Name(name@),
            ] + mark("="@) + part_read(m, default, limit),
            Param::Simple { name, default: None, type_ref: _, doc: _ } => seq![Word::Name(name@)],
            Param::ArgsList { name, type_ref: _, doc: _ } => mark("*"@) + seq![Word::Name(name@)],
            Param::KwargsDict { name, type_ref: _, doc: _ } => mark("**"@) + seq![
                Word::Name(name@),
            ],
        }) + mark(","@)
    }
}

/// The words of a literal.
pub open spec fn literal_read(literal: Literal) -> Word {
    match literal {
        Literal::Int(n) => Word::Int(n),
        Literal::Float => Word::Float,
        Literal::Bool(value) => Word::Bool(value),
        Literal::NoneValue => Word::NoneValue,
        Literal::Str(text) => Word::Str(text@),
        Literal::Bytes => Word::Bytes,
    }
}

/// An operator of a module, if there is one.
pub open spec fn operator_read(op: Option<BinaryOp>) -> Seq<Word> {
    match op {
        Some(op) => mark(op.text()),
        None => seq![Word::Gone],
    }
}

/// The words of an expression of a module.
pub open spec fn expr_read(m: Module, id: ExprId) -> Seq<Word>
    decreases id.0, 4nat, 0nat,
{
    let limit = id.0 as nat;
    match m.exprs@[id.0 as int] {
        Expr::Missing => seq![Word::Gone],
        Expr::Name { name } => seq![Word::Name(name@)],
        Expr::Lambda { func, body } => mark("lambda"@) + params_read(
            m,
            func.params@,
            limit,
            func.params@.len(),
        ) + mark(":"@) + part_read(m, body, limit),
        Expr::If { if_expr, test, else_expr } => part_read(m, if_expr, limit) + mark("if"@)
            + part_read(m, test, limit) + mark("else"@) + part_read(m, else_expr, limit),
        Expr::Unary { expr, op } => (match op {
            Some(op) => mark(op.text()),
            None => seq![Word::Gone],
        }) + part_read(m, expr, limit),
        Expr::Binary { lhs, rhs, op } => part_read(m, lhs, limit) + operator_read(op) + part_read(
            m,
            rhs,
            limit,
        ),
        Expr::Dot { expr, field } => part_read(m, expr, limit) + mark("."@) + seq![
            Word::Name(field@),
        ],
        Expr::Call { callee, args } => part_read(m, callee, limit) + mark("("@) + args_read(
            m,
            args@,
            limit,
            args@.len(),
        ) + mark(")"@),
        Expr::Index { lhs, index } => part_read(m, lhs, limit) + mark("["@) + part_read(
            m,
            index,
            limit,
        ) + mark("]"@),
        Expr::Slice { lhs, start, end, step } => part_read(m, lhs, limit) + mark("["@) + opt_read(
            m,
            start,
            limit,
        ) + mark(":"@) + opt_read(m, end, limit) + mark(":"@) + opt_read(m, step, limit) + mark(
            "]"@,
        ),
        Expr::Literal { literal } => seq![literal_read(literal)],
        Expr::List { exprs } => mark("["@) + list_read(m, exprs@, limit, exprs@.len()) + mark(
            "]"@,
        ),
        Expr::Tuple { exprs } => mark("<"@) + list_read(m, exprs@, limit, exprs@.len()) + mark(
            ">"@,
        ),
        Expr::Paren { expr } => mark("("@) + part_read(m, expr, limit) + mark(")"@),
        Expr::Dict { entries } => mark("{"@) + entries_read(m, entries@, limit, entries@.len())
            + mark("}"@),
        Expr::DictComp { entry, comp_clauses } => mark("{"@) + part_read(m, entry.key, limit)
            + mark(":"@) + part_read(m, entry.value, limit) + clauses_read(
            m,
            comp_clauses@,
            limit,
            comp_clauses@.len(),
        ) + mark("}"@),
        Expr::ListComp { expr, comp_clauses } => mark("["@) + part_read(m, expr, limit)
            + clauses_read(m, comp_clauses@, limit, comp_clauses@.len()) + mark("]"@),
    }
}

/// An expression below others reads like them.
proof fn list_read_take(m: Module, a: Seq<ExprId>, b: Seq<ExprId>, limit: nat, n: nat)
    requires
        n <= a.len(),
        n <= b.len(),
        forall|i: int| 0 <= i < n ==> a[i] == b[i],
    ensures
        list_read(m, a, limit, n) == list_read(m, b, limit, n),
    decreases n,
{
    if n > 0 {
        list_read_take(m, a, b, limit, (n - 1) as nat);
    }
}

proof fn clauses_read_take(m: Module, a: Seq<CompClause>, b: Seq<CompClause>, limit: nat, n: nat)
    requires
        n <= a.len(),
        n <= b.len(),
        forall|i: int| 0 <= i < n ==> a[i] == b[i],
    ensures
        clauses_read(m, a, limit, n) == clauses_read(m, b, limit, n),
    decreases n,
{
    if n > 0 {
        clauses_read_take(m, a, b, limit, (n - 1) as nat);
    }
}

proof fn entries_read_take(m: Module, a: Seq<DictEntry>, b: Seq<DictEntry>, limit: nat, n: nat)
    requires
        n <= a.len(),
        n <= b.len(),
        forall|i: int| 0 <= i < n ==> a[i] == b[i],
    ensures
        entries_read(m, a, limit, n) == entries_read(m, b, limit, n),
    decreases n,
{
    if n > 0 {
        entries_read_take(m, a, b, limit, (n - 1) as nat);
    }
}

proof fn part_is_read(m: Module, id: ExprId, limit: nat)
    requires
        id.0 < limit,
    ensures
        part_read(m, id, limit) == expr_read(m, id),
{
}

proof fn parens_read(st: Lowering, parens: Seq<Span>, n: nat, id: ExprId, inside: Seq<Word>)
    requires
        st.wf(),
        wrapped(st, parens, n, id),
        expr_read(st.module, below_parens(st.module.exprs@, id, n)) == inside,
    ensures
        expr_read(st.module, id) == in_parens(inside, n),
    decreases n,
{
    if n > 0 {
        if let Expr::Paren { expr } = st.module.exprs@[id.0 as int] {
            assert(crate::def::expr_below(
                st.module.params@,
                st.module.exprs@[id.0 as int],
                id.0 as nat,
            ));
            parens_read(st, parens, (n - 1) as nat, expr, inside);
            part_is_read(st.module, expr, id.0 as nat);
        }
    }
}

/// An expression reads as it was written.
pub proof fn an_expression_reads_as_written(
    src: Source,
    e: syntax::Expr,
    parent: Span,
    st: Lowering,
    id: ExprId,
)
    requires
        st.wf(),
        expr_at(src, e, parent, st, id),
    ensures
        expr_read(st.module, id) == words(e, parent),
    decreases e, 1nat,
{
    let n = paren_count(e, parent);
    let bare = below_parens(st.module.exprs@, id, n);
    bare_reads(src, e, st, bare);
    parens_read(st, e.parens@, n, id, bare_words(e));
}

proof fn list_reads(
    src: Source,
    elts: Seq<syntax::Expr>,
    parent: Span,
    st: Lowering,
    ids: Seq<ExprId>,
    limit: nat,
    n: nat,
)
    requires
        st.wf(),
        exprs_at(src, elts, parent, st, ids),
        crate::def::all_below(ids, limit),
        n <= elts.len(),
    ensures
        list_read(st.module, ids, limit, n) == list_words(elts, parent, n),
    decreases elts, n,
{
    if n > 0 {
        list_reads(src, elts, parent, st, ids, limit, (n - 1) as nat);
        assert(expr_at(src, elts[n - 1], parent, st, ids[n - 1]));
        assert(ids[n - 1].0 < limit);
        an_expression_reads_as_written(src, elts[n - 1], parent, st, ids[n - 1]);
        part_is_read(st.module, ids[n - 1], limit);
    }
}

proof fn opt_reads(
    src: Source,
    e: Option<Box<syntax::Expr>>,
    parent: Span,
    st: Lowering,
    id: Option<ExprId>,
    limit: nat,
)
    requires
        st.wf(),
        expr_opt_at(src, e, parent, st, id),
        crate::def::opt_below(id, limit),
    ensures
        opt_read(st.module, id, limit) == opt_words(e, parent),
    decreases e, 0nat,
{
    if let (Some(e), Some(id)) = (e, id) {
        an_expression_reads_as_written(src, *e, parent, st, id);
        part_is_read(st.module, id, limit);
    }
}

proof fn connected_reads(
    src: Source,
    values: Seq<syntax::Expr>,
    op: BoolOp,
    parent: Span,
    st: Lowering,
    id: ExprId,
    k: nat,
)
    requires
        st.wf(),
        k <= values.len(),
        chain_at(src, values, logic_ops_of(op, values.len()), parent, st, id, k),
    ensures
        expr_read(st.module, id) == connected_words(values, op, parent, k),
    decreases values, k,
{
    if k == 1 {
        an_expression_reads_as_written(src, values[0], parent, st, id);
    } else if k > 1 {
        assert(crate::def::expr_below(
            st.module.params@,
            st.module.exprs@[id.0 as int],
            id.0 as nat,
        ));
        if let Expr::Binary { lhs, rhs, op: found } = st.module.exprs@[id.0 as int] {
            crate::ops_laws::connectives_are_kept(op, PrefixOp::Not);
            connected_reads(src, values, op, parent, st, lhs, (k - 1) as nat);
            part_is_read(st.module, lhs, id.0 as nat);
            part_is_read(st.module, rhs, id.0 as nat);
            an_expression_reads_as_written(src, values[k - 1], parent, st, rhs);
        }
    }
}

proof fn compared_reads(
    src: Source,
    values: Seq<syntax::Expr>,
    ops: Seq<Comparison>,
    parent: Span,
    st: Lowering,
    id: ExprId,
    k: nat,
)
    requires
        st.wf(),
        k <= values.len(),
        k <= ops.len() + 1,
        chain_at(src, values, compare_ops_of(ops), parent, st, id, k),
    ensures
        expr_read(st.module, id) == compared_words(values, ops, parent, k),
    decreases values, k,
{
    if k == 1 {
        an_expression_reads_as_written(src, values[0], parent, st, id);
    } else if k > 1 {
        assert(crate::def::expr_below(
            st.module.params@,
            st.module.exprs@[id.0 as int],
            id.0 as nat,
        ));
        if let Expr::Binary { lhs, rhs, op: found } = st.module.exprs@[id.0 as int] {
            crate::ops_laws::comparisons_are_kept(ops[k - 2]);
            assert(found == compare_ops_of(ops)[k - 2]);
            compared_reads(src, values, ops, parent, st, lhs, (k - 1) as nat);
            part_is_read(st.module, lhs, id.0 as nat);
            part_is_read(st.module, rhs, id.0 as nat);
            an_expression_reads_as_written(src, values[k - 1], parent, st, rhs);
        }
    }
}

proof fn args_reads(
    src: Source,
    items: Seq<ArgItem>,
    range: Span,
    st: Lowering,
    args: Seq<Argument>,
    limit: nat,
    n: nat,
)
    requires
        st.wf(),
        args_at(src, items, range, st, args),
        forall|i: int| 0 <= i < args.len() ==> (#[trigger] args[i]).value().0 < limit,
        n <= items.len(),
    ensures
        args_read(st.module, args, limit, n) == args_words(items, range, n),
    decreases items, n,
{
    if n > 0 {
        args_reads(src, items, range, st, args, limit, (n - 1) as nat);
        let item = items[n - 1];
        assert(arg_at(src, item, range, st, args[n - 1]));
        assert(args[n - 1].value().0 < limit);
        assert(args_words(items, range, n) == args_words(items, range, (n - 1) as nat) + arg_words(
            item,
            range,
        ) + mark(","@));
        match item {
            ArgItem::Arg(e) => match e.kind {
                ExprKind::Starred { value } => {
                    an_expression_reads_as_written(
                        src,
                        *value,
                        e.range,
                        st,
                        args[n - 1].value(),
                    );
                    part_is_read(st.module, args[n - 1].value(), limit);
                },
                _ => {
                    an_expression_reads_as_written(src, e, range, st, args[n - 1].value());
                    part_is_read(st.module, args[n - 1].value(), limit);
                },
            },
            ArgItem::Keyword { range: _, node: _, name: _, value } => {
                an_expression_reads_as_written(src, value, range, st, args[n - 1].value());
                part_is_read(st.module, args[n - 1].value(), limit);
            },
        }
    }
}

proof fn targets_read(
    src: Source,
    target: syntax::Expr,
    parent: Span,
    st: Lowering,
    targets: Seq<ExprId>,
    limit: nat,
)
    requires
        st.wf(),
        targets_at(src, target, parent, st, targets),
        crate::def::all_below(targets, limit),
    ensures
        list_read(st.module, targets, limit, targets.len()) == target_words(target, parent),
    decreases target, 2nat,
{
    match target.kind {
        ExprKind::Tuple { elts, parenthesized: false } => {
            list_reads(src, elts@, target.range, st, targets, limit, elts@.len());
        },
        _ => {
            assert(targets[0].0 < limit);
            an_expression_reads_as_written(src, target, parent, st, targets[0]);
            part_is_read(st.module, targets[0], limit);
            assert(list_read(st.module, targets, limit, 0) =~= seq![]);
            assert(list_read(st.module, targets, limit, 1) =~= words(target, parent) + mark(
                ","@,
            ));
        },
    }
}

proof fn tests_read(
    src: Source,
    ifs: Seq<syntax::Expr>,
    parent: Span,
    st: Lowering,
    clauses: Seq<CompClause>,
    base: int,
    limit: nat,
    n: nat,
)
    requires
        st.wf(),
        0 <= base,
        base + 1 + ifs.len() == clauses.len(),
        crate::def::clauses_below(clauses, limit),
        forall|j: int|
            0 <= j < ifs.len() ==> match #[trigger] clauses[base + 1 + j] {
                CompClause::If { test } => expr_at(src, ifs[j], parent, st, test),
                _ => false,
            },
        n <= ifs.len(),
    ensures
        clauses_read(st.module, clauses, limit, (base + 1 + n) as nat) == clauses_read(
            st.module,
            clauses,
            limit,
            (base + 1) as nat,
        ) + tests_words(ifs, parent, n),
    decreases ifs, n,
{
    let start = clauses_read(st.module, clauses, limit, (base + 1) as nat);
    if n == 0 {
        assert(start + tests_words(ifs, parent, 0) =~= start);
    } else {
        tests_read(src, ifs, parent, st, clauses, base, limit, (n - 1) as nat);
        let clause = clauses[base + 1 + (n - 1)];
        if let CompClause::If { test } = clause {
            assert(test.0 < limit);
            an_expression_reads_as_written(src, ifs[n - 1], parent, st, test);
            part_is_read(st.module, test, limit);
            assert(clauses_read(st.module, clauses, limit, (base + 1 + n) as nat) =~= start
                + tests_words(ifs, parent, n));
        }
    }
}

proof fn comp_reads(
    src: Source,
    generators: Seq<Comprehension>,
    st: Lowering,
    clauses: Seq<CompClause>,
    limit: nat,
)
    requires
        st.wf(),
        comp_at(src, generators, st, clauses),
        crate::def::clauses_below(clauses, limit),
    ensures
        clauses_read(st.module, clauses, limit, clauses.len()) == comp_words(generators),
    decreases generators, 0nat,
{
    if generators.len() > 0 {
        let g = generators.last();
        let base = clauses.len() - g.ifs@.len() - 1;
        let first = clauses.take(base);
        assert forall|i: int| 0 <= i < first.len() implies match #[trigger] first[i] {
            CompClause::For { iterable, targets } => iterable.0 < limit && crate::def::all_below(
                targets@,
                limit,
            ),
            CompClause::If { test } => test.0 < limit,
        } by {
            assert(first[i] == clauses[i]);
        }
        comp_reads(src, generators.drop_last(), st, first, limit);
        clauses_read_take(st.module, first, clauses, limit, base as nat);
        if let CompClause::For { iterable, targets } = clauses[base] {
            assert(iterable.0 < limit && crate::def::all_below(targets@, limit));
            an_expression_reads_as_written(src, g.iter, g.range, st, iterable);
            part_is_read(st.module, iterable, limit);
            targets_read(src, g.target, g.range, st, targets@, limit);
            tests_read(src, g.ifs@, g.range, st, clauses, base, limit, g.ifs@.len());
            assert((base + 1 + g.ifs@.len()) as nat == clauses.len());
        }
    }
}

proof fn entries_reads(
    src: Source,
    items: Seq<DictItem>,
    parent: Span,
    st: Lowering,
    entries: Seq<DictEntry>,
    limit: nat,
)
    requires
        st.wf(),
        entries_at(src, items, parent, st, entries),
        forall|i: int|
            0 <= i < entries.len() ==> (#[trigger] entries[i]).key.0 < limit && entries[i].value.0
                < limit,
    ensures
        entries_read(st.module, entries, limit, entries.len()) == items_words(items, parent),
    decreases items, 0nat,
{
    if items.len() > 0 {
        let item = items.last();
        match item.key {
            Some(key) => {
                let n = entries.len();
                let fewer = entries.drop_last();
                assert(entries[n - 1].key.0 < limit);
                assert forall|i: int| 0 <= i < fewer.len() implies (#[trigger] fewer[i]).key.0
                    < limit && fewer[i].value.0 < limit by {
                    assert(fewer[i] == entries[i]);
                }
                an_expression_reads_as_written(src, key, parent, st, entries.last().key);
                part_is_read(st.module, entries.last().key, limit);
                an_expression_reads_as_written(
                    src,
                    item.value,
                    parent,
                    st,
                    entries.last().value,
                );
                part_is_read(st.module, entries.last().value, limit);
                entries_reads(src, items.drop_last(), parent, st, fewer, limit);
                entries_read_take(st.module, fewer, entries, limit, fewer.len());
            },
            None => {
                entries_reads(src, items.drop_last(), parent, st, entries, limit);
                assert(items_words(items, parent) =~= items_words(items.drop_last(), parent));
            },
        }
    }
}

proof fn params_reads(
    src: Source,
    p: Parameters,
    types: Seq<crate::def::TypeShape>,
    doc: Option<Seq<char>>,
    st: Lowering,
    ids: Seq<ParamId>,
    limit: nat,
    n: nat,
)
    requires
        st.wf(),
        params_at(src, p, types, doc, st, ids),
        crate::def::params_below(st.module.params@, ids, limit),
        n <= ids.len(),
    ensures
        params_read(st.module, ids, limit, n) == slots_words(
            p,
            slot_order(p, slot_count(p)),
            n,
        ),
    decreases p, 1nat, n,
{
    if n > 0 {
        let order = slot_order(p, slot_count(p));
        params_reads(src, p, types, doc, st, ids, limit, (n - 1) as nat);
        let slot = order[n - 1];
        let id = ids[n - 1];
        assert(param_at(src, p, slot, doc, st, id));
        assert(slots_words(p, order, n) == slots_words(p, order, (n - 1) as nat) + slot_words(
            p,
            slot,
        ) + mark(","@));
        assert(crate::def::opt_below(st.module.params@[id.0 as int].default_value(), limit));
        if 0 <= slot < p.items@.len() {
            let item = p.items@[slot];
            if let ParameterForm::Plain { default: Some(wanted) } = item.form {
                if let Param::Simple { name, default: Some(default), type_ref: _, doc: _ } =
                    st.module.params@[id.0 as int] {
                    an_expression_reads_as_written(src, *wanted, item.owner, st, default);
                    part_is_read(st.module, default, limit);
                }
            }
        }
    }
}

proof fn bare_reads(src: Source, e: syntax::Expr, st: Lowering, id: ExprId)
    requires
        st.wf(),
        bare_at(src, e, st, id),
    ensures
        expr_read(st.module, id) == bare_words(e),
    decreases e, 0nat,
{
    let m = st.module;
    let limit = id.0 as nat;
    let node = m.exprs@[id.0 as int];
    if e.supported {
        if id.0 < m.exprs@.len() {
            assert(crate::def::expr_below(m.params@, m.exprs@[id.0 as int], limit));
        }
        match e.kind {
            ExprKind::If { test, body, orelse } => {
                if let Expr::If { if_expr, test: condition, else_expr } = node {
                    an_expression_reads_as_written(src, *body, e.range, st, if_expr);
                    part_is_read(st.module, if_expr, limit);
                    an_expression_reads_as_written(src, *test, e.range, st, condition);
                    part_is_read(st.module, condition, limit);
                    an_expression_reads_as_written(src, *orelse, e.range, st, else_expr);
                    part_is_read(st.module, else_expr, limit);
                }
            },
            ExprKind::Unary { op, operand } => {
                if let Expr::Unary { expr, op: found } = node {
                    an_expression_reads_as_written(src, *operand, e.range, st, expr);
                    part_is_read(st.module, expr, limit);
                }
            },
            ExprKind::Binary { left, op, right } => {
                if let Expr::Binary { lhs, rhs, op: found } = node {
                    crate::ops_laws::operators_are_kept(op);
                    an_expression_reads_as_written(src, *left, e.range, st, lhs);
                    part_is_read(st.module, lhs, limit);
                    an_expression_reads_as_written(src, *right, e.range, st, rhs);
                    part_is_read(st.module, rhs, limit);
                }
            },
            ExprKind::Bool2 { op, values } => {
                connected_reads(src, values@, op, e.range, st, id, values@.len());
            },
            ExprKind::Compare { operands, ops } => {
                compared_reads(
                    src,
                    operands@,
                    ops@,
                    e.range,
                    st,
                    id,
                    chain_len(operands@.len(), ops@.len()),
                );
            },
            ExprKind::Lambda { parameters, body } => {
                if let Expr::Lambda { func, body: value } = node {
                    an_expression_reads_as_written(src, *body, e.range, st, value);
                    part_is_read(st.module, value, limit);
                    match parameters {
                        Some(p) => {
                            params_reads(
                                src,
                                *p,
                                Seq::empty(),
                                None,
                                st,
                                func.params@,
                                limit,
                                func.params@.len(),
                            );
                        },
                        None => {
                            assert(params_read(m, func.params@, limit, 0) =~= seq![]);
                            assert(expr_read(m, id) =~= bare_words(e));
                        },
                    }
                }
            },
            ExprKind::List { elts } => {
                if let Expr::List { exprs } = node {
                    list_reads(src, elts@, e.range, st, exprs@, limit, elts@.len());
                }
            },
            ExprKind::Tuple { elts, parenthesized: _ } => {
                if let Expr::Tuple { exprs } = node {
                    list_reads(src, elts@, e.range, st, exprs@, limit, elts@.len());
                }
            },
            ExprKind::ListComp { elt, generators } => {
                if let Expr::ListComp { expr, comp_clauses } = node {
                    an_expression_reads_as_written(src, *elt, e.range, st, expr);
                    part_is_read(st.module, expr, limit);
                    comp_reads(src, generators@, st, comp_clauses@, limit);
                }
            },
            ExprKind::Dict { items } => {
                if let Expr::Dict { entries } = node {
                    entries_reads(src, items@, e.range, st, entries@, limit);
                }
            },
            ExprKind::DictComp { key, value, generators } => {
                if let Expr::DictComp { entry, comp_clauses } = node {
                    an_expression_reads_as_written(src, *key, e.range, st, entry.key);
                    part_is_read(st.module, entry.key, limit);
                    an_expression_reads_as_written(src, *value, e.range, st, entry.value);
                    part_is_read(st.module, entry.value, limit);
                    comp_reads(src, generators@, st, comp_clauses@, limit);
                }
            },
            ExprKind::Attribute { value, attr } => {
                if let Expr::Dot { expr, field } = node {
                    an_expression_reads_as_written(src, *value, e.range, st, expr);
                    part_is_read(st.module, expr, limit);
                }
            },
            ExprKind::Call { func, arguments } => {
                if let Expr::Call { callee, args } = node {
                    an_expression_reads_as_written(src, *func, e.range, st, callee);
                    part_is_read(st.module, callee, limit);
                    args_reads(
                        src,
                        arguments.items@,
                        arguments.range,
                        st,
                        args@,
                        limit,
                        args@.len(),
                    );
                }
            },
            ExprKind::Subscript { value, slice } => match slice.kind {
                ExprKind::Slice { lower, upper, step } => {
                    if let Expr::Slice { lhs, start, end, step: stride } = node {
                        an_expression_reads_as_written(src, *value, e.range, st, lhs);
                        part_is_read(st.module, lhs, limit);
                        opt_reads(src, lower, e.range, st, start, limit);
                        opt_reads(src, upper, e.range, st, end, limit);
                        opt_reads(src, step, e.range, st, stride, limit);
                    }
                },
                _ => {
                    if let Expr::Index { lhs, index } = node {
                        an_expression_reads_as_written(src, *value, e.range, st, lhs);
                        part_is_read(st.module, lhs, limit);
                        an_expression_reads_as_written(src, *slice, e.range, st, index);
                        part_is_read(st.module, index, limit);
                    }
                },
            },
            _ => {},
        }
    }
}

/// Whether a statement calls `load`.
pub open spec fn loads(s: syntax::Stmt) -> bool {
    s.kind matches StmtKind::Expr { value } && (value.kind matches ExprKind::Call {
        func,
        arguments: _,
    } && (func.kind matches ExprKind::Name { id } && id@ == "load"@))
}

/// Whether Starlark has a statement: it is of a form that Starlark has, and if it is an
/// expression, so is that.
pub open spec fn is_kept(s: syntax::Stmt) -> bool {
    match s.kind {
        StmtKind::Other => false,
        StmtKind::Expr { value } => loads(s) || words(value, s.range) != seq![Word::Gone],
        _ => true,
    }
}

/// The words of the first arguments of a `load`.
pub open spec fn loaded_words(src: Source, items: Seq<ArgItem>, n: nat) -> Seq<Word>
    decreases n,
{
    if n == 0 {
        seq![]
    } else {
        loaded_words(src, items, (n - 1) as nat) + (match items[n - 1] {
            ArgItem::Arg(e) => seq![Word::Str(string_in(src, e.range, 0))],
            ArgItem::Keyword { range: _, node: _, name: Some(name), value } => seq![
                name_word(name.text@),
            ] + mark("="@) + seq![Word::Str(string_in(src, value.range, 0))],
            ArgItem::Keyword { range: _, node: _, name: None, value } => seq![
                Word::Name(missing_text()),
            ] + mark("="@) + seq![Word::Str(string_in(src, value.range, 0))],
        }) + mark(","@)
    }
}

/// The words of a `load`: the file, unless the first argument is named, and what is
/// loaded.
pub open spec fn load_words(src: Source, items: Seq<ArgItem>) -> Seq<Word> {
    if items.len() > 0 && items[0] is Arg {
        mark("load"@) + loaded_words(src, items, items.len())
    } else {
        mark("load"@) + seq![Word::Str(Seq::empty())] + mark(","@) + loaded_words(
            src,
            items,
            items.len(),
        )
    }
}

/// The words of statements, without those that Starlark does not have.
pub open spec fn body_words(src: Source, body: Seq<syntax::Stmt>) -> Seq<Word>
    decreases body, 0nat,
{
    if body.len() == 0 {
        seq![]
    } else if is_kept(body.last()) {
        body_words(src, body.drop_last()) + stmt_words(src, body.last()) + mark(";"@)
    } else {
        body_words(src, body.drop_last())
    }
}

/// The words of what stands below a header, if anything does.
pub open spec fn suite_words(
    src: Source,
    body: Seq<syntax::Stmt>,
    suite: Option<Span>,
) -> Seq<Word>
    decreases body, 1nat,
{
    if suite is Some {
        mark(":"@) + body_words(src, body)
    } else {
        mark(":"@)
    }
}

/// The words of the clauses of an `if`, from the `k`-th one with a test on. Of several
/// without a test the last one counts, at the end.
pub open spec fn tail_words(src: Source, clauses: Seq<Clause>, k: nat) -> Seq<Word>
    decreases clauses, clauses.len() - k,
{
    let order = tested(clauses, clauses.len());
    if k >= order.len() || k >= clauses.len() {
        match last_else(clauses, clauses.len()) {
            Some(c) => if 0 <= c < clauses.len() {
                mark("else"@) + suite_words(src, clauses[c].body@, clauses[c].suite)
            } else {
                seq![]
            },
            None => seq![],
        }
    } else {
        let at = order[k as int];
        if 0 <= at < clauses.len() && clauses[at].test is Some {
            mark("elif"@) + words(clauses[at].test->0, clauses[at].range) + suite_words(
                src,
                clauses[at].body@,
                clauses[at].suite,
            ) + tail_words(src, clauses, k + 1)
        } else {
            seq![]
        }
    }
}

/// The words of a statement.
pub open spec fn stmt_words(src: Source, s: syntax::Stmt) -> Seq<Word>
    decreases s, 1nat,
{
    let at = s.range;
    match s.kind {
        StmtKind::FunctionDef { name, parameters, body, suite } => mark("def"@) + seq![
            name_word(name.text@),
        ] + params_words(parameters) + suite_words(src, body@, suite),
        StmtKind::If { test, body, suite, clauses } => mark("if"@) + words(test, at) + suite_words(
            src,
            body@,
            suite,
        ) + tail_words(src, clauses@, 0),
        StmtKind::For { target, iter, body, suite } => mark("for"@) + target_words(target, at)
            + mark("in"@) + words(iter, at) + suite_words(src, body@, suite),
        StmtKind::Return { value: Some(value) } => mark("return"@) + words(value, at),
        StmtKind::Return { value: None } => mark("return"@),
        StmtKind::Break => mark("break"@),
        StmtKind::Continue => mark("continue"@),
        StmtKind::Pass => mark("pass"@),
        StmtKind::Assign { targets, value } => (if targets@.len() > 0 {
            words(targets@[0], at)
        } else {
            seq![Word::Gone]
        }) + mark("="@) + words(value, at),
        StmtKind::AugAssign { target, op, value } => words(target, at) + (if op == Operator::Pow
            || op == Operator::MatMult {
            seq![Word::Gone]
        } else {
            mark(written(op) + "="@)
        }) + words(value, at),
        StmtKind::Expr { value } => if loads(s) {
            match value.kind {
                ExprKind::Call { func: _, arguments } => load_words(src, arguments.items@),
                _ => seq![],
            }
        } else {
            words(value, at)
        },
        StmtKind::Other => seq![],
    }
}

/// The words of the first items of a `load` in a module.
pub open spec fn loaded_read(m: Module, items: Seq<LoadItemId>, n: nat) -> Seq<Word>
    decreases n,
{
    if n == 0 {
        seq![]
    } else {
        loaded_read(m, items, (n - 1) as nat) + (match m.load_items@[items[n - 1].0 as int] {
            LoadItem::Direct { name, load_stmt: _ } => seq![Word::Str(name@)],
            LoadItem::Aliased { alias, name, load_stmt: _ } => seq![Word::Name(alias@)] + mark(
                "="@,
            ) + seq![Word::Str(name@)],
        }) + mark(","@)
    }
}

/// The words of the first statements of a list in a module.
pub open spec fn stmts_read(m: Module, ids: Seq<StmtId>, limit: nat, n: nat) -> Seq<Word>
    decreases limit, 0nat, n,
{
    if n == 0 {
        seq![]
    } else {
        stmts_read(m, ids, limit, (n - 1) as nat) + (if ids[n - 1].0 < limit {
            stmt_read(m, ids[n - 1])
        } else {
            seq![]
        }) + mark(";"@)
    }
}

/// The words of what follows the statements of an `if` in a module.
pub open spec fn branch_read(m: Module, branch: Option<ElseBranch>, limit: nat) -> Seq<Word>
    decreases limit, 1nat, 0nat,
{
    match branch {
        Some(ElseBranch::Elif(id)) => if id.0 < limit {
            match m.stmts@[id.0 as int] {
                Stmt::If { test, if_stmts, elif_or_else_stmts } => mark("elif"@) + expr_read(
                    m,
                    test,
                ) + (mark(":"@) + stmts_read(m, if_stmts@, id.0 as nat, if_stmts@.len()))
                    + branch_read(m, elif_or_else_stmts, id.0 as nat),
                _ => seq![],
            }
        } else {
            seq![]
        },
        Some(ElseBranch::Else(ids)) => mark("else"@) + (mark(":"@) + stmts_read(
            m,
            ids@,
            limit,
            ids@.len(),
        )),
        None => seq![],
    }
}

/// The words of a statement of a module.
pub open spec fn stmt_read(m: Module, id: StmtId) -> Seq<Word>
    decreases id.0, 2nat, 0nat,
{
    let limit = id.0 as nat;
    match m.stmts@[id.0 as int] {
        Stmt::Def { func, stmts } => mark("def"@) + seq![Word::Name(func.name@)] + params_read(
            m,
            func.params@,
            m.exprs@.len(),
            func.params@.len(),
        ) + (mark(":"@) + stmts_read(m, stmts@, limit, stmts@.len())),
        Stmt::If { test, if_stmts, elif_or_else_stmts } => mark("if"@) + expr_read(m, test) + (
        mark(":"@) + stmts_read(m, if_stmts@, limit, if_stmts@.len())) + branch_read(
            m,
            elif_or_else_stmts,
            limit,
        ),
        Stmt::For { iterable, targets, stmts } => mark("for"@) + list_read(
            m,
            targets@,
            m.exprs@.len(),
            targets@.len(),
        ) + mark("in"@) + expr_read(m, iterable) + (mark(":"@) + stmts_read(
            m,
            stmts@,
            limit,
            stmts@.len(),
        )),
        Stmt::Return { expr: Some(expr) } => mark("return"@) + expr_read(m, expr),
        Stmt::Return { expr: None } => mark("return"@),
        Stmt::Break => mark("break"@),
        Stmt::Continue => mark("continue"@),
        Stmt::Pass => mark("pass"@),
        Stmt::Assign { lhs, rhs, op, type_ref: _ } => expr_read(m, lhs) + (match op {
            Some(op) => mark(op.text()),
            None => seq![Word::Gone],
        }) + expr_read(m, rhs),
        Stmt::Expr { expr } => expr_read(m, expr),
        Stmt::Load { load_stmt, items } => mark("load"@) + seq![Word::Str(load_stmt.module@)]
            + mark(","@) + loaded_read(m, items@, items@.len()),
    }
}

/// The clauses of an `if` with a test are all of them, in order.
pub proof fn clauses_with_tests_are_in_order(clauses: Seq<Clause>, n: nat)
    requires
        n <= clauses.len(),
    ensures
        forall|i: int|
            0 <= i < n ==> ((#[trigger] clauses[i]).test is Some <==> tested(clauses, n).contains(
                i,
            )),
        forall|j: int| 0 <= j < tested(clauses, n).len() ==> 0 <= #[trigger] tested(clauses, n)[j] < n,
        forall|j: int, k: int|
            0 <= j < k < tested(clauses, n).len() ==> #[trigger] tested(clauses, n)[j]
                < #[trigger] tested(clauses, n)[k],
    decreases n,
{
    if n > 0 {
        let before = tested(clauses, (n - 1) as nat);
        let now = tested(clauses, n);
        clauses_with_tests_are_in_order(clauses, (n - 1) as nat);
        if clauses[n - 1].test is Some {
            assert(now[now.len() - 1] == n - 1);
            assert forall|j: int| 0 <= j < now.len() implies 0 <= #[trigger] now[j] < n by {
                if j < before.len() {
                    assert(now[j] == before[j]);
                }
            }
            assert forall|j: int, k: int| 0 <= j < k < now.len() implies #[trigger] now[j]
                < #[trigger] now[k] by {
                assert(now[j] == before[j]);
                if k < before.len() {
                    assert(now[k] == before[k]);
                }
            }
        }
        assert forall|i: int| 0 <= i < n implies ((#[trigger] clauses[i]).test is Some
            <==> now.contains(i)) by {
            if i < n - 1 {
                if before.contains(i) {
                    let k = choose|k: int| 0 <= k < before.len() && before[k] == i;
                    assert(now[k] == i);
                }
                if now.contains(i) {
                    let k = choose|k: int| 0 <= k < now.len() && now[k] == i;
                    if k < before.len() {
                        assert(before[k] == i);
                    }
                }
            } else if now.contains(i) && clauses[i].test is None {
                let k = choose|k: int| 0 <= k < now.len() && now[k] == i;
                assert(before[k] == i);
            }
        }
    }
}

/// Of the clauses of an `if` without a test the last one counts.
pub proof fn the_last_else_counts(clauses: Seq<Clause>, n: nat)
    requires
        n <= clauses.len(),
    ensures
        match last_else(clauses, n) {
            Some(c) => 0 <= c < n && clauses[c].test is None && forall|i: int|
                c < i < n ==> (#[trigger] clauses[i]).test is Some,
            None => forall|i: int| 0 <= i < n ==> (#[trigger] clauses[i]).test is Some,
        },
    decreases n,
{
    if n > 0 {
        the_last_else_counts(clauses, (n - 1) as nat);
    }
}

proof fn words_are_some(e: syntax::Expr, parent: Span)
    ensures
        words(e, parent).len() > 0,
        paren_count(e, parent) > 0 ==> words(e, parent).len() > 1,
    decreases e, 1nat,
{
    bare_words_are_some(e);
    parens_add(bare_words(e), paren_count(e, parent));
}

proof fn parens_add(words: Seq<Word>, n: nat)
    ensures
        in_parens(words, n).len() == words.len() + 2 * n,
    decreases n,
{
    if n > 0 {
        parens_add(words, (n - 1) as nat);
    }
}

proof fn chains_are_some(values: Seq<syntax::Expr>, op: BoolOp, ops: Seq<Comparison>, parent: Span, n: nat)
    requires
        n <= values.len(),
    ensures
        connected_words(values, op, parent, n).len() > 0,
        compared_words(values, ops, parent, n).len() > 0,
        n > 1 ==> connected_words(values, op, parent, n).len() > 1,
        n > 1 ==> compared_words(values, ops, parent, n).len() > 1,
    decreases values, n,
{
    if n == 1 {
        words_are_some(values[0], parent);
    } else if n > 1 {
        chains_are_some(values, op, ops, parent, (n - 1) as nat);
        words_are_some(values[n - 1], parent);
    }
}

proof fn bare_words_are_some(e: syntax::Expr)
    ensures
        bare_words(e).len() > 0,
    decreases e, 0nat,
{
    if e.supported {
        match e.kind {
            ExprKind::Bool2 { op, values } => {
                chains_are_some(values@, op, seq![], e.range, values@.len());
            },
            ExprKind::Compare { operands, ops } => {
                chains_are_some(
                    operands@,
                    BoolOp::And,
                    ops@,
                    e.range,
                    chain_len(operands@.len(), ops@.len()),
                );
            },
            _ => {},
        }
    }
}

/// An expression has a range exactly if Starlark has it.
proof fn ranges_are_kept(e: syntax::Expr, parent: Span)
    ensures
        crate::lower_spec::has_range(e, parent) <==> words(e, parent) != seq![Word::Gone],
    decreases e, 1nat,
{
    words_are_some(e, parent);
    let n = paren_count(e, parent);
    if n == 0 {
        bare_ranges_are_kept(e);
    }
}

proof fn bare_ranges_are_kept(e: syntax::Expr)
    ensures
        crate::lower_spec::has_bare_range(e) <==> bare_words(e) != seq![Word::Gone],
    decreases e, 0nat,
{
    let gone = seq![Word::Gone];
    assert(gone.len() == 1 && gone[0] == Word::Gone);
    let w = bare_words(e);
    if e.supported {
        match e.kind {
            ExprKind::Bool2 { op, values } => {
                chains_are_some(values@, op, seq![], e.range, values@.len());
                if values@.len() == 1 {
                    ranges_are_kept(values@[0], e.range);
                }
            },
            ExprKind::Compare { operands, ops } => {
                let n = chain_len(operands@.len(), ops@.len());
                chains_are_some(operands@, BoolOp::And, ops@, e.range, n);
                if n == 1 {
                    ranges_are_kept(operands@[0], e.range);
                }
            },
            ExprKind::If { test, body, orelse } => {
                words_are_some(*body, e.range);
                words_are_some(*test, e.range);
            },
            ExprKind::Unary { op, operand } => {
                words_are_some(*operand, e.range);
            },
            ExprKind::Binary { left, op, right } => {
                words_are_some(*left, e.range);
                words_are_some(*right, e.range);
            },
            ExprKind::Lambda { parameters, body } => {
                words_are_some(*body, e.range);
            },
            ExprKind::Attribute { value, attr } => {
                words_are_some(*value, e.range);
            },
            ExprKind::Call { func, arguments } => {
                words_are_some(*func, e.range);
            },
            ExprKind::Subscript { value, slice } => {
                words_are_some(*value, e.range);
            },
            _ => {
                assert(w[0] == w[0]);
            },
        }
    }
}

proof fn kept_statements_have_definitions(s: syntax::Stmt)
    ensures
        has_stmt(s) <==> is_kept(s),
        is_load(s) <==> loads(s),
{
    if let StmtKind::Expr { value } = s.kind {
        ranges_are_kept(value, s.range);
    }
}

proof fn stmts_read_take(m: Module, a: Seq<StmtId>, b: Seq<StmtId>, limit: nat, n: nat)
    requires
        n <= a.len(),
        n <= b.len(),
        forall|i: int| 0 <= i < n ==> a[i] == b[i],
    ensures
        stmts_read(m, a, limit, n) == stmts_read(m, b, limit, n),
    decreases n,
{
    if n > 0 {
        stmts_read_take(m, a, b, limit, (n - 1) as nat);
    }
}

proof fn body_reads(
    src: Source,
    body: Seq<syntax::Stmt>,
    st: Lowering,
    ids: Seq<StmtId>,
    limit: nat,
)
    requires
        st.wf(),
        stmts_at(src, body, st, ids),
        crate::def::stmts_below(ids, limit),
    ensures
        stmts_read(st.module, ids, limit, ids.len()) == body_words(src, body),
    decreases body, 0nat,
{
    if body.len() > 0 {
        kept_statements_have_definitions(body.last());
        if has_stmt(body.last()) {
            let fewer = ids.drop_last();
            assert(ids[ids.len() - 1].0 < limit);
            assert forall|i: int| 0 <= i < fewer.len() implies (#[trigger] fewer[i]).0
                < limit by {
                assert(fewer[i] == ids[i]);
            }
            a_statement_reads_as_written(src, body.last(), st, ids.last());
            body_reads(src, body.drop_last(), st, fewer, limit);
            stmts_read_take(st.module, fewer, ids, limit, fewer.len());
        } else {
            body_reads(src, body.drop_last(), st, ids, limit);
        }
    }
}

proof fn suite_reads(
    src: Source,
    body: Seq<syntax::Stmt>,
    suite: Option<Span>,
    st: Lowering,
    ids: Seq<StmtId>,
    limit: nat,
)
    requires
        st.wf(),
        suite_at(src, body, suite, st, ids),
        crate::def::stmts_below(ids, limit),
    ensures
        mark(":"@) + stmts_read(st.module, ids, limit, ids.len()) == suite_words(src, body, suite),
    decreases body, 1nat,
{
    if suite is Some {
        body_reads(src, body, st, ids, limit);
    } else {
        assert(mark(":"@) + stmts_read(st.module, ids, limit, 0) =~= mark(":"@));
    }
}

proof fn tail_reads(
    src: Source,
    clauses: Seq<Clause>,
    k: nat,
    st: Lowering,
    branch: Option<ElseBranch>,
    limit: nat,
)
    requires
        st.wf(),
        tail_at(src, clauses, k, st, branch),
        match branch {
            Some(ElseBranch::Elif(id)) => id.0 < limit,
            Some(ElseBranch::Else(stmts)) => crate::def::stmts_below(stmts@, limit),
            None => true,
        },
    ensures
        branch_read(st.module, branch, limit) == tail_words(src, clauses, k),
    decreases clauses, clauses.len() - k,
{
    let order = tested(clauses, clauses.len());
    if k >= order.len() || k >= clauses.len() {
        if let Some(c) = last_else(clauses, clauses.len()) {
            if let Some(ElseBranch::Else(ids)) = branch {
                suite_reads(src, clauses[c].body@, clauses[c].suite, st, ids@, limit);
            }
        }
    } else {
        let at = order[k as int];
        if let Some(ElseBranch::Elif(id)) = branch {
            assert(crate::def::stmt_below(
                st.module,
                st.module.stmts@[id.0 as int],
                id.0 as nat,
            ));
            if let Stmt::If { test, if_stmts, elif_or_else_stmts } =
                st.module.stmts@[id.0 as int] {
                an_expression_reads_as_written(
                    src,
                    clauses[at].test->0,
                    clauses[at].range,
                    st,
                    test,
                );
                suite_reads(
                    src,
                    clauses[at].body@,
                    clauses[at].suite,
                    st,
                    if_stmts@,
                    id.0 as nat,
                );
                tail_reads(src, clauses, k + 1, st, elif_or_else_stmts, id.0 as nat);
            }
        }
    }
}

proof fn loaded_reads(
    src: Source,
    items: Seq<ArgItem>,
    skip: int,
    module: Seq<char>,
    range: Span,
    st: Lowering,
    ids: Seq<LoadItemId>,
    n: nat,
)
    requires
        0 <= skip <= items.len(),
        ids.len() == items.len() - skip,
        forall|i: int|
            0 <= i < ids.len() ==> load_item_at(
                src,
                items[i + skip],
                module,
                range,
                st,
                #[trigger] ids[i],
            ),
        n <= ids.len(),
    ensures
        loaded_words(src, items, (skip + n) as nat) == loaded_words(src, items, skip as nat)
            + loaded_read(st.module, ids, n),
    decreases n,
{
    let first = loaded_words(src, items, skip as nat);
    if n == 0 {
        assert(first + loaded_read(st.module, ids, 0) =~= first);
    } else {
        loaded_reads(src, items, skip, module, range, st, ids, (n - 1) as nat);
        assert(load_item_at(src, items[(n - 1) + skip], module, range, st, ids[n - 1]));
        assert(loaded_words(src, items, (skip + n) as nat) =~= first + loaded_read(
            st.module,
            ids,
            n,
        ));
    }
}

/// A statement reads as it was written.
pub proof fn a_statement_reads_as_written(
    src: Source,
    s: syntax::Stmt,
    st: Lowering,
    id: StmtId,
)
    requires
        st.wf(),
        stmt_at(src, s, st, id),
    ensures
        stmt_read(st.module, id) == stmt_words(src, s),
    decreases s, 1nat,
{
    let m = st.module;
    let limit = id.0 as nat;
    let node = m.stmts@[id.0 as int];
    assert(crate::def::stmt_below(m, m.stmts@[id.0 as int], limit));
    kept_statements_have_definitions(s);
    match s.kind {
        StmtKind::FunctionDef { name, parameters, body, suite } => {
            if let Stmt::Def { func, stmts } = node {
                suite_reads(src, body@, suite, st, stmts@, limit);
                let written = match crate::lower_spec::def_comment(src, body@, suite) {
                    Some(c) => src.comments@[c].function,
                    None => None,
                };
                let types = match written {
                    Some(f) => crate::lower_spec::func_param_shapes(f),
                    None => Seq::empty(),
                };
                let doc = if suite is Some {
                    crate::lower_spec::doc_text(body@, 0)
                } else {
                    None
                };
                params_reads(
                    src,
                    parameters,
                    types,
                    doc,
                    st,
                    func.params@,
                    m.exprs@.len(),
                    func.params@.len(),
                );
            }
        },
        StmtKind::If { test, body, suite, clauses } => {
            if let Stmt::If { test: condition, if_stmts, elif_or_else_stmts } = node {
                an_expression_reads_as_written(src, test, s.range, st, condition);
                suite_reads(src, body@, suite, st, if_stmts@, limit);
                tail_reads(src, clauses@, 0, st, elif_or_else_stmts, limit);
            }
        },
        StmtKind::For { target, iter, body, suite } => {
            if let Stmt::For { iterable, targets, stmts } = node {
                an_expression_reads_as_written(src, iter, s.range, st, iterable);
                targets_read(src, target, s.range, st, targets@, m.exprs@.len());
                suite_reads(src, body@, suite, st, stmts@, limit);
            }
        },
        StmtKind::Return { value } => {
            if let (Some(value), Stmt::Return { expr: Some(expr) }) = (value, node) {
                an_expression_reads_as_written(src, value, s.range, st, expr);
            }
        },
        StmtKind::Assign { targets, value } => {
            if let Stmt::Assign { lhs, rhs, op, type_ref } = node {
                if targets@.len() > 0 {
                    an_expression_reads_as_written(src, targets@[0], s.range, st, lhs);
                }
                an_expression_reads_as_written(src, value, s.range, st, rhs);
            }
        },
        StmtKind::AugAssign { target, op: written, value } => {
            if let Stmt::Assign { lhs, rhs, op, type_ref } = node {
                crate::ops_laws::operators_are_kept(written);
                crate::ops_laws::augmented_assignments_are_kept(written);
                an_expression_reads_as_written(src, target, s.range, st, lhs);
                an_expression_reads_as_written(src, value, s.range, st, rhs);
            }
        },
        StmtKind::Expr { value } => {
            if is_load(s) {
                if let ExprKind::Call { func: _, arguments } = value.kind {
                    let items = arguments.items@;
                    if let Stmt::Load { load_stmt, items: ids } = node {
                        let skip = load_skip(items);
                        loaded_reads(
                            src,
                            items,
                            skip,
                            load_stmt.module@,
                            value.range,
                            st,
                            ids@,
                            ids@.len(),
                        );
                        assert((skip + ids@.len()) as nat == items.len());
                        assert(loaded_words(src, items, 0) =~= seq![]);
                        if skip == 1 {
                            assert(loaded_words(src, items, 1) =~= seq![
                                Word::Str(load_stmt.module@),
                            ] + mark(","@));
                        }
                        assert(stmt_read(m, id) =~= stmt_words(src, s));
                    }
                }
            } else if let Stmt::Expr { expr } = node {
                an_expression_reads_as_written(src, value, s.range, st, expr);
            }
        },
        _ => {},
    }
}

/// A file reads as it was written: the module that it is lowered to holds its words, in
/// their order, but for what Starlark does not have.
pub proof fn a_file_reads_as_written(src: Source, st: Lowering)
    requires
        st.wf(),
        stmts_at(src, src.body@, st, st.module.top_level@),
    ensures
        stmts_read(
            st.module,
            st.module.top_level@,
            st.module.stmts@.len(),
            st.module.top_level@.len(),
        ) == body_words(src, src.body@),
{
    body_reads(src, src.body@, st, st.module.top_level@, st.module.stmts@.len());
}

/// An expression keeps the range that it was written in, with the parentheses that stand
/// inside of `parent`.
pub proof fn an_expression_keeps_its_range(
    src: Source,
    e: syntax::Expr,
    parent: Span,
    st: Lowering,
    id: ExprId,
)
    requires
        expr_at(src, e, parent, st, id),
        words(e, parent) != seq![Word::Gone],
        paren_count(e, parent) > 0 || !(e.kind is Bool2 || e.kind is Compare),
        paren_count(e, parent) <= e.parens@.len(),
    ensures
        id.0 < st.source_map.expr_map_back@.len(),
        st.source_map.expr_map_back@[id.0 as int] == Some(
            if paren_count(e, parent) == 0 {
                e.range
            } else {
                e.parens@[paren_count(e, parent) - 1]
            },
        ),
{
    words_are_some(e, parent);
}

/// A statement keeps the range that it was written in, as far as nothing stands below it.
pub proof fn a_statement_keeps_its_range(src: Source, s: syntax::Stmt, st: Lowering, id: StmtId)
    requires
        stmt_at(src, s, st, id),
        s.kind is Return || s.kind is Break || s.kind is Continue || s.kind is Pass
            || s.kind is Assign || s.kind is AugAssign,
    ensures
        id.0 < st.source_map.stmt_map_back@.len(),
        st.source_map.stmt_map_back@[id.0 as int] == s.range,
{
}

} // verus!
