//! The definitions of a module: its expressions, statements, parameters and
//! loaded names, each in an arena and named by its index.

use std::sync::Arc;

use vstd::prelude::*;

use crate::builtins::BuiltinProviderData;
use crate::common::File;
use crate::ops::{AssignOp, BinaryOp, UnaryOp};
use crate::syntax::Span;

verus! {

/// An identifier.
#[derive(Debug, Clone)]
pub struct Name {
    pub text: String,
}

impl View for Name {
    type V = Seq<char>;

    open spec fn view(&self) -> Seq<char> {
        self.text@
    }
}

/// What stands for an identifier that the source leaves out.
pub open spec fn missing_text() -> Seq<char> {
    "[missing]"@
}

impl Name {
    pub fn from_str(text: &str) -> (r: Name)
        ensures
            r@ == text@,
    {
        Name { text: text.to_owned() }
    }

    /// The name of something that has none.
    pub fn missing() -> (r: Name)
        ensures
            r@ == missing_text(),
    {
        Name { text: "[missing]".to_owned() }
    }

    pub fn is_missing(&self) -> (r: bool)
        ensures
            r == (self@ == missing_text()),
    {
        crate::text::same(self.text.as_str(), "[missing]")
    }

    pub fn as_str(&self) -> (r: &str)
        ensures
            r@ == self@,
    {
        self.text.as_str()
    }

    /// Another value of the same name.
    pub fn dup(&self) -> (r: Name)
        ensures
            r == *self,
    {
        Name { text: self.text.clone() }
    }
}

/// A type as it is written or documented.
#[derive(Debug)]
pub enum TypeRef {
    Name(Name, Option<Vec<TypeRef>>),
    Path(Vec<Name>, Option<Vec<TypeRef>>),
    Union(Vec<TypeRef>),
    Provider(Arc<BuiltinProviderData>),
    Ellipsis,
    Unknown,
}

/// The mathematical content of a `TypeRef`.
#[verifier::ext_equal]
pub enum TypeShape {
    Name(Seq<char>, Option<Seq<TypeShape>>),
    Path(Seq<Seq<char>>, Option<Seq<TypeShape>>),
    Union(Seq<TypeShape>),
    Provider(BuiltinProviderData),
    Ellipsis,
    Unknown,
}

/// The contents of a sequence of types.
pub open spec fn shapes(types: Seq<TypeRef>) -> Seq<TypeShape>
    decreases types,
{
    Seq::new(
        types.len(),
        |i: int|
            if 0 <= i < types.len() {
                types[i].shape()
            } else {
                TypeShape::Unknown
            },
    )
}

/// The texts of a sequence of names.
pub open spec fn texts(names: Seq<Name>) -> Seq<Seq<char>> {
    Seq::new(names.len(), |i: int| names[i]@)
}

impl TypeRef {
    pub open spec fn shape(self) -> TypeShape
        decreases self,
    {
        match self {
            TypeRef::Name(name, None) => TypeShape::Name(name@, None),
            TypeRef::Name(name, Some(args)) => TypeShape::Name(name@, Some(shapes(args@))),
            TypeRef::Path(segments, None) => TypeShape::Path(texts(segments@), None),
            TypeRef::Path(segments, Some(args)) => TypeShape::Path(
                texts(segments@),
                Some(shapes(args@)),
            ),
            TypeRef::Union(types) => TypeShape::Union(shapes(types@)),
            TypeRef::Provider(provider) => TypeShape::Provider(*provider),
            TypeRef::Ellipsis => TypeShape::Ellipsis,
            TypeRef::Unknown => TypeShape::Unknown,
        }
    }
}

/// The index of an expression.
#[derive(Clone, Copy, Debug, PartialEq, Eq, Hash, Structural)]
pub struct ExprId(pub usize);

/// The index of a statement.
#[derive(Clone, Copy, Debug, PartialEq, Eq, Hash, Structural)]
pub struct StmtId(pub usize);

/// The index of a parameter.
#[derive(Clone, Copy, Debug, PartialEq, Eq, Hash, Structural)]
pub struct ParamId(pub usize);

/// The index of a loaded name.
#[derive(Clone, Copy, Debug, PartialEq, Eq, Hash, Structural)]
pub struct LoadItemId(pub usize);

/// A literal. The value of a float or of bytes is not kept.
#[derive(Debug)]
pub enum Literal {
    Int(u64),
    Float,
    Bool(bool),
    NoneValue,
    Str(String),
    Bytes,
}

/// An expression.
#[derive(Debug)]
#[allow(inconsistent_fields)]
pub enum Expr {
    Missing,
    Name { name: Name },
    Lambda { func: Arc<FunctionData>, body: ExprId },
    If { if_expr: ExprId, test: ExprId, else_expr: ExprId },
    Unary { expr: ExprId, op: Option<UnaryOp> },
    Binary { lhs: ExprId, rhs: ExprId, op: Option<BinaryOp> },
    Dot { expr: ExprId, field: Name },
    Call { callee: ExprId, args: Vec<Argument> },
    Index { lhs: ExprId, index: ExprId },
    Slice { lhs: ExprId, start: Option<ExprId>, end: Option<ExprId>, step: Option<ExprId> },
    Literal { literal: Literal },
    List { exprs: Vec<ExprId> },
    Tuple { exprs: Vec<ExprId> },
    Paren { expr: ExprId },
    Dict { entries: Vec<DictEntry> },
    DictComp { entry: DictEntry, comp_clauses: Vec<CompClause> },
    ListComp { expr: ExprId, comp_clauses: Vec<CompClause> },
}

/// One entry of a dictionary.
#[derive(Clone, Copy, Debug, PartialEq, Eq, Structural)]
pub struct DictEntry {
    pub key: ExprId,
    pub value: ExprId,
}

/// One clause of a comprehension.
#[derive(Debug)]
pub enum CompClause {
    For { iterable: ExprId, targets: Vec<ExprId> },
    If { test: ExprId },
}

/// One argument of a call.
#[derive(Debug)]
pub enum Argument {
    Simple { expr: ExprId },
    Keyword { name: Name, expr: ExprId },
    UnpackedList { expr: ExprId },
    UnpackedDict { expr: ExprId },
}

impl Argument {
    /// The expression that the argument passes.
    pub open spec fn value(self) -> ExprId {
        match self {
            Argument::Simple { expr } => expr,
            Argument::Keyword { name: _, expr } => expr,
            Argument::UnpackedList { expr } => expr,
            Argument::UnpackedDict { expr } => expr,
        }
    }

    pub fn expr(&self) -> (r: ExprId)
        ensures
            r == self.value(),
    {
        match self {
            Argument::Simple { expr } => *expr,
            Argument::Keyword { name: _, expr } => *expr,
            Argument::UnpackedList { expr } => *expr,
            Argument::UnpackedDict { expr } => *expr,
        }
    }
}

/// What follows the suite of an `if`.
#[derive(Debug)]
pub enum ElseBranch {
    Elif(StmtId),
    Else(Vec<StmtId>),
}

/// A statement.
#[derive(Debug)]
#[allow(inconsistent_fields)]
pub enum Stmt {
    Def { func: Arc<FunctionData>, stmts: Vec<StmtId> },
    If { test: ExprId, if_stmts: Vec<StmtId>, elif_or_else_stmts: Option<ElseBranch> },
    For { iterable: ExprId, targets: Vec<ExprId>, stmts: Vec<StmtId> },
    Return { expr: Option<ExprId> },
    Break,
    Continue,
    Pass,
    Assign {
        lhs: ExprId,
        rhs: ExprId,
        op: Option<AssignOp>,
        type_ref: Option<(Arc<TypeRef>, Span)>,
    },
    Expr { expr: ExprId },
    Load { load_stmt: Arc<LoadStmtData>, items: Vec<LoadItemId> },
}

/// A function or a lambda.
#[derive(Debug)]
pub struct FunctionData {
    pub file: File,
    pub name: Name,
    pub ret_type_ref: Option<Arc<TypeRef>>,
    pub doc: Option<String>,
    pub range: Span,
    pub params: Vec<ParamId>,
}

/// A parameter of a function.
#[derive(Debug)]
pub enum Param {
    Simple {
        name: Name,
        default: Option<ExprId>,
        type_ref: Option<Arc<TypeRef>>,
        doc: Option<String>,
    },
    ArgsList { name: Name, type_ref: Option<Arc<TypeRef>>, doc: Option<String> },
    KwargsDict { name: Name, type_ref: Option<Arc<TypeRef>>, doc: Option<String> },
}

impl Param {
    /// The name of a parameter.
    pub open spec fn label(self) -> Seq<char> {
        match self {
            Param::Simple { name, .. } => name@,
            Param::ArgsList { name, .. } => name@,
            Param::KwargsDict { name, .. } => name@,
        }
    }

    /// The default value of a parameter.
    pub open spec fn default_value(self) -> Option<ExprId> {
        match self {
            Param::Simple { default, .. } => default,
            _ => None,
        }
    }

    pub fn name(&self) -> (r: &Name)
        ensures
            r@ == self.label(),
    {
        match self {
            Param::Simple { name, .. } => name,
            Param::ArgsList { name, .. } => name,
            Param::KwargsDict { name, .. } => name,
        }
    }
}

/// A `load` statement.
#[derive(Debug)]
pub struct LoadStmtData {
    pub module: String,
    pub range: Span,
}

/// One name that a `load` statement brings in.
#[derive(Debug)]
pub enum LoadItem {
    Direct { name: String, load_stmt: Arc<LoadStmtData> },
    Aliased { alias: Name, name: String, load_stmt: Arc<LoadStmtData> },
}

/// Where the value of an assigned or iterated expression goes.
#[derive(Clone, Copy, Debug, PartialEq, Eq, Structural)]
pub enum AssignmentSource {
    Statement(StmtId),
    Comprehension { expression: ExprId, clause: usize },
}

/// What a type comment is attached to.
#[derive(Clone, Copy, Debug, PartialEq, Eq, Structural)]
pub enum TypeCommentOwner {
    Statement(StmtId),
    Parameter(ParamId),
}

/// The definitions of a file. The lists of pairs are logs: of two entries with
/// one key the later counts.
#[derive(Debug)]
pub struct Module {
    pub exprs: Vec<Expr>,
    pub stmts: Vec<Stmt>,
    pub params: Vec<Param>,
    pub load_items: Vec<LoadItem>,
    pub top_level: Vec<StmtId>,
    pub type_ignore_comment_lines: Vec<usize>,
    pub param_to_def_stmt: Vec<(ParamId, (StmtId, usize))>,
    pub assignment_sources: Vec<(ExprId, AssignmentSource)>,
    pub call_expr_with_impl_fn: Vec<(Name, ExprId)>,
}

/// Where the definitions of a file stand in its text. A synthetic expression
/// has no range.
#[derive(Debug)]
pub struct ModuleSourceMap {
    pub root: Span,
    pub expr_map_back: Vec<Option<Span>>,
    pub stmt_map_back: Vec<Span>,
    pub param_map_back: Vec<Span>,
    pub load_item_map_back: Vec<Span>,
    pub expr_nodes: Vec<(u32, ExprId)>,
    pub stmt_nodes: Vec<(u32, StmtId)>,
    pub param_nodes: Vec<(u32, ParamId)>,
    pub load_item_nodes: Vec<(u32, LoadItemId)>,
    pub function_names: Vec<(StmtId, Span)>,
    pub keyword_names: Vec<(ExprId, Span)>,
    pub type_comment_owners: Vec<(Span, TypeCommentOwner)>,
}

/// Whether all of `ids` lie below `n`.
pub open spec fn all_below(ids: Seq<ExprId>, n: nat) -> bool {
    forall|i: int| 0 <= i < ids.len() ==> (#[trigger] ids[i]).0 < n
}

/// Whether all of `ids` lie below `n`.
pub open spec fn stmts_below(ids: Seq<StmtId>, n: nat) -> bool {
    forall|i: int| 0 <= i < ids.len() ==> (#[trigger] ids[i]).0 < n
}

/// Whether an optional index lies below `n`.
pub open spec fn opt_below(id: Option<ExprId>, n: nat) -> bool {
    match id {
        Some(id) => id.0 < n,
        None => true,
    }
}

/// Whether the parameters `ids` exist and their default values lie below `n`.
pub open spec fn params_below(params: Seq<Param>, ids: Seq<ParamId>, n: nat) -> bool {
    forall|i: int|
        0 <= i < ids.len() ==> (#[trigger] ids[i]).0 < params.len() && opt_below(
            params[ids[i].0 as int].default_value(),
            n,
        )
}

/// Whether the expressions of the clauses of a comprehension lie below `n`.
pub open spec fn clauses_below(clauses: Seq<CompClause>, n: nat) -> bool {
    forall|i: int|
        0 <= i < clauses.len() ==> match #[trigger] clauses[i] {
            CompClause::For { iterable, targets } => iterable.0 < n && all_below(targets@, n),
            CompClause::If { test } => test.0 < n,
        }
}

/// Whether the direct parts of an expression lie below `n`.
pub open spec fn expr_below(params: Seq<Param>, e: Expr, n: nat) -> bool {
    match e {
        Expr::Missing => true,
        Expr::Name { name: _ } => true,
        Expr::Lambda { func, body } => body.0 < n && params_below(params, func.params@, n),
        Expr::If { if_expr, test, else_expr } => if_expr.0 < n && test.0 < n && else_expr.0 < n,
        Expr::Unary { expr, op: _ } => expr.0 < n,
        Expr::Binary { lhs, rhs, op: _ } => lhs.0 < n && rhs.0 < n,
        Expr::Dot { expr, field: _ } => expr.0 < n,
        Expr::Call { callee, args } => callee.0 < n && forall|i: int|
            0 <= i < args@.len() ==> (#[trigger] args@[i]).value().0 < n,
        Expr::Index { lhs, index } => lhs.0 < n && index.0 < n,
        Expr::Slice { lhs, start, end, step } => lhs.0 < n && opt_below(start, n) && opt_below(
            end,
            n,
        ) && opt_below(step, n),
        Expr::Literal { literal: _ } => true,
        Expr::List { exprs } => all_below(exprs@, n),
        Expr::Tuple { exprs } => all_below(exprs@, n),
        Expr::Paren { expr } => expr.0 < n,
        Expr::Dict { entries } => forall|i: int|
            0 <= i < entries@.len() ==> (#[trigger] entries@[i]).key.0 < n && entries@[i].value.0
                < n,
        Expr::DictComp { entry, comp_clauses } => entry.key.0 < n && entry.value.0 < n
            && clauses_below(comp_clauses@, n),
        Expr::ListComp { expr, comp_clauses } => expr.0 < n && clauses_below(comp_clauses@, n),
    }
}

/// Whether the direct parts of a statement exist, nested statements below `n`.
pub open spec fn stmt_below(m: Module, s: Stmt, n: nat) -> bool {
    let exprs = m.exprs@.len();
    match s {
        Stmt::Def { func, stmts } => stmts_below(stmts@, n) && params_below(
            m.params@,
            func.params@,
            exprs,
        ),
        Stmt::If { test, if_stmts, elif_or_else_stmts } => {
            &&& test.0 < exprs
            &&& stmts_below(if_stmts@, n)
            &&& match elif_or_else_stmts {
                Some(ElseBranch::Elif(id)) => id.0 < n,
                Some(ElseBranch::Else(stmts)) => stmts_below(stmts@, n),
                None => true,
            }
        },
        Stmt::For { iterable, targets, stmts } => iterable.0 < exprs && all_below(targets@, exprs)
            && stmts_below(stmts@, n),
        Stmt::Return { expr } => opt_below(expr, exprs),
        Stmt::Break => true,
        Stmt::Continue => true,
        Stmt::Pass => true,
        Stmt::Assign { lhs, rhs, op: _, type_ref: _ } => lhs.0 < exprs && rhs.0 < exprs,
        Stmt::Expr { expr } => expr.0 < exprs,
        Stmt::Load { load_stmt: _, items } => forall|i: int|
            0 <= i < items@.len() ==> (#[trigger] items@[i]).0 < m.load_items@.len(),
    }
}

impl Module {
    /// Whether every index that the module holds exists, and every expression
    /// and statement stands behind its parts.
    pub open spec fn wf(self) -> bool {
        &&& forall|i: int|
            0 <= i < self.exprs@.len() ==> expr_below(
                self.params@,
                #[trigger] self.exprs@[i],
                i as nat,
            )
        &&& forall|i: int|
            0 <= i < self.stmts@.len() ==> stmt_below(self, #[trigger] self.stmts@[i], i as nat)
        &&& stmts_below(self.top_level@, self.stmts@.len())
    }
}

/// The value of a key in a log: that of its last entry.
pub open spec fn logged<K, V>(log: Seq<(K, V)>, key: K) -> Option<V>
    decreases log.len(),
{
    if log.len() == 0 {
        None
    } else if log.last().0 == key {
        Some(log.last().1)
    } else {
        logged(log.drop_last(), key)
    }
}

impl Module {
    /// What the value of `expr` is assigned to, if anything.
    pub fn assignment_source(&self, expr: ExprId) -> (r: Option<AssignmentSource>)
        ensures
            r == logged(self.assignment_sources@, expr),
    {
        let mut i: usize = self.assignment_sources.len();
        proof {
            assert(self.assignment_sources@.take(i as int) =~= self.assignment_sources@);
        }
        while i > 0
            invariant
                i <= self.assignment_sources@.len(),
                logged(self.assignment_sources@, expr) == logged(
                    self.assignment_sources@.take(i as int),
                    expr,
                ),
            decreases i,
        {
            proof {
                let log = self.assignment_sources@.take(i as int);
                assert(log.drop_last() =~= self.assignment_sources@.take(i - 1));
                assert(log.last() == self.assignment_sources@[i - 1]);
            }
            i = i - 1;
            if self.assignment_sources[i].0 == expr {
                return Some(self.assignment_sources[i].1);
            }
        }
        None
    }
}

} // verus!
