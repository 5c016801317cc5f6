//! Parsed source text, as the analysis reads it.
//!
//! The nodes hold plain values: what the parser and the token stream say about
//! an occurrence (its range, the parentheses around it, the suite below a
//! header) stands in the node itself.

use vstd::prelude::*;

verus! {

/// A half-open range of byte offsets.
#[derive(Clone, Copy, Debug, PartialEq, Eq, Hash, Structural)]
pub struct Span {
    pub start: u32,
    pub end: u32,
}

/// The smaller of two offsets.
pub open spec fn lower_of(a: u32, b: u32) -> u32 {
    if a <= b {
        a
    } else {
        b
    }
}

/// The larger of two offsets.
pub open spec fn upper_of(a: u32, b: u32) -> u32 {
    if a <= b {
        b
    } else {
        a
    }
}

impl Span {
    /// The smallest range that holds both ranges.
    pub open spec fn hull(self, other: Span) -> Span {
        Span { start: lower_of(self.start, other.start), end: upper_of(self.end, other.end) }
    }

    /// Whether `other` lies inside this range.
    pub open spec fn encloses(self, other: Span) -> bool {
        self.start <= other.start && other.end <= self.end
    }

    pub fn cover(self, other: Span) -> (r: Span)
        ensures
            r == self.hull(other),
    {
        Span {
            start: if self.start <= other.start {
                self.start
            } else {
                other.start
            },
            end: if self.end <= other.end {
                other.end
            } else {
                self.end
            },
        }
    }

    pub fn contains_range(self, other: Span) -> (r: bool)
        ensures
            r == self.encloses(other),
    {
        self.start <= other.start && other.end <= self.end
    }
}

/// A name together with the place where it is written.
pub struct Identifier {
    pub text: String,
    pub range: Span,
}

/// A binary or augmented operator of the host grammar.
#[derive(Clone, Copy, Debug, PartialEq, Eq, Structural)]
pub enum Operator {
    Add,
    Sub,
    Mult,
    MatMult,
    Div,
    Mod,
    Pow,
    LShift,
    RShift,
    BitOr,
    BitXor,
    BitAnd,
    FloorDiv,
}

/// A comparison of the host grammar.
#[derive(Clone, Copy, Debug, PartialEq, Eq, Structural)]
pub enum Comparison {
    Eq,
    NotEq,
    Lt,
    LtE,
    Gt,
    GtE,
    Is,
    IsNot,
    In,
    NotIn,
}

/// A connective of the host grammar.
#[derive(Clone, Copy, Debug, PartialEq, Eq, Structural)]
pub enum BoolOp {
    And,
    Or,
}

/// A prefix operator of the host grammar.
#[derive(Clone, Copy, Debug, PartialEq, Eq, Structural)]
pub enum PrefixOp {
    Invert,
    Not,
    UAdd,
    USub,
}

/// One occurrence of an expression.
///
/// `range` leaves out parentheses; `parens` lists the ranges of those around
/// the occurrence, from the innermost outwards. `supported` says whether
/// Starlark has this form of expression.
pub struct Expr {
    pub node: u32,
    pub range: Span,
    pub parens: Vec<Span>,
    pub supported: bool,
    pub kind: ExprKind,
}

/// The forms of an expression. The value of an integer or a string is `None`
/// where it cannot be represented.
#[allow(inconsistent_fields)]
pub enum ExprKind {
    Name { id: String },
    Int { value: Option<u64> },
    Float,
    Bool { value: bool },
    NoneLiteral,
    Str { value: Option<String> },
    Bytes,
    If { test: Box<Expr>, body: Box<Expr>, orelse: Box<Expr> },
    Unary { op: PrefixOp, operand: Box<Expr> },
    Binary { left: Box<Expr>, op: Operator, right: Box<Expr> },
    Bool2 { op: BoolOp, values: Vec<Expr> },
    Compare { operands: Vec<Expr>, ops: Vec<Comparison> },
    Lambda { parameters: Option<Box<Parameters>>, body: Box<Expr> },
    List { elts: Vec<Expr> },
    Tuple { elts: Vec<Expr>, parenthesized: bool },
    ListComp { elt: Box<Expr>, generators: Vec<Comprehension> },
    Dict { items: Vec<DictItem> },
    DictComp { key: Box<Expr>, value: Box<Expr>, generators: Vec<Comprehension> },
    Attribute { value: Box<Expr>, attr: String },
    Call { func: Box<Expr>, arguments: Arguments },
    Subscript { value: Box<Expr>, slice: Box<Expr> },
    Slice { lower: Option<Box<Expr>>, upper: Option<Box<Expr>>, step: Option<Box<Expr>> },
    Starred { value: Box<Expr> },
    Other,
}

/// One entry of a dictionary display. An entry without a key unpacks its value.
pub struct DictItem {
    pub key: Option<Expr>,
    pub value: Expr,
}

/// One `for` of a comprehension with the conditions that follow it.
pub struct Comprehension {
    pub range: Span,
    pub target: Expr,
    pub iter: Expr,
    pub ifs: Vec<Expr>,
}

/// The arguments of a call in source order, with the range of the whole list.
pub struct Arguments {
    pub range: Span,
    pub items: Vec<ArgItem>,
}

/// One argument of a call.
pub enum ArgItem {
    Arg(Expr),
    Keyword { range: Span, node: u32, name: Option<Identifier>, value: Expr },
}

/// The parameters of a function in source order. `bare_star` is the range of a
/// `*` that only separates keyword-only parameters.
pub struct Parameters {
    pub range: Span,
    pub items: Vec<Parameter>,
    pub bare_star: Option<Span>,
}

/// One parameter. `range` is the whole of it with its stars, `owner` the node
/// in which its default value stands.
pub struct Parameter {
    pub node: u32,
    pub range: Span,
    pub owner: Span,
    pub name: String,
    pub form: ParameterForm,
}

/// The three forms of a parameter.
pub enum ParameterForm {
    Plain { default: Option<Box<Expr>> },
    Variadic,
    KeywordVariadic,
}

/// One statement.
pub struct Stmt {
    pub node: u32,
    pub range: Span,
    pub kind: StmtKind,
}

/// The forms of a statement. A `suite` is the range of the block below a
/// header; it is missing where the parser recovered without one.
#[allow(inconsistent_fields)]
pub enum StmtKind {
    FunctionDef {
        name: Identifier,
        parameters: Parameters,
        body: Vec<Stmt>,
        suite: Option<Span>,
    },
    If { test: Expr, body: Vec<Stmt>, suite: Option<Span>, clauses: Vec<Clause> },
    For { target: Expr, iter: Expr, body: Vec<Stmt>, suite: Option<Span> },
    Return { value: Option<Expr> },
    Break,
    Continue,
    Pass,
    Assign { targets: Vec<Expr>, value: Expr },
    AugAssign { target: Expr, op: Operator, value: Expr },
    Expr { value: Expr },
    Other,
}

/// One `elif` (with a test) or `else` (without one).
pub struct Clause {
    pub range: Span,
    pub test: Option<Expr>,
    pub body: Vec<Stmt>,
    pub suite: Option<Span>,
}

/// A type written in a comment.
pub enum TypeExpr {
    Path { segments: Vec<String>, args: Option<Vec<TypeExpr>> },
    Union { types: Vec<TypeExpr> },
    NoneType,
    Ellipsis,
}

/// The type of a function written in a comment.
pub struct FunctionType {
    pub params: Option<Vec<Option<TypeExpr>>>,
    pub ret: Option<TypeExpr>,
}

/// A type comment. `ignores` says whether it asks to ignore type errors.
pub struct TypeComment {
    pub range: Span,
    pub ignores: bool,
    pub ty: Option<TypeExpr>,
    pub function: Option<FunctionType>,
}

/// A string token with its decoded value.
pub struct StringToken {
    pub range: Span,
    pub is_bytes: bool,
    pub value: String,
}

/// A parsed file. `terminators` are the starts of the tokens that end a simple
/// statement, `comments` its type comments; both, and `strings`, in source order.
pub struct Source {
    pub len: u32,
    pub body: Vec<Stmt>,
    pub terminators: Vec<u32>,
    pub strings: Vec<StringToken>,
    pub comments: Vec<TypeComment>,
}

} // verus!
