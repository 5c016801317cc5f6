//! Names in scope, from source text.

use ruff_python_ast as py;
use ruff_python_ast::token::{TokenKind, Tokens};
use ruff_python_ast::{AnyNodeRef, ArgOrKeyword};
use ruff_source_file::LineIndex;
use ruff_text_size::{Ranged, TextRange, TextSize};
use std::sync::Arc;

use starpls::bind::{BindAction, CallBinding};
use starpls::builtin_tables::{APIGlobals, BuiltinGlobals};
use starpls::builtins::BuiltinFunctionData;
use starpls::call::{
    argument_order, expand_all, Action, CalleeContext, ExpandedArgument, ParameterShape, Reply,
    Signature,
};
use starpls::common::{APIContext, Dialect, File, FileInfo, InFile};
use starpls::def::{
    Argument, Expr as HirExpr, ExprId, Module, Name, Stmt as HirStmt, StmtId, TypeRef,
};
use starpls::lower::lower_module;
use starpls::lower_spec::Lowering;
use starpls::name_map::NameMap;
use starpls::resolver::{
    resolve_export_in_file, resolve_name_in_prelude_or_builtins, Ambient, Export, Resolver,
};
use starpls::flow::{flow_index, FlowOp, Predicate};
use starpls::scope::{module_scopes, ExecutionScope, ScopeDef};
use starpls::ret_types::CallArguments;
use starpls::source::{source_info, CommentRanges, Note};
use starpls::syntax::{
    ArgItem, Arguments, BoolOp, Clause, Comparison, Comprehension, DictItem, Expr, ExprKind,
    Identifier, Operator, Parameter, ParameterForm, Parameters, PrefixOp, Source, Span, Stmt,
    StmtKind, StringToken, TypeComment,
};
use starpls::typeck::{AttributeKind, FunctionDef, Ty, TyKind};

struct Converter<'a> {
    tokens: &'a Tokens,
    next: u32,
}

fn span(range: TextRange) -> Span {
    Span { start: range.start().into(), end: range.end().into() }
}

impl<'a> Converter<'a> {
    fn node(&mut self) -> u32 {
        self.next += 1;
        self.next
    }

    /// The parentheses around an expression, from the innermost outwards. Those of
    /// a list of arguments belong to the list, if it is closed.
    fn parens(&self, expr: &py::Expr, parent: AnyNodeRef<'_>) -> Vec<Span> {
        let is_closed = self
            .tokens
            .iter()
            .any(|token| token.kind() == TokenKind::Rpar && token.end() == parent.end());
        let stop = if parent.is_arguments() && is_closed {
            parent.end() - TextSize::from(1)
        } else {
            parent.end()
        };
        let right = self
            .tokens
            .iter()
            .filter(|token| token.start() >= expr.end() && token.end() <= stop)
            .filter(|token| !token.kind().is_trivia())
            .take_while(|token| token.kind() == TokenKind::Rpar);
        let left = self
            .tokens
            .iter()
            .rev()
            .filter(|token| token.end() <= expr.start())
            .filter(|token| !token.kind().is_trivia())
            .take_while(|token| token.kind() == TokenKind::Lpar);
        right
            .zip(left)
            .map(|(right, left)| Span { start: left.start().into(), end: right.end().into() })
            .collect()
    }

    fn exprs(&mut self, elts: &[py::Expr], parent: AnyNodeRef<'_>) -> Vec<Expr> {
        elts.iter().map(|e| self.expr(e, parent)).collect()
    }

    fn boxed(&mut self, e: &py::Expr, parent: AnyNodeRef<'_>) -> Box<Expr> {
        Box::new(self.expr(e, parent))
    }

    fn optional(&mut self, e: Option<&py::Expr>, parent: AnyNodeRef<'_>) -> Option<Box<Expr>> {
        e.map(|e| self.boxed(e, parent))
    }

    fn expr(&mut self, e: &py::Expr, parent: AnyNodeRef<'_>) -> Expr {
        let own: AnyNodeRef<'_> = e.into();
        let mut supported = true;
        let kind = match e {
            py::Expr::Name(n) => ExprKind::Name { id: n.id.to_string() },
            py::Expr::NumberLiteral(n) => match &n.value {
                py::Number::Int(value) => ExprKind::Int { value: value.as_u64() },
                py::Number::Float(_) => ExprKind::Float,
                py::Number::Complex { .. } => {
                    supported = false;
                    ExprKind::Other
                }
            },
            py::Expr::BooleanLiteral(n) => ExprKind::Bool { value: n.value },
            py::Expr::NoneLiteral(_) => ExprKind::NoneLiteral,
            py::Expr::StringLiteral(n) => ExprKind::Str { value: Some(n.value.to_str().to_owned()) },
            py::Expr::BytesLiteral(_) => ExprKind::Bytes,
            py::Expr::If(n) => ExprKind::If {
                test: self.boxed(&n.test, own),
                body: self.boxed(&n.body, own),
                orelse: self.boxed(&n.orelse, own),
            },
            py::Expr::UnaryOp(n) => ExprKind::Unary {
                op: match n.op {
                    py::UnaryOp::Invert => PrefixOp::Invert,
                    py::UnaryOp::Not => PrefixOp::Not,
                    py::UnaryOp::UAdd => PrefixOp::UAdd,
                    py::UnaryOp::USub => PrefixOp::USub,
                },
                operand: self.boxed(&n.operand, own),
            },
            py::Expr::BinOp(n) => ExprKind::Binary {
                left: self.boxed(&n.left, own),
                op: operator(n.op),
                right: self.boxed(&n.right, own),
            },
            py::Expr::BoolOp(n) => ExprKind::Bool2 {
                op: match n.op {
                    py::BoolOp::And => BoolOp::And,
                    py::BoolOp::Or => BoolOp::Or,
                },
                values: self.exprs(&n.values, own),
            },
            py::Expr::Compare(n) => {
                let mut operands = vec![self.expr(&n.left, own)];
                operands.extend(self.exprs(&n.comparators, own));
                ExprKind::Compare { operands, ops: n.ops.iter().map(|op| comparison(*op)).collect() }
            }
            py::Expr::Lambda(n) => ExprKind::Lambda {
                parameters: n.parameters.as_deref().map(|p| Box::new(self.parameters(p))),
                body: self.boxed(&n.body, own),
            },
            py::Expr::List(n) => ExprKind::List { elts: self.exprs(&n.elts, own) },
            py::Expr::Tuple(n) => ExprKind::Tuple {
                elts: self.exprs(&n.elts, own),
                parenthesized: n.parenthesized,
            },
            py::Expr::ListComp(n) => ExprKind::ListComp {
                elt: self.boxed(&n.elt, own),
                generators: self.generators(&n.generators),
            },
            py::Expr::Dict(n) => ExprKind::Dict {
                items: n
                    .items
                    .iter()
                    .map(|item| DictItem {
                        key: item.key.as_ref().map(|key| self.expr(key, own)),
                        value: self.expr(&item.value, own),
                    })
                    .collect(),
            },
            py::Expr::DictComp(n) => match n.key.as_deref() {
                Some(key) => ExprKind::DictComp {
                    key: self.boxed(key, own),
                    value: self.boxed(&n.value, own),
                    generators: self.generators(&n.generators),
                },
                None => {
                    supported = false;
                    ExprKind::Other
                }
            },
            py::Expr::Attribute(n) => ExprKind::Attribute {
                value: self.boxed(&n.value, own),
                attr: n.attr.to_string(),
            },
            py::Expr::Call(n) => ExprKind::Call {
                func: self.boxed(&n.func, own),
                arguments: self.arguments(&n.arguments),
            },
            py::Expr::Subscript(n) => {
                let value = self.boxed(&n.value, own);
                let slice = match n.slice.as_ref() {
                    py::Expr::Slice(slice) => Box::new(Expr {
                        node: self.node(),
                        range: span(slice.range()),
                        parens: Vec::new(),
                        supported: true,
                        kind: ExprKind::Slice {
                            lower: self.optional(slice.lower.as_deref(), own),
                            upper: self.optional(slice.upper.as_deref(), own),
                            step: self.optional(slice.step.as_deref(), own),
                        },
                    }),
                    other => self.boxed(other, own),
                };
                ExprKind::Subscript { value, slice }
            }
            py::Expr::Starred(n) => ExprKind::Starred { value: self.boxed(&n.value, own) },
            _ => {
                supported = false;
                ExprKind::Other
            }
        };
        Expr {
            node: self.node(),
            range: span(e.range()),
            parens: self.parens(e, parent),
            supported,
            kind,
        }
    }

    fn generators(&mut self, generators: &[py::Comprehension]) -> Vec<Comprehension> {
        generators
            .iter()
            .map(|g| Comprehension {
                range: span(g.range()),
                target: self.expr(&g.target, g.into()),
                iter: self.expr(&g.iter, g.into()),
                ifs: self.exprs(&g.ifs, g.into()),
            })
            .collect()
    }

    fn arguments(&mut self, arguments: &py::Arguments) -> Arguments {
        let items = arguments
            .iter_source_order()
            .map(|argument| match argument {
                ArgOrKeyword::Arg(arg) => ArgItem::Arg(self.expr(arg, arguments.into())),
                ArgOrKeyword::Keyword(keyword) => ArgItem::Keyword {
                    range: span(keyword.range()),
                    node: self.node(),
                    name: keyword.arg.as_ref().map(|name| Identifier {
                        text: name.to_string(),
                        range: span(name.range()),
                    }),
                    value: self.expr(&keyword.value, arguments.into()),
                },
            })
            .collect();
        Arguments { range: span(arguments.range()), items }
    }

    fn parameters(&mut self, p: &py::Parameters) -> Parameters {
        let items = p
            .iter_source_order()
            .map(|param| match param {
                py::AnyParameterRef::NonVariadic(param) => Parameter {
                    node: self.node(),
                    range: span(param.range()),
                    owner: span(param.range()),
                    name: param.parameter.name.to_string(),
                    form: ParameterForm::Plain {
                        default: self.optional(param.default.as_deref(), param.into()),
                    },
                },
                py::AnyParameterRef::Variadic(param) => Parameter {
                    node: self.node(),
                    range: span(param.range()),
                    owner: span(param.range()),
                    name: param.name.to_string(),
                    form: if p.kwarg.as_deref().is_some_and(|kwarg| kwarg.range() == param.range()) {
                        ParameterForm::KeywordVariadic
                    } else {
                        ParameterForm::Variadic
                    },
                },
            })
            .collect();
        Parameters { range: span(p.range()), items, bare_star: self.bare_star(p) }
    }

    /// A star that is followed by a comma separates keyword-only parameters.
    fn bare_star(&self, p: &py::Parameters) -> Option<Span> {
        let tokens: Vec<_> = self
            .tokens
            .in_range(p.range())
            .iter()
            .filter(|token| !token.kind().is_trivia())
            .collect();
        tokens.windows(2).find_map(|pair| {
            (pair[0].kind() == TokenKind::Star && pair[1].kind() == TokenKind::Comma)
                .then(|| span(pair[0].range()))
        })
    }

    /// The block below a header that ends at `after`: from the colon to the
    /// place where the indentation ends, or to the end of the line.
    fn suite(&self, after: TextSize, body: &[py::Stmt]) -> Option<Span> {
        let mut tokens = self.tokens.after(after).iter().filter(|token| !token.kind().is_trivia());
        let colon = tokens.find(|token| token.kind() == TokenKind::Colon)?;
        let mut depth = 0;
        let mut end = body.last().map(|stmt| stmt.end());
        for token in tokens {
            match token.kind() {
                TokenKind::Indent => depth += 1,
                TokenKind::Dedent => {
                    depth -= 1;
                    if depth == 0 {
                        end = Some(token.start());
                        break;
                    }
                }
                TokenKind::Newline if depth == 0 => {}
                _ if depth == 0 => break,
                _ => {}
            }
        }
        Some(Span { start: colon.end().into(), end: end?.into() })
    }

    fn stmts(&mut self, body: &[py::Stmt]) -> Vec<Stmt> {
        body.iter().map(|s| self.stmt(s)).collect()
    }

    fn stmt(&mut self, s: &py::Stmt) -> Stmt {
        let own: AnyNodeRef<'_> = s.into();
        let kind = match s {
            py::Stmt::FunctionDef(def) => StmtKind::FunctionDef {
                name: Identifier { text: def.name.to_string(), range: span(def.name.range()) },
                parameters: self.parameters(&def.parameters),
                suite: self.suite(def.parameters.end(), &def.body),
                body: self.stmts(&def.body),
            },
            py::Stmt::If(n) => StmtKind::If {
                test: self.expr(&n.test, own),
                suite: self.suite(n.test.end(), &n.body),
                body: self.stmts(&n.body),
                clauses: n
                    .elif_else_clauses
                    .iter()
                    .map(|clause| Clause {
                        range: span(clause.range()),
                        test: clause.test.as_ref().map(|test| self.expr(test, clause.into())),
                        suite: self.suite(
                            clause.test.as_ref().map_or(clause.start(), |test| test.end()),
                            &clause.body,
                        ),
                        body: self.stmts(&clause.body),
                    })
                    .collect(),
            },
            py::Stmt::For(n) => StmtKind::For {
                target: self.expr(&n.target, own),
                iter: self.expr(&n.iter, own),
                suite: self.suite(n.iter.end(), &n.body),
                body: self.stmts(&n.body),
            },
            py::Stmt::Return(n) => StmtKind::Return {
                value: n.value.as_deref().map(|value| self.expr(value, own)),
            },
            py::Stmt::Break(_) => StmtKind::Break,
            py::Stmt::Continue(_) => StmtKind::Continue,
            py::Stmt::Pass(_) => StmtKind::Pass,
            py::Stmt::Assign(n) => StmtKind::Assign {
                targets: self.exprs(&n.targets, own),
                value: self.expr(&n.value, own),
            },
            py::Stmt::AugAssign(n) => StmtKind::AugAssign {
                target: self.expr(&n.target, own),
                op: operator(n.op),
                value: self.expr(&n.value, own),
            },
            py::Stmt::Expr(n) => StmtKind::Expr { value: self.expr(&n.value, own) },
            _ => StmtKind::Other,
        };
        Stmt { node: self.node(), range: span(s.range()), kind }
    }
}

fn operator(op: py::Operator) -> Operator {
    match op {
        py::Operator::Add => Operator::Add,
        py::Operator::Sub => Operator::Sub,
        py::Operator::Mult => Operator::Mult,
        py::Operator::MatMult => Operator::MatMult,
        py::Operator::Div => Operator::Div,
        py::Operator::Mod => Operator::Mod,
        py::Operator::Pow => Operator::Pow,
        py::Operator::LShift => Operator::LShift,
        py::Operator::RShift => Operator::RShift,
        py::Operator::BitOr => Operator::BitOr,
        py::Operator::BitXor => Operator::BitXor,
        py::Operator::BitAnd => Operator::BitAnd,
        py::Operator::FloorDiv => Operator::FloorDiv,
    }
}

fn comparison(op: py::CmpOp) -> Comparison {
    match op {
        py::CmpOp::Eq => Comparison::Eq,
        py::CmpOp::NotEq => Comparison::NotEq,
        py::CmpOp::Lt => Comparison::Lt,
        py::CmpOp::LtE => Comparison::LtE,
        py::CmpOp::Gt => Comparison::Gt,
        py::CmpOp::GtE => Comparison::GtE,
        py::CmpOp::Is => Comparison::Is,
        py::CmpOp::IsNot => Comparison::IsNot,
        py::CmpOp::In => Comparison::In,
        py::CmpOp::NotIn => Comparison::NotIn,
    }
}

/// Parses a text into the form that lowering reads.
fn parse(text: &str) -> Source {
    let parsed = ruff_python_parser::parse_unchecked_source(text, py::PySourceType::Python);
    let tokens = parsed.tokens();
    let mut converter = Converter { tokens, next: 0 };
    let body = converter.stmts(&parsed.syntax().body);
    Source {
        len: text.len() as u32,
        body,
        terminators: tokens
            .iter()
            .filter(|token| matches!(token.kind(), TokenKind::Newline | TokenKind::Semi))
            .map(|token| token.start().into())
            .collect(),
        strings: strings(text, tokens),
        comments: Vec::new(),
    }
}

/// The string tokens of a text; each is read on its own.
fn strings(text: &str, tokens: &Tokens) -> Vec<StringToken> {
    tokens
        .iter()
        .filter(|token| token.kind() == TokenKind::String)
        .map(|token| {
            let source = &text[token.range()];
            let value = match ruff_python_parser::parse_expression(source) {
                Ok(parsed) => match parsed.syntax().body.as_ref() {
                    py::Expr::StringLiteral(literal) => literal.value.to_str().to_owned(),
                    _ => String::new(),
                },
                Err(_) => String::new(),
            };
            let is_bytes = source.starts_with(['b', 'B']) || source.starts_with("rb");
            StringToken { range: span(token.range()), is_bytes, value }
        })
        .collect()
}

fn file(api_context: APIContext) -> File {
    File {
        source: 0,
        dialect: Dialect::Bazel,
        info: Some(FileInfo::Bazel { api_context, is_external: false }),
    }
}

fn lower(text: &str, api_context: APIContext) -> Lowering {
    let source = parse(text);
    lower_module(file(api_context), &source, &LineIndex::from_source_text(text))
}

fn check_scope(fixture: &str, expected: &[&str]) {
    check_scope_full(fixture, expected, None)
}

fn check_scope_full(fixture: &str, expected: &[&str], prelude: Option<&str>) {
    let cursor = fixture.find("$0").unwrap();
    let contents = fixture.replacen("$0", "", 1);
    let lowered = lower(&contents, APIContext::Build);
    let scopes = module_scopes(&lowered.module);
    let resolver = Resolver::new_for_offset(&scopes, &lowered.source_map, cursor as u32);
    let mut actual = resolver.module_names(false);
    if let Some(prelude) = prelude {
        let lowered = lower(prelude, APIContext::Prelude);
        let scopes = module_scopes(&lowered.module);
        actual.extend(Resolver::new_for_module(&scopes).module_names(false));
    }
    actual.sort();
    actual.dedup();
    assert_eq!(expected, &actual[..]);
}

#[test]
fn smoke_test() {
    check_scope(
        r"
g = 0
def foo():
    x = 1
    y = 2
    $0

def bar():
    pass
",
        &["bar", "foo", "g", "x", "y"],
    )
}

#[test]
fn test_empty_scope() {
    check_scope(
        r"
        $0
    ",
        &[],
    )
}

#[test]
fn test_assign() {
    check_scope(
        r"
a = 0
b, c = 1, 2
d, e = 3, 4
[f, g] = 5, 6
$0
        ",
        &["a", "b", "c", "d", "e", "f", "g"],
    )
}

#[test]
fn test_params() {
    check_scope(
        r"
def foo(x, *args, **kwargs):
    print(x)
    $0
",
        &["args", "foo", "kwargs", "x"],
    )
}

#[test]
fn test_loop_variables() {
    check_scope(
        r"
for x, y in 1, 2, 3:
    print(x, y)
    $0
    ",
        &["x", "y"],
    )
}

#[test]
fn test_lambda() {
    check_scope(
        r"
a = 1
f = lambda x: x + 1$0
    ",
        &["a", "x"],
    )
}

#[test]
fn test_def() {
    check_scope(
        r"def foo():
    x = 1
$0",
        &["foo", "x"],
    )
}

#[test]
fn test_list_comprehension() {
    check_scope(
        r"
[x*y$0 for x in range(5) for y in range(5)]
        ",
        &["x", "y"],
    )
}

#[test]
fn test_list_comprehension_clause1() {
    check_scope(
        r"
[x*y for x in range(5) for y in range(5) if x*y$0 > 10] 
        ",
        &["x", "y"],
    )
}

#[test]
fn test_list_comprehension_clause2() {
    check_scope(
        r"
[x*y for x in range(5) if x$0yz > 2 for y in range(5) if x*y > 10]
        ",
        &["x"],
    )
}

#[test]
fn test_load() {
    check_scope(
        r#"
load("foo.star", "go_binary")
$0
    "#,
        &["go_binary"],
    )
}

#[test]
fn test_param_defaults() {
    check_scope(
        r#"
_tsc = ""

def ts_project(tsc = _t$0sc):
    pass
    "#,
        &["_tsc"],
    )
}

#[test]
fn test_prelude() {
    check_scope_full(
        r#"
foo = 123
$0   
"#,
        &["bar", "f", "foo"],
        Some(
            r#"
bar = "abc"

def f():
    pass
"#,
        ),
    )
}

/// The type comments of a text, with where their types stand.
fn comments(text: &str) -> (Vec<TypeComment>, Vec<CommentRanges>) {
    let parsed = ruff_python_parser::parse_unchecked_source(text, py::PySourceType::Python);
    let mut comments = Vec::new();
    let mut ranges = Vec::new();
    for token in parsed.tokens().iter() {
        if token.kind() != TokenKind::Comment || !text[token.range()].starts_with("# type: ") {
            continue;
        }
        let range = span(token.range());
        let start = range.start + "# type: ".len() as u32;
        let body = &text[start as usize..range.end as usize];
        let at = |part: &str| {
            let offset = start + (part.as_ptr() as usize - body.as_ptr() as usize) as u32;
            Span { start: offset, end: offset + part.len() as u32 }
        };
        let found = match body.strip_prefix('(').and_then(|rest| rest.split_once(") -> ")) {
            Some((params, ret)) => CommentRanges {
                ty: None,
                params: params.split(", ").map(|param| Some(at(param))).collect(),
                ret: Some(at(ret)),
            },
            None => CommentRanges { ty: Some(at(body)), params: Vec::new(), ret: None },
        };
        comments.push(TypeComment { range, ignores: false, ty: None, function: None });
        ranges.push(found);
    }
    (comments, ranges)
}

/// The name of the node with a number.
fn name_of(body: &[Stmt], node: u32) -> Option<String> {
    body.iter().find_map(|stmt| match &stmt.kind {
        StmtKind::FunctionDef { name, parameters, .. } => {
            if stmt.node == node {
                return Some(name.text.clone());
            }
            parameters
                .items
                .iter()
                .find(|parameter| parameter.node == node)
                .map(|parameter| parameter.name.clone())
        }
        StmtKind::Assign { targets, .. } => targets.iter().find_map(|target| match &target.kind {
            ExprKind::Name { id } if target.node == node => Some(id.clone()),
            _ => None,
        }),
        _ => None,
    })
}

#[test]
fn comments_keep_source_attachment_boundaries() {
    for (source, expected) in [
        (
            r#"a = 1; b = 2 # type: string
def f(
    x = (
        1 # type: bool
    ),
    # ordinary comment
    # type: int
    *, # type: float
    y, # type: string
):
    # type: bool
    # type: (string, string, string) -> int
    pass
"#,
            vec![("b", "string"), ("x", "int"), ("y", "string")],
        ),
        (
            r#"def f(x, y):
    # type: (int, string) -> bool
    return True
"#,
            vec![("x", "int"), ("y", "string"), ("f", "bool")],
        ),
    ] {
        let (comments, ranges) = comments(source);
        let parsed = Source { comments, ..parse(source) };
        let info = source_info(&parsed, &ranges);
        let mut annotations: Vec<(u32, Span)> = info
            .notes
            .iter()
            .filter_map(|note| match note {
                Note::Type { owner, range } => Some((*owner, *range)),
                _ => None,
            })
            .collect();
        annotations.sort_by_key(|(_, range)| range.start);
        let actual: Vec<(String, &str)> = annotations
            .iter()
            .map(|(owner, range)| {
                let name = name_of(&parsed.body, *owner).expect("annotation owner");
                (name, &source[range.start as usize..range.end as usize])
            })
            .collect();
        let actual: Vec<(&str, &str)> =
            actual.iter().map(|(name, ty)| (name.as_str(), *ty)).collect();
        assert_eq!(actual, expected);
        let (owner, range) = annotations[0];
        assert_eq!(info.type_comment_annotation(owner), Some(range));
        assert_eq!(info.type_comment_owner(range.end), Some(owner));
        assert_eq!(info.type_comment_owner(range.end + 1), None);
    }
}

#[test]
fn the_text_of_a_file_says_what_it_loads() {
    let source = parse("load(\":defs.bzl\", \"a\")\nif a:\n    pass\nfor x in a:\n    pass\n");
    let info = source_info(&source, &Vec::new());
    let call = match &source.body[0].kind {
        StmtKind::Expr { value } => value.node,
        _ => panic!("expected a call"),
    };
    assert_eq!(info.loaded_module(call).as_deref(), Some(":defs.bzl"));
    assert!(info.is_load_stmt(call));
    assert!(!info.is_load_stmt(call + 1000));
    let messages: Vec<&str> =
        info.diagnostics.iter().map(|error| error.message.as_str()).collect();
    assert_eq!(
        messages,
        [
            "Starlark does not allow top-level if statements",
            "Starlark does not allow top-level for statements",
        ]
    );
}

/// Whether no two ranges are the same.
fn are_distinct(mut ranges: Vec<(u32, u32)>) -> bool {
    let count = ranges.len();
    ranges.sort();
    ranges.dedup();
    ranges.len() == count
}

#[test]
fn source_ranges_remain_distinct_during_edits() {
    for source in [
        "x = ((a + b))\ny = a and b or c\nz = a < b < c\n",
        "def f(x=(1+2), *, y=0, **kwargs):\n    # type: (int) -> int\n    return x\n",
        "[x for (x,) in xs if x for y in ys if y]\n",
        "load(\":defs.bzl\", alias=\"name\", \"other\")\nf(x, key=(y))\n",
        "x = {\"😀\": lambda a: a}\nif x:\n    pass\nelif y:\n    z = 1\n",
        "def broken()\nx = {\"k\": 1}\ny = 2\n",
    ] {
        let prefixes = source
            .char_indices()
            .map(|(offset, _)| source[..offset].to_owned());
        let deletions = source.char_indices().map(|(offset, character)| {
            let mut edited = source.to_owned();
            edited.replace_range(offset..offset + character.len_utf8(), "");
            edited
        });
        for input in std::iter::once(source.to_owned())
            .chain(prefixes)
            .chain(deletions)
        {
            let map = lower(&input, APIContext::Bzl).source_map;
            let pair = |range: &Span| (range.start, range.end);
            assert!(
                are_distinct(map.expr_map_back.iter().flatten().map(pair).collect()),
                "{input}"
            );
            assert!(are_distinct(map.stmt_map_back.iter().map(pair).collect()), "{input}");
            assert!(are_distinct(map.param_map_back.iter().map(pair).collect()), "{input}");
            assert!(are_distinct(map.load_item_map_back.iter().map(pair).collect()), "{input}");
        }
    }
}

#[test]
fn the_flow_splits_and_meets_again() {
    let lowered = lower("x = a and b\n", APIContext::Bzl);
    let ops = flow_index(&lowered.module);
    let kinds: Vec<&str> = ops
        .iter()
        .map(|op| match op {
            FlowOp::Reach { .. } => "reach",
            FlowOp::Use(_) => "use",
            FlowOp::Assign { .. } => "assign",
            FlowOp::Branch(Predicate::Truthiness(_)) => "branch",
            FlowOp::Merge => "merge",
            _ => "other",
        })
        .collect();
    assert_eq!(kinds, ["reach", "use", "branch", "use", "merge", "assign"]);
    let lowered = lower("def f():\n    return g()\n    h()\n", APIContext::Bzl);
    let ops = flow_index(&lowered.module);
    assert!(matches!(ops[0], FlowOp::Reach { steps, .. } if steps + 1 == ops.len()));
    assert!(matches!(ops[1], FlowOp::Enter));
    assert!(ops.iter().any(|op| matches!(op, FlowOp::Stop)));
    assert!(matches!(ops.last(), Some(FlowOp::Leave)));
}

/// The function and the last call of a module.
fn function_and_call(module: &Module) -> (FunctionDef, ExprId) {
    let function = module
        .stmts
        .iter()
        .enumerate()
        .find_map(|(index, stmt)| match stmt {
            HirStmt::Def { func, .. } => Some(FunctionDef {
                func: func.clone(),
                stmt: Some(InFile { file: file(APIContext::Bzl), value: StmtId(index) }),
            }),
            _ => None,
        })
        .expect("a function");
    let call = module
        .exprs
        .iter()
        .rposition(|expr| matches!(expr, HirExpr::Call { .. }))
        .expect("a call");
    (function, ExprId(call))
}

fn call_args(module: &Module, call: ExprId) -> &Vec<Argument> {
    match &module.exprs[call.0] {
        HirExpr::Call { args, .. } => args,
        _ => panic!("expected a call"),
    }
}

/// A structural matcher, as far as these tests need one.
struct Matcher {
    shapes: Vec<(Option<String>, bool, bool, bool)>,
    matched: Vec<bool>,
    reserved: Vec<String>,
    next: usize,
}

impl Matcher {
    fn new(signature: &Signature) -> Self {
        let shapes: Vec<_> = signature
            .parameters
            .iter()
            .map(|parameter| {
                let positional = matches!(
                    parameter.shape,
                    ParameterShape::PositionalOnly | ParameterShape::PositionalOrKeyword(_)
                );
                let variadic = matches!(parameter.shape, ParameterShape::Variadic);
                let rest = matches!(parameter.shape, ParameterShape::KeywordVariadic);
                (parameter.name().map(str::to_owned), positional, variadic, rest)
            })
            .collect();
        let matched = vec![false; shapes.len()];
        Matcher { shapes, matched, reserved: Vec::new(), next: 0 }
    }

    fn open(&self) -> Option<usize> {
        (self.next..self.shapes.len()).find(|index| self.shapes[*index].1)
    }

    fn variadic(&self) -> Option<usize> {
        self.shapes.iter().position(|shape| shape.2)
    }

    fn answer(&mut self, action: Action, arg: &ExpandedArgument) -> Reply {
        match action {
            Action::NextPositional => match self.open() {
                Some(index) => {
                    self.next = index + 1;
                    Reply::Index(Some(index))
                }
                None => Reply::Index(self.variadic()),
            },
            Action::FindKeyword => match arg {
                ExpandedArgument::Keyword(name, _) => Reply::Index(
                    self.shapes
                        .iter()
                        .position(|shape| shape.0.as_deref() == Some(name.as_str()))
                        .or_else(|| self.shapes.iter().position(|shape| shape.3)),
                ),
                _ => Reply::Index(None),
            },
            Action::OpenPosition => Reply::Index(self.open()),
            Action::KeywordReserved(index) => Reply::Flag(
                self.shapes[index]
                    .0
                    .as_ref()
                    .is_some_and(|name| self.reserved.contains(name)),
            ),
            Action::VariadicIndex => Reply::Index(self.variadic()),
            Action::Assign(index) => {
                let many = self.shapes[index].2 || self.shapes[index].3;
                let duplicate = self.matched[index] && !many;
                self.matched[index] = true;
                Reply::Flag(duplicate)
            }
            Action::Defer | Action::Done => Reply::Nothing,
        }
    }
}

/// Binds the last call of a text to its function: the errors, and the parameters
/// that are missing.
fn bind(text: &str) -> (Vec<String>, Vec<usize>) {
    let module = lower(text, APIContext::Bzl).module;
    let (function, call) = function_and_call(&module);
    let (attrs, disallowed) = (Vec::new(), Vec::new());
    let context = CalleeContext { module: &module, attrs: &attrs, disallowed: &disallowed };
    let signature = Signature::for_checking(&context, &TyKind::Function(function)).unwrap();
    let any: Ty = Arc::new(TyKind::Any);
    let passed = call_args(&module, call);
    let types = vec![any; passed.len()];
    let (args, owners) = expand_all(&module, passed, &types);
    assert_eq!(args.len(), owners.len());
    let mut matcher = Matcher::new(&signature);
    let mut binding = CallBinding::new();
    let mut reply = Reply::Nothing;
    loop {
        match binding.bind(&signature, &args, reply) {
            BindAction::Announce { argument } => {
                if let ExpandedArgument::Keyword(name, _) = &args[argument] {
                    matcher.reserved.push(name.as_str().to_owned());
                }
                reply = Reply::Nothing;
            }
            BindAction::Ask { argument, action } => {
                reply = matcher.answer(action, &args[argument]);
            }
            BindAction::Expand { .. } => {
                for index in signature.keyword_expansion(&matcher.matched) {
                    matcher.matched[index] = true;
                }
                reply = Reply::Nothing;
            }
            BindAction::Finished => break,
        }
    }
    let errors = binding.errors.iter().map(|(_, message)| message.clone()).collect();
    (errors, signature.missing(&matcher.matched))
}

#[test]
fn arguments_are_bound_to_parameters() {
    let define = "def f(a, b, *, c = 1):\n    pass\n";
    let call = |args: &str| bind(&format!("{define}f({args})\n"));
    assert_eq!(call("1, 2"), (Vec::new(), Vec::new()));
    assert_eq!(call("1"), (Vec::new(), vec![1]));
    assert_eq!(
        call("1, 2, 3"),
        (vec!["Unexpected positional argument".to_owned()], Vec::new())
    );
    assert_eq!(
        call("1, a = 2"),
        (vec!["Multiple arguments for parameter \"a\"".to_owned()], vec![1])
    );
    assert_eq!(
        call("1, 2, d = 3"),
        (vec!["Unexpected keyword argument \"d\"".to_owned()], Vec::new())
    );
    // An unpacked list leaves the parameters of names alone.
    assert_eq!(call("b = 1, *x"), (Vec::new(), Vec::new()));
    // An unpacked dictionary may hold what is missing.
    assert_eq!(call("**x"), (Vec::new(), Vec::new()));
    assert_eq!(call("*[1, 2]"), (Vec::new(), Vec::new()));
    assert_eq!(
        call("1, **{\"a\": 2, \"b\": 3}"),
        (vec!["Multiple arguments for parameter \"a\"".to_owned()], Vec::new())
    );
}

#[test]
fn arguments_have_an_order() {
    let errors = |args: &str| {
        let module = lower(&format!("f({args})\n"), APIContext::Bzl).module;
        let call = module
            .exprs
            .iter()
            .rposition(|expr| matches!(expr, HirExpr::Call { .. }))
            .unwrap();
        argument_order(call_args(&module, ExprId(call)))
    };
    assert!(errors("1, a = 2, *b, **c").is_empty());
    assert_eq!(
        errors("a = 2, 1"),
        [(1, "Positional argument cannot follow keyword arguments".to_owned())]
    );
    assert_eq!(
        errors("*b, *c"),
        [(1, "Only one iterable argument unpacking is allowed".to_owned())]
    );
}

#[test]
fn the_parameter_under_the_cursor_is_shown() {
    let module = lower("def f(a, *args):\n    pass\nf()\n", APIContext::Bzl).module;
    let (function, _) = function_and_call(&module);
    let (attrs, disallowed) = (Vec::new(), Vec::new());
    let context = CalleeContext { module: &module, attrs: &attrs, disallowed: &disallowed };
    let signature = Signature::new(&context, &TyKind::Function(function)).unwrap();
    assert_eq!(signature.active_parameter(Some(0), 0, Some(0), Some(1), None), Some(0));
    assert_eq!(signature.active_parameter(Some(1), 1, None, Some(1), None), Some(1));
    assert_eq!(signature.active_parameter(Some(0), 1, None, Some(1), Some(0)), Some(0));
    assert_eq!(signature.active_parameter(None, 1, None, None, None), None);
}

/// What a call of a builtin function makes.
fn made(text: &str, name: &str, parent: Option<&str>, types: Vec<TyKind>) -> Option<Ty> {
    let lowered = lower(text, APIContext::Bzl);
    let call = lowered
        .module
        .exprs
        .iter()
        .rposition(|expr| matches!(expr, HirExpr::Call { .. }))
        .unwrap();
    let function = BuiltinFunctionData {
        name: Name::from_str(name),
        parent_type: parent.map(str::to_owned),
        params: Vec::new(),
        ret_type_ref: TypeRef::Unknown,
        doc: String::new(),
    };
    let types: Vec<Ty> = types.into_iter().map(Arc::new).collect();
    let args = CallArguments {
        source_map: &lowered.source_map,
        args: call_args(&lowered.module, ExprId(call)),
        types: &types,
    };
    function.maybe_unique_ret_type(
        &lowered.module,
        file(APIContext::Bzl),
        ExprId(call),
        &args,
        &None,
    )
}

#[test]
fn calls_make_what_their_arguments_say() {
    let made_struct =
        made("s = struct(a = 1)\n", "struct", None, vec![TyKind::Bool(None)]).unwrap();
    match made_struct.as_ref() {
        TyKind::Struct(Some(data)) => {
            assert_eq!(data.fields.len(), 1);
            assert_eq!(data.fields[0].0.as_str(), "a");
        }
        other => panic!("{other:?}"),
    }
    let attribute = made(
        "a = attr.label(mandatory = True)\n",
        "label",
        Some("attr"),
        vec![TyKind::Bool(Some(true))],
    )
    .unwrap();
    match attribute.as_ref() {
        TyKind::Attribute(Some(data)) => {
            assert_eq!(data.kind, AttributeKind::Label);
            assert!(data.mandatory);
        }
        other => panic!("{other:?}"),
    }
    assert!(made("x = other()\n", "other", None, Vec::new()).is_none());
    assert!(made("x = y.label()\n", "label", Some("y"), Vec::new()).is_none());
}

#[test]
fn names_resolve_to_their_innermost_binding() {
    let text = "a = 1\ndef f(a):\n    b = a\n    return b\n_p = 2\na = 3\n";
    let lowered = lower(text, APIContext::Bzl);
    let scopes = module_scopes(&lowered.module);
    let module = Resolver::new_for_module(&scopes);
    let (execution, found) = module.resolve_name(&Name::from_str("a")).unwrap();
    assert_eq!(execution, ExecutionScope::Module);
    assert_eq!(found.len(), 2);
    assert!(matches!(found[0].def, ScopeDef::Variable(_)));
    assert!(found[0].scope > found[1].scope);
    assert!(module.resolve_name(&Name::from_str("b")).is_none());
    assert!(module.resolve_export(&Name::from_str("_p")).is_none());
    assert!(matches!(module.resolve_export(&Name::from_str("f")), Some(Export::Function(_))));
    let (function, _) = lowered
        .module
        .stmts
        .iter()
        .enumerate()
        .find(|(_, stmt)| matches!(stmt, HirStmt::Def { .. }))
        .unwrap();
    let inner = Resolver::new_for_hir_execution_scope(&scopes, StmtId(function));
    let (execution, found) = inner.resolve_name(&Name::from_str("a")).unwrap();
    assert_eq!(execution, ExecutionScope::Def(StmtId(function)));
    assert_eq!(found.len(), 1, "the variables of the module are in another piece of code");
    assert!(matches!(found[0].def, ScopeDef::Parameter(_)));
    assert_eq!(found[0].execution_scope, execution);
    // The body of a function sees what is bound behind it.
    assert!(inner.resolve_name(&Name::from_str("_p")).is_some());
    let defs = inner.module_defs(true);
    assert!(defs.get("f").is_some());
    assert!(defs.get("_p").is_none());
}

#[test]
fn prelude_comes_before_what_is_built_in() {
    let lowered = lower("def macro(): pass\nlen = 1\n", APIContext::Prelude);
    let scopes = module_scopes(&lowered.module);
    assert!(matches!(
        resolve_export_in_file(&scopes, &Name::from_str("macro")),
        Some(Export::Function(_))
    ));
    assert!(resolve_export_in_file(&scopes, &Name::from_str("other")).is_none());
    let empty = || APIGlobals { functions: NameMap::new(), variables: NameMap::new() };
    let mut globals = BuiltinGlobals {
        bzl_globals: empty(),
        bzlmod_globals: empty(),
        repo_globals: empty(),
        workspace_globals: empty(),
        cquery_globals: empty(),
        vendor_globals: empty(),
    };
    globals.bzl_globals.variables.insert("native".to_owned(), Arc::new(TypeRef::Unknown));
    let prelude = Some(Resolver::new_for_module(&scopes));
    let intrinsics = vec!["len".to_owned()];
    let resolve = |context, name: &str| {
        let file = file(context);
        let name = Name::from_str(name);
        resolve_name_in_prelude_or_builtins(file, &prelude, &intrinsics, &globals, &name)
    };
    assert!(matches!(resolve(APIContext::Build, "macro"), Some(Ambient::Prelude(_))));
    assert!(matches!(resolve(APIContext::Build, "len"), Some(Ambient::Prelude(_))));
    assert!(matches!(resolve(APIContext::Bzl, "len"), Some(Ambient::Intrinsic)));
    assert!(resolve(APIContext::Bzl, "macro").is_none());
    assert!(matches!(resolve(APIContext::Bzl, "native"), Some(Ambient::BuiltinVariable(_))));
    // Files of modules see the same; those of other kinds have globals of their own.
    assert!(matches!(resolve(APIContext::Module, "native"), Some(Ambient::BuiltinVariable(_))));
    assert!(resolve(APIContext::Repo, "native").is_none());
    assert!(resolve(APIContext::Cquery, "native").is_none());
}

#[test]
fn native_annotations_need_an_ordinary_extension() {
    assert!(file(APIContext::Bzl).allows_native_annotations(Some("bzl")));
    assert!(!file(APIContext::Bzl).allows_native_annotations(Some("bzli")));
    assert!(!file(APIContext::Bzl).allows_native_annotations(None));
    assert!(!file(APIContext::Build).allows_native_annotations(Some("bzl")));
    let plain = File { source: 0, dialect: Dialect::Standard, info: None };
    assert!(!plain.allows_native_annotations(Some("bzl")));
    let bare = File { source: 0, dialect: Dialect::Bazel, info: None };
    assert!(bare.allows_native_annotations(Some("bzl")));
}

#[test]
fn errors_come_once_and_in_order() {
    let text = "def f(x, x, **k):\n    pass\nif a: pass\ng = lambda y, y: y\nfor b in c: pass\n";
    let lowered = lower(text, APIContext::Bzl);
    let found: Vec<(&str, &str)> = lowered
        .errors
        .iter()
        .map(|error| {
            let range = error.range.start as usize..error.range.end as usize;
            (&text[range], error.message.as_str())
        })
        .collect();
    assert_eq!(
        found,
        [
            ("x", "Duplicate parameter x"),
            ("if a: pass", "Starlark does not allow top-level if statements"),
            ("y", "Duplicate parameter y"),
            ("for b in c: pass", "Starlark does not allow top-level for statements"),
        ]
    );
}

#[test]
fn values_go_where_they_were_assigned() {
    let text = "a = [x for x in xs]\nfor b in a: c = b\n";
    let lowered = lower(text, APIContext::Bzl);
    let sources = &lowered.module.assignment_sources;
    // Two values and two things that are walked over, each once.
    assert_eq!(sources.len(), 4);
    for (expr, source) in sources {
        assert_eq!(lowered.module.assignment_source(*expr), Some(*source));
    }
}

#[test]
fn values_belong_to_the_arguments_that_pass_them() {
    let module = lower("f(1, *(2, 3), x = 4)\n", APIContext::Bzl).module;
    let call = module
        .exprs
        .iter()
        .position(|expr| matches!(expr, HirExpr::Call { .. }))
        .unwrap();
    let any: Ty = Arc::new(TyKind::Any);
    let passed = call_args(&module, ExprId(call));
    let (values, owners) = expand_all(&module, passed, &vec![any; 3]);
    assert_eq!(owners, [0, 1, 1, 2]);
    assert!(matches!(values[3], ExpandedArgument::Keyword(..)));
}
