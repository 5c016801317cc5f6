//! What the text of a file says besides its statements: the types that comments
//! give to names, the modules that are loaded, and what must not stand at the top.

use vstd::prelude::*;

use crate::lower::{assignment_comment, comment_in, ordered_slots, place_range};
use crate::lower_spec::{
    assignment_comment_of, comment_of, def_comment, is_load, slot_count, slot_gap, slot_order,
};
use crate::syntax::{
    ArgItem, Clause, Comprehension, DictItem, Expr, ExprKind, Parameter, ParameterForm, Parameters,
    Source, Span, Stmt, StmtKind,
};

verus! {

/// Where the types of a comment stand: the type of a name, or those of the
/// parameters of a function and of what it returns.
#[derive(Debug)]
pub struct CommentRanges {
    pub ty: Option<Span>,
    pub params: Vec<Option<Span>>,
    pub ret: Option<Span>,
}

/// What the text says of a node: where its type stands, or which module it loads.
#[derive(Debug)]
pub enum Note {
    Type { owner: u32, range: Span },
    Load { call: u32, module: String },
}

/// The content of a note.
pub enum NoteView {
    Type(u32, Span),
    Load(u32, Seq<char>),
}

impl View for Note {
    type V = NoteView;

    open spec fn view(&self) -> NoteView {
        match *self {
            Note::Type { owner, range } => NoteView::Type(owner, range),
            Note::Load { call, module } => NoteView::Load(call, module@),
        }
    }
}

/// The contents of notes.
pub open spec fn noted(notes: Seq<Note>) -> Seq<NoteView> {
    Seq::new(notes.len(), |i: int| notes[i]@)
}

/// A parsed file, with where the types of its comments stand.
pub struct Annotated<'a> {
    pub src: &'a Source,
    pub ranges: &'a Vec<CommentRanges>,
}

impl Annotated<'_> {
    /// Every comment has its ranges.
    pub open spec fn wf(self) -> bool {
        self.ranges@.len() == self.src.comments@.len()
    }

    /// The type of the parameter at a place: that of the comment behind it, or the
    /// one that the comment of the function gives for the place.
    pub open spec fn param_type(
        self,
        p: Parameters,
        order: Seq<int>,
        given: Seq<Option<Span>>,
        k: int,
    ) -> Option<Span> {
        let own = match comment_of(*self.src, slot_gap(p, order, k)) {
            Some(c) => self.ranges@[c].ty,
            None => None,
        };
        if own is Some {
            own
        } else if k < given.len() {
            given[k]
        } else {
            None
        }
    }

    /// The types of the parameters at the first places.
    pub open spec fn param_notes(
        self,
        p: Parameters,
        order: Seq<int>,
        given: Seq<Option<Span>>,
        n: int,
    ) -> Seq<NoteView>
        decreases n,
    {
        if n <= 0 {
            seq![]
        } else {
            let rest = self.param_notes(p, order, given, n - 1);
            let slot = order[n - 1];
            match self.param_type(p, order, given, n - 1) {
                Some(range) if slot < p.items@.len() => rest.push(
                    NoteView::Type(p.items@[slot].node, range),
                ),
                _ => rest,
            }
        }
    }

    /// The types of parameters.
    pub open spec fn params(self, p: Parameters, given: Seq<Option<Span>>) -> Seq<NoteView> {
        let order = slot_order(p, slot_count(p));
        self.param_notes(p, order, given, order.len() as int)
    }

    /// The notes in an optional expression.
    pub open spec fn opt(self, e: Option<Box<Expr>>) -> Seq<NoteView>
        decreases e,
    {
        match e {
            Some(e) => self.expr(*e),
            None => seq![],
        }
    }

    /// The notes in the first of some expressions.
    pub open spec fn exprs(self, es: Seq<Expr>, n: int) -> Seq<NoteView>
        decreases es, n,
    {
        if n <= 0 || n > es.len() {
            seq![]
        } else {
            self.exprs(es, n - 1) + self.expr(es[n - 1])
        }
    }

    /// The notes in the first loops of a comprehension.
    pub open spec fn loops(self, loops: Seq<Comprehension>, n: int) -> Seq<NoteView>
        decreases loops, n,
    {
        if n <= 0 || n > loops.len() {
            seq![]
        } else {
            let l = loops[n - 1];
            self.loops(loops, n - 1) + self.expr(l.target) + self.expr(l.iter) + self.exprs(
                l.ifs@,
                l.ifs@.len() as int,
            )
        }
    }

    /// The notes in the first entries of a dictionary.
    pub open spec fn entries(self, items: Seq<DictItem>, n: int) -> Seq<NoteView>
        decreases items, n,
    {
        if n <= 0 || n > items.len() {
            seq![]
        } else {
            let item = items[n - 1];
            self.entries(items, n - 1) + (match item.key {
                Some(key) => self.expr(key),
                None => seq![],
            }) + self.expr(item.value)
        }
    }

    /// The notes in the first arguments of a call.
    pub open spec fn args(self, items: Seq<ArgItem>, n: int) -> Seq<NoteView>
        decreases items, n,
    {
        if n <= 0 || n > items.len() {
            seq![]
        } else {
            self.args(items, n - 1) + match items[n - 1] {
                ArgItem::Arg(value) => self.expr(value),
                ArgItem::Keyword { range: _, node: _, name: _, value } => self.expr(value),
            }
        }
    }

    /// The notes in the defaults of the first parameters.
    pub open spec fn defaults(self, items: Seq<Parameter>, n: int) -> Seq<NoteView>
        decreases items, n,
    {
        if n <= 0 || n > items.len() {
            seq![]
        } else {
            self.defaults(items, n - 1) + match items[n - 1].form {
                ParameterForm::Plain { default } => self.opt(default),
                _ => seq![],
            }
        }
    }

    /// The notes in an expression: those of the parameters of its functions.
    pub open spec fn expr(self, e: Expr) -> Seq<NoteView>
        decreases e,
    {
        match e.kind {
            ExprKind::If { test, body, orelse } => self.expr(*test) + self.expr(*body) + self.expr(
                *orelse,
            ),
            ExprKind::Unary { op: _, operand } => self.expr(*operand),
            ExprKind::Binary { left, op: _, right } => self.expr(*left) + self.expr(*right),
            ExprKind::Bool2 { op: _, values } => self.exprs(values@, values@.len() as int),
            ExprKind::Compare { operands, ops: _ } => self.exprs(
                operands@,
                operands@.len() as int,
            ),
            ExprKind::Lambda { parameters, body } => (match parameters {
                Some(p) => self.params(*p, seq![]) + self.defaults(
                    p.items@,
                    p.items@.len() as int,
                ),
                None => seq![],
            }) + self.expr(*body),
            ExprKind::List { elts } => self.exprs(elts@, elts@.len() as int),
            ExprKind::Tuple { elts, parenthesized: _ } => self.exprs(elts@, elts@.len() as int),
            ExprKind::ListComp { elt, generators } => self.expr(*elt) + self.loops(
                generators@,
                generators@.len() as int,
            ),
            ExprKind::Dict { items } => self.entries(items@, items@.len() as int),
            ExprKind::DictComp { key, value, generators } => self.expr(*key) + self.expr(*value)
                + self.loops(generators@, generators@.len() as int),
            ExprKind::Attribute { value, attr: _ } => self.expr(*value),
            ExprKind::Call { func, arguments } => self.expr(*func) + self.args(
                arguments.items@,
                arguments.items@.len() as int,
            ),
            ExprKind::Subscript { value, slice } => self.expr(*value) + self.expr(*slice),
            ExprKind::Slice { lower, upper, step } => self.opt(lower) + self.opt(upper) + self.opt(
                step,
            ),
            ExprKind::Starred { value } => self.expr(*value),
            _ => seq![],
        }
    }

    /// The types that the comment of a function gives to its parameters.
    pub open spec fn given(self, body: Seq<Stmt>, suite: Option<Span>) -> Seq<Option<Span>> {
        match def_comment(*self.src, body, suite) {
            Some(c) => self.ranges@[c].params@,
            None => seq![],
        }
    }

    /// The type that the comment of a function gives to what it returns.
    pub open spec fn returned(self, node: u32, body: Seq<Stmt>, suite: Option<Span>) -> Seq<
        NoteView,
    > {
        match def_comment(*self.src, body, suite) {
            Some(c) => match self.ranges@[c].ret {
                Some(range) => seq![NoteView::Type(node, range)],
                None => seq![],
            },
            None => seq![],
        }
    }

    /// The type that a comment gives to the name that is assigned to.
    pub open spec fn assigned(self, range: Span, targets: Seq<Expr>) -> Seq<NoteView> {
        if targets.len() > 0 && targets[0].kind is Name {
            match assignment_comment_of(*self.src, range) {
                Some(c) => match self.ranges@[c].ty {
                    Some(ty) => seq![NoteView::Type(targets[0].node, ty)],
                    None => seq![],
                },
                None => seq![],
            }
        } else {
            seq![]
        }
    }

    /// The module that a call of `load` names: its first argument without a name,
    /// if that is a string.
    pub open spec fn loaded(self, call: u32, items: Seq<ArgItem>, k: int) -> Seq<NoteView>
        decreases items.len() - k,
    {
        if k < 0 || k >= items.len() {
            seq![]
        } else {
            match items[k] {
                ArgItem::Arg(e) => match e.kind {
                    ExprKind::Str { value: Some(value) } => seq![NoteView::Load(call, value@)],
                    _ => seq![],
                },
                _ => self.loaded(call, items, k + 1),
            }
        }
    }

    /// The notes in the first of some statements.
    pub open spec fn stmts(self, body: Seq<Stmt>, n: int) -> Seq<NoteView>
        decreases body, n,
    {
        if n <= 0 || n > body.len() {
            seq![]
        } else {
            self.stmts(body, n - 1) + self.stmt(body[n - 1])
        }
    }

    /// The notes in the first clauses of an `if`.
    pub open spec fn clauses(self, clauses: Seq<Clause>, n: int) -> Seq<NoteView>
        decreases clauses, n,
    {
        if n <= 0 || n > clauses.len() {
            seq![]
        } else {
            let clause = clauses[n - 1];
            self.clauses(clauses, n - 1) + (match clause.test {
                Some(test) => self.expr(test),
                None => seq![],
            }) + self.stmts(clause.body@, clause.body@.len() as int)
        }
    }

    /// The notes in a statement.
    pub open spec fn stmt(self, s: Stmt) -> Seq<NoteView>
        decreases s,
    {
        match s.kind {
            StmtKind::FunctionDef { name: _, parameters, body, suite } => self.returned(
                s.node,
                body@,
                suite,
            ) + self.params(parameters, self.given(body@, suite)) + self.defaults(
                parameters.items@,
                parameters.items@.len() as int,
            ) + self.stmts(body@, body@.len() as int),
            StmtKind::If { test, body, suite: _, clauses } => self.expr(test) + self.stmts(
                body@,
                body@.len() as int,
            ) + self.clauses(clauses@, clauses@.len() as int),
            StmtKind::For { target, iter, body, suite: _ } => self.expr(target) + self.expr(iter)
                + self.stmts(body@, body@.len() as int),
            StmtKind::Return { value } => match value {
                Some(value) => self.expr(value),
                None => seq![],
            },
            StmtKind::Assign { targets, value } => self.assigned(s.range, targets@) + self.exprs(
                targets@,
                targets@.len() as int,
            ) + self.expr(value),
            StmtKind::AugAssign { target, op: _, value } => self.expr(target) + self.expr(value),
            StmtKind::Expr { value } => if is_load(s) {
                match value.kind {
                    ExprKind::Call { func: _, arguments } => self.loaded(
                        value.node,
                        arguments.items@,
                        0,
                    ),
                    _ => seq![],
                }
            } else {
                self.expr(value)
            },
            _ => seq![],
        }
    }
}

/// Adds a note.
fn note(out: &mut Vec<Note>, n: Note)
    ensures
        noted(final(out)@) == noted(old(out)@).push(n@),
{
    let ghost before = noted(out@);
    out.push(n);
    proof {
        assert(noted(out@) =~= before.push(n@));
    }
}

impl Annotated<'_> {
    /// Notes the types of parameters.
    pub fn note_params(&self, p: &Parameters, given: &Vec<Option<Span>>, out: &mut Vec<Note>)
        requires
            self.wf(),
        ensures
            noted(final(out)@) == noted(old(out)@) + self.params(*p, given@),
    {
        let ghost start = noted(out@);
        let slots = ordered_slots(p);
        let ghost order = slot_order(*p, slot_count(*p));
        let mut k: usize = 0;
        proof {
            assert(start =~= start + self.param_notes(*p, order, given@, 0));
        }
        while k < slots.len()
            invariant
                k <= slots@.len() == order.len(),
                self.wf(),
                order == slot_order(*p, slot_count(*p)),
                forall|i: int|
                    0 <= i < slots@.len() ==> #[trigger] slots@[i] == order[i] && slots@[i]
                        < slot_count(*p),
                noted(out@) == start + self.param_notes(*p, order, given@, k as int),
            decreases slots@.len() - k,
        {
            let slot = slots[k];
            let range = place_range(p, slot);
            let end = if k + 1 < slots.len() {
                place_range(p, slots[k + 1]).start
            } else {
                p.range.end
            };
            let stop = if end <= range.end {
                range.end
            } else {
                end
            };
            let gap = Span { start: range.end, end: stop };
            proof {
                assert(slots@[k as int] == order[k as int]);
                if k + 1 < slots@.len() {
                    assert(slots@[k + 1] == order[k + 1]);
                }
                assert(gap == slot_gap(*p, order, k as int));
            }
            let own = match comment_in(self.src, gap) {
                Some(c) => self.ranges[c].ty,
                None => None,
            };
            let ty = if own.is_some() {
                own
            } else if k < given.len() {
                given[k]
            } else {
                None
            };
            if let Some(range) = ty {
                if slot < p.items.len() {
                    note(out, Note::Type { owner: p.items[slot].node, range });
                }
            }
            proof {
                assert(ty == self.param_type(*p, order, given@, k as int));
                assert(noted(out@) =~= start + self.param_notes(*p, order, given@, k + 1));
            }
            k = k + 1;
        }
    }

    /// Notes what is in an optional expression.
    fn note_opt(&self, e: &Option<Box<Expr>>, out: &mut Vec<Note>)
        requires
            self.wf(),
        ensures
            noted(final(out)@) == noted(old(out)@) + self.opt(*e),
        decreases *e,
    {
        match e {
            Some(e) => {
                self.note_expr(e, out);
            },
            None => {
                proof {
                    assert(noted(out@) =~= noted(out@) + Seq::<NoteView>::empty());
                }
            },
        }
    }

    /// Notes what is in expressions.
    fn note_exprs(&self, items: &Vec<Expr>, out: &mut Vec<Note>)
        requires
            self.wf(),
        ensures
            noted(final(out)@) == noted(old(out)@) + self.exprs(items@, items@.len() as int),
        decreases items@, items@.len() + 1,
    {
        let ghost start = noted(out@);
        let mut i: usize = 0;
        proof {
            assert(start =~= start + self.exprs(items@, 0));
        }
        while i < items.len()
            invariant
                i <= items@.len(),
                self.wf(),
                noted(out@) == start + self.exprs(items@, i as int),
            decreases items@.len() - i,
        {
            proof {
                assert(decreases_to!(items@ => items@[i as int]));
            }
            self.note_expr(&items[i], out);
            proof {
                assert(noted(out@) =~= start + self.exprs(items@, i + 1));
            }
            i = i + 1;
        }
    }

    /// Notes what is in the loops of a comprehension.
    fn note_loops(&self, items: &Vec<Comprehension>, out: &mut Vec<Note>)
        requires
            self.wf(),
        ensures
            noted(final(out)@) == noted(old(out)@) + self.loops(items@, items@.len() as int),
        decreases items@, items@.len() + 1,
    {
        let ghost start = noted(out@);
        let mut i: usize = 0;
        proof {
            assert(start =~= start + self.loops(items@, 0));
        }
        while i < items.len()
            invariant
                i <= items@.len(),
                self.wf(),
                noted(out@) == start + self.loops(items@, i as int),
            decreases items@.len() - i,
        {
            proof {
                assert(decreases_to!(items@ => items@[i as int]));
            }
            let item = &items[i];
            self.note_expr(&item.target, out);
            self.note_expr(&item.iter, out);
            self.note_exprs(&item.ifs, out);
            proof {
                assert(noted(out@) =~= start + self.loops(items@, i + 1));
            }
            i = i + 1;
        }
    }

    /// Notes what is in the entries of a dictionary.
    fn note_entries(&self, items: &Vec<DictItem>, out: &mut Vec<Note>)
        requires
            self.wf(),
        ensures
            noted(final(out)@) == noted(old(out)@) + self.entries(items@, items@.len() as int),
        decreases items@, items@.len() + 1,
    {
        let ghost start = noted(out@);
        let mut i: usize = 0;
        proof {
            assert(start =~= start + self.entries(items@, 0));
        }
        while i < items.len()
            invariant
                i <= items@.len(),
                self.wf(),
                noted(out@) == start + self.entries(items@, i as int),
            decreases items@.len() - i,
        {
            proof {
                assert(decreases_to!(items@ => items@[i as int]));
            }
            let item = &items[i];
            match &item.key {
                Some(key) => {
                    self.note_expr(key, out);
                },
                None => {},
            }
            self.note_expr(&item.value, out);
            proof {
                assert(noted(out@) =~= start + self.entries(items@, i + 1));
            }
            i = i + 1;
        }
    }

    /// Notes what is in the arguments of a call.
    fn note_args(&self, items: &Vec<ArgItem>, out: &mut Vec<Note>)
        requires
            self.wf(),
        ensures
            noted(final(out)@) == noted(old(out)@) + self.args(items@, items@.len() as int),
        decreases items@, items@.len() + 1,
    {
        let ghost start = noted(out@);
        let mut i: usize = 0;
        proof {
            assert(start =~= start + self.args(items@, 0));
        }
        while i < items.len()
            invariant
                i <= items@.len(),
                self.wf(),
                noted(out@) == start + self.args(items@, i as int),
            decreases items@.len() - i,
        {
            proof {
                assert(decreases_to!(items@ => items@[i as int]));
            }
            match &items[i] {
                ArgItem::Arg(value) => {
                    self.note_expr(value, out);
                },
                ArgItem::Keyword { range: _, node: _, name: _, value } => {
                    self.note_expr(value, out);
                },
            }
            proof {
                assert(noted(out@) =~= start + self.args(items@, i + 1));
            }
            i = i + 1;
        }
    }

    /// Notes what is in the defaults of parameters.
    fn note_defaults(&self, items: &Vec<Parameter>, out: &mut Vec<Note>)
        requires
            self.wf(),
        ensures
            noted(final(out)@) == noted(old(out)@) + self.defaults(items@, items@.len() as int),
        decreases items@, items@.len() + 1,
    {
        let ghost start = noted(out@);
        let mut i: usize = 0;
        proof {
            assert(start =~= start + self.defaults(items@, 0));
        }
        while i < items.len()
            invariant
                i <= items@.len(),
                self.wf(),
                noted(out@) == start + self.defaults(items@, i as int),
            decreases items@.len() - i,
        {
            proof {
                assert(decreases_to!(items@ => items@[i as int]));
            }
            match &items[i].form {
                ParameterForm::Plain { default } => {
                    self.note_opt(default, out);
                },
                _ => {},
            }
            proof {
                assert(noted(out@) =~= start + self.defaults(items@, i + 1));
            }
            i = i + 1;
        }
    }

    /// Notes what is in an expression.
    pub fn note_expr(&self, e: &Expr, out: &mut Vec<Note>)
        requires
            self.wf(),
        ensures
            noted(final(out)@) == noted(old(out)@) + self.expr(*e),
        decreases *e,
    {
        let ghost start = noted(out@);
        match &e.kind {
            ExprKind::If { test, body, orelse } => {
                self.note_expr(test, out);
                self.note_expr(body, out);
                self.note_expr(orelse, out);
            },
            ExprKind::Unary { op: _, operand } => {
                self.note_expr(operand, out);
            },
            ExprKind::Binary { left, op: _, right } => {
                self.note_expr(left, out);
                self.note_expr(right, out);
            },
            ExprKind::Bool2 { op: _, values } => {
                self.note_exprs(values, out);
            },
            ExprKind::Compare { operands, ops: _ } => {
                self.note_exprs(operands, out);
            },
            ExprKind::Lambda { parameters, body } => {
                match parameters {
                    Some(p) => {
                        let given: Vec<Option<Span>> = Vec::new();
                        proof {
                            assert(given@ =~= seq![]);
                        }
                        self.note_params(p, &given, out);
                        self.note_defaults(&p.items, out);
                    },
                    None => {},
                }
                self.note_expr(body, out);
            },
            ExprKind::List { elts } => {
                self.note_exprs(elts, out);
            },
            ExprKind::Tuple { elts, parenthesized: _ } => {
                self.note_exprs(elts, out);
            },
            ExprKind::ListComp { elt, generators } => {
                self.note_expr(elt, out);
                self.note_loops(generators, out);
            },
            ExprKind::Dict { items } => {
                self.note_entries(items, out);
            },
            ExprKind::DictComp { key, value, generators } => {
                self.note_expr(key, out);
                self.note_expr(value, out);
                self.note_loops(generators, out);
            },
            ExprKind::Attribute { value, attr: _ } => {
                self.note_expr(value, out);
            },
            ExprKind::Call { func, arguments } => {
                self.note_expr(func, out);
                self.note_args(&arguments.items, out);
            },
            ExprKind::Subscript { value, slice } => {
                self.note_expr(value, out);
                self.note_expr(slice, out);
            },
            ExprKind::Slice { lower, upper, step } => {
                self.note_opt(lower, out);
                self.note_opt(upper, out);
                self.note_opt(step, out);
            },
            ExprKind::Starred { value } => {
                self.note_expr(value, out);
            },
            _ => {},
        }
        proof {
            assert(noted(out@) =~= start + self.expr(*e));
        }
    }

    /// Notes the types that the comment of a function gives, and gives those of its
    /// parameters.
    fn note_def(&self, node: u32, body: &Vec<Stmt>, suite: Option<Span>, out: &mut Vec<Note>) -> (given:
        Vec<Option<Span>>)
        requires
            self.wf(),
        ensures
            noted(final(out)@) == noted(old(out)@) + self.returned(node, body@, suite),
            given@ == self.given(body@, suite),
    {
        let ghost start = noted(out@);
        let comment = match suite {
            Some(range) => {
                let end = if body.len() > 0 {
                    body[0].range.start
                } else {
                    range.end
                };
                let stop = if end <= range.start {
                    range.start
                } else {
                    end
                };
                comment_in(self.src, Span { start: range.start, end: stop })
            },
            None => None,
        };
        let mut given: Vec<Option<Span>> = Vec::new();
        match comment {
            Some(c) => {
                let ranges = &self.ranges[c];
                let mut i: usize = 0;
                proof {
                    assert(given@ =~= ranges.params@.take(0));
                }
                while i < ranges.params.len()
                    invariant
                        i <= ranges.params@.len(),
                        given@ == ranges.params@.take(i as int),
                    decreases ranges.params@.len() - i,
                {
                    given.push(ranges.params[i]);
                    proof {
                        assert(given@ =~= ranges.params@.take(i + 1));
                    }
                    i = i + 1;
                }
                proof {
                    assert(given@ =~= ranges.params@);
                }
                if let Some(range) = ranges.ret {
                    note(out, Note::Type { owner: node, range });
                }
            },
            None => {
                proof {
                    assert(given@ =~= seq![]);
                }
            },
        }
        proof {
            assert(noted(out@) =~= start + self.returned(node, body@, suite));
        }
        given
    }

    /// Notes the type that a comment gives to the name that is assigned to.
    fn note_assigned(&self, range: Span, targets: &Vec<Expr>, out: &mut Vec<Note>)
        requires
            self.wf(),
        ensures
            noted(final(out)@) == noted(old(out)@) + self.assigned(range, targets@),
    {
        let ghost start = noted(out@);
        let is_name = targets.len() > 0 && match &targets[0].kind {
            ExprKind::Name { id: _ } => true,
            _ => false,
        };
        if is_name {
            if let Some(c) = assignment_comment(self.src, range) {
                if let Some(ty) = self.ranges[c].ty {
                    note(out, Note::Type { owner: targets[0].node, range: ty });
                }
            }
        }
        proof {
            assert(noted(out@) =~= start + self.assigned(range, targets@));
        }
    }

    /// Notes the module that a call of `load` names.
    fn note_load(&self, call: u32, items: &Vec<ArgItem>, out: &mut Vec<Note>)
        ensures
            noted(final(out)@) == noted(old(out)@) + self.loaded(call, items@, 0),
    {
        let ghost start = noted(out@);
        let mut k: usize = 0;
        while k < items.len()
            invariant
                k <= items@.len(),
                start == noted(old(out)@),
                noted(out@) == start,
                self.loaded(call, items@, k as int) == self.loaded(call, items@, 0),
            decreases items@.len() - k,
        {
            match &items[k] {
                ArgItem::Arg(e) => {
                    match &e.kind {
                        ExprKind::Str { value: Some(value) } => {
                            note(out, Note::Load { call, module: value.clone() });
                        },
                        _ => {},
                    }
                    proof {
                        assert(noted(out@) =~= start + self.loaded(call, items@, k as int));
                    }
                    return;
                },
                _ => {},
            }
            k = k + 1;
        }
        proof {
            assert(start =~= start + self.loaded(call, items@, k as int));
        }
    }

    /// Notes what is in statements.
    fn note_stmts(&self, items: &Vec<Stmt>, out: &mut Vec<Note>)
        requires
            self.wf(),
        ensures
            noted(final(out)@) == noted(old(out)@) + self.stmts(items@, items@.len() as int),
        decreases items@, items@.len() + 1,
    {
        let ghost start = noted(out@);
        let mut i: usize = 0;
        proof {
            assert(start =~= start + self.stmts(items@, 0));
        }
        while i < items.len()
            invariant
                i <= items@.len(),
                self.wf(),
                noted(out@) == start + self.stmts(items@, i as int),
            decreases items@.len() - i,
        {
            proof {
                assert(decreases_to!(items@ => items@[i as int]));
            }
            self.note_stmt(&items[i], out);
            proof {
                assert(noted(out@) =~= start + self.stmts(items@, i + 1));
            }
            i = i + 1;
        }
    }

    /// Notes what is in the clauses of an `if`.
    fn note_clauses(&self, items: &Vec<Clause>, out: &mut Vec<Note>)
        requires
            self.wf(),
        ensures
            noted(final(out)@) == noted(old(out)@) + self.clauses(items@, items@.len() as int),
        decreases items@, items@.len() + 1,
    {
        let ghost start = noted(out@);
        let mut i: usize = 0;
        proof {
            assert(start =~= start + self.clauses(items@, 0));
        }
        while i < items.len()
            invariant
                i <= items@.len(),
                self.wf(),
                noted(out@) == start + self.clauses(items@, i as int),
            decreases items@.len() - i,
        {
            proof {
                assert(decreases_to!(items@ => items@[i as int]));
            }
            let item = &items[i];
            match &item.test {
                Some(test) => {
                    self.note_expr(test, out);
                },
                None => {},
            }
            self.note_stmts(&item.body, out);
            proof {
                assert(noted(out@) =~= start + self.clauses(items@, i + 1));
            }
            i = i + 1;
        }
    }

    /// Notes what is in a statement.
    pub fn note_stmt(&self, s: &Stmt, out: &mut Vec<Note>)
        requires
            self.wf(),
        ensures
            noted(final(out)@) == noted(old(out)@) + self.stmt(*s),
        decreases *s,
    {
        let ghost start = noted(out@);
        match &s.kind {
            StmtKind::FunctionDef { name: _, parameters, body, suite } => {
                let given = self.note_def(s.node, body, *suite, out);
                self.note_params(parameters, &given, out);
                self.note_defaults(&parameters.items, out);
                self.note_stmts(body, out);
            },
            StmtKind::If { test, body, suite: _, clauses } => {
                self.note_expr(test, out);
                self.note_stmts(body, out);
                self.note_clauses(clauses, out);
            },
            StmtKind::For { target, iter, body, suite: _ } => {
                self.note_expr(target, out);
                self.note_expr(iter, out);
                self.note_stmts(body, out);
            },
            StmtKind::Return { value } => {
                match value {
                    Some(value) => {
                        self.note_expr(value, out);
                    },
                    None => {},
                }
            },
            StmtKind::Assign { targets, value } => {
                self.note_assigned(s.range, targets, out);
                self.note_exprs(targets, out);
                self.note_expr(value, out);
            },
            StmtKind::AugAssign { target, op: _, value } => {
                self.note_expr(target, out);
                self.note_expr(value, out);
            },
            StmtKind::Expr { value } => {
                match &value.kind {
                    ExprKind::Call { func, arguments } => {
                        let is_load = match &func.kind {
                            ExprKind::Name { id } => crate::text::same(id.as_str(), "load"),
                            _ => false,
                        };
                        if is_load {
                            self.note_load(value.node, &arguments.items, out);
                        } else {
                            self.note_expr(value, out);
                        }
                    },
                    _ => {
                        self.note_expr(value, out);
                    },
                }
            },
            _ => {},
        }
        proof {
            assert(noted(out@) =~= start + self.stmt(*s));
        }
    }
}

/// A statement that must not stand at the top of a file.
#[derive(Debug)]
pub struct SourceError {
    pub range: Span,
    pub message: String,
}

/// The message for a statement at the top of a file.
pub open spec fn top_message(s: Stmt) -> Option<Seq<char>> {
    match s.kind {
        StmtKind::If { .. } => Some("Starlark does not allow top-level if statements"@),
        StmtKind::For { .. } => Some("Starlark does not allow top-level for statements"@),
        _ => None,
    }
}

/// Whether errors are those of the first statements of a file.
pub open spec fn are_errors(body: Seq<Stmt>, n: int, errors: Seq<SourceError>) -> bool
    decreases n,
{
    if n <= 0 {
        errors.len() == 0
    } else {
        match top_message(body[n - 1]) {
            Some(message) => {
                &&& errors.len() > 0
                &&& errors.last().range == body[n - 1].range
                &&& errors.last().message@ == message
                &&& are_errors(body, n - 1, errors.drop_last())
            },
            None => are_errors(body, n - 1, errors),
        }
    }
}

/// What the text of a file says.
#[derive(Debug)]
pub struct SourceInfo {
    pub notes: Vec<Note>,
    pub diagnostics: Vec<SourceError>,
}

/// What the text of a file says: the notes in its statements, and the errors of
/// those that must not stand at the top.
pub fn source_info(src: &Source, ranges: &Vec<CommentRanges>) -> (r: SourceInfo)
    requires
        ranges@.len() == src.comments@.len(),
    ensures
        noted(r.notes@) == (Annotated { src, ranges }).stmts(src.body@, src.body@.len() as int),
        are_errors(src.body@, src.body@.len() as int, r.diagnostics@),
{
    let all = Annotated { src, ranges };
    let mut notes: Vec<Note> = Vec::new();
    all.note_stmts(&src.body, &mut notes);
    proof {
        let said = all.stmts(src.body@, src.body@.len() as int);
        assert(noted(notes@) =~= said);
    }
    let mut diagnostics: Vec<SourceError> = Vec::new();
    let mut i: usize = 0;
    while i < src.body.len()
        invariant
            i <= src.body@.len(),
            are_errors(src.body@, i as int, diagnostics@),
        decreases src.body@.len() - i,
    {
        let s = &src.body[i];
        let ghost before = diagnostics@;
        match &s.kind {
            StmtKind::If { .. } => {
                diagnostics.push(
                    SourceError {
                        range: s.range,
                        message: "Starlark does not allow top-level if statements".to_owned(),
                    },
                );
                proof {
                    assert(diagnostics@.drop_last() =~= before);
                }
            },
            StmtKind::For { .. } => {
                diagnostics.push(
                    SourceError {
                        range: s.range,
                        message: "Starlark does not allow top-level for statements".to_owned(),
                    },
                );
                proof {
                    assert(diagnostics@.drop_last() =~= before);
                }
            },
            _ => {},
        }
        i = i + 1;
    }
    SourceInfo { notes, diagnostics }
}

impl SourceInfo {
    /// Where the type of a node stands. Of two notes the later counts.
    pub fn type_comment_annotation(&self, owner: u32) -> (r: Option<Span>)
        ensures
            match r {
                Some(range) => exists|k: int|
                    0 <= k < self.notes@.len() && #[trigger] self.notes@[k]@ == NoteView::Type(
                        owner,
                        range,
                    ) && forall|j: int|
                        k < j < self.notes@.len() ==> !is_type_of(#[trigger] self.notes@[j]@, owner),
                None => forall|k: int|
                    0 <= k < self.notes@.len() ==> !is_type_of(#[trigger] self.notes@[k]@, owner),
            },
    {
        let mut i: usize = self.notes.len();
        while i > 0
            invariant
                i <= self.notes@.len(),
                forall|j: int|
                    i <= j < self.notes@.len() ==> !is_type_of(#[trigger] self.notes@[j]@, owner),
            decreases i,
        {
            i = i - 1;
            if let Note::Type { owner: node, range } = &self.notes[i] {
                if *node == owner {
                    proof {
                        assert(self.notes@[i as int]@ == NoteView::Type(owner, *range));
                    }
                    return Some(*range);
                }
            }
        }
        None
    }

    /// The node whose type stands around an offset.
    pub fn type_comment_owner(&self, offset: u32) -> (r: Option<u32>)
        ensures
            match r {
                Some(owner) => exists|k: int|
                    0 <= k < self.notes@.len() && is_type_at(#[trigger] self.notes@[k]@, offset)
                        && is_type_of(self.notes@[k]@, owner),
                None => forall|k: int|
                    0 <= k < self.notes@.len() ==> !is_type_at(#[trigger] self.notes@[k]@, offset),
            },
    {
        let mut i: usize = 0;
        while i < self.notes.len()
            invariant
                i <= self.notes@.len(),
                forall|j: int| 0 <= j < i ==> !is_type_at(#[trigger] self.notes@[j]@, offset),
            decreases self.notes@.len() - i,
        {
            if let Note::Type { owner, range } = &self.notes[i] {
                if range.start <= offset && offset <= range.end {
                    proof {
                        assert(is_type_at(self.notes@[i as int]@, offset));
                    }
                    return Some(*owner);
                }
            }
            i = i + 1;
        }
        None
    }

    /// The module that a call loads, if it is a `load` that names one.
    pub fn loaded_module(&self, call: u32) -> (r: Option<String>)
        ensures
            match r {
                Some(module) => exists|k: int|
                    0 <= k < self.notes@.len() && #[trigger] self.notes@[k]@ == NoteView::Load(
                        call,
                        module@,
                    ),
                None => forall|k: int|
                    0 <= k < self.notes@.len() ==> !is_load_of(#[trigger] self.notes@[k]@, call),
            },
    {
        let mut i: usize = 0;
        while i < self.notes.len()
            invariant
                i <= self.notes@.len(),
                forall|j: int| 0 <= j < i ==> !is_load_of(#[trigger] self.notes@[j]@, call),
            decreases self.notes@.len() - i,
        {
            if let Note::Load { call: node, module } = &self.notes[i] {
                if *node == call {
                    proof {
                        assert(self.notes@[i as int]@ == NoteView::Load(call, module@));
                    }
                    return Some(module.clone());
                }
            }
            i = i + 1;
        }
        None
    }

    /// Whether a call is a `load` that names a module.
    pub fn is_load_stmt(&self, call: u32) -> (r: bool)
        ensures
            r == exists|k: int|
                0 <= k < self.notes@.len() && is_load_of(#[trigger] self.notes@[k]@, call),
    {
        match self.loaded_module(call) {
            Some(module) => {
                proof {
                    let k = choose|k: int|
                        0 <= k < self.notes@.len() && #[trigger] self.notes@[k]@ == NoteView::Load(
                            call,
                            module@,
                        );
                    assert(is_load_of(self.notes@[k]@, call));
                }
                true
            },
            None => false,
        }
    }
}

/// Whether a note is of the type of a node.
pub open spec fn is_type_of(note: NoteView, owner: u32) -> bool {
    note matches NoteView::Type(node, _) && node == owner
}

/// Whether a note is of a type that stands around an offset.
pub open spec fn is_type_at(note: NoteView, offset: u32) -> bool {
    note matches NoteView::Type(_, range) && range.start <= offset <= range.end
}

/// Whether a note is of the module that a call loads.
pub open spec fn is_load_of(note: NoteView, call: u32) -> bool {
    note matches NoteView::Load(node, _) && node == call
}

} // verus!
