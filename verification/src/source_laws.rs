//! What holds of the comments of a file, and of what they belong to.

use vstd::prelude::*;

use crate::def::{missing_text, Param, TypeShape};
use crate::lower_spec::{
    assignment_comment_of, comment_of, def_comment, doc_of_line, doc_of_param, first_comment,
    ignored_lines_at, insert_slot, param_errors, slot_count, slot_gap, slot_order, slot_range,
    terminator, type_shape, type_shapes,
};
use crate::source::{are_errors, Annotated, NoteView, SourceError};
use crate::syntax::{
    ArgItem, ExprKind, Parameters, Source, Span, Stmt, StmtKind, TypeComment, TypeExpr,
};
use crate::text::trimmed;

verus! {

/// Whether a comment is the first of those that do not start before an offset.
pub open spec fn is_first_behind(src: Source, from: u32, k: int) -> bool {
    &&& 0 <= k < src.comments@.len()
    &&& src.comments@[k].range.start >= from
    &&& forall|j: int| 0 <= j < k ==> (#[trigger] src.comments@[j]).range.start < from
}

proof fn first_is_found(src: Source, from: u32, k: int)
    requires
        0 <= k <= src.comments@.len(),
        forall|j: int| 0 <= j < k ==> (#[trigger] src.comments@[j]).range.start < from,
    ensures
        ({
            let c = first_comment(src.comments@, from, k);
            &&& k <= c <= src.comments@.len()
            &&& c < src.comments@.len() ==> is_first_behind(src, from, c)
            &&& c == src.comments@.len() ==> forall|j: int|
                0 <= j < src.comments@.len() ==> (#[trigger] src.comments@[j]).range.start < from
        }),
    decreases src.comments@.len() - k,
{
    if k < src.comments@.len() && src.comments@[k].range.start < from {
        first_is_found(src, from, k + 1);
    }
}

/// The comment that belongs to a range is the first that does not start before it, if
/// it ends inside; a later one never counts.
pub proof fn the_first_comment_belongs(src: Source, range: Span, c: int)
    ensures
        comment_of(src, range) == Some(c) <==> is_first_behind(src, range.start, c)
            && src.comments@[c].range.end <= range.end,
{
    first_is_found(src, range.start, 0);
    let k = first_comment(src.comments@, range.start, 0);
    if is_first_behind(src, range.start, c) {
        if k < c {
            assert(src.comments@[k].range.start < range.start);
        } else if c < k {
            assert(src.comments@[c].range.start < range.start);
        }
    }
}

proof fn terminator_is_found(src: Source, from: u32, k: int, n: int)
    requires
        0 <= k <= n <= src.terminators@.len(),
        forall|j: int| k <= j < n ==> (#[trigger] src.terminators@[j]) < from,
        n < src.terminators@.len() ==> src.terminators@[n] >= from,
    ensures
        terminator(src, from, k) == if n < src.terminators@.len() {
            src.terminators@[n]
        } else {
            src.len
        },
    decreases n - k,
{
    if k < n {
        terminator_is_found(src, from, k + 1, n);
    }
}

/// The comment of an assignment stands behind it and before the end of its line, which
/// is the first terminator behind the assignment, or the end of the text.
pub proof fn the_comment_of_an_assignment_is_on_its_line(src: Source, range: Span, n: int, c: int)
    requires
        0 <= n <= src.terminators@.len(),
        forall|j: int| 0 <= j < n ==> (#[trigger] src.terminators@[j]) < range.end,
        n < src.terminators@.len() ==> src.terminators@[n] >= range.end,
        n == src.terminators@.len() ==> src.len >= range.end,
    ensures
        assignment_comment_of(src, range) == Some(c) <==> is_first_behind(src, range.end, c)
            && src.comments@[c].range.end <= if n < src.terminators@.len() {
            src.terminators@[n]
        } else {
            src.len
        },
{
    terminator_is_found(src, range.end, 0, n);
    let end = if n < src.terminators@.len() {
        src.terminators@[n]
    } else {
        src.len
    };
    the_first_comment_belongs(src, Span { start: range.end, end }, c);
}

/// Whether places are in the order in which they start.
pub open spec fn in_text_order(p: Parameters, order: Seq<int>) -> bool {
    forall|i: int, j: int|
        0 <= i < j < order.len() ==> slot_range(p, #[trigger] order[i]).start <= slot_range(
            p,
            #[trigger] order[j],
        ).start
}

/// Whether places start at an offset or before it.
spec fn start_by(p: Parameters, order: Seq<int>, s: u32) -> bool {
    forall|i: int| 0 <= i < order.len() ==> slot_range(p, #[trigger] order[i]).start <= s
}

proof fn insert_keeps_order(p: Parameters, order: Seq<int>, k: int)
    requires
        in_text_order(p, order),
    ensures
        in_text_order(p, insert_slot(p, order, k)),
        insert_slot(p, order, k).len() == order.len() + 1,
        forall|i: int| #[trigger]
            insert_slot(p, order, k).contains(i) <==> order.contains(i) || i == k,
        forall|s: u32| #[trigger]
            start_by(p, order, s) && slot_range(p, k).start <= s ==> start_by(
                p,
                insert_slot(p, order, k),
                s,
            ),
    decreases order.len(),
{
    let now = insert_slot(p, order, k);
    if order.len() == 0 || slot_range(p, order.last()).start <= slot_range(p, k).start {
        assert forall|i: int, j: int| 0 <= i < j < now.len() implies slot_range(
            p,
            #[trigger] now[i],
        ).start <= slot_range(p, #[trigger] now[j]).start by {
            assert(now[i] == order[i]);
            if j == order.len() {
                assert(order[order.len() - 1] == order.last());
                if i < order.len() - 1 {
                    assert(slot_range(p, order[i]).start <= slot_range(
                        p,
                        order[order.len() - 1],
                    ).start);
                }
            } else {
                assert(now[j] == order[j]);
            }
        }
        assert forall|i: int| #[trigger] now.contains(i) <==> order.contains(i) || i == k by {
            if order.contains(i) {
                let j = choose|j: int| 0 <= j < order.len() && order[j] == i;
                assert(now[j] == i);
            }
            assert(now[order.len() as int] == k);
            if now.contains(i) && i != k {
                let j = choose|j: int| 0 <= j < now.len() && now[j] == i;
                assert(order[j] == i);
            }
        }
        assert forall|s: u32| #[trigger]
            start_by(p, order, s) && slot_range(p, k).start <= s implies start_by(p, now, s) by {
            assert forall|i: int| 0 <= i < now.len() implies slot_range(
                p,
                #[trigger] now[i],
            ).start <= s by {
                if i < order.len() {
                    assert(now[i] == order[i]);
                }
            }
        }
    } else {
        let fewer = order.drop_last();
        let last = order.last();
        assert forall|i: int, j: int| 0 <= i < j < fewer.len() implies slot_range(
            p,
            #[trigger] fewer[i],
        ).start <= slot_range(p, #[trigger] fewer[j]).start by {
            assert(fewer[i] == order[i] && fewer[j] == order[j]);
        }
        insert_keeps_order(p, fewer, k);
        let inner = insert_slot(p, fewer, k);
        assert(now == inner.push(last));
        let s = slot_range(p, last).start;
        assert forall|i: int| 0 <= i < fewer.len() implies slot_range(
            p,
            #[trigger] fewer[i],
        ).start <= s by {
            assert(fewer[i] == order[i]);
            assert(order[order.len() - 1] == last);
        }
        assert(start_by(p, fewer, s));
        assert(start_by(p, inner, s));
        assert forall|i: int, j: int| 0 <= i < j < now.len() implies slot_range(
            p,
            #[trigger] now[i],
        ).start <= slot_range(p, #[trigger] now[j]).start by {
            assert(now[i] == inner[i]);
            if j < inner.len() {
                assert(now[j] == inner[j]);
            }
        }
        assert forall|i: int| #[trigger] now.contains(i) <==> order.contains(i) || i == k by {
            assert(inner.contains(i) <==> fewer.contains(i) || i == k);
            if order.contains(i) && i != last {
                let j = choose|j: int| 0 <= j < order.len() && order[j] == i;
                assert(fewer[j] == i);
            }
            if fewer.contains(i) {
                let j = choose|j: int| 0 <= j < fewer.len() && fewer[j] == i;
                assert(order[j] == i);
            }
            assert(order[order.len() - 1] == last);
            assert(now[inner.len() as int] == last);
            if inner.contains(i) {
                let j = choose|j: int| 0 <= j < inner.len() && inner[j] == i;
                assert(now[j] == i);
            }
            if now.contains(i) && i != last {
                let j = choose|j: int| 0 <= j < now.len() && now[j] == i;
                assert(inner[j] == i);
            }
        }
        assert forall|t: u32| #[trigger]
            start_by(p, order, t) && slot_range(p, k).start <= t implies start_by(p, now, t) by {
            assert forall|i: int| 0 <= i < fewer.len() implies slot_range(
                p,
                #[trigger] fewer[i],
            ).start <= t by {
                assert(fewer[i] == order[i]);
            }
            assert(slot_range(p, order[order.len() - 1]).start <= t);
            assert(start_by(p, fewer, t));
            assert(start_by(p, inner, t));
            assert forall|i: int| 0 <= i < now.len() implies slot_range(
                p,
                #[trigger] now[i],
            ).start <= t by {
                if i < inner.len() {
                    assert(now[i] == inner[i]);
                }
            }
        }
    }
}

proof fn order_of_first(p: Parameters, n: nat)
    ensures
        in_text_order(p, slot_order(p, n)),
        slot_order(p, n).len() == n,
        forall|i: int| #[trigger] slot_order(p, n).contains(i) <==> 0 <= i < n,
    decreases n,
{
    if n > 0 {
        order_of_first(p, (n - 1) as nat);
        insert_keeps_order(p, slot_order(p, (n - 1) as nat), n - 1);
        assert forall|i: int| #[trigger] slot_order(p, n).contains(i) <==> 0 <= i < n by {
            assert(slot_order(p, (n - 1) as nat).contains(i) <==> 0 <= i < n - 1);
        }
    }
}

/// Parameters come in the order in which they start in the text, each once, a bare star
/// among them.
pub proof fn parameters_are_in_text_order(p: Parameters)
    ensures
        ({
            let order = slot_order(p, slot_count(p));
            &&& in_text_order(p, order)
            &&& order.len() == slot_count(p)
            &&& forall|i: int| #[trigger] order.contains(i) <==> 0 <= i < slot_count(p)
        }),
        slot_count(p) == p.items@.len() + if p.bare_star is Some {
            1int
        } else {
            0int
        },
{
    order_of_first(p, slot_count(p));
}

proof fn holds_first(a: Seq<NoteView>, b: Seq<NoteView>, note: NoteView)
    ensures
        (a + b).contains(note) <==> a.contains(note) || b.contains(note),
{
    let all = a + b;
    if a.contains(note) {
        let k = choose|k: int| 0 <= k < a.len() && a[k] == note;
        assert(all[k] == note);
    }
    if b.contains(note) {
        let k = choose|k: int| 0 <= k < b.len() && b[k] == note;
        assert(all[a.len() + k] == note);
    }
    if all.contains(note) {
        let k = choose|k: int| 0 <= k < all.len() && all[k] == note;
        if k < a.len() {
            assert(a[k] == note);
        } else {
            assert(b[k - a.len()] == note);
        }
    }
}

/// A name that is assigned to has the type of the comment behind the assignment.
pub proof fn an_assigned_name_has_the_type_of_its_comment(
    all: Annotated<'_>,
    s: Stmt,
    c: int,
    ty: Span,
)
    requires
        all.wf(),
        s.kind matches StmtKind::Assign { targets, value: _ } && targets@.len() > 0
            && targets@[0].kind is Name,
        assignment_comment_of(*all.src, s.range) == Some(c),
        all.ranges@[c].ty == Some(ty),
    ensures
        s.kind matches StmtKind::Assign { targets, value: _ } ==> all.stmt(s).contains(
            NoteView::Type(targets@[0].node, ty),
        ),
{
    if let StmtKind::Assign { targets, value } = s.kind {
        let note = NoteView::Type(targets@[0].node, ty);
        let own = all.assigned(s.range, targets@);
        assert(own[0] == note);
        let parts = all.exprs(targets@, targets@.len() as int);
        holds_first(own, parts, note);
        holds_first(own + parts, all.expr(value), note);
    }
}

/// A function returns the type that the comment before its first statement gives.
pub proof fn a_function_returns_the_type_of_its_comment(
    all: Annotated<'_>,
    s: Stmt,
    c: int,
    ty: Span,
)
    requires
        all.wf(),
        s.kind matches StmtKind::FunctionDef { name: _, parameters: _, body, suite } && def_comment(
            *all.src,
            body@,
            suite,
        ) == Some(c),
        all.ranges@[c].ret == Some(ty),
    ensures
        all.stmt(s).contains(NoteView::Type(s.node, ty)),
{
    if let StmtKind::FunctionDef { name: _, parameters, body, suite } = s.kind {
        let note = NoteView::Type(s.node, ty);
        let own = all.returned(s.node, body@, suite);
        assert(own[0] == note);
        let params = all.params(parameters, all.given(body@, suite));
        let defaults = all.defaults(parameters.items@, parameters.items@.len() as int);
        holds_first(own, params, note);
        holds_first(own + params, defaults, note);
        holds_first(own + params + defaults, all.stmts(body@, body@.len() as int), note);
    }
}

/// A parameter has the type of the comment behind it, and without one the type that the
/// comment of the function gives for its place.
pub proof fn a_parameter_has_the_type_of_its_own_comment(
    all: Annotated<'_>,
    p: Parameters,
    given: Seq<Option<Span>>,
    k: int,
    ty: Span,
)
    requires
        all.wf(),
        0 <= k < slot_count(p),
        slot_order(p, slot_count(p))[k] < p.items@.len(),
    ensures
        ({
            let order = slot_order(p, slot_count(p));
            let note = NoteView::Type(p.items@[order[k]].node, ty);
            let own = comment_of(*all.src, slot_gap(p, order, k));
            &&& own is Some && all.ranges@[own->0].ty == Some(ty) ==> all.params(
                p,
                given,
            ).contains(note)
            &&& own is None && k < given.len() && given[k] == Some(ty) ==> all.params(
                p,
                given,
            ).contains(note)
        }),
{
    parameters_are_in_text_order(p);
    let order = slot_order(p, slot_count(p));
    let note = NoteView::Type(p.items@[order[k]].node, ty);
    if all.param_type(p, order, given, k) == Some(ty) {
        param_is_noted(all, p, order, given, k, ty, order.len() as int);
    }
}

proof fn param_is_noted(
    all: Annotated<'_>,
    p: Parameters,
    order: Seq<int>,
    given: Seq<Option<Span>>,
    k: int,
    ty: Span,
    n: int,
)
    requires
        0 <= k < n <= order.len(),
        order[k] < p.items@.len(),
        all.param_type(p, order, given, k) == Some(ty),
    ensures
        all.param_notes(p, order, given, n).contains(NoteView::Type(p.items@[order[k]].node, ty)),
    decreases n,
{
    let note = NoteView::Type(p.items@[order[k]].node, ty);
    let now = all.param_notes(p, order, given, n);
    if k == n - 1 {
        assert(now[now.len() - 1] == note);
    } else {
        let before = all.param_notes(p, order, given, n - 1);
        param_is_noted(all, p, order, given, k, ty, n - 1);
        let j = choose|j: int| 0 <= j < before.len() && before[j] == note;
        assert(now[j] == note);
    }
}

/// A call of `load` loads the module that its first argument without a name gives, if
/// that is a string.
pub proof fn a_load_names_its_module(
    all: Annotated<'_>,
    call: u32,
    items: Seq<ArgItem>,
    k: int,
)
    requires
        0 <= k < items.len(),
        items[k] is Arg,
        forall|j: int| 0 <= j < k ==> !((#[trigger] items[j]) is Arg),
    ensures
        all.loaded(call, items, 0) == match items[k] {
            ArgItem::Arg(e) => match e.kind {
                ExprKind::Str { value: Some(value) } => seq![NoteView::Load(call, value@)],
                _ => seq![],
            },
            _ => seq![],
        },
{
    load_is_behind(all, call, items, k, 0);
}

proof fn load_is_behind(all: Annotated<'_>, call: u32, items: Seq<ArgItem>, k: int, j: int)
    requires
        0 <= j <= k < items.len(),
        forall|i: int| 0 <= i < k ==> !((#[trigger] items[i]) is Arg),
    ensures
        all.loaded(call, items, j) == all.loaded(call, items, k),
    decreases k - j,
{
    if j < k {
        assert(!(items[j] is Arg));
        load_is_behind(all, call, items, k, j + 1);
    }
}

/// A file has an error for every `if` and every `for` at its top, and for nothing else.
pub proof fn loops_and_conditions_are_no_statements_of_files(
    body: Seq<Stmt>,
    n: int,
    errors: Seq<SourceError>,
    range: Span,
)
    requires
        0 <= n <= body.len(),
        are_errors(body, n, errors),
    ensures
        (exists|i: int| 0 <= i < errors.len() && (#[trigger] errors[i]).range == range) <==> exists|
            k: int,
        |
            0 <= k < n && ((#[trigger] body[k]).kind is If || body[k].kind is For)
                && body[k].range == range,
    decreases n,
{
    if n > 0 {
        let s = body[n - 1];
        if s.kind is If || s.kind is For {
            let fewer = errors.drop_last();
            loops_and_conditions_are_no_statements_of_files(body, n - 1, fewer, range);
            assert(errors[errors.len() - 1].range == s.range);
            if exists|i: int| 0 <= i < fewer.len() && (#[trigger] fewer[i]).range == range {
                let i = choose|i: int|
                    0 <= i < fewer.len() && (#[trigger] fewer[i]).range == range;
                assert(errors[i].range == range);
            }
            if exists|i: int| 0 <= i < errors.len() && (#[trigger] errors[i]).range == range {
                let i = choose|i: int|
                    0 <= i < errors.len() && (#[trigger] errors[i]).range == range;
                if i < fewer.len() {
                    assert(fewer[i].range == range);
                } else {
                    assert(body[n - 1].range == range);
                }
            }
        } else {
            loops_and_conditions_are_no_statements_of_files(body, n - 1, errors, range);
        }
    }
}

/// The words of a type in a comment.
pub open spec fn type_words(ty: TypeExpr) -> Seq<Seq<char>>
    decreases ty, 0nat,
{
    match ty {
        TypeExpr::Path { segments, args: None } => texts_of(segments@),
        TypeExpr::Path { segments, args: Some(args) } => texts_of(segments@) + seq!["["@]
            + types_words(args@, args@.len()) + seq!["]"@],
        TypeExpr::Union { types } => seq!["|"@] + types_words(types@, types@.len()) + seq![";"@],
        TypeExpr::NoneType => seq!["None"@],
        TypeExpr::Ellipsis => seq!["..."@],
    }
}

/// The words of the first types of a list.
pub open spec fn types_words(types: Seq<TypeExpr>, n: nat) -> Seq<Seq<char>>
    decreases types, n,
{
    if n == 0 || n > types.len() {
        seq![]
    } else {
        types_words(types, (n - 1) as nat) + type_words(types[n - 1]) + seq![","@]
    }
}

/// The texts of strings.
pub open spec fn texts_of(parts: Seq<String>) -> Seq<Seq<char>> {
    Seq::new(parts.len(), |i: int| parts[i]@)
}

/// The words of a type that was read.
pub open spec fn shape_words(shape: TypeShape) -> Seq<Seq<char>>
    decreases shape, 0nat,
{
    match shape {
        TypeShape::Path(segments, None) => segments,
        TypeShape::Path(segments, Some(args)) => segments + seq!["["@] + shapes_words(
            args,
            args.len(),
        ) + seq!["]"@],
        TypeShape::Name(name, _) => seq![name],
        TypeShape::Union(types) => seq!["|"@] + shapes_words(types, types.len()) + seq![";"@],
        TypeShape::Ellipsis => seq!["..."@],
        TypeShape::Provider(_) => seq![],
        TypeShape::Unknown => seq![],
    }
}

/// The words of the first types of a list that were read.
pub open spec fn shapes_words(types: Seq<TypeShape>, n: nat) -> Seq<Seq<char>>
    decreases types, n,
{
    if n == 0 || n > types.len() {
        seq![]
    } else {
        shapes_words(types, (n - 1) as nat) + shape_words(types[n - 1]) + seq![","@]
    }
}

/// A type in a comment reads as it was written.
pub proof fn a_type_reads_as_written(ty: TypeExpr)
    ensures
        shape_words(type_shape(ty)) == type_words(ty),
    decreases ty, 0nat,
{
    match ty {
        TypeExpr::Path { segments, args: None } => {
            assert(crate::lower_spec::segment_texts(segments@) =~= texts_of(segments@));
        },
        TypeExpr::Path { segments, args: Some(args) } => {
            assert(crate::lower_spec::segment_texts(segments@) =~= texts_of(segments@));
            types_read_as_written(args@, args@.len());
        },
        TypeExpr::Union { types } => {
            types_read_as_written(types@, types@.len());
        },
        _ => {},
    }
}

proof fn types_read_as_written(types: Seq<TypeExpr>, n: nat)
    requires
        n <= types.len(),
    ensures
        shapes_words(type_shapes(types), n) == types_words(types, n),
    decreases types, n,
{
    if n > 0 {
        types_read_as_written(types, (n - 1) as nat);
        a_type_reads_as_written(types[n - 1]);
        assert(type_shapes(types)[n - 1] == type_shape(types[n - 1]));
    }
}

/// Whether a parameter has the name of one before it.
pub open spec fn is_repeated(params: Seq<Param>, k: int) -> bool {
    params[k].label() != missing_text() && exists|j: int|
        0 <= j < k && (#[trigger] params[j]).label() == params[k].label()
}

/// Whether a parameter of a kind stands before another.
pub open spec fn is_behind_args(params: Seq<Param>, k: int) -> bool {
    exists|j: int| 0 <= j < k && #[trigger] params[j] is ArgsList
}

/// Whether a parameter stands behind the one for the remaining keywords.
pub open spec fn is_behind_kwargs(params: Seq<Param>, k: int) -> bool {
    exists|j: int| 0 <= j < k && #[trigger] params[j] is KwargsDict
}

/// Whether a parameter stands behind one with a default.
pub open spec fn is_behind_default(params: Seq<Param>, k: int) -> bool {
    exists|j: int|
        0 <= j < k && (#[trigger] params[j]) is Simple && params[j].default_value() is Some
}

/// A parameter is in order exactly if its name is new, nothing but itself takes the
/// remaining keywords before it, there is no second one for the remaining places, and
/// without a default it does not follow one with a default, unless a star stands between.
pub proof fn parameters_have_an_order(params: Seq<Param>, k: int)
    requires
        0 <= k < params.len(),
    ensures
        param_errors(params, k).len() == 0 <==> {
            &&& !is_repeated(params, k)
            &&& !is_behind_kwargs(params, k)
            &&& params[k] is ArgsList ==> !is_behind_args(params, k)
            &&& params[k] is Simple && params[k].default_value() is None ==> !is_behind_default(
                params,
                k,
            ) || is_behind_args(params, k)
        },
        is_repeated(params, k) ==> param_errors(params, k)[0] == "Duplicate parameter "@
            + params[k].label(),
{
}

/// A line of a docstring that starts with the name of a parameter and a colon describes
/// that parameter.
pub proof fn a_line_describes_its_parameter(name: Seq<char>, text: Seq<char>)
    requires
        name.len() > 0,
        name[0] != '*',
        trimmed(name + seq![':'] + text) == name + seq![':'] + text,
    ensures
        doc_of_line(name + seq![':'] + text, name) == Some(trimmed(text)),
{
    let line = name + seq![':'] + text;
    assert(line[0] == name[0]);
    let prefix = name + seq![':'];
    assert(line.subrange(0, prefix.len() as int) =~= prefix);
    assert(line.subrange(prefix.len() as int, line.len() as int) =~= text);
}

/// Of the lines of a docstring the first that describes a parameter counts.
pub proof fn the_first_description_counts(lines: Seq<Seq<char>>, name: Seq<char>, k: int)
    requires
        0 <= k < lines.len(),
        doc_of_line(lines[k], name) is Some,
        forall|j: int| 0 <= j < k ==> doc_of_line(#[trigger] lines[j], name) is None,
    ensures
        doc_of_param(lines, name, 0) == doc_of_line(lines[k], name),
{
    description_is_behind(lines, name, k, 0);
}

proof fn description_is_behind(lines: Seq<Seq<char>>, name: Seq<char>, k: int, j: int)
    requires
        0 <= j <= k < lines.len(),
        doc_of_line(lines[k], name) is Some,
        forall|i: int| 0 <= i < k ==> doc_of_line(#[trigger] lines[i], name) is None,
    ensures
        doc_of_param(lines, name, j) == doc_of_line(lines[k], name),
    decreases k - j,
{
    if j < k {
        assert(doc_of_line(lines[j], name) is None);
        description_is_behind(lines, name, k, j + 1);
    }
}

/// Type errors are ignored on exactly as many lines as there are comments that ask for
/// it, and each of the lines is that of such a comment.
pub proof fn comments_ignore_their_lines(
    comments: Seq<TypeComment>,
    starts: Seq<u32>,
    lines: Seq<usize>,
    i: int,
)
    requires
        ignored_lines_at(comments, starts, lines),
        0 <= i < lines.len(),
    ensures
        exists|k: int|
            0 <= k < comments.len() && (#[trigger] comments[k]).ignores
                && crate::positions::is_line_of(
                starts,
                comments[k].range.start,
                lines[i] as int,
            ),
    decreases comments.len(),
{
    let fewer = comments.drop_last();
    if comments.last().ignores {
        if i == lines.len() - 1 {
            assert(comments[comments.len() - 1].ignores);
        } else {
            comments_ignore_their_lines(fewer, starts, lines.drop_last(), i);
            let k = choose|k: int|
                0 <= k < fewer.len() && (#[trigger] fewer[k]).ignores
                    && crate::positions::is_line_of(
                    starts,
                    fewer[k].range.start,
                    lines.drop_last()[i] as int,
                );
            assert(comments[k] == fewer[k]);
        }
    } else {
        comments_ignore_their_lines(fewer, starts, lines, i);
        let k = choose|k: int|
            0 <= k < fewer.len() && (#[trigger] fewer[k]).ignores && crate::positions::is_line_of(
                starts,
                fewer[k].range.start,
                lines[i] as int,
            );
        assert(comments[k] == fewer[k]);
    }
}

/// Every comment that asks to ignore type errors has its line among those on which they
/// are ignored.
pub proof fn ignoring_comments_count(
    comments: Seq<TypeComment>,
    starts: Seq<u32>,
    lines: Seq<usize>,
    k: int,
)
    requires
        ignored_lines_at(comments, starts, lines),
        0 <= k < comments.len(),
        comments[k].ignores,
    ensures
        exists|i: int|
            0 <= i < lines.len() && crate::positions::is_line_of(
                starts,
                comments[k].range.start,
                (#[trigger] lines[i]) as int,
            ),
    decreases comments.len(),
{
    let fewer = comments.drop_last();
    if k == comments.len() - 1 {
        assert(lines[lines.len() - 1] == lines.last());
    } else if comments.last().ignores {
        assert(fewer[k] == comments[k]);
        ignoring_comments_count(fewer, starts, lines.drop_last(), k);
        let i = choose|i: int|
            0 <= i < lines.drop_last().len() && crate::positions::is_line_of(
                starts,
                fewer[k].range.start,
                (#[trigger] lines.drop_last()[i]) as int,
            );
        assert(lines[i] == lines.drop_last()[i]);
    } else {
        assert(fewer[k] == comments[k]);
        ignoring_comments_count(fewer, starts, lines, k);
    }
}

} // verus!
