//! What the steps of the flow mean, and what holds of the flow of every module.
//!
//! The meaning is a walk along all paths at once. A path knows how every predicate
//! on it turned out and what its names are bound to. Behind a split some paths go on
//! and the others are put aside; where nothing goes on, there are no paths.

use vstd::prelude::*;

use crate::def::{CompClause, ElseBranch, Expr, ExprId, Module, Stmt, StmtId};
use crate::flow::{
    assign_ops, clauses_ops, expr_ops, exprs_ops, has_loop, logic_of, module_ops, part_ops,
    skipped_ops, stmt_ops, stmts_ops, target_ops, targets_ops, FlowOp, Predicate,
};
use crate::ops::{BinaryOp, LogicOp};
use crate::scope::plain_parts;

verus! {

/// What a name is bound to on a path.
pub enum Bound {
    /// To nothing.
    Unbound,
    /// To what some round of a loop gave it.
    Loop,
    /// To the value of an assignment.
    Assigned { target: ExprId, source: ExprId },
}

/// A path: how predicates turned out on it, what it binds names to, and what it binds
/// all other names to.
pub struct Path {
    pub taken: Seq<(Predicate, bool)>,
    pub bound: Map<int, Bound>,
    pub rest: Bound,
}

impl Path {
    /// What a path binds a name to.
    pub open spec fn binding(self, place: int) -> Bound {
        if self.bound.contains_key(place) {
            self.bound[place]
        } else {
            self.rest
        }
    }
}

/// The paths at the start of a module or of the body of a function: one on which
/// nothing is bound yet.
pub open spec fn start() -> Set<Path> {
    set![Path { taken: Seq::empty(), bound: Map::empty(), rest: Bound::Unbound }]
}

/// The paths that go on where a predicate holds, or where it does not.
pub open spec fn where_holds(paths: Set<Path>, predicate: Predicate, holds: bool) -> Set<Path> {
    paths.map(|p: Path| Path { taken: p.taken.push((predicate, holds)), ..p })
}

/// The paths behind an assignment to a name.
pub open spec fn assigned(
    paths: Set<Path>,
    place: int,
    target: ExprId,
    source: ExprId,
) -> Set<Path> {
    paths.map(
        |p: Path|
            Path { bound: p.bound.insert(place, Bound::Assigned { target, source }), ..p },
    )
}

/// The paths at the head of a loop, where names are bound to what any round gave them.
pub open spec fn looped(paths: Set<Path>) -> Set<Path> {
    paths.map(|p: Path| Path { bound: Map::empty(), rest: Bound::Loop, ..p })
}

/// What reaches a name, and on which paths.
pub open spec fn reaching(paths: Set<Path>, place: int) -> Set<(Seq<(Predicate, bool)>, Bound)> {
    paths.map(|p: Path| (p.taken, p.binding(place)))
}

/// A walk: the paths so far, the paths that are put aside, what reaches the names that
/// were met, and the paths that reach the statements that were met.
#[verifier::ext_equal]
pub struct Walk {
    pub paths: Set<Path>,
    pub aside: Seq<Set<Path>>,
    pub uses: Map<ExprId, Set<(Seq<(Predicate, bool)>, Bound)>>,
    pub reached: Map<StmtId, Set<Path>>,
}

/// The same walk with other paths.
pub open spec fn on(w: Walk, paths: Set<Path>) -> Walk {
    Walk { paths, ..w }
}

/// The same walk with other paths put aside.
pub open spec fn with(w: Walk, aside: Seq<Set<Path>>) -> Walk {
    Walk { aside, ..w }
}

/// A walk behind a step. `places` tells which names are the same.
pub open spec fn behind(op: FlowOp, places: Map<ExprId, int>, w: Walk) -> Walk {
    match op {
        FlowOp::Reach { stmt, steps: _ } => Walk { reached: w.reached.insert(stmt, w.paths), ..w },
        FlowOp::Use(e) => Walk { uses: w.uses.insert(e, reaching(w.paths, places[e])), ..w },
        FlowOp::Assign { target, source } => Walk {
            paths: assigned(w.paths, places[target], target, source),
            uses: w.uses.insert(
                target,
                set![(Seq::empty(), Bound::Assigned { target, source })],
            ),
            ..w
        },
        FlowOp::Branch(predicate) => Walk {
            paths: where_holds(w.paths, predicate, true),
            aside: w.aside.push(where_holds(w.paths, predicate, false)),
            ..w
        },
        FlowOp::Swap => Walk {
            paths: w.aside.last(),
            aside: w.aside.drop_last().push(w.paths),
            ..w
        },
        FlowOp::Merge => Walk {
            paths: w.paths.union(w.aside.last()),
            aside: w.aside.drop_last(),
            ..w
        },
        FlowOp::Restrict(predicate) => on(w, where_holds(w.paths, predicate, true)),
        FlowOp::Stop => on(w, Set::empty()),
        FlowOp::Enter => Walk { paths: start(), aside: w.aside.push(w.paths), ..w },
        FlowOp::Keep => with(w, w.aside.push(w.paths)),
        FlowOp::Leave => Walk { paths: w.aside.last(), aside: w.aside.drop_last(), ..w },
        FlowOp::Loop => on(w, looped(w.paths)),
    }
}

/// How many steps are done at once: a statement that no path reaches is left out with
/// its steps.
pub open spec fn stride(ops: Seq<FlowOp>, w: Walk) -> int {
    match ops[0] {
        FlowOp::Reach { stmt: _, steps } => if w.paths == Set::<Path>::empty() && 1 + steps
            <= ops.len() {
            1 + steps
        } else {
            1
        },
        _ => 1,
    }
}

/// A walk behind some steps.
pub open spec fn follow(ops: Seq<FlowOp>, places: Map<ExprId, int>, w: Walk) -> Walk
    decreases ops.len(),
{
    if ops.len() == 0 {
        w
    } else {
        follow(ops.skip(stride(ops, w)), places, behind(ops[0], places, w))
    }
}

/// Whether no statement leaves out steps that are not there.
spec fn contained(ops: Seq<FlowOp>) -> bool {
    forall|i: int|
        0 <= i < ops.len() ==> ((#[trigger] ops[i]) matches FlowOp::Reach { stmt: _, steps } ==> i
            + 1 + steps <= ops.len())
}

/// Whether steps do the same whatever was put aside before, and leave it there.
spec fn framed(ops: Seq<FlowOp>, places: Map<ExprId, int>) -> bool {
    forall|w: Walk, aside: Seq<Set<Path>>| #[trigger]
        follow(ops, places, with(w, aside)) == with(follow(ops, places, w), aside)
}

spec fn sound(ops: Seq<FlowOp>, places: Map<ExprId, int>) -> bool {
    contained(ops) && framed(ops, places)
}

proof fn follow_on(a: Seq<FlowOp>, b: Seq<FlowOp>, places: Map<ExprId, int>, w: Walk)
    requires
        contained(a),
    ensures
        follow(a + b, places, w) == follow(b, places, follow(a, places, w)),
    decreases a.len(),
{
    if a.len() == 0 {
        assert(a + b =~= b);
    } else {
        let k = stride(a, w);
        assert((a + b)[0] == a[0]);
        assert(a[0] matches FlowOp::Reach { stmt: _, steps } ==> 1 + steps <= a.len());
        assert(stride(a + b, w) == k);
        let rest = a.skip(k);
        assert((a + b).skip(k) =~= rest + b);
        assert forall|i: int| 0 <= i < rest.len() implies ((
        #[trigger] rest[i]) matches FlowOp::Reach { stmt: _, steps } ==> i + 1 + steps
            <= rest.len()) by {
            assert(rest[i] == a[i + k]);
        }
        follow_on(rest, b, places, behind(a[0], places, w));
    }
}

proof fn follow_one(op: FlowOp, places: Map<ExprId, int>, w: Walk)
    requires
        !(op is Reach),
    ensures
        follow(seq![op], places, w) == behind(op, places, w),
        contained(seq![op]),
{
    let ops = seq![op];
    assert(ops.skip(1) =~= Seq::<FlowOp>::empty());
    assert(stride(ops, w) == 1);
    assert(follow(ops.skip(1), places, behind(op, places, w)) == behind(op, places, w));
}

proof fn contained_both(a: Seq<FlowOp>, b: Seq<FlowOp>)
    requires
        contained(a),
        contained(b),
    ensures
        contained(a + b),
{
    let ops = a + b;
    assert forall|i: int| 0 <= i < ops.len() implies ((
    #[trigger] ops[i]) matches FlowOp::Reach { stmt: _, steps } ==> i + 1 + steps
        <= ops.len()) by {
        if i < a.len() {
            assert(ops[i] == a[i]);
        } else {
            assert(ops[i] == b[i - a.len()]);
        }
    }
}

proof fn sound_both(a: Seq<FlowOp>, b: Seq<FlowOp>, places: Map<ExprId, int>)
    requires
        sound(a, places),
        sound(b, places),
    ensures
        sound(a + b, places),
{
    contained_both(a, b);
    assert forall|w: Walk, aside: Seq<Set<Path>>| #[trigger]
        follow(a + b, places, with(w, aside)) == with(follow(a + b, places, w), aside) by {
        follow_on(a, b, places, w);
        follow_on(a, b, places, with(w, aside));
        assert(follow(a, places, with(w, aside)) == with(follow(a, places, w), aside));
        let mid = follow(a, places, w);
        assert(follow(b, places, with(mid, aside)) == with(follow(b, places, mid), aside));
    }
}

proof fn sound_none(places: Map<ExprId, int>)
    ensures
        sound(seq![], places),
{
}

/// Steps that put nothing aside and take nothing back.
proof fn sound_one(op: FlowOp, places: Map<ExprId, int>)
    requires
        op is Use || op is Assign || op is Restrict || op is Stop || op is Loop,
    ensures
        sound(seq![op], places),
{
    let ops = seq![op];
    assert forall|w: Walk, aside: Seq<Set<Path>>| #[trigger]
        follow(ops, places, with(w, aside)) == with(follow(ops, places, w), aside) by {
        follow_one(op, places, w);
        follow_one(op, places, with(w, aside));
    }
    follow_one(
        op,
        places,
        Walk {
            paths: Set::empty(),
            aside: Seq::empty(),
            uses: Map::empty(),
            reached: Map::empty(),
        },
    );
}

/// What is put aside stays there.
proof fn aside_stays(ops: Seq<FlowOp>, places: Map<ExprId, int>, w: Walk, aside: Seq<Set<Path>>)
    requires
        sound(ops, places),
    ensures
        follow(ops, places, with(w, aside)) == with(follow(ops, places, w), aside),
        follow(ops, places, w).aside == w.aside,
{
    assert(follow(ops, places, with(w, aside)) == with(follow(ops, places, w), aside));
    assert(with(w, w.aside) == w);
    assert(follow(ops, places, with(w, w.aside)) == with(follow(ops, places, w), w.aside));
}

/// A walk behind a split into two ways that meet again.
pub open spec fn two_ways(
    test: Seq<FlowOp>,
    predicate: Predicate,
    yes: Seq<FlowOp>,
    no: Seq<FlowOp>,
    places: Map<ExprId, int>,
    w: Walk,
) -> Walk {
    let split = follow(test, places, w);
    let first = follow(yes, places, on(split, where_holds(split.paths, predicate, true)));
    let second = follow(no, places, on(first, where_holds(split.paths, predicate, false)));
    on(second, second.paths.union(first.paths))
}

proof fn ways_meet(
    test: Seq<FlowOp>,
    predicate: Predicate,
    yes: Seq<FlowOp>,
    no: Seq<FlowOp>,
    places: Map<ExprId, int>,
    w: Walk,
)
    requires
        sound(test, places),
        sound(yes, places),
        sound(no, places),
    ensures
        follow(
            test + seq![FlowOp::Branch(predicate)] + yes + seq![FlowOp::Swap] + no + seq![
                FlowOp::Merge,
            ],
            places,
            w,
        ) == two_ways(test, predicate, yes, no, places, w),
        contained(
            test + seq![FlowOp::Branch(predicate)] + yes + seq![FlowOp::Swap] + no + seq![
                FlowOp::Merge,
            ],
        ),
{
    let branch = seq![FlowOp::Branch(predicate)];
    let swap = seq![FlowOp::Swap];
    let merge = seq![FlowOp::Merge];
    let w1 = follow(test, places, w);
    let w2 = behind(FlowOp::Branch(predicate), places, w1);
    let w3 = follow(yes, places, w2);
    let w4 = behind(FlowOp::Swap, places, w3);
    let w5 = follow(no, places, w4);
    let w6 = behind(FlowOp::Merge, places, w5);
    follow_one(FlowOp::Branch(predicate), places, w1);
    follow_one(FlowOp::Swap, places, w3);
    follow_one(FlowOp::Merge, places, w5);
    contained_both(test, branch);
    contained_both(test + branch, yes);
    contained_both(test + branch + yes, swap);
    contained_both(test + branch + yes + swap, no);
    contained_both(test + branch + yes + swap + no, merge);
    follow_on(test, branch, places, w);
    follow_on(test + branch, yes, places, w);
    follow_on(test + branch + yes, swap, places, w);
    follow_on(test + branch + yes + swap, no, places, w);
    follow_on(test + branch + yes + swap + no, merge, places, w);
    let holds = where_holds(w1.paths, predicate, true);
    let fails = where_holds(w1.paths, predicate, false);
    let first = follow(yes, places, on(w1, holds));
    let second = follow(no, places, on(first, fails));
    assert(w2 == with(on(w1, holds), w1.aside.push(fails)));
    aside_stays(yes, places, on(w1, holds), w1.aside.push(fails));
    assert(w3 == with(first, w1.aside.push(fails)));
    assert(w3.aside.drop_last() =~= w1.aside);
    assert(w4 == with(on(first, fails), w1.aside.push(first.paths)));
    aside_stays(no, places, on(first, fails), w1.aside.push(first.paths));
    assert(w5 == with(second, w1.aside.push(first.paths)));
    assert(w5.aside.drop_last() =~= w1.aside);
    assert(w6 == on(second, second.paths.union(first.paths)));
}

proof fn sound_ways(
    test: Seq<FlowOp>,
    predicate: Predicate,
    yes: Seq<FlowOp>,
    no: Seq<FlowOp>,
    places: Map<ExprId, int>,
)
    requires
        sound(test, places),
        sound(yes, places),
        sound(no, places),
    ensures
        sound(
            test + seq![FlowOp::Branch(predicate)] + yes + seq![FlowOp::Swap] + no + seq![
                FlowOp::Merge,
            ],
            places,
        ),
{
    let ops = test + seq![FlowOp::Branch(predicate)] + yes + seq![FlowOp::Swap] + no + seq![
        FlowOp::Merge,
    ];
    assert forall|w: Walk, aside: Seq<Set<Path>>| #[trigger]
        follow(ops, places, with(w, aside)) == with(follow(ops, places, w), aside) by {
        ways_meet(test, predicate, yes, no, places, w);
        ways_meet(test, predicate, yes, no, places, with(w, aside));
        aside_stays(test, places, w, aside);
        let split = follow(test, places, w);
        let first0 = on(split, where_holds(split.paths, predicate, true));
        let first = follow(yes, places, first0);
        assert(on(
            with(split, aside),
            where_holds(split.paths, predicate, true),
        ) == with(first0, aside));
        aside_stays(yes, places, first0, aside);
        let second0 = on(first, where_holds(split.paths, predicate, false));
        assert(on(
            with(first, aside),
            where_holds(split.paths, predicate, false),
        ) == with(second0, aside));
        aside_stays(no, places, second0, aside);
    }
    ways_meet(test, predicate, yes, no, places, nowhere());
}

/// A walk without paths.
spec fn nowhere() -> Walk {
    Walk { paths: Set::empty(), aside: Seq::empty(), uses: Map::empty(), reached: Map::empty() }
}

/// A walk behind something that runs by itself, from its own start.
pub open spec fn apart(body: Seq<FlowOp>, places: Map<ExprId, int>, w: Walk) -> Walk {
    on(follow(body, places, on(w, start())), w.paths)
}

proof fn body_is_apart(body: Seq<FlowOp>, places: Map<ExprId, int>, w: Walk)
    requires
        sound(body, places),
    ensures
        follow(seq![FlowOp::Enter] + body + seq![FlowOp::Leave], places, w) == apart(
            body,
            places,
            w,
        ),
        contained(seq![FlowOp::Enter] + body + seq![FlowOp::Leave]),
{
    let enter = seq![FlowOp::Enter];
    let leave = seq![FlowOp::Leave];
    let w1 = behind(FlowOp::Enter, places, w);
    let w2 = follow(body, places, w1);
    follow_one(FlowOp::Enter, places, w);
    follow_one(FlowOp::Leave, places, w2);
    contained_both(enter, body);
    contained_both(enter + body, leave);
    follow_on(enter, body, places, w);
    follow_on(enter + body, leave, places, w);
    assert(w1 == with(on(w, start()), w.aside.push(w.paths)));
    aside_stays(body, places, on(w, start()), w.aside.push(w.paths));
    assert(w.aside.push(w.paths).drop_last() =~= w.aside);
}

proof fn sound_apart(body: Seq<FlowOp>, places: Map<ExprId, int>)
    requires
        sound(body, places),
    ensures
        sound(seq![FlowOp::Enter] + body + seq![FlowOp::Leave], places),
{
    let ops = seq![FlowOp::Enter] + body + seq![FlowOp::Leave];
    assert forall|w: Walk, aside: Seq<Set<Path>>| #[trigger]
        follow(ops, places, with(w, aside)) == with(follow(ops, places, w), aside) by {
        body_is_apart(body, places, w);
        body_is_apart(body, places, with(w, aside));
        assert(on(with(w, aside), start()) == with(on(w, start()), aside));
        aside_stays(body, places, on(w, start()), aside);
    }
    body_is_apart(body, places, nowhere());
}

/// A walk behind a part that runs only where a predicate holds, or only where it does
/// not.
pub open spec fn detour(
    test: Seq<FlowOp>,
    predicate: Predicate,
    runs_if: bool,
    body: Seq<FlowOp>,
    places: Map<ExprId, int>,
    w: Walk,
) -> Walk {
    let split = follow(test, places, w);
    let went = follow(body, places, on(split, where_holds(split.paths, predicate, runs_if)));
    on(went, went.paths.union(where_holds(split.paths, predicate, !runs_if)))
}

/// The exchange that makes a part run where a predicate does not hold.
spec fn turned(runs_if: bool) -> Seq<FlowOp> {
    if runs_if {
        seq![]
    } else {
        seq![FlowOp::Swap]
    }
}

proof fn detour_meets(
    test: Seq<FlowOp>,
    predicate: Predicate,
    runs_if: bool,
    body: Seq<FlowOp>,
    places: Map<ExprId, int>,
    w: Walk,
)
    requires
        sound(test, places),
        sound(body, places),
    ensures
        follow(
            test + seq![FlowOp::Branch(predicate)] + turned(runs_if) + body + seq![FlowOp::Merge],
            places,
            w,
        ) == detour(test, predicate, runs_if, body, places, w),
        contained(
            test + seq![FlowOp::Branch(predicate)] + turned(runs_if) + body + seq![FlowOp::Merge],
        ),
{
    let branch = seq![FlowOp::Branch(predicate)];
    let turn = turned(runs_if);
    let merge = seq![FlowOp::Merge];
    let w1 = follow(test, places, w);
    let w2 = behind(FlowOp::Branch(predicate), places, w1);
    let w3 = follow(turn, places, w2);
    let w4 = follow(body, places, w3);
    follow_one(FlowOp::Branch(predicate), places, w1);
    follow_one(FlowOp::Swap, places, w2);
    follow_one(FlowOp::Merge, places, w4);
    contained_both(test, branch);
    contained_both(test + branch, turn);
    contained_both(test + branch + turn, body);
    contained_both(test + branch + turn + body, merge);
    follow_on(test, branch, places, w);
    follow_on(test + branch, turn, places, w);
    follow_on(test + branch + turn, body, places, w);
    follow_on(test + branch + turn + body, merge, places, w);
    let runs = where_holds(w1.paths, predicate, runs_if);
    let other = where_holds(w1.paths, predicate, !runs_if);
    assert(w2.aside.drop_last() =~= w1.aside);
    assert(w3 == with(on(w1, runs), w1.aside.push(other)));
    aside_stays(body, places, on(w1, runs), w1.aside.push(other));
    assert(w4.aside.drop_last() =~= w1.aside);
}

proof fn sound_detour(
    test: Seq<FlowOp>,
    predicate: Predicate,
    runs_if: bool,
    body: Seq<FlowOp>,
    places: Map<ExprId, int>,
)
    requires
        sound(test, places),
        sound(body, places),
    ensures
        sound(
            test + seq![FlowOp::Branch(predicate)] + turned(runs_if) + body + seq![FlowOp::Merge],
            places,
        ),
{
    let ops = test + seq![FlowOp::Branch(predicate)] + turned(runs_if) + body + seq![
        FlowOp::Merge,
    ];
    assert forall|w: Walk, aside: Seq<Set<Path>>| #[trigger]
        follow(ops, places, with(w, aside)) == with(follow(ops, places, w), aside) by {
        detour_meets(test, predicate, runs_if, body, places, w);
        detour_meets(test, predicate, runs_if, body, places, with(w, aside));
        aside_stays(test, places, w, aside);
        let split = follow(test, places, w);
        let runs = on(split, where_holds(split.paths, predicate, runs_if));
        assert(on(
            with(split, aside),
            where_holds(split.paths, predicate, runs_if),
        ) == with(runs, aside));
        aside_stays(body, places, runs, aside);
    }
    detour_meets(test, predicate, runs_if, body, places, nowhere());
}

/// A walk behind a part that is left as it was entered.
pub open spec fn returning(body: Seq<FlowOp>, places: Map<ExprId, int>, w: Walk) -> Walk {
    on(follow(body, places, w), w.paths)
}

proof fn body_returns(body: Seq<FlowOp>, places: Map<ExprId, int>, w: Walk)
    requires
        sound(body, places),
    ensures
        follow(seq![FlowOp::Keep] + body + seq![FlowOp::Leave], places, w) == returning(
            body,
            places,
            w,
        ),
        contained(seq![FlowOp::Keep] + body + seq![FlowOp::Leave]),
{
    let keep = seq![FlowOp::Keep];
    let leave = seq![FlowOp::Leave];
    let w1 = behind(FlowOp::Keep, places, w);
    let w2 = follow(body, places, w1);
    follow_one(FlowOp::Keep, places, w);
    follow_one(FlowOp::Leave, places, w2);
    contained_both(keep, body);
    contained_both(keep + body, leave);
    follow_on(keep, body, places, w);
    follow_on(keep + body, leave, places, w);
    aside_stays(body, places, w, w.aside.push(w.paths));
    assert(w.aside.push(w.paths).drop_last() =~= w.aside);
}

proof fn sound_returning(body: Seq<FlowOp>, places: Map<ExprId, int>)
    requires
        sound(body, places),
    ensures
        sound(seq![FlowOp::Keep] + body + seq![FlowOp::Leave], places),
{
    let ops = seq![FlowOp::Keep] + body + seq![FlowOp::Leave];
    assert forall|w: Walk, aside: Seq<Set<Path>>| #[trigger]
        follow(ops, places, with(w, aside)) == with(follow(ops, places, w), aside) by {
        body_returns(body, places, w);
        body_returns(body, places, with(w, aside));
        aside_stays(body, places, w, aside);
    }
    body_returns(body, places, nowhere());
}

/// A walk behind a part that may as well not run.
pub open spec fn optional(body: Seq<FlowOp>, places: Map<ExprId, int>, w: Walk) -> Walk {
    let went = follow(body, places, w);
    on(went, went.paths.union(w.paths))
}

proof fn body_is_optional(body: Seq<FlowOp>, places: Map<ExprId, int>, w: Walk)
    requires
        sound(body, places),
    ensures
        follow(seq![FlowOp::Keep] + body + seq![FlowOp::Merge], places, w) == optional(
            body,
            places,
            w,
        ),
        contained(seq![FlowOp::Keep] + body + seq![FlowOp::Merge]),
{
    let keep = seq![FlowOp::Keep];
    let merge = seq![FlowOp::Merge];
    let w1 = behind(FlowOp::Keep, places, w);
    let w2 = follow(body, places, w1);
    follow_one(FlowOp::Keep, places, w);
    follow_one(FlowOp::Merge, places, w2);
    contained_both(keep, body);
    contained_both(keep + body, merge);
    follow_on(keep, body, places, w);
    follow_on(keep + body, merge, places, w);
    aside_stays(body, places, w, w.aside.push(w.paths));
    assert(w.aside.push(w.paths).drop_last() =~= w.aside);
}

proof fn sound_optional(body: Seq<FlowOp>, places: Map<ExprId, int>)
    requires
        sound(body, places),
    ensures
        sound(seq![FlowOp::Keep] + body + seq![FlowOp::Merge], places),
{
    let ops = seq![FlowOp::Keep] + body + seq![FlowOp::Merge];
    assert forall|w: Walk, aside: Seq<Set<Path>>| #[trigger]
        follow(ops, places, with(w, aside)) == with(follow(ops, places, w), aside) by {
        body_is_optional(body, places, w);
        body_is_optional(body, places, with(w, aside));
        aside_stays(body, places, w, aside);
    }
    body_is_optional(body, places, nowhere());
}

/// A walk behind a statement, where `body` is what the statement does: it is noted
/// which paths reach it, and it runs if there are any.
pub open spec fn met(
    stmt: StmtId,
    body: Seq<FlowOp>,
    places: Map<ExprId, int>,
    w: Walk,
) -> Walk {
    let noted = Walk { reached: w.reached.insert(stmt, w.paths), ..w };
    if w.paths == Set::<Path>::empty() {
        noted
    } else {
        follow(body, places, noted)
    }
}

proof fn body_is_met(stmt: StmtId, body: Seq<FlowOp>, places: Map<ExprId, int>, w: Walk)
    requires
        sound(body, places),
        body.len() <= usize::MAX,
    ensures
        follow(
            seq![FlowOp::Reach { stmt, steps: body.len() as usize }] + body,
            places,
            w,
        ) == met(stmt, body, places, w),
        contained(seq![FlowOp::Reach { stmt, steps: body.len() as usize }] + body),
{
    let reach = FlowOp::Reach { stmt, steps: body.len() as usize };
    let ops = seq![reach] + body;
    assert(ops[0] == reach);
    assert(ops.skip(1) =~= body);
    assert(ops.skip(ops.len() as int) =~= Seq::<FlowOp>::empty());
    assert(follow(Seq::<FlowOp>::empty(), places, behind(reach, places, w)) == behind(
        reach,
        places,
        w,
    ));
    assert forall|i: int| 0 <= i < ops.len() implies ((
    #[trigger] ops[i]) matches FlowOp::Reach { stmt: _, steps } ==> i + 1 + steps
        <= ops.len()) by {
        if i > 0 {
            assert(ops[i] == body[i - 1]);
        }
    }
}

proof fn sound_met(stmt: StmtId, body: Seq<FlowOp>, places: Map<ExprId, int>)
    requires
        sound(body, places),
        body.len() <= usize::MAX,
    ensures
        sound(seq![FlowOp::Reach { stmt, steps: body.len() as usize }] + body, places),
{
    let ops = seq![FlowOp::Reach { stmt, steps: body.len() as usize }] + body;
    assert forall|w: Walk, aside: Seq<Set<Path>>| #[trigger]
        follow(ops, places, with(w, aside)) == with(follow(ops, places, w), aside) by {
        body_is_met(stmt, body, places, w);
        body_is_met(stmt, body, places, with(w, aside));
        let noted = Walk { reached: w.reached.insert(stmt, w.paths), ..w };
        assert(Walk {
            reached: w.reached.insert(stmt, w.paths),
            ..with(w, aside)
        } == with(noted, aside));
        aside_stays(body, places, noted, aside);
    }
    body_is_met(stmt, body, places, nowhere());
}

/// The first clause of a comprehension that is a loop.
spec fn is_first_loop(clauses: Seq<CompClause>, f: int) -> bool {
    &&& 0 <= f < clauses.len()
    &&& clauses[f] is For
    &&& forall|k: int| 0 <= k < f ==> (#[trigger] clauses[k]) is If
}

/// What is evaluated before the first loop of a comprehension can be skipped.
spec fn head_ops(m: Module, clauses: Seq<CompClause>, limit: nat, f: int) -> Seq<FlowOp> {
    clauses_ops(m, clauses, limit, f as nat) + match clauses[f] {
        CompClause::For { iterable, targets: _ } => part_ops(m, iterable, limit),
        CompClause::If { test: _ } => seq![],
    }
}

/// What the clauses of a comprehension do in a round of its first loop.
spec fn round_ops(m: Module, clauses: Seq<CompClause>, limit: nat, f: int, n: int) -> Seq<FlowOp>
    decreases n - f,
{
    if n <= f + 1 {
        match clauses[f] {
            CompClause::For { iterable, targets } => targets_ops(
                m,
                targets@,
                iterable,
                limit,
                targets@.len(),
            ),
            CompClause::If { test: _ } => seq![],
        }
    } else {
        round_ops(m, clauses, limit, f, n - 1) + match clauses[n - 1] {
            CompClause::For { iterable, targets } => part_ops(m, iterable, limit) + targets_ops(
                m,
                targets@,
                iterable,
                limit,
                targets@.len(),
            ),
            CompClause::If { test } => part_ops(m, test, limit),
        }
    }
}

proof fn clauses_split(m: Module, clauses: Seq<CompClause>, limit: nat, f: int, n: int)
    requires
        is_first_loop(clauses, f),
        f < n <= clauses.len(),
    ensures
        clauses_ops(m, clauses, limit, n as nat) == head_ops(m, clauses, limit, f) + seq![
            FlowOp::Branch(Predicate::Branch),
        ] + round_ops(m, clauses, limit, f, n),
        has_loop(clauses, n),
    decreases n,
{
    assert(clauses[f] is For);
    assert(has_loop(clauses, n));
    if n == f + 1 {
        assert(!has_loop(clauses, f));
    } else {
        clauses_split(m, clauses, limit, f, n - 1);
        assert(has_loop(clauses, n - 1));
    }
    assert(clauses_ops(m, clauses, limit, n as nat) =~= head_ops(m, clauses, limit, f) + seq![
        FlowOp::Branch(Predicate::Branch),
    ] + round_ops(m, clauses, limit, f, n));
}

/// Where no clause is a loop, all are tests.
proof fn no_loop_is_all_tests(clauses: Seq<CompClause>, n: int)
    requires
        0 <= n <= clauses.len(),
    ensures
        !has_loop(clauses, n) <==> forall|k: int| 0 <= k < n ==> (#[trigger] clauses[k]) is If,
        has_loop(clauses, n) ==> exists|f: int| #[trigger] is_first_loop(clauses, f) && f < n,
    decreases n,
{
    if n > 0 {
        no_loop_is_all_tests(clauses, n - 1);
        if has_loop(clauses, n) {
            let k = choose|k: int| 0 <= k < n && #[trigger] clauses[k] is For;
            if has_loop(clauses, n - 1) {
            } else {
                assert(k == n - 1);
                assert(is_first_loop(clauses, n - 1));
            }
        }
        if !has_loop(clauses, n) {
            assert(!(clauses[n - 1] is For));
            assert forall|k: int| 0 <= k < n implies (#[trigger] clauses[k]) is If by {
                assert(!(clauses[k] is For));
            }
        }
    }
}

proof fn part_is_sound(m: Module, id: ExprId, limit: nat, places: Map<ExprId, int>)
    ensures
        sound(part_ops(m, id, limit), places),
    decreases limit, 1nat, 0nat,
{
    if id.0 < limit {
        expr_is_sound(m, id, places);
    } else {
        sound_none(places);
    }
}

proof fn exprs_are_sound(
    m: Module,
    ids: Seq<ExprId>,
    limit: nat,
    n: nat,
    places: Map<ExprId, int>,
)
    ensures
        sound(exprs_ops(m, ids, limit, n), places),
    decreases limit, 2nat, n,
{
    if n == 0 {
        sound_none(places);
    } else {
        exprs_are_sound(m, ids, limit, (n - 1) as nat, places);
        part_is_sound(m, ids[n - 1], limit, places);
        sound_both(
            exprs_ops(m, ids, limit, (n - 1) as nat),
            part_ops(m, ids[n - 1], limit),
            places,
        );
    }
}

proof fn target_is_sound(
    m: Module,
    id: ExprId,
    source: ExprId,
    limit: nat,
    places: Map<ExprId, int>,
)
    ensures
        sound(target_ops(m, id, source, limit), places),
    decreases limit, 3nat, 0nat,
{
    if id.0 < limit {
        assign_is_sound(m, id, source, places);
    } else {
        sound_none(places);
    }
}

proof fn targets_are_sound(
    m: Module,
    ids: Seq<ExprId>,
    source: ExprId,
    limit: nat,
    n: nat,
    places: Map<ExprId, int>,
)
    ensures
        sound(targets_ops(m, ids, source, limit, n), places),
    decreases limit, 4nat, n,
{
    if n == 0 {
        sound_none(places);
    } else {
        targets_are_sound(m, ids, source, limit, (n - 1) as nat, places);
        target_is_sound(m, ids[n - 1], source, limit, places);
        sound_both(
            targets_ops(m, ids, source, limit, (n - 1) as nat),
            target_ops(m, ids[n - 1], source, limit),
            places,
        );
    }
}

proof fn assign_is_sound(m: Module, id: ExprId, source: ExprId, places: Map<ExprId, int>)
    ensures
        sound(assign_ops(m, id, source), places),
    decreases id.0, 5nat, 0nat,
{
    let limit = id.0 as nat;
    match m.exprs@[id.0 as int] {
        Expr::Name { name: _ } => {
            sound_one(FlowOp::Assign { target: id, source }, places);
        },
        Expr::Paren { expr } => {
            target_is_sound(m, expr, source, limit, places);
        },
        Expr::Tuple { exprs } => {
            targets_are_sound(m, exprs@, source, limit, exprs@.len(), places);
        },
        Expr::List { exprs } => {
            targets_are_sound(m, exprs@, source, limit, exprs@.len(), places);
        },
        e => {
            exprs_are_sound(m, plain_parts(e), limit, plain_parts(e).len(), places);
        },
    }
}

proof fn tests_are_sound(
    m: Module,
    clauses: Seq<CompClause>,
    limit: nat,
    n: nat,
    places: Map<ExprId, int>,
)
    requires
        n <= clauses.len(),
        forall|k: int| 0 <= k < n ==> (#[trigger] clauses[k]) is If,
    ensures
        sound(clauses_ops(m, clauses, limit, n), places),
    decreases limit, 5nat, n,
{
    if n == 0 {
        sound_none(places);
    } else {
        tests_are_sound(m, clauses, limit, (n - 1) as nat, places);
        if let CompClause::If { test } = clauses[n - 1] {
            part_is_sound(m, test, limit, places);
            sound_both(
                clauses_ops(m, clauses, limit, (n - 1) as nat),
                part_ops(m, test, limit),
                places,
            );
        }
    }
}

proof fn head_is_sound(
    m: Module,
    clauses: Seq<CompClause>,
    limit: nat,
    f: int,
    places: Map<ExprId, int>,
)
    requires
        is_first_loop(clauses, f),
    ensures
        sound(head_ops(m, clauses, limit, f), places),
    decreases limit, 6nat, 0nat,
{
    tests_are_sound(m, clauses, limit, f as nat, places);
    if let CompClause::For { iterable, targets: _ } = clauses[f] {
        part_is_sound(m, iterable, limit, places);
        sound_both(
            clauses_ops(m, clauses, limit, f as nat),
            part_ops(m, iterable, limit),
            places,
        );
    }
}

proof fn round_is_sound(
    m: Module,
    clauses: Seq<CompClause>,
    limit: nat,
    f: int,
    n: int,
    places: Map<ExprId, int>,
)
    requires
        is_first_loop(clauses, f),
        f < n <= clauses.len(),
    ensures
        sound(round_ops(m, clauses, limit, f, n), places),
    decreases limit, 5nat, n,
{
    if n == f + 1 {
        if let CompClause::For { iterable, targets } = clauses[f] {
            targets_are_sound(m, targets@, iterable, limit, targets@.len(), places);
        }
    } else {
        round_is_sound(m, clauses, limit, f, n - 1, places);
        let before = round_ops(m, clauses, limit, f, n - 1);
        match clauses[n - 1] {
            CompClause::For { iterable, targets } => {
                let a = part_ops(m, iterable, limit);
                let b = targets_ops(m, targets@, iterable, limit, targets@.len());
                part_is_sound(m, iterable, limit, places);
                targets_are_sound(m, targets@, iterable, limit, targets@.len(), places);
                sound_both(a, b, places);
                sound_both(before, a + b, places);
            },
            CompClause::If { test } => {
                part_is_sound(m, test, limit, places);
                sound_both(before, part_ops(m, test, limit), places);
            },
        }
    }
}

/// A comprehension with the flow `body` of what it collects.
proof fn comprehension_is_sound(
    m: Module,
    clauses: Seq<CompClause>,
    limit: nat,
    body: Seq<FlowOp>,
    places: Map<ExprId, int>,
)
    requires
        sound(body, places),
    ensures
        sound(skipped_ops(m, clauses, limit) + body + seq![FlowOp::Merge], places),
    decreases limit, 6nat, 1nat,
{
    let n = clauses.len() as int;
    let c = clauses_ops(m, clauses, limit, n as nat);
    let merge = seq![FlowOp::Merge];
    no_loop_is_all_tests(clauses, n);
    if has_loop(clauses, n) {
        let f = choose|f: int| #[trigger] is_first_loop(clauses, f) && f < n;
        let round = round_ops(m, clauses, limit, f, n);
        head_is_sound(m, clauses, limit, f, places);
        round_is_sound(m, clauses, limit, f, n, places);
        sound_both(round, body, places);
        sound_detour(
            head_ops(m, clauses, limit, f),
            Predicate::Branch,
            true,
            round + body,
            places,
        );
        comprehension_splits(m, clauses, limit, body, f);
    } else {
        tests_are_sound(m, clauses, limit, n as nat, places);
        sound_optional(body, places);
        sound_both(c, seq![FlowOp::Keep] + body + merge, places);
        assert(skipped_ops(m, clauses, limit) + body + merge =~= c + (seq![FlowOp::Keep] + body
            + merge));
    }
}

proof fn comprehension_splits(
    m: Module,
    clauses: Seq<CompClause>,
    limit: nat,
    body: Seq<FlowOp>,
    f: int,
)
    requires
        is_first_loop(clauses, f),
    ensures
        skipped_ops(m, clauses, limit) + body + seq![FlowOp::Merge] == head_ops(
            m,
            clauses,
            limit,
            f,
        ) + seq![FlowOp::Branch(Predicate::Branch)] + turned(true) + (round_ops(
            m,
            clauses,
            limit,
            f,
            clauses.len() as int,
        ) + body) + seq![FlowOp::Merge],
{
    let n = clauses.len() as int;
    clauses_split(m, clauses, limit, f, n);
    assert(n as nat == clauses.len());
    assert(skipped_ops(m, clauses, limit) + body + seq![FlowOp::Merge] =~= head_ops(
        m,
        clauses,
        limit,
        f,
    ) + seq![FlowOp::Branch(Predicate::Branch)] + turned(true) + (round_ops(
        m,
        clauses,
        limit,
        f,
        n,
    ) + body) + seq![FlowOp::Merge]);
}

proof fn expr_is_sound(m: Module, id: ExprId, places: Map<ExprId, int>)
    ensures
        sound(expr_ops(m, id), places),
    decreases id.0, 7nat, 0nat,
{
    let limit = id.0 as nat;
    let e = m.exprs@[id.0 as int];
    match e {
        Expr::Name { name: _ } => {
            sound_one(FlowOp::Use(id), places);
        },
        Expr::If { if_expr, test, else_expr } => {
            part_is_sound(m, test, limit, places);
            part_is_sound(m, if_expr, limit, places);
            part_is_sound(m, else_expr, limit, places);
            sound_ways(
                part_ops(m, test, limit),
                Predicate::Truthiness(test),
                part_ops(m, if_expr, limit),
                part_ops(m, else_expr, limit),
                places,
            );
        },
        Expr::Binary { lhs, rhs, op } => {
            part_is_sound(m, lhs, limit, places);
            part_is_sound(m, rhs, limit, places);
            match logic_of(op) {
                Some(logic) => {
                    sound_detour(
                        part_ops(m, lhs, limit),
                        Predicate::Truthiness(lhs),
                        logic != LogicOp::Or,
                        part_ops(m, rhs, limit),
                        places,
                    );
                },
                None => {
                    sound_both(part_ops(m, lhs, limit), part_ops(m, rhs, limit), places);
                },
            }
        },
        Expr::Lambda { func: _, body } => {
            part_is_sound(m, body, limit, places);
            sound_apart(part_ops(m, body, limit), places);
        },
        Expr::ListComp { expr, comp_clauses } => {
            part_is_sound(m, expr, limit, places);
            comprehension_is_sound(
                m,
                comp_clauses@,
                limit,
                part_ops(m, expr, limit),
                places,
            );
        },
        Expr::DictComp { entry, comp_clauses } => {
            let a = part_ops(m, entry.key, limit);
            let b = part_ops(m, entry.value, limit);
            part_is_sound(m, entry.key, limit, places);
            part_is_sound(m, entry.value, limit, places);
            sound_both(a, b, places);
            comprehension_is_sound(m, comp_clauses@, limit, a + b, places);
            assert(expr_ops(m, id) =~= skipped_ops(m, comp_clauses@, limit) + (a + b) + seq![
                FlowOp::Merge,
            ]);
        },
        Expr::Call { callee: _, args: _ } => {
            let parts = plain_parts(e);
            let back = FlowOp::Restrict(Predicate::CallReturns(id));
            exprs_are_sound(m, parts, limit, parts.len(), places);
            sound_one(back, places);
            sound_both(exprs_ops(m, parts, limit, parts.len()), seq![back], places);
        },
        e => {
            let parts = plain_parts(e);
            exprs_are_sound(m, parts, limit, parts.len(), places);
        },
    }
}

proof fn stmts_are_sound(
    m: Module,
    ids: Seq<StmtId>,
    limit: nat,
    n: nat,
    places: Map<ExprId, int>,
)
    requires
        stmts_ops(m, ids, limit, n).len() <= usize::MAX,
    ensures
        sound(stmts_ops(m, ids, limit, n), places),
    decreases limit, 0nat, n,
{
    if n == 0 {
        sound_none(places);
    } else {
        let before = stmts_ops(m, ids, limit, (n - 1) as nat);
        if ids[n - 1].0 < limit {
            let inner = stmt_ops(m, ids[n - 1]);
            let reach = seq![FlowOp::Reach { stmt: ids[n - 1], steps: inner.len() as usize }];
            assert(stmts_ops(m, ids, limit, n).len() == before.len() + 1 + inner.len());
            stmts_are_sound(m, ids, limit, (n - 1) as nat, places);
            stmt_is_sound(m, ids[n - 1], places);
            sound_met(ids[n - 1], inner, places);
            sound_both(before, reach + inner, places);
        } else {
            assert(stmts_ops(m, ids, limit, n) =~= before);
            stmts_are_sound(m, ids, limit, (n - 1) as nat, places);
        }
    }
}

/// The flow of what follows `else`.
spec fn else_ops(m: Module, branch: Option<ElseBranch>, limit: nat) -> Seq<FlowOp> {
    match branch {
        Some(ElseBranch::Elif(stmt)) => stmts_ops(m, seq![stmt], limit, 1),
        Some(ElseBranch::Else(stmts)) => stmts_ops(m, stmts@, limit, stmts@.len()),
        None => seq![],
    }
}

proof fn stmt_is_sound(m: Module, id: StmtId, places: Map<ExprId, int>)
    requires
        stmt_ops(m, id).len() <= usize::MAX,
    ensures
        sound(stmt_ops(m, id), places),
    decreases id.0, 1nat, 0nat,
{
    let limit = id.0 as nat;
    let exprs = m.exprs@.len();
    match m.stmts@[id.0 as int] {
        Stmt::Assign { lhs, rhs, op: _, type_ref: _ } => {
            part_is_sound(m, rhs, exprs, places);
            target_is_sound(m, lhs, rhs, exprs, places);
            sound_both(part_ops(m, rhs, exprs), target_ops(m, lhs, rhs, exprs), places);
        },
        Stmt::Def { func: _, stmts } => {
            stmts_are_sound(m, stmts@, limit, stmts@.len(), places);
            sound_apart(stmts_ops(m, stmts@, limit, stmts@.len()), places);
        },
        Stmt::If { test, if_stmts, elif_or_else_stmts } => {
            let a = stmts_ops(m, if_stmts@, limit, if_stmts@.len());
            let b = else_ops(m, elif_or_else_stmts, limit);
            part_is_sound(m, test, exprs, places);
            stmts_are_sound(m, if_stmts@, limit, if_stmts@.len(), places);
            match elif_or_else_stmts {
                Some(ElseBranch::Elif(stmt)) => {
                    stmts_are_sound(m, seq![stmt], limit, 1, places);
                },
                Some(ElseBranch::Else(stmts)) => {
                    stmts_are_sound(m, stmts@, limit, stmts@.len(), places);
                },
                None => {
                    sound_none(places);
                },
            }
            sound_ways(part_ops(m, test, exprs), Predicate::Branch, a, b, places);
        },
        Stmt::Return { expr } => {
            sound_one(FlowOp::Stop, places);
            sound_none(places);
            let a = match expr {
                Some(expr) => part_ops(m, expr, exprs),
                None => seq![],
            };
            if let Some(expr) = expr {
                part_is_sound(m, expr, exprs, places);
            }
            sound_both(a, seq![FlowOp::Stop], places);
        },
        Stmt::Expr { expr } => {
            part_is_sound(m, expr, exprs, places);
        },
        Stmt::For { iterable, targets, stmts } => {
            let t = part_ops(m, iterable, exprs);
            let a = targets_ops(m, targets@, iterable, exprs, targets@.len());
            let b = stmts_ops(m, stmts@, limit, stmts@.len());
            let again = seq![FlowOp::Loop];
            let body = seq![FlowOp::Keep] + b + seq![FlowOp::Leave];
            part_is_sound(m, iterable, exprs, places);
            targets_are_sound(m, targets@, iterable, exprs, targets@.len(), places);
            stmts_are_sound(m, stmts@, limit, stmts@.len(), places);
            sound_one(FlowOp::Loop, places);
            sound_returning(b, places);
            sound_both(t, a, places);
            sound_both(t + a, again, places);
            sound_both(t + a + again, body, places);
            assert(stmt_ops(m, id) =~= t + a + again + body);
        },
        Stmt::Break => {
            sound_one(FlowOp::Stop, places);
        },
        Stmt::Continue => {
            sound_one(FlowOp::Stop, places);
        },
        Stmt::Pass => {
            sound_none(places);
        },
        Stmt::Load { load_stmt: _, items: _ } => {
            sound_none(places);
        },
    }
}

/// A walk behind the evaluation of an expression.
pub open spec fn evaluated(m: Module, id: ExprId, places: Map<ExprId, int>, w: Walk) -> Walk {
    follow(expr_ops(m, id), places, w)
}

/// A walk behind the evaluation of the first expressions of a list, in order.
pub open spec fn evaluated_all(
    m: Module,
    ids: Seq<ExprId>,
    places: Map<ExprId, int>,
    w: Walk,
    n: nat,
) -> Walk
    decreases n,
{
    if n == 0 {
        w
    } else {
        evaluated(m, ids[n - 1], places, evaluated_all(m, ids, places, w, (n - 1) as nat))
    }
}

/// A walk behind an assignment to an expression.
pub open spec fn given(
    m: Module,
    id: ExprId,
    source: ExprId,
    places: Map<ExprId, int>,
    w: Walk,
) -> Walk {
    follow(assign_ops(m, id, source), places, w)
}

/// A walk behind assignments to the first expressions of a list, in order.
pub open spec fn given_all(
    m: Module,
    ids: Seq<ExprId>,
    source: ExprId,
    places: Map<ExprId, int>,
    w: Walk,
    n: nat,
) -> Walk
    decreases n,
{
    if n == 0 {
        w
    } else {
        given(m, ids[n - 1], source, places, given_all(m, ids, source, places, w, (n - 1) as nat))
    }
}

/// A walk behind a statement that is executed.
pub open spec fn executed(m: Module, id: StmtId, places: Map<ExprId, int>, w: Walk) -> Walk {
    follow(stmt_ops(m, id), places, w)
}

/// A walk behind the first statements of a list, in order. It is noted which paths
/// reach each of them. One that no path reaches is not executed.
pub open spec fn executed_all(
    m: Module,
    ids: Seq<StmtId>,
    places: Map<ExprId, int>,
    w: Walk,
    n: nat,
) -> Walk
    decreases n,
{
    if n == 0 {
        w
    } else {
        let before = executed_all(m, ids, places, w, (n - 1) as nat);
        let noted = Walk { reached: before.reached.insert(ids[n - 1], before.paths), ..before };
        if before.paths == Set::<Path>::empty() {
            noted
        } else {
            executed(m, ids[n - 1], places, noted)
        }
    }
}

proof fn part_is_evaluated(m: Module, id: ExprId, limit: nat)
    requires
        id.0 < limit,
    ensures
        part_ops(m, id, limit) == expr_ops(m, id),
{
}

proof fn parts_are_evaluated(
    m: Module,
    ids: Seq<ExprId>,
    limit: nat,
    places: Map<ExprId, int>,
    w: Walk,
    n: nat,
)
    requires
        n <= ids.len(),
        forall|i: int| 0 <= i < ids.len() ==> (#[trigger] ids[i]).0 < limit,
    ensures
        follow(exprs_ops(m, ids, limit, n), places, w) == evaluated_all(m, ids, places, w, n),
    decreases n,
{
    if n > 0 {
        let before = exprs_ops(m, ids, limit, (n - 1) as nat);
        parts_are_evaluated(m, ids, limit, places, w, (n - 1) as nat);
        exprs_are_sound(m, ids, limit, (n - 1) as nat, places);
        follow_on(before, part_ops(m, ids[n - 1], limit), places, w);
    }
}

proof fn targets_are_given(
    m: Module,
    ids: Seq<ExprId>,
    source: ExprId,
    limit: nat,
    places: Map<ExprId, int>,
    w: Walk,
    n: nat,
)
    requires
        n <= ids.len(),
        forall|i: int| 0 <= i < ids.len() ==> (#[trigger] ids[i]).0 < limit,
    ensures
        follow(targets_ops(m, ids, source, limit, n), places, w) == given_all(
            m,
            ids,
            source,
            places,
            w,
            n,
        ),
    decreases n,
{
    if n > 0 {
        let before = targets_ops(m, ids, source, limit, (n - 1) as nat);
        targets_are_given(m, ids, source, limit, places, w, (n - 1) as nat);
        targets_are_sound(m, ids, source, limit, (n - 1) as nat, places);
        follow_on(before, target_ops(m, ids[n - 1], source, limit), places, w);
    }
}

proof fn stmts_are_executed(
    m: Module,
    ids: Seq<StmtId>,
    limit: nat,
    places: Map<ExprId, int>,
    w: Walk,
    n: nat,
)
    requires
        n <= ids.len(),
        forall|i: int| 0 <= i < ids.len() ==> (#[trigger] ids[i]).0 < limit,
        stmts_ops(m, ids, limit, n).len() <= usize::MAX,
    ensures
        follow(stmts_ops(m, ids, limit, n), places, w) == executed_all(m, ids, places, w, n),
    decreases n,
{
    if n > 0 {
        let before = stmts_ops(m, ids, limit, (n - 1) as nat);
        let inner = stmt_ops(m, ids[n - 1]);
        let reach = seq![FlowOp::Reach { stmt: ids[n - 1], steps: inner.len() as usize }];
        assert(stmts_ops(m, ids, limit, n).len() == before.len() + 1 + inner.len());
        stmts_are_executed(m, ids, limit, places, w, (n - 1) as nat);
        stmts_are_sound(m, ids, limit, (n - 1) as nat, places);
        stmt_is_sound(m, ids[n - 1], places);
        follow_on(before, reach + inner, places, w);
        body_is_met(ids[n - 1], inner, places, follow(before, places, w));
    }
}

/// What follows `else` in an `if` statement: another one, statements or nothing.
pub open spec fn else_stmts(branch: Option<ElseBranch>) -> Seq<StmtId> {
    match branch {
        Some(ElseBranch::Elif(stmt)) => seq![stmt],
        Some(ElseBranch::Else(stmts)) => stmts@,
        None => seq![],
    }
}

/// An `if` statement splits the flow behind its test. The statements behind the test
/// start from the paths on which it holds, and those behind `else` from the paths on
/// which it does not, whatever the former do. Where nothing follows `else`, those
/// paths go on as they are. Behind the statement the ends of both ways meet.
pub proof fn an_if_statement_has_two_ways(
    m: Module,
    id: StmtId,
    places: Map<ExprId, int>,
    w: Walk,
)
    requires
        m.wf(),
        id.0 < m.stmts@.len(),
        m.stmts@[id.0 as int] is If,
        stmt_ops(m, id).len() <= usize::MAX,
    ensures
        m.stmts@[id.0 as int] matches Stmt::If { test, if_stmts, elif_or_else_stmts } ==> {
            let others = else_stmts(elif_or_else_stmts);
            let split = evaluated(m, test, places, w);
            let holds = where_holds(split.paths, Predicate::Branch, true);
            let fails = where_holds(split.paths, Predicate::Branch, false);
            let first = executed_all(m, if_stmts@, places, on(split, holds), if_stmts@.len());
            let second = executed_all(m, others, places, on(first, fails), others.len());
            executed(m, id, places, w) == on(second, second.paths.union(first.paths))
        },
{
    let limit = id.0 as nat;
    let exprs = m.exprs@.len();
    assert(crate::def::stmt_below(m, m.stmts@[id.0 as int], limit));
    if let Stmt::If { test, if_stmts, elif_or_else_stmts } = m.stmts@[id.0 as int] {
        let others = else_stmts(elif_or_else_stmts);
        let t = part_ops(m, test, exprs);
        let a = stmts_ops(m, if_stmts@, limit, if_stmts@.len());
        let b = stmts_ops(m, others, limit, others.len());
        assert(else_ops(m, elif_or_else_stmts, limit) =~= b);
        part_is_sound(m, test, exprs, places);
        assert(stmt_ops(m, id) =~= t + seq![FlowOp::Branch(Predicate::Branch)] + a + seq![
            FlowOp::Swap,
        ] + b + seq![FlowOp::Merge]);
        stmts_are_sound(m, if_stmts@, limit, if_stmts@.len(), places);
        stmts_are_sound(m, others, limit, others.len(), places);
        ways_meet(t, Predicate::Branch, a, b, places, w);
        let split = evaluated(m, test, places, w);
        let holds = where_holds(split.paths, Predicate::Branch, true);
        let fails = where_holds(split.paths, Predicate::Branch, false);
        stmts_are_executed(m, if_stmts@, limit, places, on(split, holds), if_stmts@.len());
        let first = executed_all(m, if_stmts@, places, on(split, holds), if_stmts@.len());
        stmts_are_executed(m, others, limit, places, on(first, fails), others.len());
    }
}

/// A predicate never ends the flow: some paths go on where it holds, and some where it
/// does not, unless there were none.
pub proof fn a_split_loses_no_path(paths: Set<Path>, predicate: Predicate, holds: bool)
    ensures
        where_holds(paths, predicate, holds) == Set::<Path>::empty() <==> paths == Set::<
            Path,
        >::empty(),
        forall|p: Path| #[trigger]
            paths.contains(p) ==> where_holds(paths, predicate, holds).contains(
                Path { taken: p.taken.push((predicate, holds)), ..p },
            ),
{
    let after = where_holds(paths, predicate, holds);
    assert forall|p: Path| #[trigger] paths.contains(p) implies after.contains(
        Path { taken: p.taken.push((predicate, holds)), ..p },
    ) by {}
    if after == Set::<Path>::empty() {
        assert(paths =~= Set::<Path>::empty());
    }
    if paths == Set::<Path>::empty() {
        assert(after =~= Set::<Path>::empty());
    }
}

/// Which paths go on depends on the paths alone, not on what was noted before.
proof fn notes_change_no_path(ops: Seq<FlowOp>, places: Map<ExprId, int>, a: Walk, b: Walk)
    requires
        a.paths == b.paths,
        a.aside == b.aside,
    ensures
        follow(ops, places, a).paths == follow(ops, places, b).paths,
        follow(ops, places, a).aside == follow(ops, places, b).aside,
    decreases ops.len(),
{
    if ops.len() > 0 {
        notes_change_no_path(
            ops.skip(stride(ops, a)),
            places,
            behind(ops[0], places, a),
            behind(ops[0], places, b),
        );
    }
}

proof fn notes_change_no_statement(
    m: Module,
    ids: Seq<StmtId>,
    places: Map<ExprId, int>,
    a: Walk,
    b: Walk,
    n: nat,
)
    requires
        a.paths == b.paths,
        a.aside == b.aside,
    ensures
        executed_all(m, ids, places, a, n).paths == executed_all(m, ids, places, b, n).paths,
        executed_all(m, ids, places, a, n).aside == executed_all(m, ids, places, b, n).aside,
    decreases n,
{
    if n > 0 {
        notes_change_no_statement(m, ids, places, a, b, (n - 1) as nat);
        let x = executed_all(m, ids, places, a, (n - 1) as nat);
        let y = executed_all(m, ids, places, b, (n - 1) as nat);
        notes_change_no_path(
            stmt_ops(m, ids[n - 1]),
            places,
            Walk { reached: x.reached.insert(ids[n - 1], x.paths), ..x },
            Walk { reached: y.reached.insert(ids[n - 1], y.paths), ..y },
        );
    }
}

/// The two ways of an `if` statement are independent: each goes on from the paths
/// behind the test, as if the statements of the other were not there.
pub proof fn the_ways_of_an_if_statement_are_independent(
    m: Module,
    id: StmtId,
    places: Map<ExprId, int>,
    w: Walk,
)
    requires
        m.wf(),
        id.0 < m.stmts@.len(),
        m.stmts@[id.0 as int] is If,
        stmt_ops(m, id).len() <= usize::MAX,
    ensures
        m.stmts@[id.0 as int] matches Stmt::If { test, if_stmts, elif_or_else_stmts } ==> {
            let others = else_stmts(elif_or_else_stmts);
            let split = evaluated(m, test, places, w).paths;
            let holds = where_holds(split, Predicate::Branch, true);
            let fails = where_holds(split, Predicate::Branch, false);
            executed(m, id, places, w).paths == executed_all(
                m,
                others,
                places,
                on(w, fails),
                others.len(),
            ).paths.union(
                executed_all(m, if_stmts@, places, on(w, holds), if_stmts@.len()).paths,
            )
        },
{
    an_if_statement_has_two_ways(m, id, places, w);
    if let Stmt::If { test, if_stmts, elif_or_else_stmts } = m.stmts@[id.0 as int] {
        let limit = id.0 as nat;
        let others = else_stmts(elif_or_else_stmts);
        let split = evaluated(m, test, places, w);
        let holds = where_holds(split.paths, Predicate::Branch, true);
        let fails = where_holds(split.paths, Predicate::Branch, false);
        let a = stmts_ops(m, if_stmts@, limit, if_stmts@.len());
        assert(crate::def::stmt_below(m, m.stmts@[id.0 as int], limit));
        expr_is_sound(m, test, places);
        aside_stays(expr_ops(m, test), places, w, w.aside);
        stmts_are_sound(m, if_stmts@, limit, if_stmts@.len(), places);
        stmts_are_executed(m, if_stmts@, limit, places, on(split, holds), if_stmts@.len());
        aside_stays(a, places, on(split, holds), w.aside);
        let first = executed_all(m, if_stmts@, places, on(split, holds), if_stmts@.len());
        notes_change_no_statement(
            m,
            if_stmts@,
            places,
            on(split, holds),
            on(w, holds),
            if_stmts@.len(),
        );
        notes_change_no_statement(
            m,
            others,
            places,
            on(first, fails),
            on(w, fails),
            others.len(),
        );
    }
}

/// A conditional expression evaluates its test, and then one of two expressions: the
/// first where the test is true, the other where it is not. Then the ways meet.
pub proof fn a_conditional_expression_has_two_ways(
    m: Module,
    id: ExprId,
    places: Map<ExprId, int>,
    w: Walk,
)
    requires
        m.wf(),
        id.0 < m.exprs@.len(),
        m.exprs@[id.0 as int] is If,
    ensures
        m.exprs@[id.0 as int] matches Expr::If { if_expr, test, else_expr } ==> {
            let split = evaluated(m, test, places, w);
            let holds = where_holds(split.paths, Predicate::Truthiness(test), true);
            let fails = where_holds(split.paths, Predicate::Truthiness(test), false);
            let first = evaluated(m, if_expr, places, on(split, holds));
            let second = evaluated(m, else_expr, places, on(first, fails));
            evaluated(m, id, places, w) == on(second, second.paths.union(first.paths))
        },
{
    let limit = id.0 as nat;
    assert(crate::def::expr_below(m.params@, m.exprs@[id.0 as int], limit));
    if let Expr::If { if_expr, test, else_expr } = m.exprs@[id.0 as int] {
        expr_is_sound(m, test, places);
        expr_is_sound(m, if_expr, places);
        expr_is_sound(m, else_expr, places);
        ways_meet(
            expr_ops(m, test),
            Predicate::Truthiness(test),
            expr_ops(m, if_expr),
            expr_ops(m, else_expr),
            places,
            w,
        );
    }
}

/// `and` evaluates its right side where the left one is true, and `or` where it is
/// not. The paths on which the right side is not needed go on as they are.
pub proof fn a_connective_may_leave_out_its_right_side(
    m: Module,
    id: ExprId,
    places: Map<ExprId, int>,
    w: Walk,
)
    requires
        m.wf(),
        id.0 < m.exprs@.len(),
        m.exprs@[id.0 as int] matches Expr::Binary { lhs: _, rhs: _, op: Some(BinaryOp::Logic(_)) },
    ensures
        m.exprs@[id.0 as int] matches Expr::Binary { lhs, rhs, op: Some(BinaryOp::Logic(logic)) }
            ==> {
            let needed_if = match logic {
                LogicOp::And => true,
                LogicOp::Or => false,
            };
            let split = evaluated(m, lhs, places, w);
            let needed = where_holds(split.paths, Predicate::Truthiness(lhs), needed_if);
            let skipped = where_holds(split.paths, Predicate::Truthiness(lhs), !needed_if);
            let went = evaluated(m, rhs, places, on(split, needed));
            evaluated(m, id, places, w) == on(went, went.paths.union(skipped))
        },
{
    let limit = id.0 as nat;
    assert(crate::def::expr_below(m.params@, m.exprs@[id.0 as int], limit));
    if let Expr::Binary { lhs, rhs, op: Some(BinaryOp::Logic(logic)) } = m.exprs@[id.0 as int] {
        expr_is_sound(m, lhs, places);
        expr_is_sound(m, rhs, places);
        detour_meets(
            expr_ops(m, lhs),
            Predicate::Truthiness(lhs),
            logic != LogicOp::Or,
            expr_ops(m, rhs),
            places,
            w,
        );
    }
}

/// The body of a lambda runs by itself: it starts with nothing bound, and what stands
/// around it goes on as if it were not there.
pub proof fn a_lambda_runs_apart(m: Module, id: ExprId, places: Map<ExprId, int>, w: Walk)
    requires
        m.wf(),
        id.0 < m.exprs@.len(),
        m.exprs@[id.0 as int] is Lambda,
    ensures
        m.exprs@[id.0 as int] matches Expr::Lambda { func: _, body } ==> evaluated(
            m,
            id,
            places,
            w,
        ) == on(evaluated(m, body, places, on(w, start())), w.paths),
{
    let limit = id.0 as nat;
    assert(crate::def::expr_below(m.params@, m.exprs@[id.0 as int], limit));
    if let Expr::Lambda { func: _, body } = m.exprs@[id.0 as int] {
        expr_is_sound(m, body, places);
        body_is_apart(expr_ops(m, body), places, w);
    }
}

/// What reaches a name is what the paths to it bind it to.
pub proof fn a_name_is_used(m: Module, id: ExprId, places: Map<ExprId, int>, w: Walk)
    requires
        id.0 < m.exprs@.len(),
        m.exprs@[id.0 as int] is Name,
    ensures
        evaluated(m, id, places, w) == (Walk {
            uses: w.uses.insert(id, reaching(w.paths, places[id])),
            ..w
        }),
{
    follow_one(FlowOp::Use(id), places, w);
}

/// The parts of an expression in the order in which they are evaluated, where nothing
/// but their values matters.
pub open spec fn children(e: Expr) -> Seq<ExprId> {
    match e {
        Expr::Unary { expr, op: _ } => seq![expr],
        Expr::Binary { lhs, rhs, op: _ } => seq![lhs, rhs],
        Expr::Dot { expr, field: _ } => seq![expr],
        Expr::Call { callee, args } => seq![callee] + Seq::new(
            args@.len(),
            |i: int| args@[i].value(),
        ),
        Expr::Index { lhs, index } => seq![lhs, index],
        Expr::Slice { lhs, start, end, step } => {
            let none = Seq::<ExprId>::empty();
            let from = if let Some(id) = start {
                seq![id]
            } else {
                none
            };
            let to = if let Some(id) = end {
                seq![id]
            } else {
                none
            };
            let by = if let Some(id) = step {
                seq![id]
            } else {
                none
            };
            seq![lhs] + from + to + by
        },
        Expr::List { exprs } => exprs@,
        Expr::Tuple { exprs } => exprs@,
        Expr::Paren { expr } => seq![expr],
        Expr::Dict { entries } => Seq::new(
            2 * entries@.len(),
            |i: int|
                if i % 2 == 0 {
                    entries@[i / 2].key
                } else {
                    entries@[i / 2].value
                },
        ),
        _ => seq![],
    }
}

proof fn entries_in_order(entries: Seq<crate::def::DictEntry>, n: nat)
    requires
        n <= entries.len(),
    ensures
        crate::scope::entry_parts(entries, n) == Seq::new(
            2 * n,
            |i: int|
                if i % 2 == 0 {
                    entries[i / 2].key
                } else {
                    entries[i / 2].value
                },
        ),
    decreases n,
{
    if n > 0 {
        entries_in_order(entries, (n - 1) as nat);
    }
    assert(crate::scope::entry_parts(entries, n) =~= Seq::new(
        2 * n,
        |i: int|
            if i % 2 == 0 {
                entries[i / 2].key
            } else {
                entries[i / 2].value
            },
    ));
}

/// The plain parts of an expression are its children, in order.
pub proof fn plain_parts_are_children(e: Expr)
    requires
        !(e is If),
    ensures
        plain_parts(e) == children(e),
{
    if let Expr::Dict { entries } = e {
        entries_in_order(entries@, entries@.len());
    }
    assert(plain_parts(e) =~= children(e));
}

proof fn children_are_below(m: Module, id: ExprId)
    requires
        m.wf(),
        id.0 < m.exprs@.len(),
    ensures
        forall|i: int|
            0 <= i < children(m.exprs@[id.0 as int]).len() ==> (#[trigger] children(
                m.exprs@[id.0 as int],
            )[i]).0 < id.0,
{
    let e = m.exprs@[id.0 as int];
    assert(crate::def::expr_below(m.params@, e, id.0 as nat));
    assert forall|i: int| 0 <= i < children(e).len() implies (#[trigger] children(e)[i]).0
        < id.0 by {
        if let Expr::Dict { entries } = e {
            assert(0 <= i / 2 < entries@.len());
            assert(entries@[i / 2].key.0 < id.0);
        }
        if let Expr::Call { callee, args } = e {
            if i > 0 {
                assert(args@[i - 1].value().0 < id.0);
            }
        }
    }
}

/// Any other expression evaluates its parts in order. A call goes on only where it
/// returns.
pub proof fn parts_are_evaluated_in_order(
    m: Module,
    id: ExprId,
    places: Map<ExprId, int>,
    w: Walk,
)
    requires
        m.wf(),
        id.0 < m.exprs@.len(),
        !(m.exprs@[id.0 as int] is Name),
        !(m.exprs@[id.0 as int] is If),
        !(m.exprs@[id.0 as int] is Lambda),
        !(m.exprs@[id.0 as int] is ListComp),
        !(m.exprs@[id.0 as int] is DictComp),
        !(m.exprs@[id.0 as int] matches Expr::Binary {
            lhs: _,
            rhs: _,
            op: Some(BinaryOp::Logic(_)),
        }),
    ensures
        ({
            let e = m.exprs@[id.0 as int];
            let parts = children(e);
            let end = evaluated_all(m, parts, places, w, parts.len());
            evaluated(m, id, places, w) == if e is Call {
                on(end, where_holds(end.paths, Predicate::CallReturns(id), true))
            } else {
                end
            }
        }),
{
    let e = m.exprs@[id.0 as int];
    let limit = id.0 as nat;
    let parts = children(e);
    plain_parts_are_children(e);
    children_are_below(m, id);
    parts_are_evaluated(m, parts, limit, places, w, parts.len());
    exprs_are_sound(m, parts, limit, parts.len(), places);
    let ops = exprs_ops(m, parts, limit, parts.len());
    if e is Call {
        let back = FlowOp::Restrict(Predicate::CallReturns(id));
        follow_on(ops, seq![back], places, w);
        follow_one(back, places, follow(ops, places, w));
    } else if let Expr::Binary { lhs, rhs, op } = e {
        assert(ops =~= part_ops(m, lhs, limit) + part_ops(m, rhs, limit)) by {
            assert(parts =~= seq![lhs, rhs]);
            assert(exprs_ops(m, parts, limit, 0) =~= seq![]);
            assert(exprs_ops(m, parts, limit, 1) =~= part_ops(m, lhs, limit));
            assert(exprs_ops(m, parts, limit, 2) == exprs_ops(m, parts, limit, 1) + part_ops(
                m,
                rhs,
                limit,
            ));
        }
    } else {
        assert(expr_ops(m, id) == ops);
    }
}

/// An assignment to a name binds it anew on every path, whatever it was bound to, and
/// leaves all other names alone. One to a list, a tuple or something in parentheses
/// goes to the parts. Anything else is evaluated in parts, and binds nothing.
pub proof fn an_assignment_binds_its_names(
    m: Module,
    id: ExprId,
    source: ExprId,
    places: Map<ExprId, int>,
    w: Walk,
)
    requires
        m.wf(),
        id.0 < m.exprs@.len(),
    ensures
        given(m, id, source, places, w) == match m.exprs@[id.0 as int] {
            Expr::Name { name: _ } => Walk {
                paths: assigned(w.paths, places[id], id, source),
                uses: w.uses.insert(
                    id,
                    set![(Seq::empty(), Bound::Assigned { target: id, source })],
                ),
                ..w
            },
            Expr::Paren { expr } => given(m, expr, source, places, w),
            Expr::Tuple { exprs } => given_all(m, exprs@, source, places, w, exprs@.len()),
            Expr::List { exprs } => given_all(m, exprs@, source, places, w, exprs@.len()),
            e => {
                let parts = if let Expr::If { if_expr, test, else_expr } = e {
                    seq![if_expr, test, else_expr]
                } else {
                    children(e)
                };
                evaluated_all(m, parts, places, w, parts.len())
            },
        },
{
    let limit = id.0 as nat;
    assert(crate::def::expr_below(m.params@, m.exprs@[id.0 as int], limit));
    match m.exprs@[id.0 as int] {
        Expr::Name { name: _ } => {
            follow_one(FlowOp::Assign { target: id, source }, places, w);
        },
        Expr::Paren { expr } => {},
        Expr::Tuple { exprs } => {
            targets_are_given(m, exprs@, source, limit, places, w, exprs@.len());
        },
        Expr::List { exprs } => {
            targets_are_given(m, exprs@, source, limit, places, w, exprs@.len());
        },
        e => {
            let parts = plain_parts(e);
            if e is If {
            } else {
                plain_parts_are_children(e);
                children_are_below(m, id);
            }
            parts_are_evaluated(m, parts, limit, places, w, parts.len());
        },
    }
}

/// Behind an assignment to a name every path binds it to the value, and binds other
/// names as before.
pub proof fn a_name_is_bound_anew(
    paths: Set<Path>,
    place: int,
    target: ExprId,
    source: ExprId,
    p: Path,
)
    requires
        assigned(paths, place, target, source).contains(p),
    ensures
        p.binding(place) == (Bound::Assigned { target, source }),
        exists|before: Path| #[trigger]
            paths.contains(before) && p.taken == before.taken && forall|other: int|
                other != place ==> p.binding(other) == before.binding(other),
{
    let before = choose|before: Path|
        paths.contains(before) && p == (Path {
            bound: before.bound.insert(place, Bound::Assigned { target, source }),
            ..before
        });
    assert(paths.contains(before));
    assert forall|other: int| other != place implies p.binding(other) == before.binding(
        other,
    ) by {}
}

/// An assignment evaluates its right side before it binds its left one.
pub proof fn an_assignment_evaluates_its_value_first(
    m: Module,
    id: StmtId,
    places: Map<ExprId, int>,
    w: Walk,
)
    requires
        m.wf(),
        id.0 < m.stmts@.len(),
        m.stmts@[id.0 as int] is Assign,
    ensures
        m.stmts@[id.0 as int] matches Stmt::Assign { lhs, rhs, op: _, type_ref: _ } ==> executed(
            m,
            id,
            places,
            w,
        ) == given(m, lhs, rhs, places, evaluated(m, rhs, places, w)),
{
    assert(crate::def::stmt_below(m, m.stmts@[id.0 as int], id.0 as nat));
    if let Stmt::Assign { lhs, rhs, op: _, type_ref: _ } = m.stmts@[id.0 as int] {
        expr_is_sound(m, rhs, places);
        follow_on(expr_ops(m, rhs), assign_ops(m, lhs, rhs), places, w);
    }
}

/// The body of a function runs by itself: it starts with nothing bound, and what
/// stands around it goes on as if it were not there, also where the body ends the
/// flow.
pub proof fn a_function_runs_apart(m: Module, id: StmtId, places: Map<ExprId, int>, w: Walk)
    requires
        m.wf(),
        id.0 < m.stmts@.len(),
        m.stmts@[id.0 as int] is Def,
        stmt_ops(m, id).len() <= usize::MAX,
    ensures
        m.stmts@[id.0 as int] matches Stmt::Def { func: _, stmts } ==> executed(m, id, places, w)
            == on(executed_all(m, stmts@, places, on(w, start()), stmts@.len()), w.paths),
{
    let limit = id.0 as nat;
    assert(crate::def::stmt_below(m, m.stmts@[id.0 as int], limit));
    if let Stmt::Def { func: _, stmts } = m.stmts@[id.0 as int] {
        let b = stmts_ops(m, stmts@, limit, stmts@.len());
        stmts_are_sound(m, stmts@, limit, stmts@.len(), places);
        body_is_apart(b, places, w);
        stmts_are_executed(m, stmts@, limit, places, on(w, start()), stmts@.len());
    }
}

/// `return` evaluates its value, and nothing goes on behind it. Nothing goes on behind
/// `break` and `continue` either, and everything behind a statement that does nothing
/// here.
pub proof fn return_ends_the_flow(m: Module, id: StmtId, places: Map<ExprId, int>, w: Walk)
    requires
        m.wf(),
        id.0 < m.stmts@.len(),
    ensures
        m.stmts@[id.0 as int] matches Stmt::Return { expr: Some(expr) } ==> executed(
            m,
            id,
            places,
            w,
        ) == on(evaluated(m, expr, places, w), Set::empty()),
        m.stmts@[id.0 as int] matches Stmt::Return { expr: None } ==> executed(m, id, places, w)
            == on(w, Set::empty()),
        m.stmts@[id.0 as int] is Break || m.stmts@[id.0 as int] is Continue ==> executed(
            m,
            id,
            places,
            w,
        ) == on(w, Set::empty()),
        m.stmts@[id.0 as int] is Pass || m.stmts@[id.0 as int] is Load ==> executed(
            m,
            id,
            places,
            w,
        ) == w,
        m.stmts@[id.0 as int] matches Stmt::Expr { expr } ==> executed(m, id, places, w)
            == evaluated(m, expr, places, w),
{
    assert(crate::def::stmt_below(m, m.stmts@[id.0 as int], id.0 as nat));
    follow_one(FlowOp::Stop, places, w);
    if let Stmt::Return { expr } = m.stmts@[id.0 as int] {
        match expr {
            Some(expr) => {
                expr_is_sound(m, expr, places);
                follow_on(expr_ops(m, expr), seq![FlowOp::Stop], places, w);
                follow_one(FlowOp::Stop, places, evaluated(m, expr, places, w));
            },
            None => {
                assert(Seq::<FlowOp>::empty() + seq![FlowOp::Stop] =~= seq![FlowOp::Stop]);
                assert(stmt_ops(m, id) =~= seq![FlowOp::Stop]);
            },
        }
    }
}

/// A loop evaluates what it runs over once, and binds its targets. Its body starts
/// from paths on which every name is bound to what some round gave it, and the same
/// paths go on behind the loop, also where the body ends the flow.
pub proof fn a_loop_goes_on_as_it_started(
    m: Module,
    id: StmtId,
    places: Map<ExprId, int>,
    w: Walk,
)
    requires
        m.wf(),
        id.0 < m.stmts@.len(),
        m.stmts@[id.0 as int] is For,
        stmt_ops(m, id).len() <= usize::MAX,
    ensures
        m.stmts@[id.0 as int] matches Stmt::For { iterable, targets, stmts } ==> {
            let over = evaluated(m, iterable, places, w);
            let bound = given_all(m, targets@, iterable, places, over, targets@.len());
            let head = on(bound, looped(bound.paths));
            executed(m, id, places, w) == on(
                executed_all(m, stmts@, places, head, stmts@.len()),
                head.paths,
            )
        },
{
    let limit = id.0 as nat;
    let exprs = m.exprs@.len();
    assert(crate::def::stmt_below(m, m.stmts@[id.0 as int], limit));
    if let Stmt::For { iterable, targets, stmts } = m.stmts@[id.0 as int] {
        let t = part_ops(m, iterable, exprs);
        let a = targets_ops(m, targets@, iterable, exprs, targets@.len());
        let b = stmts_ops(m, stmts@, limit, stmts@.len());
        let again = seq![FlowOp::Loop];
        let body = seq![FlowOp::Keep] + b + seq![FlowOp::Leave];
        let over = evaluated(m, iterable, places, w);
        let bound = given_all(m, targets@, iterable, places, over, targets@.len());
        let head = on(bound, looped(bound.paths));
        assert(stmt_ops(m, id) =~= t + a + again + body);
        expr_is_sound(m, iterable, places);
        targets_are_sound(m, targets@, iterable, exprs, targets@.len(), places);
        stmts_are_sound(m, stmts@, limit, stmts@.len(), places);
        sound_one(FlowOp::Loop, places);
        sound_both(t, a, places);
        sound_both(t + a, again, places);
        follow_on(t, a, places, w);
        follow_on(t + a, again, places, w);
        follow_on(t + a + again, body, places, w);
        targets_are_given(m, targets@, iterable, exprs, places, over, targets@.len());
        follow_one(FlowOp::Loop, places, bound);
        body_returns(b, places, head);
        stmts_are_executed(m, stmts@, limit, places, head, stmts@.len());
    }
}

/// At the head of a loop no path knows what a name is bound to.
pub proof fn a_loop_forgets_bindings(paths: Set<Path>, place: int, p: Path)
    requires
        looped(paths).contains(p),
    ensures
        p.binding(place) == Bound::Loop,
{
}

/// A walk behind the first clauses of a comprehension: each loop evaluates what it
/// runs over and binds its targets, and each test is evaluated.
pub open spec fn clauses_done(
    m: Module,
    clauses: Seq<CompClause>,
    places: Map<ExprId, int>,
    w: Walk,
    from: int,
    n: int,
) -> Walk
    decreases n - from,
{
    if n <= from {
        w
    } else {
        let before = clauses_done(m, clauses, places, w, from, n - 1);
        match clauses[n - 1] {
            CompClause::For { iterable, targets } => given_all(
                m,
                targets@,
                iterable,
                places,
                evaluated(m, iterable, places, before),
                targets@.len(),
            ),
            CompClause::If { test } => evaluated(m, test, places, before),
        }
    }
}

proof fn tests_are_done(
    m: Module,
    clauses: Seq<CompClause>,
    limit: nat,
    places: Map<ExprId, int>,
    w: Walk,
    n: int,
)
    requires
        0 <= n <= clauses.len(),
        crate::def::clauses_below(clauses, limit),
        forall|k: int| 0 <= k < n ==> (#[trigger] clauses[k]) is If,
    ensures
        follow(clauses_ops(m, clauses, limit, n as nat), places, w) == clauses_done(
            m,
            clauses,
            places,
            w,
            0,
            n,
        ),
    decreases n,
{
    if n > 0 {
        tests_are_done(m, clauses, limit, places, w, n - 1);
        tests_are_sound(m, clauses, limit, (n - 1) as nat, places);
        if let CompClause::If { test } = clauses[n - 1] {
            follow_on(
                clauses_ops(m, clauses, limit, (n - 1) as nat),
                part_ops(m, test, limit),
                places,
                w,
            );
        }
    }
}

/// A walk in the first round of a comprehension: its targets are bound, and then the
/// clauses behind it are done.
spec fn round_done(
    m: Module,
    clauses: Seq<CompClause>,
    places: Map<ExprId, int>,
    w: Walk,
    f: int,
    n: int,
) -> Walk {
    match clauses[f] {
        CompClause::For { iterable, targets } => clauses_done(
            m,
            clauses,
            places,
            given_all(m, targets@, iterable, places, w, targets@.len()),
            f + 1,
            n,
        ),
        CompClause::If { test: _ } => w,
    }
}

proof fn round_is_done(
    m: Module,
    clauses: Seq<CompClause>,
    limit: nat,
    places: Map<ExprId, int>,
    w: Walk,
    f: int,
    n: int,
)
    requires
        is_first_loop(clauses, f),
        f < n <= clauses.len(),
        crate::def::clauses_below(clauses, limit),
    ensures
        follow(round_ops(m, clauses, limit, f, n), places, w) == round_done(
            m,
            clauses,
            places,
            w,
            f,
            n,
        ),
    decreases n,
{
    if n == f + 1 {
        if let CompClause::For { iterable, targets } = clauses[f] {
            assert(crate::def::all_below(targets@, limit));
            targets_are_given(m, targets@, iterable, limit, places, w, targets@.len());
        }
    } else {
        let before = round_ops(m, clauses, limit, f, n - 1);
        round_is_done(m, clauses, limit, places, w, f, n - 1);
        round_is_sound(m, clauses, limit, f, n - 1, places);
        let mid = follow(before, places, w);
        match clauses[n - 1] {
            CompClause::For { iterable, targets } => {
                let a = part_ops(m, iterable, limit);
                let b = targets_ops(m, targets@, iterable, limit, targets@.len());
                assert(crate::def::all_below(targets@, limit));
                assert(iterable.0 < limit);
                part_is_sound(m, iterable, limit, places);
                follow_on(before, a + b, places, w);
                follow_on(a, b, places, mid);
                targets_are_given(
                    m,
                    targets@,
                    iterable,
                    limit,
                    places,
                    evaluated(m, iterable, places, mid),
                    targets@.len(),
                );
            },
            CompClause::If { test } => {
                assert(test.0 < limit);
                follow_on(before, part_ops(m, test, limit), places, w);
            },
        }
    }
}

/// What a comprehension collects.
pub open spec fn collected(e: Expr) -> Seq<ExprId> {
    match e {
        Expr::ListComp { expr, comp_clauses: _ } => seq![expr],
        Expr::DictComp { entry, comp_clauses: _ } => seq![entry.key, entry.value],
        _ => seq![],
    }
}

/// The clauses of a comprehension.
pub open spec fn clauses_of(e: Expr) -> Seq<CompClause> {
    match e {
        Expr::ListComp { expr: _, comp_clauses } => comp_clauses@,
        Expr::DictComp { entry: _, comp_clauses } => comp_clauses@,
        _ => seq![],
    }
}

/// A comprehension evaluates what its first loop runs over in any case. All that
/// follows may be skipped: the targets are bound, the clauses behind the loop are
/// done and what is collected is evaluated on the paths on which there is a round.
pub proof fn a_comprehension_may_be_empty(
    m: Module,
    id: ExprId,
    places: Map<ExprId, int>,
    w: Walk,
    f: int,
)
    requires
        m.wf(),
        id.0 < m.exprs@.len(),
        m.exprs@[id.0 as int] is ListComp || m.exprs@[id.0 as int] is DictComp,
        0 <= f < clauses_of(m.exprs@[id.0 as int]).len(),
        clauses_of(m.exprs@[id.0 as int])[f] is For,
        forall|k: int|
            0 <= k < f ==> (#[trigger] clauses_of(m.exprs@[id.0 as int])[k]) is If,
    ensures
        ({
            let e = m.exprs@[id.0 as int];
            let clauses = clauses_of(e);
            let tested = clauses_done(m, clauses, places, w, 0, f);
            clauses[f] matches CompClause::For { iterable, targets } ==> {
                let split = evaluated(m, iterable, places, tested);
                let runs = where_holds(split.paths, Predicate::Branch, true);
                let skips = where_holds(split.paths, Predicate::Branch, false);
                let bound = given_all(
                    m,
                    targets@,
                    iterable,
                    places,
                    on(split, runs),
                    targets@.len(),
                );
                let inner = clauses_done(
                    m,
                    clauses,
                    places,
                    bound,
                    f + 1,
                    clauses.len() as int,
                );
                let went = evaluated_all(m, collected(e), places, inner, collected(e).len());
                evaluated(m, id, places, w) == on(went, went.paths.union(skips))
            }
        }),
{
    let limit = id.0 as nat;
    let e = m.exprs@[id.0 as int];
    let clauses = clauses_of(e);
    let n = clauses.len() as int;
    let parts = collected(e);
    let body = exprs_ops(m, parts, limit, parts.len());
    let head = head_ops(m, clauses, limit, f);
    let round = round_ops(m, clauses, limit, f, n);
    assert(crate::def::expr_below(m.params@, e, limit));
    assert(crate::def::clauses_below(clauses, limit));
    assert(is_first_loop(clauses, f));
    assert(exprs_ops(m, parts, limit, 0) =~= seq![]);
    assert(exprs_ops(m, parts, limit, 1) =~= part_ops(m, parts[0], limit));
    if e is DictComp {
        assert(exprs_ops(m, parts, limit, 2) =~= part_ops(m, parts[0], limit) + part_ops(
            m,
            parts[1],
            limit,
        ));
    }
    assert(expr_ops(m, id) =~= skipped_ops(m, clauses, limit) + body + seq![FlowOp::Merge]);
    comprehension_splits(m, clauses, limit, body, f);
    head_is_sound(m, clauses, limit, f, places);
    round_is_sound(m, clauses, limit, f, n, places);
    exprs_are_sound(m, parts, limit, parts.len(), places);
    sound_both(round, body, places);
    detour_meets(head, Predicate::Branch, true, round + body, places, w);
    if let CompClause::For { iterable, targets } = clauses[f] {
        assert(iterable.0 < limit);
        let tests = clauses_ops(m, clauses, limit, f as nat);
        tests_are_sound(m, clauses, limit, f as nat, places);
        tests_are_done(m, clauses, limit, places, w, f);
        follow_on(tests, part_ops(m, iterable, limit), places, w);
        let split = follow(head, places, w);
        let runs = on(split, where_holds(split.paths, Predicate::Branch, true));
        follow_on(round, body, places, runs);
        round_is_done(m, clauses, limit, places, runs, f, n);
        parts_are_evaluated(
            m,
            parts,
            limit,
            places,
            follow(round, places, runs),
            parts.len(),
        );
    }
}

/// The flow of a module is that of its statements, in order.
pub proof fn a_module_runs_its_statements(m: Module, places: Map<ExprId, int>, w: Walk)
    requires
        m.wf(),
        module_ops(m).len() <= usize::MAX,
    ensures
        follow(module_ops(m), places, w) == executed_all(
            m,
            m.top_level@,
            places,
            w,
            m.top_level@.len(),
        ),
{
    stmts_are_executed(m, m.top_level@, m.stmts@.len(), places, w, m.top_level@.len());
}

} // verus!
