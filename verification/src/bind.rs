//! Binding all arguments of a call, one question to the matcher after the other.
//!
//! The names that are passed are announced first, so that an unpacked list does not
//! take their parameters. Then each argument is bound. Unpacked dictionaries whose
//! keys are unknown come last, for what is left.

use vstd::prelude::*;

use crate::call::{step_of, Action, ExpandedArgument, Reply, Signature, Stage};
use crate::def::ExprId;
use crate::text::{same, views};

verus! {

/// How far binding is.
#[derive(Clone, Copy, Debug, PartialEq, Eq, Structural)]
pub enum Phase {
    Announcing,
    Binding,
    Expanding,
}

/// What to do next. Arguments are known by their numbers.
#[derive(Clone, Copy, Debug, PartialEq, Eq, Structural)]
pub enum BindAction {
    /// Tell the matcher that a name is passed.
    Announce { argument: usize },
    /// Ask the matcher about an argument.
    Ask { argument: usize, action: Action },
    /// Give the parameters that are left what an unpacked dictionary may hold.
    Expand { argument: usize },
    Finished,
}

/// The state of binding.
#[derive(Debug)]
pub struct CallBinding {
    pub phase: Phase,
    pub at: usize,
    pub stage: Stage,
    pub names: Vec<String>,
    pub deferred: Vec<usize>,
    pub errors: Vec<(ExprId, String)>,
}

/// The content of the state of binding.
pub struct BindView {
    pub phase: Phase,
    pub at: int,
    pub stage: Stage,
    pub names: Seq<Seq<char>>,
    pub deferred: Seq<usize>,
    pub errors: Seq<(ExprId, Seq<char>)>,
}

/// The contents of errors.
pub open spec fn told(errors: Seq<(ExprId, String)>) -> Seq<(ExprId, Seq<char>)> {
    Seq::new(errors.len(), |i: int| (errors[i].0, errors[i].1@))
}

impl View for CallBinding {
    type V = BindView;

    open spec fn view(&self) -> BindView {
        BindView {
            phase: self.phase,
            at: self.at as int,
            stage: self.stage,
            names: views(self.names@),
            deferred: self.deferred@,
            errors: told(self.errors@),
        }
    }
}

/// The name of an argument.
pub open spec fn name_of(arg: ExpandedArgument) -> Option<Seq<char>> {
    match arg {
        ExpandedArgument::Keyword(name, _) => Some(name@),
        _ => None,
    }
}

/// The expression of an argument.
pub open spec fn expr_of(arg: ExpandedArgument) -> ExprId {
    match arg {
        ExpandedArgument::Positional(value) => value.expr,
        ExpandedArgument::Keyword(_, value) => value.expr,
        ExpandedArgument::Variadic(value) => value.expr,
        ExpandedArgument::Keywords(value) => value.expr,
    }
}

/// The next argument with a name, the `k`-th or later.
pub open spec fn next_named(args: Seq<ExpandedArgument>, k: int) -> int
    decreases args.len() - k,
{
    if k < 0 || k >= args.len() || name_of(args[k]) is Some {
        k
    } else {
        next_named(args, k + 1)
    }
}

/// The state once an answer for the argument at hand came, and what to ask next of
/// it.
pub open spec fn answered(
    s: Signature,
    args: Seq<ExpandedArgument>,
    b: BindView,
    reply: Reply,
) -> (BindView, Action) {
    let arg = args[b.at];
    let repeated = name_of(arg) is Some && b.names.contains(name_of(arg)->0);
    let step = step_of(s, arg, repeated, b.stage, reply);
    let errors = match step.2 {
        Some(message) => b.errors.push((expr_of(arg), message)),
        None => b.errors,
    };
    (BindView { stage: step.0, errors, ..b }, step.1)
}

/// The state once the argument at hand is done: its name is known, and an unpacked
/// dictionary is put off.
pub open spec fn passed(args: Seq<ExpandedArgument>, b: BindView, action: Action) -> BindView {
    BindView {
        at: b.at + 1,
        stage: Stage::Start,
        names: match name_of(args[b.at]) {
            Some(name) => b.names.push(name),
            None => b.names,
        },
        deferred: if action == Action::Defer {
            b.deferred.push(b.at as usize)
        } else {
            b.deferred
        },
        ..b
    }
}

/// Binding from the argument at hand on, until something is asked.
pub open spec fn bound_next(
    s: Signature,
    args: Seq<ExpandedArgument>,
    b: BindView,
    reply: Reply,
) -> (BindView, BindAction)
    decreases args.len() - b.at,
{
    if b.at < 0 || b.at >= args.len() {
        expanded_next(BindView { phase: Phase::Expanding, at: 0, ..b })
    } else {
        let (next, action) = answered(s, args, b, reply);
        if action == Action::Done || action == Action::Defer {
            bound_next(s, args, passed(args, next, action), Reply::Nothing)
        } else {
            (next, BindAction::Ask { argument: b.at as usize, action })
        }
    }
}

/// What is left to expand.
pub open spec fn expanded_next(b: BindView) -> (BindView, BindAction) {
    if 0 <= b.at < b.deferred.len() {
        (BindView { at: b.at + 1, ..b }, BindAction::Expand { argument: b.deferred[b.at] })
    } else {
        (b, BindAction::Finished)
    }
}

/// The next state and what to do, once an answer came.
pub open spec fn bind_next(
    s: Signature,
    args: Seq<ExpandedArgument>,
    b: BindView,
    reply: Reply,
) -> (BindView, BindAction) {
    match b.phase {
        Phase::Announcing => {
            let k = next_named(args, b.at);
            if k < args.len() {
                (BindView { at: k + 1, ..b }, BindAction::Announce { argument: k as usize })
            } else {
                bound_next(
                    s,
                    args,
                    BindView { phase: Phase::Binding, at: 0, stage: Stage::Start, ..b },
                    Reply::Nothing,
                )
            }
        },
        Phase::Binding => bound_next(s, args, b, reply),
        Phase::Expanding => expanded_next(b),
    }
}

/// The name of an argument.
fn arg_name(arg: &ExpandedArgument) -> (r: Option<&str>)
    ensures
        match r {
            Some(name) => name_of(*arg) == Some(name@),
            None => name_of(*arg) is None,
        },
{
    match arg {
        ExpandedArgument::Keyword(name, _) => Some(name.as_str()),
        _ => None,
    }
}

/// The expression of an argument.
fn arg_expr(arg: &ExpandedArgument) -> (r: ExprId)
    ensures
        r == expr_of(*arg),
{
    match arg {
        ExpandedArgument::Positional(value) => value.expr,
        ExpandedArgument::Keyword(_, value) => value.expr,
        ExpandedArgument::Variadic(value) => value.expr,
        ExpandedArgument::Keywords(value) => value.expr,
    }
}

/// Whether a name is in a list.
fn has_name(names: &Vec<String>, name: &str) -> (r: bool)
    ensures
        r == views(names@).contains(name@),
{
    let mut i: usize = 0;
    while i < names.len()
        invariant
            i <= names@.len(),
            forall|k: int| 0 <= k < i ==> #[trigger] views(names@)[k] != name@,
        decreases names@.len() - i,
    {
        proof {
            assert(views(names@)[i as int] == names@[i as int]@);
        }
        if same(names[i].as_str(), name) {
            return true;
        }
        i = i + 1;
    }
    false
}

impl CallBinding {
    /// Whether the state is one that binding some arguments leads to.
    pub open spec fn wf(self, args: Seq<ExpandedArgument>) -> bool {
        match self.phase {
            Phase::Announcing => self.at <= args.len(),
            Phase::Binding => self.at <= args.len(),
            Phase::Expanding => self.at <= self.deferred@.len(),
        }
    }

    pub fn new() -> (r: Self)
        ensures
            forall|args: Seq<ExpandedArgument>| #[trigger] r.wf(args),
            r@ == (BindView {
                phase: Phase::Announcing,
                at: 0,
                stage: Stage::Start,
                names: seq![],
                deferred: seq![],
                errors: seq![],
            }),
    {
        let r = CallBinding {
            phase: Phase::Announcing,
            at: 0,
            stage: Stage::Start,
            names: Vec::new(),
            deferred: Vec::new(),
            errors: Vec::new(),
        };
        proof {
            assert(views(r.names@) =~= seq![]);
            assert(told(r.errors@) =~= seq![]);
            assert(r.deferred@ =~= seq![]);
        }
        r
    }

    /// Takes the last answer of the matcher, and says what to do next.
    pub fn bind(&mut self, s: &Signature, args: &Vec<ExpandedArgument>, reply: Reply) -> (r: BindAction)
        requires
            old(self).wf(args@),
        ensures
            final(self).wf(args@),
            (final(self)@, r) == bind_next(*s, args@, old(self)@, reply),
    {
        let mut reply = reply;
        if self.phase == Phase::Announcing {
            let ghost start = self@;
            let mut k: usize = self.at;
            while k < args.len() && arg_name(&args[k]).is_none()
                invariant
                    k <= args@.len(),
                    next_named(args@, start.at) == next_named(args@, k as int),
                decreases args@.len() - k,
            {
                k = k + 1;
            }
            if k < args.len() {
                self.at = k + 1;
                return BindAction::Announce { argument: k };
            }
            self.phase = Phase::Binding;
            self.at = 0;
            self.stage = Stage::Start;
            reply = Reply::Nothing;
        }
        if self.phase == Phase::Binding {
            return self.bind_args(s, args, reply);
        }
        self.expand_next()
    }

    /// Binds from the argument at hand on, until something is asked.
    fn bind_args(&mut self, s: &Signature, args: &Vec<ExpandedArgument>, reply: Reply) -> (r:
        BindAction)
        requires
            old(self).wf(args@),
            old(self).phase == Phase::Binding,
        ensures
            final(self).wf(args@),
            (final(self)@, r) == bound_next(*s, args@, old(self)@, reply),
    {
        let ghost start = self@;
        let mut current = reply;
        while self.at < args.len()
            invariant
                self.at <= args@.len(),
                self.phase == Phase::Binding,
                start == old(self)@,
                bound_next(*s, args@, start, reply) == bound_next(*s, args@, self@, current),
            decreases args@.len() - self.at,
        {
            let ghost before = self@;
            let action = self.answer(s, args, current);
            if action != Action::Done && action != Action::Defer {
                return BindAction::Ask { argument: self.at, action };
            }
            self.pass(args, action);
            current = Reply::Nothing;
        }
        self.phase = Phase::Expanding;
        self.at = 0;
        self.expand_next()
    }

    /// Takes an answer for the argument at hand.
    fn answer(&mut self, s: &Signature, args: &Vec<ExpandedArgument>, reply: Reply) -> (r: Action)
        requires
            old(self).at < args@.len(),
        ensures
            (final(self)@, r) == answered(*s, args@, old(self)@, reply),
            final(self).at == old(self).at,
            final(self).phase == old(self).phase,
    {
        let ghost start = self@;
        let arg = &args[self.at];
        let repeated = match arg_name(arg) {
            Some(name) => has_name(&self.names, name),
            None => false,
        };
        let (stage, action, error) = s.bind_step(arg, repeated, self.stage, reply);
        self.stage = stage;
        match error {
            Some(text) => {
                let ghost before = told(self.errors@);
                let expr = arg_expr(arg);
                self.errors.push((expr, text));
                proof {
                    assert(told(self.errors@) =~= before.push((expr, text@)));
                }
            },
            None => {},
        }
        proof {
            assert(self@ == answered(*s, args@, start, reply).0);
        }
        action
    }

    /// Goes on to the next argument.
    fn pass(&mut self, args: &Vec<ExpandedArgument>, action: Action)
        requires
            old(self).at < args@.len(),
        ensures
            final(self)@ == passed(args@, old(self)@, action),
            final(self).phase == old(self).phase,
    {
        let ghost start = self@;
        let count: usize = args.len();
        if action == Action::Defer {
            self.deferred.push(self.at);
        }
        match arg_name(&args[self.at]) {
            Some(name) => {
                let ghost before = views(self.names@);
                self.names.push(name.to_owned());
                proof {
                    assert(views(self.names@) =~= before.push(name@));
                }
            },
            None => {},
        }
        self.stage = Stage::Start;
        self.at = self.at + 1;
        proof {
            assert(self@ == passed(args@, start, action));
        }
    }

    /// Goes on to the next unpacked dictionary that was put off.
    fn expand_next(&mut self) -> (r: BindAction)
        requires
            old(self).phase == Phase::Expanding,
            old(self).at <= old(self).deferred@.len(),
        ensures
            final(self).phase == Phase::Expanding,
            final(self).at <= final(self).deferred@.len(),
            (final(self)@, r) == expanded_next(old(self)@),
    {
        if self.at < self.deferred.len() {
            let argument = self.deferred[self.at];
            self.at = self.at + 1;
            BindAction::Expand { argument }
        } else {
            BindAction::Finished
        }
    }
}

/// Announcing names comes first: no argument is asked about before every name was
/// announced.
pub proof fn names_are_announced_first(
    s: Signature,
    args: Seq<ExpandedArgument>,
    b: BindView,
    reply: Reply,
)
    requires
        b.phase == Phase::Announcing,
        0 <= b.at <= args.len(),
        bind_next(s, args, b, reply).1 is Ask,
    ensures
        forall|k: int| b.at <= k < args.len() ==> name_of(#[trigger] args[k]) is None,
{
    none_is_named(args, b.at);
}

proof fn none_is_named(args: Seq<ExpandedArgument>, k: int)
    requires
        0 <= k <= args.len(),
    ensures
        k <= next_named(args, k) <= args.len(),
        next_named(args, k) == args.len() ==> forall|j: int|
            k <= j < args.len() ==> name_of(#[trigger] args[j]) is None,
    decreases args.len() - k,
{
    if k < args.len() && name_of(args[k]) is None {
        none_is_named(args, k + 1);
    }
}

} // verus!
