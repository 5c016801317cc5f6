//! Resolving names: in the scopes of a module, in the prelude, and among the
//! builtins.

use std::sync::Arc;

use vstd::prelude::*;

use crate::builtin_tables::{APIGlobals, BuiltinGlobals};
use crate::builtins::BuiltinFunctionData;
use crate::common::{APIContext, File};
use crate::def::{missing_text, ExprId, ModuleSourceMap, Name, StmtId, TypeRef};
use crate::name_map::NameMap;
use crate::scope::{
    chain, scope_exists, Binding, Env, ExecutionScope, Scope, ScopeDef, ScopeHirId, Scopes,
};
use crate::syntax::Span;
use crate::text::same;

verus! {

/// What another file can load: a variable or a function.
#[derive(Clone, Copy, Debug, PartialEq, Eq, Structural)]
pub enum Export {
    Variable(ExprId),
    Function(StmtId),
}

/// What an exported definition is in its own file.
pub open spec fn definition_of(e: Export) -> ScopeDef {
    match e {
        Export::Variable(expr) => ScopeDef::Variable(expr),
        Export::Function(stmt) => ScopeDef::Function(stmt),
    }
}

impl Export {
    /// What an exported definition is in its own file.
    pub fn definition(self) -> (r: ScopeDef)
        ensures
            r == definition_of(self),
    {
        match self {
            Export::Variable(expr) => ScopeDef::Variable(expr),
            Export::Function(stmt) => ScopeDef::Function(stmt),
        }
    }
}

/// The kinds of definitions that a search accepts.
#[derive(Clone, Copy, PartialEq, Eq, Structural)]
pub enum Accept {
    Exports,
    Prelude,
    Everything,
}

/// Whether a search accepts a definition. Parameters never leave their function.
pub open spec fn accepts(accept: Accept, def: ScopeDef) -> bool {
    match accept {
        Accept::Exports => def is Variable || def is Function,
        Accept::Prelude => def is Variable || def is Function || def is LoadItem,
        Accept::Everything => true,
    }
}

/// The innermost binding of a name that a search accepts.
pub open spec fn innermost(env: Env, name: Seq<char>, accept: Accept) -> Option<Binding>
    decreases env.len(),
{
    if env.len() == 0 {
        None
    } else if env.last().name == name && accepts(accept, env.last().def) {
        Some(env.last())
    } else {
        innermost(env.drop_last(), name, accept)
    }
}

/// Whether a name is private to its file.
pub open spec fn is_private(name: Seq<char>) -> bool {
    name.len() > 0 && name[0] == '_'
}

/// What a file exports under a name: its innermost variable or function,
/// unless the name is private.
pub open spec fn exported(env: Env, name: Seq<char>) -> Option<ScopeDef> {
    if is_private(name) {
        None
    } else {
        match innermost(env, name, Accept::Exports) {
            Some(b) => Some(b.def),
            None => None,
        }
    }
}

/// The definitions of a name, from the innermost on, as far as they happen in
/// one piece of code.
pub open spec fn definitions(env: Env, name: Seq<char>, execution: Option<ExecutionScope>) -> Seq<
    ScopeDef,
>
    decreases env.len(),
{
    if env.len() == 0 {
        Seq::empty()
    } else if env.last().name != name {
        definitions(env.drop_last(), name, execution)
    } else if execution is None || execution == Some(env.last().execution) {
        seq![env.last().def] + definitions(env.drop_last(), name, Some(env.last().execution))
    } else {
        Seq::empty()
    }
}

/// A definition of a name: the scope that binds it, and the piece of code that the
/// scope is in.
#[derive(Clone, Copy, Debug)]
pub struct SymbolDef {
    pub scope: usize,
    pub execution_scope: ExecutionScope,
    pub def: ScopeDef,
}

/// The definitions of a name from a scope outwards, as far as they are in one piece of
/// code: in `execution`, if that is known.
pub open spec fn symbols(
    scopes: Seq<Scope>,
    id: Option<usize>,
    name: Seq<char>,
    execution: Option<ExecutionScope>,
) -> Seq<SymbolDef>
    decreases
            match id {
                Some(i) => i + 1,
                None => 0,
            },
{
    match id {
        Some(i) => if i < scopes.len() && (scopes[i as int].parent matches Some(p) ==> p < i) {
            let scope = scopes[i as int];
            if scope.name@ != name {
                symbols(scopes, scope.parent, name, execution)
            } else if execution is None || execution == Some(scope.execution) {
                let symbol = SymbolDef {
                    scope: i,
                    execution_scope: scope.execution,
                    def: scope.def,
                };
                seq![symbol] + symbols(scopes, scope.parent, name, Some(scope.execution))
            } else {
                Seq::empty()
            }
        } else {
            Seq::empty()
        },
        None => Seq::empty(),
    }
}

/// What symbols define.
pub open spec fn defs_of(symbols: Seq<SymbolDef>) -> Seq<ScopeDef> {
    Seq::new(symbols.len(), |i: int| symbols[i].def)
}

/// The definitions that are found are those that a place sees, all in one piece of
/// code.
proof fn symbols_are_seen(
    scopes: Seq<Scope>,
    id: Option<usize>,
    name: Seq<char>,
    execution: Option<ExecutionScope>,
)
    ensures
        defs_of(symbols(scopes, id, name, execution)) == definitions(
            chain(scopes, id),
            name,
            execution,
        ),
        forall|k: int|
            0 <= k < symbols(scopes, id, name, execution).len() ==> (#[trigger] symbols(
                scopes,
                id,
                name,
                execution,
            )[k]).execution_scope == (match execution {
                Some(execution) => execution,
                None => symbols(scopes, id, name, execution)[0].execution_scope,
            }),
    decreases
            match id {
                Some(i) => i + 1,
                None => 0,
            },
{
    let all = symbols(scopes, id, name, execution);
    let env = chain(scopes, id);
    match id {
        Some(i) => {
            if i < scopes.len() && (scopes[i as int].parent matches Some(p) ==> p < i) {
                let scope = scopes[i as int];
                let outer = chain(scopes, scope.parent);
                assert(env.drop_last() =~= outer);
                if scope.name@ != name {
                    symbols_are_seen(scopes, scope.parent, name, execution);
                } else if execution is None || execution == Some(scope.execution) {
                    symbols_are_seen(scopes, scope.parent, name, Some(scope.execution));
                    let rest = symbols(scopes, scope.parent, name, Some(scope.execution));
                    assert(defs_of(all) =~= seq![scope.def] + defs_of(rest));
                    assert forall|k: int| 0 <= k < all.len() implies (
                    #[trigger] all[k]).execution_scope == scope.execution by {
                        if k > 0 {
                            assert(all[k] == rest[k - 1]);
                        }
                    }
                } else {
                    assert(defs_of(all) =~= Seq::empty());
                }
            } else {
                assert(defs_of(all) =~= Seq::empty());
            }
        },
        None => {
            assert(defs_of(all) =~= Seq::empty());
        },
    }
}

/// Whether a place with the range `range` holds `offset`, its end included.
pub open spec fn touches(range: Option<Span>, offset: u32) -> bool {
    match range {
        Some(range) => range.start <= offset <= range.end,
        None => false,
    }
}

/// The range of a place.
pub open spec fn place_range(map: ModuleSourceMap, place: ScopeHirId) -> Option<Span> {
    match place {
        ScopeHirId::Module => Some(map.root),
        ScopeHirId::Expr(id) => if id.0 < map.expr_map_back@.len() {
            map.expr_map_back@[id.0 as int]
        } else {
            None
        },
        ScopeHirId::Def(id) => if id.0 < map.stmt_map_back@.len() {
            Some(map.stmt_map_back@[id.0 as int])
        } else {
            None
        },
    }
}

/// The length of a place around an offset.
pub open spec fn place_len(map: ModuleSourceMap, place: ScopeHirId) -> int {
    match place_range(map, place) {
        Some(range) => range.end - range.start,
        None => 0,
    }
}

/// Whether the names that `env` binds are those of `names`, each once.
pub open spec fn names_of(env: Env, skip_private: bool, names: Seq<String>) -> bool {
    &&& forall|i: int|
        0 <= i < names.len() ==> binds_name(env, skip_private, (#[trigger] names[i])@)
    &&& forall|text: Seq<char>| #[trigger]
        binds_name(env, skip_private, text) ==> crate::builtin_tables::lists(names, text)
    &&& forall|i: int, j: int|
        0 <= i < j < names.len() ==> (#[trigger] names[i])@ != (#[trigger] names[j])@
}

/// Whether `env` binds a name that is shown.
pub open spec fn binds_name(env: Env, skip_private: bool, text: Seq<char>) -> bool {
    &&& text != missing_text()
    &&& !(skip_private && is_private(text))
    &&& exists|i: int| 0 <= i < env.len() && (#[trigger] env[i]).name == text
}

/// Resolves the names of a module as a place sees them.
pub struct Resolver<'a> {
    pub scopes: &'a Scopes,
    pub scope: Option<usize>,
}

impl<'a> Resolver<'a> {
    /// The bindings that the place sees.
    pub open spec fn env(self) -> Env {
        chain(self.scopes.scopes@, self.scope)
    }

    /// Whether the scope exists.
    pub open spec fn wf(self) -> bool {
        self.scopes.wf() && scope_exists(self.scopes.scopes@, self.scope)
    }

    /// What the end of the module sees.
    pub fn new_for_module(scopes: &'a Scopes) -> (r: Self)
        requires
            scopes.wf(),
        ensures
            r.wf(),
            r.scopes == scopes,
            r.env() == first_seen(scopes.seen(), ScopeHirId::Module),
    {
        Self::new_for_place(scopes, ScopeHirId::Module)
    }

    /// What an expression sees.
    pub fn new_for_expr(scopes: &'a Scopes, expr: ExprId) -> (r: Self)
        requires
            scopes.wf(),
        ensures
            r.wf(),
            r.scopes == scopes,
            r.env() == first_seen(scopes.seen(), ScopeHirId::Expr(expr)),
    {
        Self::new_for_place(scopes, ScopeHirId::Expr(expr))
    }

    /// What the end of a piece of code sees.
    pub fn new_for_hir_execution_scope(scopes: &'a Scopes, stmt: StmtId) -> (r: Self)
        requires
            scopes.wf(),
        ensures
            r.wf(),
            r.scopes == scopes,
            r.env() == first_seen(scopes.seen(), ScopeHirId::Def(stmt)),
    {
        Self::new_for_place(scopes, ScopeHirId::Def(stmt))
    }

    /// What a place sees; an unknown place sees nothing.
    pub fn new_for_place(scopes: &'a Scopes, place: ScopeHirId) -> (r: Self)
        requires
            scopes.wf(),
        ensures
            r.wf(),
            r.scopes == scopes,
            r.env() == first_seen(scopes.seen(), place),
    {
        match scopes.scope_for_hir_id(place) {
            Some(scope) => {
                proof {
                    let k = choose|k: int|
                        #[trigger] scopes.is_first(place, k) && scopes.places@[k].1 == scope;
                    assert forall|j: int| 0 <= j < k implies (#[trigger] scopes.seen()[j]).0
                        != place by {
                        assert(scopes.places@[j].0 != place);
                    }
                    first_is_seen(scopes.seen(), place, k);
                }
                Resolver { scopes, scope }
            },
            None => {
                proof {
                    assert forall|j: int| 0 <= j < scopes.seen().len() implies (
                    #[trigger] scopes.seen()[j]).0 != place by {
                        assert(scopes.places@[j].0 != place);
                    }
                    none_is_seen(scopes.seen(), place);
                }
                Resolver { scopes, scope: None }
            },
        }
    }

    /// What the smallest recorded place around an offset sees; of two of one
    /// size the later record counts.
    pub fn new_for_offset(scopes: &'a Scopes, map: &ModuleSourceMap, offset: u32) -> (r: Self)
        requires
            scopes.wf(),
        ensures
            r.wf(),
            r.scopes == scopes,
            (exists|k: int|
                0 <= k < scopes.places@.len() && is_smallest(scopes.places@, *map, offset, k)
                    && r.scope == (#[trigger] scopes.places@[k]).1) || (r.scope is None && forall|
                k: int,
            |
                0 <= k < scopes.places@.len() ==> !touches(
                    place_range(*map, (#[trigger] scopes.places@[k]).0),
                    offset,
                )),
    {
        let mut best: Option<usize> = None;
        let mut k: usize = 0;
        while k < scopes.places.len()
            invariant
                k <= scopes.places@.len(),
                match best {
                    Some(b) => b < k && is_smallest(
                        scopes.places@.take(k as int),
                        *map,
                        offset,
                        b as int,
                    ),
                    None => forall|j: int|
                        0 <= j < k ==> !touches(
                            place_range(*map, (#[trigger] scopes.places@[j]).0),
                            offset,
                        ),
                },
            decreases scopes.places@.len() - k,
        {
            let ghost before = scopes.places@.take(k as int);
            let ghost now = scopes.places@.take(k + 1);
            let range = range_of(map, scopes.places[k].0);
            let held = match range {
                Some(range) => range.start <= offset && offset <= range.end,
                None => false,
            };
            if held {
                let closer = match best {
                    Some(b) => len_of(map, scopes.places[k].0) <= len_of(map, scopes.places[b].0),
                    None => true,
                };
                if closer {
                    proof {
                        match best {
                            Some(b) => {
                                assert(before[b as int] == now[b as int]);
                            },
                            None => {},
                        }
                        assert(now[k as int] == scopes.places@[k as int]);
                        assert forall|j: int| 0 <= j < now.len() && touches(
                            place_range(*map, (#[trigger] now[j]).0),
                            offset,
                        ) implies place_len(*map, now[k as int].0) <= place_len(*map, now[j].0)
                            && (j > k ==> place_len(*map, now[k as int].0) < place_len(
                            *map,
                            now[j].0,
                        )) by {
                            if j < k {
                                assert(now[j] == before[j]);
                                assert(now[j] == scopes.places@[j]);
                            }
                        }
                    }
                    best = Some(k);
                } else {
                    proof {
                        let b = best->0 as int;
                        assert(before[b] == now[b]);
                        assert forall|j: int| 0 <= j < now.len() && touches(
                            place_range(*map, (#[trigger] now[j]).0),
                            offset,
                        ) implies place_len(*map, now[b].0) <= place_len(*map, now[j].0) && (j > b
                            ==> place_len(*map, now[b].0) < place_len(*map, now[j].0)) by {
                            if j < k {
                                assert(now[j] == before[j]);
                            }
                        }
                    }
                }
            } else {
                proof {
                    match best {
                        Some(b) => {
                            assert(before[b as int] == now[b as int]);
                            assert forall|j: int| 0 <= j < now.len() && touches(
                                place_range(*map, (#[trigger] now[j]).0),
                                offset,
                            ) implies place_len(*map, now[b as int].0) <= place_len(
                                *map,
                                now[j].0,
                            ) && (j > b ==> place_len(*map, now[b as int].0) < place_len(
                                *map,
                                now[j].0,
                            )) by {
                                assert(j < k);
                                assert(now[j] == before[j]);
                            }
                        },
                        None => {},
                    }
                }
            }
            k = k + 1;
        }
        proof {
            assert(scopes.places@.take(k as int) =~= scopes.places@);
        }
        match best {
            Some(b) => Resolver { scopes, scope: scopes.places[b].1 },
            None => Resolver { scopes, scope: None },
        }
    }

    /// The innermost definition of a name that a search accepts.
    pub fn find(&self, name: &str, accept: Accept) -> (r: Option<ScopeDef>)
        requires
            self.wf(),
        ensures
            r == match innermost(self.env(), name@, accept) {
                Some(b) => Some(b.def),
                None => None,
            },
    {
        let mut current = self.scope;
        proof {
            assert(self.env() == chain(self.scopes.scopes@, current));
        }
        while current.is_some()
            invariant
                self.wf(),
                scope_exists(self.scopes.scopes@, current),
                innermost(self.env(), name@, accept) == innermost(
                    chain(self.scopes.scopes@, current),
                    name@,
                    accept,
                ),
            decreases
                    match current {
                        Some(i) => i + 1,
                        None => 0,
                    },
        {
            let i: usize = current.unwrap();
            let scope = &self.scopes.scopes[i];
            proof {
                let env = chain(self.scopes.scopes@, current);
                let outer = chain(self.scopes.scopes@, scope.parent);
                assert(env.drop_last() =~= outer);
            }
            let accepted = match accept {
                Accept::Exports => match scope.def {
                    ScopeDef::Variable(_) => true,
                    ScopeDef::Function(_) => true,
                    _ => false,
                },
                Accept::Prelude => match scope.def {
                    ScopeDef::Parameter(_) => false,
                    _ => true,
                },
                Accept::Everything => true,
            };
            if same(scope.name.as_str(), name) && accepted {
                return Some(scope.def);
            }
            current = scope.parent;
        }
        None
    }

    /// What the file exports under a name.
    pub fn resolve_export(&self, name: &Name) -> (r: Option<Export>)
        requires
            self.wf(),
        ensures
            match r {
                Some(e) => exported(self.env(), name@) == Some(definition_of(e)),
                None => exported(self.env(), name@) is None,
            },
    {
        if starts_private(name.as_str()) {
            return None;
        }
        proof {
            innermost_accepted(self.env(), name@, Accept::Exports);
        }
        match self.find(name.as_str(), Accept::Exports) {
            Some(ScopeDef::Variable(expr)) => Some(Export::Variable(expr)),
            Some(ScopeDef::Function(stmt)) => Some(Export::Function(stmt)),
            _ => None,
        }
    }

    /// What the prelude offers under a name: its variables, functions and
    /// loaded names.
    pub fn resolve_name_from_prelude(&self, name: &Name) -> (r: Option<ScopeDef>)
        requires
            self.wf(),
        ensures
            r == match innermost(self.env(), name@, Accept::Prelude) {
                Some(b) => Some(b.def),
                None => None,
            },
    {
        self.find(name.as_str(), Accept::Prelude)
    }

    /// The definitions of a name in the innermost piece of code that binds it,
    /// from the innermost on, and that piece of code.
    pub fn resolve_name(&self, name: &Name) -> (r: Option<(ExecutionScope, Vec<SymbolDef>)>)
        requires
            self.wf(),
        ensures
            match r {
                Some((execution, found)) => {
                    &&& found@.len() > 0
                    &&& found@ == symbols(self.scopes.scopes@, self.scope, name@, None)
                    &&& defs_of(found@) == definitions(self.env(), name@, None)
                    &&& forall|k: int|
                        0 <= k < found@.len() ==> (#[trigger] found@[k]).execution_scope
                            == execution
                },
                None => definitions(self.env(), name@, None).len() == 0,
            },
    {
        let mut out: Vec<SymbolDef> = Vec::new();
        let mut execution: Option<ExecutionScope> = None;
        let mut current = self.scope;
        let ghost all = symbols(self.scopes.scopes@, self.scope, name@, None);
        proof {
            assert(out@ + all =~= all);
            symbols_are_seen(self.scopes.scopes@, self.scope, name@, None);
        }
        while current.is_some()
            invariant
                self.wf(),
                scope_exists(self.scopes.scopes@, current),
                execution is None == (out@.len() == 0),
                execution is Some ==> out@[0].execution_scope == execution->0,
                out@ + symbols(self.scopes.scopes@, current, name@, execution) == all,
            ensures
                out@ == all,
            decreases
                    match current {
                        Some(i) => i + 1,
                        None => 0,
                    },
        {
            let i: usize = current.unwrap();
            let scope = &self.scopes.scopes[i];
            let ghost before = out@;
            if same(scope.name.as_str(), name.as_str()) {
                let here = match execution {
                    Some(execution) => execution == scope.execution,
                    None => true,
                };
                if !here {
                    proof {
                        assert(out@ + Seq::<SymbolDef>::empty() =~= out@);
                    }
                    break;
                }
                let symbol = SymbolDef {
                    scope: i,
                    execution_scope: scope.execution,
                    def: scope.def,
                };
                out.push(symbol);
                execution = Some(scope.execution);
                proof {
                    let rest = symbols(self.scopes.scopes@, scope.parent, name@, execution);
                    assert(out@ + rest =~= before + (seq![symbol] + rest));
                }
            }
            current = scope.parent;
            proof {
                if current is None {
                    assert(out@ + Seq::<SymbolDef>::empty() =~= out@);
                }
            }
        }
        proof {
            assert(defs_of(all).len() == all.len());
        }
        match execution {
            Some(execution) => Some((execution, out)),
            None => None,
        }
    }

    /// The names that the place sees, each once; `skip_private` leaves out those
    /// that are private to the file.
    pub fn module_names(&self, skip_private: bool) -> (names: Vec<String>)
        requires
            self.wf(),
        ensures
            names_of(self.env(), skip_private, names@),
    {
        let mut names: Vec<String> = Vec::new();
        let mut current = self.scope;
        let ghost env = self.env();
        let ghost mut left = env.len() as int;
        proof {
            assert(env.take(left) =~= env);
        }
        while current.is_some()
            invariant
                self.wf(),
                scope_exists(self.scopes.scopes@, current),
                env == self.env(),
                0 <= left <= env.len(),
                chain(self.scopes.scopes@, current) == env.take(left),
                forall|i: int|
                    0 <= i < names@.len() ==> binds_name(
                        env,
                        skip_private,
                        (#[trigger] names@[i])@,
                    ),
                forall|i: int, j: int|
                    0 <= i < j < names@.len() ==> (#[trigger] names@[i])@ != (
                    #[trigger] names@[j])@,
                forall|k: int|
                    left <= k < env.len() && binds_name(
                        env,
                        skip_private,
                        (#[trigger] env[k]).name,
                    ) ==> crate::builtin_tables::lists(names@, env[k].name),
            decreases
                    match current {
                        Some(i) => i + 1,
                        None => 0,
                    },
        {
            let i: usize = current.unwrap();
            let scope = &self.scopes.scopes[i];
            let ghost here = env.take(left);
            let ghost outer = chain(self.scopes.scopes@, scope.parent);
            let ghost before = names@;
            proof {
                assert(here.drop_last() =~= outer);
                assert(here.last() == env[left - 1]);
                assert(env.take(left - 1) =~= here.drop_last());
                assert(env[left - 1].name == scope.name@);
            }
            let hidden = scope.name.is_missing() || (skip_private && starts_private(
                scope.name.as_str(),
            ));
            if !hidden && !crate::builtin_tables::holds(&names, scope.name.as_str()) {
                names.push(scope.name.text.clone());
                proof {
                    assert(binds_name(env, skip_private, names@[before.len() as int]@));
                }
            }
            proof {
                assert forall|k: int|
                    left - 1 <= k < env.len() && binds_name(
                        env,
                        skip_private,
                        (#[trigger] env[k]).name,
                    ) implies crate::builtin_tables::lists(names@, env[k].name) by {
                    if k >= left {
                        assert(crate::builtin_tables::lists(before, env[k].name));
                        let i = choose|i: int|
                            0 <= i < before.len() && (#[trigger] before[i])@ == env[k].name;
                        assert(names@[i]@ == env[k].name);
                    } else if names@.len() > before.len() {
                        assert(names@[before.len() as int]@ == env[k].name);
                    }
                }
                left = left - 1;
            }
            current = scope.parent;
        }
        proof {
            assert(left == 0);
            assert forall|text: Seq<char>| #[trigger]
                binds_name(env, skip_private, text) implies crate::builtin_tables::lists(
                names@,
                text,
            ) by {
                let k = choose|k: int| 0 <= k < env.len() && (#[trigger] env[k]).name == text;
                assert(binds_name(env, skip_private, env[k].name));
            }
        }
        names
    }

    /// The names that the place sees with the definition that counts for each:
    /// the innermost.
    pub fn module_defs(&self, filter_unexported: bool) -> (defs: NameMap<ScopeDef>)
        requires
            self.wf(),
        ensures
            forall|text: Seq<char>| #[trigger]
                binds_name(self.env(), filter_unexported, text) == defs@.contains_key(text),
            forall|text: Seq<char>| #[trigger]
                defs@.contains_key(text) ==> innermost(
                    self.env(),
                    text,
                    Accept::Everything,
                ) is Some && defs@[text] == innermost(
                    self.env(),
                    text,
                    Accept::Everything,
                )->0.def,
    {
        let names = self.module_names(filter_unexported);
        let ghost env = self.env();
        let mut defs: NameMap<ScopeDef> = NameMap::new();
        let mut i: usize = 0;
        while i < names.len()
            invariant
                i <= names@.len(),
                self.wf(),
                env == self.env(),
                names_of(env, filter_unexported, names@),
                forall|text: Seq<char>| #[trigger]
                    defs@.contains_key(text) <==> exists|k: int|
                        0 <= k < i && (#[trigger] names@[k])@ == text,
                forall|text: Seq<char>| #[trigger]
                    defs@.contains_key(text) ==> innermost(
                        env,
                        text,
                        Accept::Everything,
                    ) is Some && defs@[text] == innermost(env, text, Accept::Everything)->0.def,
            decreases names@.len() - i,
        {
            let ghost before = defs@;
            proof {
                assert(binds_name(env, filter_unexported, names@[i as int]@));
                innermost_found(env, names@[i as int]@);
            }
            if let Some(def) = self.find(names[i].as_str(), Accept::Everything) {
                defs.insert(names[i].clone(), def);
                proof {
                    assert forall|text: Seq<char>| #[trigger]
                        defs@.contains_key(text) <==> exists|k: int|
                            0 <= k < i + 1 && (#[trigger] names@[k])@ == text by {
                        if defs@.contains_key(text) {
                            if text != names@[i as int]@ {
                                assert(before.contains_key(text));
                                let k = choose|k: int|
                                    0 <= k < i && (#[trigger] names@[k])@ == text;
                                assert(names@[k]@ == text);
                            } else {
                                assert(names@[i as int]@ == text);
                            }
                        }
                        if exists|k: int| 0 <= k < i + 1 && (#[trigger] names@[k])@ == text {
                            let k = choose|k: int| 0 <= k < i + 1 && (#[trigger] names@[k])@ == text;
                            if k < i {
                                assert(before.contains_key(text));
                            }
                        }
                    }
                    assert forall|text: Seq<char>| #[trigger]
                        defs@.contains_key(text) implies innermost(
                        env,
                        text,
                        Accept::Everything,
                    ) is Some && defs@[text] == innermost(env, text, Accept::Everything)->0.def by {
                        if text != names@[i as int]@ {
                            assert(before.contains_key(text));
                        }
                    }
                }
            }
            i = i + 1;
        }
        proof {
            assert forall|text: Seq<char>| #[trigger]
                binds_name(env, filter_unexported, text) == defs@.contains_key(text) by {
                if binds_name(env, filter_unexported, text) {
                    assert(crate::builtin_tables::lists(names@, text));
                    let k = choose|k: int| 0 <= k < names@.len() && (#[trigger] names@[k])@ == text;
                    assert(names@[k]@ == text);
                }
                if defs@.contains_key(text) {
                    let k = choose|k: int| 0 <= k < i && (#[trigger] names@[k])@ == text;
                    assert(binds_name(env, filter_unexported, names@[k]@));
                }
            }
        }
        defs
    }
}

/// Whether place `b` is the smallest around an offset, the last of its size.
pub open spec fn is_smallest(
    places: Seq<(ScopeHirId, Option<usize>)>,
    map: ModuleSourceMap,
    offset: u32,
    b: int,
) -> bool {
    &&& 0 <= b < places.len()
    &&& touches(place_range(map, places[b].0), offset)
    &&& forall|j: int|
        0 <= j < places.len() && touches(place_range(map, (#[trigger] places[j]).0), offset) ==> {
            &&& place_len(map, places[b].0) <= place_len(map, places[j].0)
            &&& j > b ==> place_len(map, places[b].0) < place_len(map, places[j].0)
        }
}

/// What a search finds is accepted.
proof fn innermost_accepted(env: Env, name: Seq<char>, accept: Accept)
    ensures
        innermost(env, name, accept) is Some ==> accepts(accept, innermost(env, name, accept)->0.def)
            && innermost(env, name, accept)->0.name == name,
    decreases env.len(),
{
    if env.len() > 0 {
        innermost_accepted(env.drop_last(), name, accept);
    }
}

/// A bound name is found.
proof fn innermost_found(env: Env, name: Seq<char>)
    requires
        exists|i: int| 0 <= i < env.len() && (#[trigger] env[i]).name == name,
    ensures
        innermost(env, name, Accept::Everything) is Some,
    decreases env.len(),
{
    let i = choose|i: int| 0 <= i < env.len() && (#[trigger] env[i]).name == name;
    if env.last().name != name {
        assert(env.drop_last()[i].name == name);
        innermost_found(env.drop_last(), name);
    }
}

/// A file never exports a private name, and what it exports it binds.
pub proof fn exports_are_public(env: Env, name: Seq<char>)
    ensures
        exported(env, name) is Some ==> !is_private(name) && innermost(
            env,
            name,
            Accept::Exports,
        ) is Some && (exported(env, name)->0 is Variable || exported(env, name)->0 is Function),
{
    innermost_accepted(env, name, Accept::Exports);
}

/// Whether a name is private to its file.
pub fn starts_private(name: &str) -> (r: bool)
    ensures
        r == is_private(name@),
{
    let r = crate::text::starts_with(name, "_");
    proof {
        reveal_strlit("_");
        if name@.len() > 0 {
            assert(name@.subrange(0, 1) =~= seq![name@[0]]);
            assert("_"@ =~= seq!['_']);
            if name@[0] != '_' {
                assert(name@.subrange(0, 1)[0] != "_"@[0]);
            }
        }
    }
    r
}

/// The range of a place.
fn range_of(map: &ModuleSourceMap, place: ScopeHirId) -> (r: Option<Span>)
    ensures
        r == place_range(*map, place),
{
    match place {
        ScopeHirId::Module => Some(map.root),
        ScopeHirId::Expr(id) => if id.0 < map.expr_map_back.len() {
            map.expr_map_back[id.0]
        } else {
            None
        },
        ScopeHirId::Def(id) => if id.0 < map.stmt_map_back.len() {
            Some(map.stmt_map_back[id.0])
        } else {
            None
        },
    }
}

/// The length of a place.
fn len_of(map: &ModuleSourceMap, place: ScopeHirId) -> (r: i64)
    ensures
        r == place_len(*map, place),
{
    match range_of(map, place) {
        Some(range) => range.end as i64 - range.start as i64,
        None => 0,
    }
}

/// What a name stands for outside the module.
#[derive(Debug)]
pub enum Ambient {
    Prelude(ScopeDef),
    Intrinsic,
    BuiltinFunction(Arc<BuiltinFunctionData>),
    BuiltinVariable(Arc<TypeRef>),
}

/// What the globals of one kind of file offer under a name: functions come first.
pub open spec fn global_of(g: APIGlobals, name: Seq<char>) -> Option<Ambient> {
    if g.functions@.contains_key(name) {
        Some(Ambient::BuiltinFunction(g.functions@[name]))
    } else if g.variables@.contains_key(name) {
        Some(Ambient::BuiltinVariable(g.variables@[name]))
    } else {
        None
    }
}

/// What the builtins offer to a file under a name. `REPO` and query files see
/// their own globals alone; the others see those of `.bzl` files first.
pub open spec fn builtin_of(
    globals: BuiltinGlobals,
    context: Option<APIContext>,
    name: Seq<char>,
) -> Option<Ambient> {
    match context {
        None => None,
        Some(APIContext::Repo) => global_of(globals.repo_globals, name),
        Some(APIContext::Cquery) => global_of(globals.cquery_globals, name),
        Some(context) => {
            let common = global_of(globals.bzl_globals, name);
            if common is Some {
                common
            } else if context == APIContext::Module {
                global_of(globals.bzlmod_globals, name)
            } else if context == APIContext::Workspace {
                global_of(globals.workspace_globals, name)
            } else {
                None
            }
        },
    }
}

/// Looks a name up among the globals of one kind of file.
fn find_global(g: &APIGlobals, name: &str) -> (r: Option<Ambient>)
    ensures
        r == global_of(*g, name@),
{
    match g.functions.get(name) {
        Some(f) => Some(Ambient::BuiltinFunction(f.clone())),
        None => match g.variables.get(name) {
            Some(ty) => Some(Ambient::BuiltinVariable(ty.clone())),
            None => None,
        },
    }
}

/// Looks a name up among the builtins that a file sees.
pub fn resolve_name_in_builtin_globals(
    globals: &BuiltinGlobals,
    context: Option<APIContext>,
    name: &str,
) -> (r: Option<Ambient>)
    ensures
        r == builtin_of(*globals, context, name@),
{
    match context {
        None => None,
        Some(context) => {
            if context == APIContext::Repo {
                return find_global(&globals.repo_globals, name);
            }
            if context == APIContext::Cquery {
                return find_global(&globals.cquery_globals, name);
            }
            match find_global(&globals.bzl_globals, name) {
                Some(found) => Some(found),
                None => match context {
                    APIContext::Module => find_global(&globals.bzlmod_globals, name),
                    APIContext::Workspace => find_global(&globals.workspace_globals, name),
                    _ => None,
                },
            }
        },
    }
}

/// What a name stands for outside the module: in `BUILD` files what the prelude
/// binds, then the functions of the language, then the builtins.
pub open spec fn ambient_of(
    file: File,
    prelude: Option<Env>,
    intrinsics: Seq<String>,
    globals: BuiltinGlobals,
    name: Seq<char>,
) -> Option<Ambient> {
    let from_prelude = if file.context() == Some(APIContext::Build) && prelude is Some {
        innermost(prelude->0, name, Accept::Prelude)
    } else {
        None
    };
    match from_prelude {
        Some(b) => Some(Ambient::Prelude(b.def)),
        None => if crate::builtin_tables::lists(intrinsics, name) {
            Some(Ambient::Intrinsic)
        } else {
            builtin_of(globals, file.context(), name)
        },
    }
}

/// Resolves a name that the module does not bind. `prelude` resolves the names
/// of the prelude file, if there is one.
pub fn resolve_name_in_prelude_or_builtins(
    file: File,
    prelude: &Option<Resolver>,
    intrinsics: &Vec<String>,
    globals: &BuiltinGlobals,
    name: &Name,
) -> (r: Option<Ambient>)
    requires
        prelude is Some ==> prelude->0.wf(),
    ensures
        r == ambient_of(
            file,
            match *prelude {
                Some(p) => Some(p.env()),
                None => None,
            },
            intrinsics@,
            *globals,
            name@,
        ),
{
    let in_build_file = match file.api_context() {
        Some(context) => context == APIContext::Build,
        None => false,
    };
    if in_build_file {
        if let Some(prelude) = prelude {
            if let Some(def) = prelude.resolve_name_from_prelude(name) {
                return Some(Ambient::Prelude(def));
            }
        }
    }
    if crate::builtin_tables::holds(intrinsics, name.as_str()) {
        return Some(Ambient::Intrinsic);
    }
    resolve_name_in_builtin_globals(globals, file.api_context(), name.as_str())
}

/// Resolves what a file exports under a name.
pub fn resolve_export_in_file(scopes: &Scopes, name: &Name) -> (r: Option<Export>)
    requires
        scopes.wf(),
    ensures
        ({
            let env = first_seen(scopes.seen(), ScopeHirId::Module);
            match r {
                Some(e) => exported(env, name@) == Some(definition_of(e)),
                None => exported(env, name@) is None,
            }
        }),
{
    Resolver::new_for_module(scopes).resolve_export(name)
}

/// What a place sees: its first record counts, and without one it sees nothing.
pub open spec fn first_seen(seen: Seq<(ScopeHirId, Env)>, place: ScopeHirId) -> Env
    decreases seen.len(),
{
    if seen.len() == 0 {
        Seq::empty()
    } else if seen[0].0 == place {
        seen[0].1
    } else {
        first_seen(seen.drop_first(), place)
    }
}

proof fn first_is_seen(seen: Seq<(ScopeHirId, Env)>, place: ScopeHirId, k: int)
    requires
        0 <= k < seen.len(),
        seen[k].0 == place,
        forall|j: int| 0 <= j < k ==> (#[trigger] seen[j]).0 != place,
    ensures
        first_seen(seen, place) == seen[k].1,
    decreases seen.len(),
{
    if k > 0 {
        assert(seen[0].0 != place);
        let rest = seen.drop_first();
        assert forall|j: int| 0 <= j < k - 1 implies (#[trigger] rest[j]).0 != place by {
            assert(seen[j + 1].0 != place);
        }
        first_is_seen(rest, place, k - 1);
    }
}

proof fn none_is_seen(seen: Seq<(ScopeHirId, Env)>, place: ScopeHirId)
    requires
        forall|j: int| 0 <= j < seen.len() ==> (#[trigger] seen[j]).0 != place,
    ensures
        first_seen(seen, place) == Seq::<crate::scope::Binding>::empty(),
    decreases seen.len(),
{
    if seen.len() > 0 {
        assert(seen[0].0 != place);
        let rest = seen.drop_first();
        assert forall|j: int| 0 <= j < rest.len() implies (#[trigger] rest[j]).0 != place by {
            assert(seen[j + 1].0 != place);
        }
        none_is_seen(rest, place);
    }
}

} // verus!
