//! The scope chain.
//!
//! Scopes live in one arena and refer to each other by index, so that a
//! scope can be shared: by the blocks nested in it and by every closure
//! declared in it. The enclosing scope of a scope is always an older one,
//! and scopes are given up youngest first. The model of the arena is a
//! sequence of [`ScopeView`]s; lookup and assignment are defined on the
//! model.

use crate::error::RuntimeError;
use crate::error::RuntimeErrorView;
use crate::token::{Token, Value, ValueView};
use vstd::hash_map::StringHashMap;
use vstd::prelude::*;

verus! {

/// A handle to a scope: its index in the arena.
pub type EnvPtr = usize;

/// One scope: its bindings, and the scope that encloses it.
pub struct Scope {
    enclosing: Option<EnvPtr>,
    values: StringHashMap<Value>,
}

/// The arena of scopes.
pub struct Environment {
    scopes: Vec<Scope>,
}

/// The model of a scope: a map from names to values, and the index of the
/// enclosing scope.
pub struct ScopeView {
    pub enclosing: Option<nat>,
    pub values: Map<Seq<char>, ValueView>,
}

/// The models of the values of a map.
pub open spec fn values_map(values: Map<Seq<char>, Value>) -> Map<Seq<char>, ValueView> {
    values.map_values(|v: Value| v@)
}

/// Whether every scope's enclosing scope is an older scope.
pub open spec fn chained(scopes: Seq<ScopeView>) -> bool {
    forall|i: int|
        0 <= i < scopes.len() ==> (#[trigger] scopes[i].enclosing matches Some(p) ==> p < i)
}

/// The innermost scope, from `env` outward, that binds `name`.
pub open spec fn resolve(scopes: Seq<ScopeView>, env: nat, name: Seq<char>) -> Option<nat>
    decreases env,
{
    if env >= scopes.len() {
        None
    } else if scopes[env as int].values.dom().contains(name) {
        Some(env)
    } else {
        match scopes[env as int].enclosing {
            Some(outer) => if outer < env {
                resolve(scopes, outer, name)
            } else {
                None
            },
            None => None,
        }
    }
}

/// The value of `name` as seen from `env`.
pub open spec fn lookup(scopes: Seq<ScopeView>, env: nat, name: Seq<char>) -> Option<ValueView> {
    match resolve(scopes, env, name) {
        Some(scope) => Some(scopes[scope as int].values[name]),
        None => None,
    }
}

/// The arena after `name` is bound to `value` in the scope `env` itself.
pub open spec fn defined(scopes: Seq<ScopeView>, env: nat, name: Seq<char>, value: ValueView)
    -> Seq<ScopeView> {
    scopes.update(
        env as int,
        ScopeView {
            enclosing: scopes[env as int].enclosing,
            values: scopes[env as int].values.insert(name, value),
        },
    )
}

/// The arena after `value` is assigned to `name` as seen from `env`: the
/// innermost binding changes; where there is none, nothing does.
pub open spec fn assigned(scopes: Seq<ScopeView>, env: nat, name: Seq<char>, value: ValueView)
    -> Seq<ScopeView> {
    match resolve(scopes, env, name) {
        Some(scope) => defined(scopes, scope, name, value),
        None => scopes,
    }
}

/// The arena after a fresh scope is opened inside `enclosing`.
pub open spec fn enclosed(scopes: Seq<ScopeView>, enclosing: nat) -> Seq<ScopeView> {
    scopes.push(ScopeView { enclosing: Some(enclosing), values: Map::empty() })
}

/// The arena with the global scope alone.
pub open spec fn global() -> Seq<ScopeView> {
    seq![ScopeView { enclosing: None, values: Map::empty() }]
}

/// Rebinding a name that a scope already binds changes no lookup path:
/// every name still resolves to the scope it resolved to before.
pub proof fn lemma_rebind_keeps_paths(
    scopes: Seq<ScopeView>,
    scope: nat,
    name: Seq<char>,
    value: ValueView,
    from: nat,
    other: Seq<char>,
)
    requires
        scope < scopes.len(),
        scopes[scope as int].values.dom().contains(name),
    ensures
        resolve(defined(scopes, scope, name, value), from, other) == resolve(scopes, from, other),
    decreases from,
{
    let after = defined(scopes, scope, name, value);
    if from < scopes.len() {
        assert(after[from as int].values.dom().contains(other) == scopes[from as int].values.dom().contains(
            other,
        ));
        if !scopes[from as int].values.dom().contains(other) {
            match scopes[from as int].enclosing {
                Some(outer) => {
                    if outer < from {
                        lemma_rebind_keeps_paths(scopes, scope, name, value, outer, other);
                    }
                },
                None => {},
            }
        }
    }
}

/// A definition is seen at once from the scope it was made in.
pub proof fn lemma_define_then_lookup(
    scopes: Seq<ScopeView>,
    env: nat,
    name: Seq<char>,
    value: ValueView,
)
    requires
        env < scopes.len(),
    ensures
        resolve(defined(scopes, env, name, value), env, name) == Some(env),
        lookup(defined(scopes, env, name, value), env, name) == Some(value),
{
}

/// A definition in one scope changes nothing for a scope that is older:
/// shadowing in an inner scope is invisible from outside it.
pub proof fn lemma_define_invisible_outside(
    scopes: Seq<ScopeView>,
    env: nat,
    name: Seq<char>,
    value: ValueView,
    from: nat,
    other: Seq<char>,
)
    requires
        env < scopes.len(),
        from < env,
    ensures
        resolve(defined(scopes, env, name, value), from, other) == resolve(scopes, from, other),
        lookup(defined(scopes, env, name, value), from, other) == lookup(scopes, from, other),
    decreases from,
{
    match scopes[from as int].enclosing {
        Some(outer) => {
            if outer < from {
                lemma_define_invisible_outside(scopes, env, name, value, outer, other);
            }
        },
        None => {},
    }
}

/// A definition of one name changes the value of no other name, seen from
/// anywhere.
pub proof fn lemma_define_keeps_others(
    scopes: Seq<ScopeView>,
    env: nat,
    name: Seq<char>,
    value: ValueView,
    from: nat,
    other: Seq<char>,
)
    requires
        env < scopes.len(),
        other != name,
    ensures
        resolve(defined(scopes, env, name, value), from, other) == resolve(scopes, from, other),
        lookup(defined(scopes, env, name, value), from, other) == lookup(scopes, from, other),
    decreases from,
{
    if from < scopes.len() {
        match scopes[from as int].enclosing {
            Some(outer) => {
                if outer < from {
                    lemma_define_keeps_others(scopes, env, name, value, outer, other);
                }
            },
            None => {},
        }
    }
}

/// An assignment is seen by everyone who sees the binding it changed:
/// where `name` resolves to the same scope from `env` and from `from`, the
/// value assigned through `env` is the value read from `from`. This is what
/// a closure relies on when a variable it captured is assigned to later.
pub proof fn lemma_assign_shared(
    scopes: Seq<ScopeView>,
    env: nat,
    from: nat,
    name: Seq<char>,
    value: ValueView,
)
    requires
        resolve(scopes, env, name) is Some,
        resolve(scopes, from, name) == resolve(scopes, env, name),
    ensures
        lookup(assigned(scopes, env, name, value), from, name) == Some(value),
{
    lemma_resolve_binds(scopes, env, name);
    let scope = resolve(scopes, env, name)->Some_0;
    lemma_rebind_keeps_paths(scopes, scope, name, value, from, name);
}

/// An assignment that finds a binding is read back from where it was made.
pub proof fn lemma_assign_then_lookup(
    scopes: Seq<ScopeView>,
    env: nat,
    name: Seq<char>,
    value: ValueView,
)
    requires
        resolve(scopes, env, name) is Some,
    ensures
        lookup(assigned(scopes, env, name, value), env, name) == Some(value),
{
    lemma_assign_shared(scopes, env, env, name, value);
}

/// An assignment changes neither the scope that any name resolves to nor
/// the value of any other name.
pub proof fn lemma_assign_keeps_others(
    scopes: Seq<ScopeView>,
    env: nat,
    name: Seq<char>,
    value: ValueView,
    from: nat,
    other: Seq<char>,
)
    ensures
        resolve(assigned(scopes, env, name, value), from, other) == resolve(scopes, from, other),
        other != name ==> lookup(assigned(scopes, env, name, value), from, other) == lookup(
            scopes,
            from,
            other,
        ),
{
    if resolve(scopes, env, name) is Some {
        lemma_resolve_binds(scopes, env, name);
        let scope = resolve(scopes, env, name)->Some_0;
        lemma_rebind_keeps_paths(scopes, scope, name, value, from, other);
        lemma_resolve_binds(scopes, from, other);
    }
}

/// A name that no scope in the chain binds can be neither read nor
/// assigned: the lookup finds nothing, and the assignment changes nothing.
pub proof fn lemma_undeclared(scopes: Seq<ScopeView>, env: nat, name: Seq<char>, value: ValueView)
    requires
        resolve(scopes, env, name) is None,
    ensures
        lookup(scopes, env, name) is None,
        assigned(scopes, env, name, value) == scopes,
        lookup(assigned(scopes, env, name, value), env, name) is None,
{
}

/// The scope that a name resolves to is a scope of the arena, not younger
/// than where the search began, and binds the name.
pub proof fn lemma_resolve_binds(scopes: Seq<ScopeView>, env: nat, name: Seq<char>)
    ensures
        resolve(scopes, env, name) matches Some(scope) ==> scope <= env && scope < scopes.len()
            && scopes[scope as int].values.dom().contains(name),
    decreases env,
{
    if env < scopes.len() && !scopes[env as int].values.dom().contains(name) {
        match scopes[env as int].enclosing {
            Some(outer) => {
                if outer < env {
                    lemma_resolve_binds(scopes, outer, name);
                }
            },
            None => {},
        }
    }
}

/// Opening a scope changes nothing for the scopes that exist, and the new
/// scope sees exactly what its enclosing scope sees.
pub proof fn lemma_enclosed_inherits(
    scopes: Seq<ScopeView>,
    enclosing: nat,
    from: nat,
    name: Seq<char>,
)
    requires
        enclosing < scopes.len(),
        from <= scopes.len(),
    ensures
        from < scopes.len() ==> lookup(enclosed(scopes, enclosing), from, name) == lookup(
            scopes,
            from,
            name,
        ),
        from < scopes.len() ==> resolve(enclosed(scopes, enclosing), from, name) == resolve(
            scopes,
            from,
            name,
        ),
        from == scopes.len() ==> lookup(enclosed(scopes, enclosing), from, name) == lookup(
            scopes,
            enclosing,
            name,
        ),
    decreases from,
{
    let after = enclosed(scopes, enclosing);
    if from < scopes.len() {
        assert(after[from as int] == scopes[from as int]);
        match scopes[from as int].enclosing {
            Some(outer) => {
                if outer < from {
                    lemma_enclosed_inherits(scopes, enclosing, outer, name);
                }
            },
            None => {},
        }
        lemma_resolve_binds(scopes, from, name);
    } else {
        lemma_enclosed_inherits(scopes, enclosing, enclosing, name);
        assert(!after[from as int].values.dom().contains(name));
    }
}

impl Scope {
    /// The model of this scope.
    pub closed spec fn view(&self) -> ScopeView {
        ScopeView {
            enclosing: match self.enclosing {
                Some(outer) => Some(outer as nat),
                None => None,
            },
            values: values_map(self.values@),
        }
    }

    fn bind(&mut self, name: String, value: Value)
        ensures
            final(self).view() == (ScopeView {
                enclosing: old(self).view().enclosing,
                values: old(self).view().values.insert(name@, value@),
            }),
    {
        self.values.insert(name, value);
        assert(values_map(self.values@) =~= values_map(old(self).values@).insert(name@, value@));
    }

    fn read(&self, name: &String) -> (value: Option<Value>)
        ensures
            match value {
                Some(v) => self.view().values.dom().contains(name@) && self.view().values[name@]
                    == v@,
                None => !self.view().values.dom().contains(name@),
            },
    {
        match self.values.get(name.as_str()) {
            Some(value) => Some(value.clone()),
            None => None,
        }
    }
}

impl View for Environment {
    type V = Seq<ScopeView>;

    closed spec fn view(&self) -> Seq<ScopeView> {
        Seq::new(self.scopes@.len(), |i: int| self.scopes@[i].view())
    }
}

impl Environment {
    /// An arena that holds the global scope, scope 0, and nothing else.
    pub fn new() -> (environment: Self)
        ensures
            environment@ == global(),
            chained(environment@),
    {
        let mut scopes: Vec<Scope> = Vec::new();
        scopes.push(Scope { enclosing: None, values: StringHashMap::new() });
        let environment = Environment { scopes };
        assert(values_map(Map::<Seq<char>, Value>::empty()) =~= Map::<Seq<char>, ValueView>::empty());
        assert(environment@ =~= global());
        environment
    }

    /// The number of scopes.
    pub fn len(&self) -> (n: usize)
        ensures
            n == self@.len(),
    {
        self.scopes.len()
    }

    /// Opens a fresh, empty scope inside `enclosing` and returns its handle.
    pub fn new_enclosed(&mut self, enclosing: EnvPtr) -> (id: EnvPtr)
        requires
            enclosing < old(self)@.len(),
            chained(old(self)@),
        ensures
            final(self)@ == enclosed(old(self)@, enclosing as nat),
            id == old(self)@.len(),
            chained(final(self)@),
    {
        let id = self.scopes.len();
        self.scopes.push(Scope { enclosing: Some(enclosing), values: StringHashMap::new() });
        assert(values_map(Map::<Seq<char>, Value>::empty()) =~= Map::<Seq<char>, ValueView>::empty());
        assert(self@ =~= enclosed(old(self)@, enclosing as nat));
        id
    }

    /// Gives up every scope from index `len` on.
    pub fn release(&mut self, len: usize)
        requires
            len <= old(self)@.len(),
        ensures
            final(self)@ == old(self)@.take(len as int),
            chained(old(self)@) ==> chained(final(self)@),
    {
        self.scopes.truncate(len);
        assert(self@ =~= old(self)@.take(len as int));
    }

    /// Binds `name` to `value` in the scope `env` itself, replacing what
    /// that scope bound it to before.
    pub fn define(&mut self, env: EnvPtr, name: String, value: Value)
        requires
            env < old(self)@.len(),
        ensures
            final(self)@ == defined(old(self)@, env as nat, name@, value@),
            chained(old(self)@) ==> chained(final(self)@),
    {
        let scope = &mut self.scopes[env];
        scope.bind(name, value);
        assert(self@ =~= defined(old(self)@, env as nat, name@, value@));
    }

    /// The value of `name` as seen from `env`: that of the innermost scope,
    /// from `env` outward, that binds it. Fails where no scope does.
    pub fn get(&self, env: EnvPtr, name: &Token) -> (result: Result<Value, RuntimeError>)
        requires
            env < self@.len(),
            chained(self@),
        ensures
            match lookup(self@, env as nat, name.lexeme@) {
                Some(value) => result matches Ok(v) && v@ == value,
                None => result matches Err(e) && e@ == RuntimeErrorView::UndefinedVariable(
                    name.lexeme@,
                ),
            },
    {
        let mut at = env;
        loop
            invariant
                at < self@.len(),
                chained(self@),
                resolve(self@, at as nat, name.lexeme@) == resolve(
                    self@,
                    env as nat,
                    name.lexeme@,
                ),
            decreases at,
        {
            let scope = &self.scopes[at];
            assert(self@[at as int] == scope.view());
            match scope.read(&name.lexeme) {
                Some(value) => {
                    return Ok(value);
                },
                None => {},
            }
            match scope.enclosing {
                Some(outer) => {
                    at = outer;
                },
                None => {
                    return Err(RuntimeError::UndefinedVariable(name.lexeme.clone()));
                },
            }
        }
    }

    /// The scope that binds `name` as seen from `env`, if any does.
    pub fn resolve(&self, env: EnvPtr, name: &String) -> (scope: Option<EnvPtr>)
        requires
            env < self@.len(),
            chained(self@),
        ensures
            match scope {
                Some(s) => resolve(self@, env as nat, name@) == Some(s as nat) && s < self@.len(),
                None => resolve(self@, env as nat, name@) is None,
            },
    {
        let mut at = env;
        loop
            invariant
                at < self@.len(),
                chained(self@),
                resolve(self@, at as nat, name@) == resolve(self@, env as nat, name@),
            decreases at,
        {
            let scope = &self.scopes[at];
            assert(self@[at as int] == scope.view());
            if scope.read(name).is_some() {
                return Some(at);
            }
            match scope.enclosing {
                Some(outer) => {
                    at = outer;
                },
                None => {
                    return None;
                },
            }
        }
    }

    /// Assigns `value` to `name` as seen from `env`: the innermost scope
    /// that binds the name gets the new value. Fails, and changes nothing,
    /// where no scope binds it: assignment never creates a binding.
    pub fn assign(&mut self, env: EnvPtr, name: Token, value: Value) -> (result: Result<
        (),
        RuntimeError,
    >)
        requires
            env < old(self)@.len(),
            chained(old(self)@),
        ensures
            final(self)@ == assigned(old(self)@, env as nat, name.lexeme@, value@),
            chained(final(self)@),
            match resolve(old(self)@, env as nat, name.lexeme@) {
                Some(_) => result is Ok,
                None => result matches Err(e) && e@ == RuntimeErrorView::UndefinedVariable(
                    name.lexeme@,
                ),
            },
    {
        match self.resolve(env, &name.lexeme) {
            Some(scope) => {
                self.define(scope, name.lexeme, value);
                Ok(())
            },
            None => Err(RuntimeError::UndefinedVariable(name.lexeme)),
        }
    }
}

} // verus!
