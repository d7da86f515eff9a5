//! The scope chain: every scope maps names to values and may name an
//! enclosing scope. Scopes live in one arena and are known by their index,
//! so that a closure and a running call can refer to the same scope.

use vstd::prelude::*;
use crate::text::append;
use crate::token::Token;
use crate::value::{error_at, option_value, Native, RuntimeError, Value, ValueView};

verus! {

/// One name with what it holds. A declared name may hold no value.
#[derive(Debug)]
pub struct Binding {
    pub name: String,
    pub value: Option<Value>,
}

/// A scope of the arena.
#[derive(Debug)]
pub struct Scope {
    bindings: Vec<Binding>,
    enclosing: Option<usize>,
}

/// The model of a scope: a map from names to optional values, and the
/// enclosing scope.
pub struct ScopeView {
    pub values: Map<Seq<char>, Option<ValueView>>,
    pub enclosing: Option<usize>,
}

/// The map that a list of bindings stands for: a later binding of a name
/// replaces an earlier one.
pub open spec fn bindings_map(bindings: Seq<Binding>) -> Map<Seq<char>, Option<ValueView>>
    decreases bindings.len(),
{
    if bindings.len() == 0 {
        Map::empty()
    } else {
        bindings_map(bindings.drop_last()).insert(
            bindings.last().name@,
            option_value(bindings.last().value),
        )
    }
}

/// Whether `i` is the last place in `bindings` that binds `name`.
pub open spec fn last_binding(bindings: Seq<Binding>, name: Seq<char>, i: int) -> bool {
    &&& 0 <= i < bindings.len()
    &&& bindings[i].name@ == name
    &&& forall|j: int| i < j < bindings.len() ==> bindings[j].name@ != name
}

proof fn lemma_unbound(bindings: Seq<Binding>, name: Seq<char>)
    requires
        forall|j: int| 0 <= j < bindings.len() ==> bindings[j].name@ != name,
    ensures
        !bindings_map(bindings).contains_key(name),
    decreases bindings.len(),
{
    if bindings.len() > 0 {
        lemma_unbound(bindings.drop_last(), name);
    }
}

proof fn lemma_bound(bindings: Seq<Binding>, name: Seq<char>, i: int)
    requires
        last_binding(bindings, name, i),
    ensures
        bindings_map(bindings).contains_key(name),
        bindings_map(bindings)[name] == option_value(bindings[i].value),
    decreases bindings.len(),
{
    if i < bindings.len() - 1 {
        lemma_bound(bindings.drop_last(), name, i);
    }
}

proof fn lemma_rebound(bindings: Seq<Binding>, name: Seq<char>, i: int, b: Binding)
    requires
        last_binding(bindings, name, i),
        b.name@ == name,
    ensures
        bindings_map(bindings.update(i, b)) == bindings_map(bindings).insert(
            name,
            option_value(b.value),
        ),
    decreases bindings.len(),
{
    let updated = bindings.update(i, b);
    if i < bindings.len() - 1 {
        lemma_rebound(bindings.drop_last(), name, i, b);
        assert(updated.drop_last() =~= bindings.drop_last().update(i, b));
        assert(bindings_map(updated) =~= bindings_map(bindings).insert(
            name,
            option_value(b.value),
        ));
    } else {
        assert(updated.drop_last() =~= bindings.drop_last());
        assert(bindings_map(updated) =~= bindings_map(bindings).insert(
            name,
            option_value(b.value),
        ));
    }
}

impl View for Scope {
    type V = ScopeView;

    closed spec fn view(&self) -> ScopeView {
        ScopeView { values: bindings_map(self.bindings@), enclosing: self.enclosing }
    }
}

impl DeepView for Scope {
    type V = ScopeView;

    open spec fn deep_view(&self) -> ScopeView {
        self@
    }
}

impl Scope {
    /// The last place that binds `name`, if any.
    fn find(&self, name: &String) -> (r: Option<usize>)
        ensures
            match r {
                Some(i) => last_binding(self.bindings@, name@, i as int),
                None => forall|j: int|
                    0 <= j < self.bindings@.len() ==> self.bindings@[j].name@ != name@,
            },
    {
        let mut i: usize = self.bindings.len();
        while i > 0
            invariant
                i <= self.bindings.len(),
                forall|j: int| i <= j < self.bindings@.len() ==> self.bindings@[j].name@ != name@,
            decreases i,
        {
            i -= 1;
            if self.bindings[i].name == *name {
                return Some(i);
            }
        }
        None
    }

    /// Binds `name` to `value`, in place of what it held.
    fn set(&mut self, name: String, value: Option<Value>)
        ensures
            final(self)@ == (ScopeView {
                values: old(self)@.values.insert(name@, option_value(value)),
                enclosing: old(self)@.enclosing,
            }),
    {
        let found = self.find(&name);
        let b = Binding { name, value };
        match found {
            Some(i) => {
                proof {
                    lemma_rebound(self.bindings@, b.name@, i as int, b);
                }
                self.bindings[i] = b;
            },
            None => {
                self.bindings.push(b);
                assert(self.bindings@.drop_last() =~= old(self).bindings@);
            },
        }
    }
}

/// The innermost scope that binds `name`, going outward from `scope`.
/// A scope's enclosing scope is followed only where it was made before it.
pub open spec fn resolve(scopes: Seq<ScopeView>, scope: int, name: Seq<char>) -> Option<int>
    decreases scope,
{
    if !(0 <= scope < scopes.len()) {
        None
    } else if scopes[scope].values.contains_key(name) {
        Some(scope)
    } else {
        match scopes[scope].enclosing {
            Some(outer) => if outer < scope {
                resolve(scopes, outer as int, name)
            } else {
                None
            },
            None => None,
        }
    }
}

/// `scopes` with `name` bound to `value` in the scope `scope`; unchanged
/// where there is no such scope.
pub open spec fn bind(
    scopes: Seq<ScopeView>,
    scope: int,
    name: Seq<char>,
    value: Option<ValueView>,
) -> Seq<ScopeView> {
    if 0 <= scope < scopes.len() {
        scopes.update(
            scope,
            ScopeView {
                values: scopes[scope].values.insert(name, value),
                enclosing: scopes[scope].enclosing,
            },
        )
    } else {
        scopes
    }
}

/// A name that is bound in a scope is found there from then on, whatever
/// the enclosing scopes hold, and no other scope is changed.
pub proof fn lemma_bind_shadows(
    scopes: Seq<ScopeView>,
    scope: int,
    name: Seq<char>,
    value: Option<ValueView>,
)
    requires
        0 <= scope < scopes.len(),
    ensures
        resolve(bind(scopes, scope, name, value), scope, name) == Some(scope),
        bind(scopes, scope, name, value)[scope].values[name] == value,
        bind(scopes, scope, name, value).len() == scopes.len(),
        forall|other: int|
            0 <= other < scopes.len() && other != scope ==> #[trigger] bind(
                scopes,
                scope,
                name,
                value,
            )[other] == scopes[other],
{
}

/// The scope in which a name is found is one of the scopes, at or before
/// the scope from which it was looked for, and binds the name.
pub proof fn lemma_resolve_in_chain(scopes: Seq<ScopeView>, scope: int, name: Seq<char>)
    ensures
        match resolve(scopes, scope, name) {
            Some(found) => 0 <= found <= scope && found < scopes.len()
                && scopes[found].values.contains_key(name),
            None => true,
        },
    decreases scope,
{
    if 0 <= scope < scopes.len() && !scopes[scope].values.contains_key(name) {
        match scopes[scope].enclosing {
            Some(outer) => {
                if outer < scope {
                    lemma_resolve_in_chain(scopes, outer as int, name);
                }
            },
            None => {},
        }
    }
}

/// Binding a name where it is found changes what it holds and nothing
/// else: every name is found in the scope in which it was found before.
pub proof fn lemma_rebind_keeps_scopes(
    scopes: Seq<ScopeView>,
    scope: int,
    name: Seq<char>,
    value: Option<ValueView>,
    from: int,
    other: Seq<char>,
)
    requires
        resolve(scopes, scope, name) is Some,
    ensures
        resolve(bind(scopes, resolve(scopes, scope, name)->0, name, value), from, other)
            == resolve(scopes, from, other),
    decreases from,
{
    lemma_resolve_in_chain(scopes, scope, name);
    let target = resolve(scopes, scope, name)->0;
    let after = bind(scopes, target, name, value);
    if 0 <= from < scopes.len() {
        assert(after[from].enclosing == scopes[from].enclosing);
        assert(after[from].values.contains_key(other) == scopes[from].values.contains_key(other));
        if !scopes[from].values.contains_key(other) {
            match scopes[from].enclosing {
                Some(outer) => {
                    if outer < from {
                        lemma_rebind_keeps_scopes(scopes, scope, name, value, outer as int, other);
                    }
                },
                None => {},
            }
        }
    }
}

/// The message for a name that no scope of the chain binds.
pub open spec fn undefined_variable(name: Seq<char>) -> Seq<char> {
    "Undefined variable '"@ + name + "'."@
}

/// The error for a name that no scope of the chain binds.
pub fn undefined(name: &Token) -> (r: RuntimeError)
    ensures
        r@ == error_at(undefined_variable(name.lexeme@), name.line),
{
    let mut message = String::from_str("Undefined variable '");
    append(&mut message, name.lexeme.as_str());
    append(&mut message, "'.");
    RuntimeError::new(message, name.line)
}

/// All scopes that were ever entered.
#[derive(Debug)]
pub struct Environment {
    scopes: Vec<Scope>,
}

impl View for Environment {
    type V = Seq<ScopeView>;

    closed spec fn view(&self) -> Seq<ScopeView> {
        self.scopes.deep_view()
    }
}

impl Environment {
    /// An arena with one scope, the global one, which binds nothing. Its
    /// index is 0.
    pub fn new() -> (r: Environment)
        ensures
            r@ == seq![ScopeView { values: Map::empty(), enclosing: None }],
    {
        let mut scopes: Vec<Scope> = Vec::new();
        scopes.push(Scope { bindings: Vec::new(), enclosing: None });
        let r = Environment { scopes };
        assert(r@ =~= seq![ScopeView { values: Map::empty(), enclosing: None }]);
        r
    }

    /// The number of scopes.
    pub fn len(&self) -> (r: usize)
        ensures
            r == self@.len(),
    {
        self.scopes.len()
    }

    /// Enters a new scope inside `enclosing` and returns its index.
    pub fn push_scope(&mut self, enclosing: Option<usize>) -> (r: usize)
        ensures
            r == old(self)@.len(),
            final(self)@ == old(self)@.push(ScopeView { values: Map::empty(), enclosing }),
    {
        let r = self.scopes.len();
        self.scopes.push(Scope { bindings: Vec::new(), enclosing });
        assert(self@ =~= old(self)@.push(ScopeView { values: Map::empty(), enclosing }));
        r
    }

    /// Binds `name` in the scope `scope` itself, whatever the enclosing
    /// scopes hold.
    pub fn define(&mut self, scope: usize, name: String, value: Option<Value>)
        ensures
            final(self)@ == bind(old(self)@, scope as int, name@, option_value(value)),
    {
        if scope < self.scopes.len() {
            self.scopes[scope].set(name, value);
            assert(self@ =~= bind(old(self)@, scope as int, name@, option_value(value)));
        }
    }

    /// The index of the innermost scope of the chain that binds `name`.
    fn lookup(&self, scope: usize, name: &String) -> (r: Option<(usize, usize)>)
        ensures
            match r {
                Some((s, i)) => resolve(self@, scope as int, name@) == Some(s as int) && s
                    < self.scopes@.len() && last_binding(self.scopes@[s as int].bindings@, name@, i as int),
                None => resolve(self@, scope as int, name@) is None,
            },
        decreases scope,
    {
        if scope >= self.scopes.len() {
            return None;
        }
        let found = self.scopes[scope].find(name);
        proof {
            match found {
                Some(i) => lemma_bound(self.scopes@[scope as int].bindings@, name@, i as int),
                None => lemma_unbound(self.scopes@[scope as int].bindings@, name@),
            }
        }
        match found {
            Some(i) => Some((scope, i)),
            None => match self.scopes[scope].enclosing {
                Some(outer) => if outer < scope {
                    self.lookup(outer, name)
                } else {
                    None
                },
                None => None,
            },
        }
    }

    /// What `name` holds in the innermost scope of the chain that binds it.
    pub fn get(&self, scope: usize, name: &Token) -> (r: Result<Option<Value>, RuntimeError>)
        ensures
            match resolve(self@, scope as int, name.lexeme@) {
                Some(s) => r matches Ok(v) && option_value(v) == self@[s].values[name.lexeme@],
                None => r matches Err(e) && e@ == error_at(
                    undefined_variable(name.lexeme@),
                    name.line,
                ),
            },
    {
        match self.lookup(scope, &name.lexeme) {
            Some((s, i)) => {
                proof {
                    lemma_bound(self.scopes@[s as int].bindings@, name.lexeme@, i as int);
                }
                let v = match &self.scopes[s].bindings[i].value {
                    Some(x) => Some(x.clone()),
                    None => None,
                };
                Ok(v)
            },
            None => Err(undefined(name)),
        }
    }

    /// Rebinds `name` in the innermost scope of the chain that binds it.
    pub fn assign(&mut self, scope: usize, name: &Token, value: Option<Value>) -> (r: Result<
        (),
        RuntimeError,
    >)
        ensures
            match resolve(old(self)@, scope as int, name.lexeme@) {
                Some(s) => r is Ok && final(self)@ == bind(
                    old(self)@,
                    s,
                    name.lexeme@,
                    option_value(value),
                ),
                None => r matches Err(e) && e@ == error_at(
                    undefined_variable(name.lexeme@),
                    name.line,
                ) && final(self)@ == old(self)@,
            },
    {
        match self.lookup(scope, &name.lexeme) {
            Some((s, _)) => {
                self.define(s, name.lexeme.clone(), value);
                Ok(())
            },
            None => Err(undefined(name)),
        }
    }

    /// Binds the functions of the host in the scope `scope`.
    pub fn define_natives(&mut self, scope: usize)
        ensures
            final(self)@ == bind(
                old(self)@,
                scope as int,
                "clock"@,
                Some(ValueView::NativeFunction(Native::Clock)),
            ),
    {
        self.define(scope, String::from_str("clock"), Some(Value::NativeFunction(Native::Clock)));
    }
}

} // verus!
