//! Scopes and the chain of scopes in which names are looked up.

use vstd::prelude::*;
use vstd::slice::slice_to_vec;
use crate::object::{Object, ObjectModel};
use crate::runtime_error::{ErrorKind, RuntimeError, RuntimeErrorModel};
use crate::scanner::Token;

verus! {

/// A scope as a mathematical value: a map from names to values.
pub type ScopeModel = Map<Seq<u8>, ObjectModel>;

/// What a name is bound to in a chain of scopes, outermost first: the
/// binding of the innermost scope that has one.
pub open spec fn lookup(scopes: Seq<ScopeModel>, name: Seq<u8>) -> Option<ObjectModel>
    decreases scopes.len(),
{
    if scopes.len() == 0 {
        None
    } else if scopes.last().dom().contains(name) {
        Some(scopes.last()[name])
    } else {
        lookup(scopes.drop_last(), name)
    }
}

/// The chain after `name` was declared: the innermost scope binds it to
/// `value`, whether or not it bound it before.
pub open spec fn defined(scopes: Seq<ScopeModel>, name: Seq<u8>, value: ObjectModel) -> Seq<
    ScopeModel,
> {
    if scopes.len() == 0 {
        scopes
    } else {
        scopes.update(scopes.len() - 1, scopes.last().insert(name, value))
    }
}

/// The chain after `name` was assigned: the innermost scope that binds it
/// now binds it to `value`. A chain in which no scope binds it is left as
/// it is.
pub open spec fn assigned(scopes: Seq<ScopeModel>, name: Seq<u8>, value: ObjectModel) -> Seq<
    ScopeModel,
>
    decreases scopes.len(),
{
    if scopes.len() == 0 {
        scopes
    } else if scopes.last().dom().contains(name) {
        scopes.update(scopes.len() - 1, scopes.last().insert(name, value))
    } else {
        assigned(scopes.drop_last(), name, value).push(scopes.last())
    }
}

/// Whether two byte strings are the same.
pub fn same_bytes(a: &[u8], b: &[u8]) -> (same: bool)
    ensures
        same == (a@ == b@),
{
    if a.len() != b.len() {
        return false;
    }
    let mut i: usize = 0;
    while i < a.len()
        invariant
            a@.len() == b@.len(),
            i <= a@.len(),
            forall|j: int| 0 <= j < i ==> a@[j] == b@[j],
        decreases a@.len() - i,
    {
        if a[i] != b[i] {
            return false;
        }
        i += 1;
    }
    assert(a@ =~= b@);
    true
}

/// One binding of a scope.
struct Entry {
    name: Vec<u8>,
    value: Object,
}

/// The map that a list of bindings stands for. A later binding of a name
/// overrides an earlier one.
spec fn bindings(entries: Seq<Entry>) -> ScopeModel
    decreases entries.len(),
{
    if entries.len() == 0 {
        Map::empty()
    } else {
        bindings(entries.drop_last()).insert(entries.last().name@, entries.last().value@)
    }
}

proof fn lemma_absent(entries: Seq<Entry>, name: Seq<u8>)
    requires
        forall|j: int| 0 <= j < entries.len() ==> entries[j].name@ != name,
    ensures
        !bindings(entries).dom().contains(name),
    decreases entries.len(),
{
    if entries.len() > 0 {
        lemma_absent(entries.drop_last(), name);
    }
}

proof fn lemma_present(entries: Seq<Entry>, i: int, name: Seq<u8>)
    requires
        0 <= i < entries.len(),
        entries[i].name@ == name,
        forall|j: int| i < j < entries.len() ==> entries[j].name@ != name,
    ensures
        bindings(entries).dom().contains(name),
        bindings(entries)[name] == entries[i].value@,
    decreases entries.len(),
{
    if i < entries.len() - 1 {
        lemma_present(entries.drop_last(), i, name);
    }
}

proof fn lemma_replaced(entries: Seq<Entry>, i: int, entry: Entry)
    requires
        0 <= i < entries.len(),
        entries[i].name@ == entry.name@,
        forall|j: int| i < j < entries.len() ==> entries[j].name@ != entry.name@,
    ensures
        bindings(entries.update(i, entry)) == bindings(entries).insert(entry.name@, entry.value@),
    decreases entries.len(),
{
    let after = entries.update(i, entry);
    if i < entries.len() - 1 {
        lemma_replaced(entries.drop_last(), i, entry);
        assert(after.drop_last() =~= entries.drop_last().update(i, entry));
        assert(after.last() == entries.last());
        assert(bindings(after) =~= bindings(entries).insert(entry.name@, entry.value@));
    } else {
        assert(after.drop_last() =~= entries.drop_last());
        assert(bindings(after) =~= bindings(entries).insert(entry.name@, entry.value@));
    }
}

/// A scope: the names declared in one block, one call, or globally.
pub struct Scope {
    entries: Vec<Entry>,
}

impl View for Scope {
    type V = ScopeModel;

    closed spec fn view(&self) -> ScopeModel {
        bindings(self.entries@)
    }
}

/// The models of a list of scopes, in order.
pub open spec fn scope_models(scopes: Seq<Scope>) -> Seq<ScopeModel> {
    Seq::new(scopes.len(), |i: int| scopes[i]@)
}

impl Scope {
    /// A scope that binds nothing.
    pub fn new() -> (scope: Self)
        ensures
            scope@ == Map::<Seq<u8>, ObjectModel>::empty(),
    {
        Scope { entries: Vec::new() }
    }

    /// Where the binding of `name` is, if there is one.
    fn position(&self, name: &[u8]) -> (found: Option<usize>)
        ensures
            match found {
                Some(i) => i < self.entries@.len() && self.entries@[i as int].name@ == name@
                    && forall|j: int|
                    i < j < self.entries@.len() ==> self.entries@[j].name@ != name@,
                None => forall|j: int|
                    0 <= j < self.entries@.len() ==> self.entries@[j].name@ != name@,
            },
    {
        let mut i: usize = self.entries.len();
        while i > 0
            invariant
                i <= self.entries@.len(),
                forall|j: int| i <= j < self.entries@.len() ==> self.entries@[j].name@ != name@,
            decreases i,
        {
            i -= 1;
            if same_bytes(self.entries[i].name.as_slice(), name) {
                return Some(i);
            }
        }
        None
    }

    /// Binds `name` to `value`, whether or not it was bound before.
    pub fn define(&mut self, name: &[u8], value: Object)
        ensures
            final(self)@ == old(self)@.insert(name@, value@),
    {
        let entry = Entry { name: slice_to_vec(name), value };
        match self.position(name) {
            Some(i) => {
                proof {
                    lemma_replaced(self.entries@, i as int, entry);
                }
                self.entries[i] = entry;
            },
            None => {
                assert(self.entries@.push(entry).drop_last() =~= self.entries@);
                self.entries.push(entry);
            },
        }
    }

    /// The value that `name` is bound to, if it is bound.
    pub fn get(&self, name: &[u8]) -> (found: Option<Object>)
        ensures
            match found {
                Some(value) => self@.dom().contains(name@) && value@ == self@[name@],
                None => !self@.dom().contains(name@),
            },
    {
        match self.position(name) {
            Some(i) => {
                proof {
                    lemma_present(self.entries@, i as int, name@);
                }
                Some(self.entries[i].value.clone())
            },
            None => {
                proof {
                    lemma_absent(self.entries@, name@);
                }
                None
            },
        }
    }

    /// Rebinds `name` to `value` where the scope binds it, and hands the
    /// value back where it does not.
    pub fn assign(&mut self, name: &[u8], value: Object) -> (unused: Option<Object>)
        ensures
            old(self)@.dom().contains(name@) ==> unused is None && final(self)@ == old(self)@.insert(
                name@,
                value@,
            ),
            !old(self)@.dom().contains(name@) ==> unused == Some(value) && final(self)@ == old(
                self,
            )@,
    {
        match self.position(name) {
            Some(i) => {
                let entry = Entry { name: slice_to_vec(name), value };
                proof {
                    lemma_present(self.entries@, i as int, name@);
                    lemma_replaced(self.entries@, i as int, entry);
                }
                self.entries[i] = entry;
                None
            },
            None => {
                proof {
                    lemma_absent(self.entries@, name@);
                }
                Some(value)
            },
        }
    }
}


/// The scopes in reach of the code that is running: the global scope and,
/// inside it, one scope for each block or call that was entered and not yet
/// left. Each scope is enclosed by the one before it.
pub struct Environment {
    globals: Scope,
    locals: Vec<Scope>,
}

impl View for Environment {
    type V = Seq<ScopeModel>;

    /// The scopes, outermost first; the first is the global scope.
    closed spec fn view(&self) -> Seq<ScopeModel> {
        seq![self.globals@] + scope_models(self.locals@)
    }
}

impl Environment {
    /// The global scope alone, with nothing declared.
    pub fn new() -> (environment: Self)
        ensures
            environment@ == seq![Map::<Seq<u8>, ObjectModel>::empty()],
    {
        let environment = Environment { globals: Scope::new(), locals: Vec::new() };
        assert(environment@ =~= seq![Map::<Seq<u8>, ObjectModel>::empty()]);
        environment
    }

    /// A fresh scope enclosed by the scopes of `parent`.
    pub fn new_enclosed(parent: Environment) -> (environment: Self)
        ensures
            environment@ == parent@.push(Map::<Seq<u8>, ObjectModel>::empty()),
    {
        let mut environment = parent;
        environment.locals.push(Scope::new());
        assert(environment@ =~= parent@.push(Map::<Seq<u8>, ObjectModel>::empty()));
        environment
    }

    /// The scopes that enclose the innermost one; nothing encloses the
    /// global scope.
    pub fn into_enclosing(self) -> (parent: Option<Environment>)
        ensures
            self@.len() == 1 ==> parent is None,
            self@.len() > 1 ==> (parent matches Some(p) && p@ == self@.drop_last()),
            self@.len() >= 1,
    {
        let mut environment = self;
        match environment.locals.pop() {
            Some(_) => {
                assert(environment@ =~= self@.drop_last());
                Some(environment)
            },
            None => None,
        }
    }

    /// The global scope is always in reach.
    pub proof fn lemma_rooted(&self)
        ensures
            self@.len() >= 1,
    {
    }

    /// Whether only the global scope is in reach.
    pub fn is_global(&self) -> (yes: bool)
        ensures
            yes == (self@.len() == 1),
    {
        self.locals.len() == 0
    }

    /// Declares `name` in the innermost scope, replacing what that scope
    /// bound it to before.
    pub fn define(&mut self, name: &[u8], value: Object)
        ensures
            final(self)@ == defined(old(self)@, name@, value@),
    {
        let n = self.locals.len();
        if n == 0 {
            self.globals.define(name, value);
        } else {
            self.locals[n - 1].define(name, value);
        }
        assert(self@ =~= defined(old(self)@, name@, value@));
    }

    /// Enters a fresh scope, enclosed by the scopes in reach.
    pub fn push_scope(&mut self)
        ensures
            final(self)@ == old(self)@.push(Map::<Seq<u8>, ObjectModel>::empty()),
    {
        self.locals.push(Scope::new());
        assert(self@ =~= old(self)@.push(Map::<Seq<u8>, ObjectModel>::empty()));
    }

    /// Leaves the innermost scope and drops what it declared. The global
    /// scope is never left.
    pub fn pop_scope(&mut self)
        ensures
            final(self)@ == if old(self)@.len() > 1 {
                old(self)@.drop_last()
            } else {
                old(self)@
            },
    {
        let _ = self.locals.pop();
        proof {
            if old(self)@.len() > 1 {
                assert(self@ =~= old(self)@.drop_last());
            } else {
                assert(self@ =~= old(self)@);
            }
        }
    }

    /// Takes every scope but the global one out of reach and hands them
    /// out, outermost first.
    pub fn suspend(&mut self) -> (locals: Vec<Scope>)
        ensures
            final(self)@ == seq![old(self)@[0]],
            scope_models(locals@) == old(self)@.subrange(1, old(self)@.len() as int),
    {
        let mut locals: Vec<Scope> = Vec::new();
        core::mem::swap(&mut self.locals, &mut locals);
        assert(self@ =~= seq![old(self)@[0]]);
        assert(scope_models(locals@) =~= old(self)@.subrange(1, old(self)@.len() as int));
        locals
    }

    /// Puts `locals` in reach inside the global scope, in place of every
    /// other scope.
    pub fn restore(&mut self, locals: Vec<Scope>)
        ensures
            final(self)@ == seq![old(self)@[0]] + scope_models(locals@),
    {
        self.locals = locals;
        assert(self@ =~= seq![old(self)@[0]] + scope_models(locals@));
    }

    /// The value that `name` is bound to in the innermost scope that binds
    /// it; an undefined-variable failure where no scope in reach does.
    pub fn get(&self, name: &Token) -> (found: Result<Object, RuntimeError>)
        ensures
            match lookup(self@, name@.lexeme) {
                Some(value) => found matches Ok(object) && object@ == value,
                None => found matches Err(error) && error@ == (RuntimeErrorModel {
                    kind: ErrorKind::UndefinedVariable,
                    token: name@,
                }),
            },
    {
        let key = name.lexeme.as_slice();
        let ghost all = self@;
        let mut i: usize = self.locals.len();
        assert(all.subrange(0, i + 1) =~= all);
        while i > 0
            invariant
                all == self@,
                key@ == name@.lexeme,
                i <= self.locals@.len(),
                lookup(all, key@) == lookup(all.subrange(0, i + 1), key@),
            decreases i,
        {
            i -= 1;
            let ghost chain = all.subrange(0, i + 2);
            assert(chain.last() == self.locals@[i as int]@);
            assert(chain.drop_last() =~= all.subrange(0, i + 1));
            match self.locals[i].get(key) {
                Some(value) => {
                    return Ok(value);
                },
                None => {},
            }
        }
        let ghost chain = all.subrange(0, 1);
        assert(chain.last() == self.globals@);
        assert(lookup(chain.drop_last(), key@) is None);
        match self.globals.get(key) {
            Some(value) => Ok(value),
            None => Err(RuntimeError::new(ErrorKind::UndefinedVariable, name.clone())),
        }
    }

    /// Rebinds `name` in the innermost scope that binds it. Where no scope
    /// in reach binds it, nothing changes and the failure says so: an
    /// assignment declares nothing.
    pub fn assign(&mut self, name: &Token, value: Object) -> (done: Result<(), RuntimeError>)
        ensures
            match lookup(old(self)@, name@.lexeme) {
                Some(_) => done is Ok && final(self)@ == assigned(
                    old(self)@,
                    name@.lexeme,
                    value@,
                ),
                None => final(self)@ == old(self)@ && (done matches Err(error) && error@ == (
                RuntimeErrorModel { kind: ErrorKind::UndefinedVariable, token: name@ })),
            },
    {
        let key = name.lexeme.as_slice();
        let ghost all = self@;
        let ghost given = value@;
        let mut pending = value;
        let mut i: usize = self.locals.len();
        assert(all.subrange(0, i + 1) =~= all);
        while i > 0
            invariant
                all == self@,
                all == old(self)@,
                key@ == name@.lexeme,
                pending@ == given,
                given == value@,
                i <= self.locals@.len(),
                lookup(all, key@) == lookup(all.subrange(0, i + 1), key@),
                assigned(all, key@, given) == assigned(all.subrange(0, i + 1), key@, given)
                    + all.subrange(i + 1, all.len() as int),
            decreases i,
        {
            i -= 1;
            let ghost chain = all.subrange(0, i + 2);
            assert(chain.last() == self.locals@[i as int]@);
            assert(chain.drop_last() =~= all.subrange(0, i + 1));
            match self.locals[i].assign(key, pending) {
                None => {
                    assert(lookup(chain, key@) is Some);
                    assert(assigned(chain, key@, given) == chain.update(
                        i + 1,
                        chain.last().insert(key@, given),
                    ));
                    assert(self@ =~= chain.update(i + 1, chain.last().insert(key@, given))
                        + all.subrange(i + 2, all.len() as int));
                    return Ok(());
                },
                Some(unused) => {
                    pending = unused;
                    assert(self@ =~= all);
                    assert(lookup(chain, key@) == lookup(chain.drop_last(), key@));
                    assert(assigned(chain, key@, given) == assigned(
                        chain.drop_last(),
                        key@,
                        given,
                    ).push(chain.last()));
                    assert(assigned(chain, key@, given) + all.subrange(i + 2, all.len() as int)
                        =~= assigned(all.subrange(0, i + 1), key@, given) + all.subrange(
                        i + 1,
                        all.len() as int,
                    ));
                },
            }
        }
        let ghost chain = all.subrange(0, 1);
        assert(chain.last() == self.globals@);
        assert(lookup(chain.drop_last(), key@) is None);
        assert(assigned(chain.drop_last(), key@, given) =~= chain.drop_last());
        match self.globals.assign(key, pending) {
            None => {
                assert(lookup(chain, key@) is Some);
                assert(assigned(chain, key@, given) == chain.update(
                    0,
                    chain.last().insert(key@, given),
                ));
                assert(self@ =~= chain.update(0, chain.last().insert(key@, given))
                    + all.subrange(1, all.len() as int));
                Ok(())
            },
            Some(_) => {
                assert(self@ =~= all);
                Err(RuntimeError::new(ErrorKind::UndefinedVariable, name.clone()))
            },
        }
    }
}


/// A declaration binds the name in the innermost scope and nowhere else:
/// the name is then found with the declared value, every other name is
/// found as before, and the enclosing scopes are as they were.
pub proof fn law_define(scopes: Seq<ScopeModel>, name: Seq<u8>, value: ObjectModel, other: Seq<u8>)
    requires
        scopes.len() > 0,
    ensures
        lookup(defined(scopes, name, value), name) == Some(value),
        other != name ==> lookup(defined(scopes, name, value), other) == lookup(scopes, other),
        defined(scopes, name, value).drop_last() == scopes.drop_last(),
{
    let after = defined(scopes, name, value);
    assert(after.drop_last() =~= scopes.drop_last());
}

/// What a scope declares is gone when the scope is left: entering a
/// scope, declaring a name and leaving the scope gives back the scopes as
/// they were.
pub proof fn law_scope_left(scopes: Seq<ScopeModel>, name: Seq<u8>, value: ObjectModel)
    ensures
        defined(scopes.push(Map::empty()), name, value).drop_last() == scopes,
{
    assert(defined(scopes.push(Map::empty()), name, value).drop_last() =~= scopes);
}

/// An assignment changes the innermost scope that binds the name, and only
/// that binding: the name is then found with the assigned value. Inner
/// scopes that do not bind the name are passed over and left as they
/// were.
pub proof fn law_assign(scopes: Seq<ScopeModel>, inner: ScopeModel, name: Seq<u8>, value: ObjectModel)
    requires
        lookup(scopes, name) is Some,
    ensures
        lookup(assigned(scopes, name, value), name) == Some(value),
        assigned(scopes, name, value).len() == scopes.len(),
        !inner.dom().contains(name) ==> assigned(scopes.push(inner), name, value) == assigned(
            scopes,
            name,
            value,
        ).push(inner),
        !inner.dom().contains(name) ==> lookup(scopes.push(inner), name) == lookup(scopes, name),
    decreases scopes.len(),
{
    if scopes.len() > 0 {
        if scopes.last().dom().contains(name) {
            let after = assigned(scopes, name, value);
            assert(after.last().dom().contains(name));
        } else {
            law_assign(scopes.drop_last(), inner, name, value);
            let after = assigned(scopes, name, value);
            assert(after.drop_last() =~= assigned(scopes.drop_last(), name, value));
            assert(after.last() == scopes.last());
        }
    }
    assert(scopes.push(inner).drop_last() =~= scopes);
}

/// An assignment declares nothing: where no scope binds the name, the
/// scopes stay as they are.
pub proof fn law_assign_undeclared(scopes: Seq<ScopeModel>, name: Seq<u8>, value: ObjectModel)
    requires
        lookup(scopes, name) is None,
    ensures
        assigned(scopes, name, value) == scopes,
    decreases scopes.len(),
{
    if scopes.len() > 0 {
        law_assign_undeclared(scopes.drop_last(), name, value);
        assert(assigned(scopes, name, value) =~= scopes);
    }
}

} // verus!
