//! Scopes: where names are bound to values.
//!
//! A scope binds names and may have a parent. All scopes of a run live in
//! one store and are named by their position in it; a lambda holds the
//! position of the scope it was made in. So every holder of a position sees
//! what anyone binds or assigns in that scope, and a scope outlives the
//! call that made it.

use vstd::prelude::*;
use crate::error::{RuntimeError, RuntimeErrorModel};
use crate::interpreter::{Value, ValueModel};
use crate::lists::{group_views, views};
use vstd::string::StringExecFns;

verus! {

/// Mathematical value of a scope: its bindings, and the position of its parent.
pub ghost struct ScopeModel {
    pub parent: Option<nat>,
    pub vars: Map<Seq<char>, ValueModel>,
}

/// Mathematical value of an [`Environment`].
pub ghost struct EnvModel {
    /// All scopes made so far.
    pub scopes: Seq<ScopeModel>,
    /// The position of the scope in which evaluation takes place.
    pub current: nat,
    /// Everything printed so far.
    pub output: Seq<char>,
}

/// The bindings that come from binding each name to the value at its
/// position, in order: of two equal names the later one counts. A name
/// whose position holds no value, and a value whose position holds no name,
/// bind nothing.
pub open spec fn bindings(names: Seq<Seq<char>>, values: Seq<ValueModel>) -> Map<
    Seq<char>,
    ValueModel,
>
    decreases names.len() + values.len(),
{
    if names.len() == 0 || values.len() == 0 {
        Map::empty()
    } else if names.len() > values.len() {
        bindings(names.drop_last(), values)
    } else if values.len() > names.len() {
        bindings(names, values.drop_last())
    } else {
        bindings(names.drop_last(), values.drop_last()).insert(names.last(), values.last())
    }
}

/// Only the positions that hold both a name and a value bind anything.
pub proof fn lemma_bindings_common(names: Seq<Seq<char>>, values: Seq<ValueModel>, n: int)
    requires
        n == names.len() || n == values.len(),
        n <= names.len(),
        n <= values.len(),
    ensures
        bindings(names, values) == bindings(names.take(n), values.take(n)),
    decreases names.len() + values.len(),
{
    if names.len() == 0 || values.len() == 0 {
        assert(names.take(n).len() == 0);
    } else if names.len() > values.len() {
        lemma_bindings_common(names.drop_last(), values, n);
        assert(names.drop_last().take(n) =~= names.take(n));
    } else if values.len() > names.len() {
        lemma_bindings_common(names, values.drop_last(), n);
        assert(values.drop_last().take(n) =~= values.take(n));
    } else {
        assert(names.take(n) =~= names);
        assert(values.take(n) =~= values);
    }
}

/// The nearest of `scopes` that binds `name`, going from scope `from` to
/// its parent and on, if there is one.
pub open spec fn resolve_in(scopes: Seq<ScopeModel>, from: nat, name: Seq<char>) -> Option<nat>
    decreases from,
{
    if from >= scopes.len() {
        None
    } else if scopes[from as int].vars.contains_key(name) {
        Some(from)
    } else {
        match scopes[from as int].parent {
            Some(p) => if p < from {
                resolve_in(scopes, p, name)
            } else {
                None
            },
            None => None,
        }
    }
}

impl EnvModel {
    /// A single scope without bindings, and nothing printed.
    pub open spec fn initial() -> EnvModel {
        EnvModel {
            scopes: seq![ScopeModel { parent: None, vars: Map::empty() }],
            current: 0,
            output: Seq::empty(),
        }
    }

    /// The current scope exists, and every parent was made before its child.
    pub open spec fn wf(self) -> bool {
        &&& self.current < self.scopes.len()
        &&& forall|i: int|
            0 <= i < self.scopes.len() ==> (#[trigger] self.scopes[i].parent matches Some(p)
                ==> p < i)
    }

    /// The nearest scope that binds `name`, going from scope `from` to its
    /// parent and on, if there is one.
    pub open spec fn resolve(self, from: nat, name: Seq<char>) -> Option<nat> {
        resolve_in(self.scopes, from, name)
    }

    /// The value of `name` as seen from the current scope.
    pub open spec fn lookup(self, name: Seq<char>) -> Option<ValueModel> {
        match self.resolve(self.current, name) {
            Some(s) => Some(self.scopes[s as int].vars[name]),
            None => None,
        }
    }

    /// Scope `scope` with `name` bound to `value`, everything else as it is.
    pub open spec fn bind_in(self, scope: nat, name: Seq<char>, value: ValueModel) -> EnvModel {
        EnvModel {
            scopes: self.scopes.update(
                scope as int,
                ScopeModel {
                    parent: self.scopes[scope as int].parent,
                    vars: self.scopes[scope as int].vars.insert(name, value),
                },
            ),
            ..self
        }
    }

    /// `name` bound to `value` in the current scope.
    pub open spec fn bind(self, name: Seq<char>, value: ValueModel) -> EnvModel {
        self.bind_in(self.current, name, value)
    }

    /// `value` in place of the value of `name`, in the scope where `lookup` finds it.
    pub open spec fn assign(self, name: Seq<char>, value: ValueModel) -> Option<EnvModel> {
        match self.resolve(self.current, name) {
            Some(s) => Some(self.bind_in(s, name, value)),
            None => None,
        }
    }

    /// One more scope, with the given bindings and under `parent`; a parent
    /// that does not exist is no parent.
    pub open spec fn child_scope(self, parent: nat, vars: Map<Seq<char>, ValueModel>) -> EnvModel {
        EnvModel {
            scopes: self.scopes.push(
                ScopeModel {
                    parent: if parent < self.scopes.len() {
                        Some(parent)
                    } else {
                        None
                    },
                    vars,
                },
            ),
            ..self
        }
    }

    /// Evaluation moved to scope `scope`.
    pub open spec fn enter(self, scope: nat) -> EnvModel {
        EnvModel { current: scope, ..self }
    }

    /// `text` added to the end of the output.
    pub open spec fn print(self, text: Seq<char>) -> EnvModel {
        EnvModel { output: self.output + text, ..self }
    }
}

/// The scope that `resolve` finds exists, binds the name, and is the scope
/// that the search began in or one made before it.
pub proof fn lemma_resolve(env: EnvModel, from: nat, name: Seq<char>)
    ensures
        env.resolve(from, name) matches Some(s) ==> s <= from && s < env.scopes.len()
            && env.scopes[s as int].vars.contains_key(name),
    decreases from,
{
    if from < env.scopes.len() && !env.scopes[from as int].vars.contains_key(name) {
        match env.scopes[from as int].parent {
            Some(p) => if p < from {
                lemma_resolve(env, p, name);
            },
            None => {},
        }
    }
}

/// Binding and assigning keep an environment well formed: they make no
/// scope, move evaluation nowhere and print nothing.
pub proof fn lemma_bind_and_assign_keep_shape(env: EnvModel, name: Seq<char>, value: ValueModel)
    requires
        env.wf(),
    ensures
        env.bind(name, value).wf(),
        env.bind(name, value).scopes.len() == env.scopes.len(),
        env.bind(name, value).current == env.current,
        env.bind(name, value).output == env.output,
        env.assign(name, value) matches Some(after) ==> after.wf() && after.scopes.len()
            == env.scopes.len() && after.current == env.current && after.output == env.output,
{
    lemma_resolve(env, env.current, name);
}

/// Assigning to a name changes in no scope whether the scope binds the
/// name, so every search for it ends where it ended before.
pub proof fn lemma_assign_keeps_resolve(
    env: EnvModel,
    scope: nat,
    name: Seq<char>,
    value: ValueModel,
    from: nat,
)
    requires
        scope < env.scopes.len(),
        env.scopes[scope as int].vars.contains_key(name),
    ensures
        env.bind_in(scope, name, value).resolve(from, name) == env.resolve(from, name),
    decreases from,
{
    let after = env.bind_in(scope, name, value);
    if from < env.scopes.len() && !env.scopes[from as int].vars.contains_key(name) {
        match env.scopes[from as int].parent {
            Some(p) => if p < from {
                lemma_assign_keeps_resolve(env, scope, name, value, p);
            },
            None => {},
        }
    }
}

/// A scope is shared by all that hold its position: what is assigned to a
/// name from one scope is what the name has in every scope from which the
/// search for it ends in the same scope, such as the scope that a lambda
/// was made in, however much later the lambda is called.
pub proof fn lemma_assignment_is_seen(
    env: EnvModel,
    name: Seq<char>,
    value: ValueModel,
    other: nat,
)
    requires
        env.wf(),
        env.resolve(env.current, name) is Some,
        env.resolve(other, name) == env.resolve(env.current, name),
    ensures
        env.assign(name, value) is Some,
        env.assign(name, value)->0.enter(other).lookup(name) == Some(value),
{
    lemma_resolve(env, env.current, name);
    let scope = env.resolve(env.current, name)->0;
    lemma_assign_keeps_resolve(env, scope, name, value, other);
}

/// Whether no two positions of `names` hold the same name.
pub open spec fn distinct(names: Seq<Seq<char>>) -> bool {
    forall|i: int, j: int| 0 <= i < j < names.len() ==> names[i] != names[j]
}

/// A name that stands at no position is not bound.
pub proof fn lemma_bindings_absent(names: Seq<Seq<char>>, values: Seq<ValueModel>, name: Seq<char>)
    requires
        forall|i: int| 0 <= i < names.len() ==> names[i] != name,
    ensures
        !bindings(names, values).contains_key(name),
    decreases names.len() + values.len(),
{
    if names.len() == 0 || values.len() == 0 {
    } else if names.len() > values.len() {
        lemma_bindings_absent(names.drop_last(), values, name);
    } else if values.len() > names.len() {
        lemma_bindings_absent(names, values.drop_last(), name);
    } else {
        lemma_bindings_absent(names.drop_last(), values.drop_last(), name);
    }
}

/// Where names are distinct, each is bound to the value at its position.
pub proof fn lemma_bindings_get(names: Seq<Seq<char>>, values: Seq<ValueModel>, i: int)
    requires
        names.len() == values.len(),
        distinct(names),
        0 <= i < names.len(),
    ensures
        bindings(names, values).contains_key(names[i]),
        bindings(names, values)[names[i]] == values[i],
    decreases names.len(),
{
    if i < names.len() - 1 {
        lemma_bindings_get(names.drop_last(), values.drop_last(), i);
    }
}

/// Where names are distinct, a new value at a position is a new binding of the name there.
pub proof fn lemma_bindings_update(
    names: Seq<Seq<char>>,
    values: Seq<ValueModel>,
    i: int,
    value: ValueModel,
)
    requires
        names.len() == values.len(),
        distinct(names),
        0 <= i < names.len(),
    ensures
        bindings(names, values.update(i, value)) == bindings(names, values).insert(names[i], value),
    decreases names.len(),
{
    let last = names.len() - 1;
    if i < last {
        lemma_bindings_update(names.drop_last(), values.drop_last(), i, value);
        assert(values.update(i, value).drop_last() =~= values.drop_last().update(i, value));
        assert(bindings(names, values.update(i, value)) =~= bindings(names, values).insert(
            names[i],
            value,
        ));
    } else {
        assert(values.update(i, value).drop_last() =~= values.drop_last());
        assert(bindings(names, values.update(i, value)) =~= bindings(names, values).insert(
            names[i],
            value,
        ));
    }
}

/// A scope: names with their values, and the position of the parent scope.
#[derive(Debug, PartialEq)]
pub struct Scope {
    parent: Option<usize>,
    names: Vec<String>,
    values: Vec<Value>,
}

impl View for Scope {
    type V = ScopeModel;

    closed spec fn view(&self) -> ScopeModel {
        ScopeModel {
            parent: match self.parent {
                Some(p) => Some(p as nat),
                None => None,
            },
            vars: bindings(views(self.names@), views(self.values@)),
        }
    }
}

impl Scope {
    /// Each name has a value, and no name occurs twice.
    pub closed spec fn wf(&self) -> bool {
        &&& self.names.len() == self.values.len()
        &&& distinct(views(self.names@))
    }

    /// A scope without bindings.
    fn new(parent: Option<usize>) -> (r: Scope)
        ensures
            r.wf(),
            r@ == (ScopeModel {
                parent: match parent {
                    Some(p) => Some(p as nat),
                    None => None,
                },
                vars: Map::empty(),
            }),
    {
        broadcast use group_views;

        Scope { parent, names: Vec::new(), values: Vec::new() }
    }

    /// The position of `name`, if the scope binds it.
    #[verifier::loop_isolation(false)]
    fn find(&self, name: &String) -> (r: Option<usize>)
        requires
            self.wf(),
        ensures
            match r {
                Some(i) => i < self.names.len() && self.names[i as int]@ == name@
                    && self@.vars.contains_key(name@) && self@.vars[name@] == self.values[i as int]@,
                None => !self@.vars.contains_key(name@) && forall|j: int|
                    0 <= j < self.names.len() ==> self.names[j]@ != name@,
            },
    {
        broadcast use group_views;

        let mut i: usize = 0;
        while i < self.names.len()
            invariant
                i <= self.names.len(),
                forall|j: int| 0 <= j < i ==> self.names[j]@ != name@,
            decreases self.names.len() - i,
        {
            if self.names[i] == *name {
                proof {
                    lemma_bindings_get(views(self.names@), views(self.values@), i as int);
                }
                return Some(i);
            }
            i += 1;
        }
        proof {
            lemma_bindings_absent(views(self.names@), views(self.values@), name@);
        }
        None
    }

    /// Binds `name` to `value`, in place of an earlier value if there is one.
    fn bind(&mut self, name: String, value: Value)
        requires
            old(self).wf(),
        ensures
            final(self).wf(),
            final(self)@.parent == old(self)@.parent,
            final(self)@.vars == old(self)@.vars.insert(name@, value@),
    {
        broadcast use group_views;

        match self.find(&name) {
            Some(i) => {
                proof {
                    lemma_bindings_update(
                        views(self.names@),
                        views(self.values@),
                        i as int,
                        value@,
                    );
                    assert(views(self.values@.update(i as int, value)) =~= views(
                        self.values@,
                    ).update(i as int, value@));
                }
                self.values[i] = value;
            },
            None => {
                proof {
                    assert(views(self.names@.push(name)).drop_last() =~= views(self.names@));
                    assert(views(self.values@.push(value)).drop_last() =~= views(self.values@));
                }
                self.names.push(name);
                self.values.push(value);
            },
        }
    }
}

/// The scopes of a run, the scope in which evaluation takes place, and what was printed.
#[derive(Debug, PartialEq)]
pub struct Environment {
    scopes: Vec<Scope>,
    current: usize,
    output: String,
}

impl View for Environment {
    type V = EnvModel;

    closed spec fn view(&self) -> EnvModel {
        EnvModel {
            scopes: views(self.scopes@),
            current: self.current as nat,
            output: self.output@,
        }
    }
}

impl Environment {
    /// Every scope is well formed, the current scope exists, and every
    /// parent was made before its child.
    pub closed spec fn wf(&self) -> bool {
        &&& self@.wf()
        &&& forall|i: int| 0 <= i < self.scopes.len() ==> (#[trigger] self.scopes[i]).wf()
    }

    /// A single scope without bindings, and nothing printed.
    pub fn new() -> (env: Environment)
        ensures
            env.wf(),
            env@ == EnvModel::initial(),
    {
        broadcast use group_views;

        let mut scopes: Vec<Scope> = Vec::new();
        scopes.push(Scope::new(None));
        let env = Environment { scopes, current: 0, output: String::new() };
        assert(env@.scopes =~= EnvModel::initial().scopes);
        env
    }

    /// The position of the scope in which evaluation takes place.
    pub fn current(&self) -> (r: usize)
        ensures
            r == self@.current,
            self.wf() ==> r < self@.scopes.len(),
    {
        self.current
    }

    /// Everything printed so far.
    pub fn output(&self) -> (r: &String)
        ensures
            r@ == self@.output,
    {
        &self.output
    }

    /// The nearest scope that binds `name`, going from the current scope
    /// to its parent and on, with the position of the name in it.
    #[verifier::loop_isolation(false)]
    fn resolve(&self, name: &String) -> (r: Option<(usize, usize)>)
        requires
            self.wf(),
        ensures
            match r {
                Some((s, i)) => self@.resolve(self@.current, name@) == Some(s as nat) && s
                    < self.scopes.len() && i < self.scopes[s as int].names.len()
                    && self.scopes[s as int].names[i as int]@ == name@
                    && self@.scopes[s as int].vars[name@] == self.scopes[s as int].values[i as int]@,
                None => self@.resolve(self@.current, name@) is None,
            },
    {
        broadcast use group_views;

        let mut s: usize = self.current;
        loop
            invariant
                s < self.scopes.len(),
                self@.resolve(self@.current, name@) == self@.resolve(s as nat, name@),
            decreases s,
        {
            match self.scopes[s].find(name) {
                Some(i) => {
                    return Some((s, i));
                },
                None => match self.scopes[s].parent {
                    Some(p) => {
                        assert(self@.scopes[s as int].parent == Some(p as nat));
                        s = p;
                    },
                    None => {
                        return None;
                    },
                },
            }
        }
    }

    /// The value of `name` as seen from the current scope: that of the
    /// nearest scope that binds it, going from the current scope to its
    /// parent and on.
    pub fn lookup(&self, name: &String) -> (r: Result<Value, RuntimeError>)
        requires
            self.wf(),
        ensures
            match self@.lookup(name@) {
                Some(v) => r matches Ok(x) && x@ == v,
                None => r matches Err(e) && e@ == RuntimeErrorModel::UnknownVariable(name@),
            },
    {
        match self.resolve(name) {
            Some((s, i)) => Ok(self.scopes[s].values[i].duplicate()),
            None => Err(RuntimeError::UnknownVariable(name.clone())),
        }
    }

    /// Binds `name` to `value` in the current scope, in place of an earlier
    /// value if the scope has one; other scopes are not looked at.
    pub fn bind(&mut self, name: String, value: Value)
        requires
            old(self).wf(),
        ensures
            final(self).wf(),
            final(self)@ == old(self)@.bind(name@, value@),
            final(self)@.scopes.len() == old(self)@.scopes.len(),
            final(self)@.current == old(self)@.current,
    {
        broadcast use group_views;

        let current = self.current;
        self.scopes[current].bind(name, value);
        assert(self@.scopes =~= old(self)@.bind(name@, value@).scopes);
    }

    /// Gives `name` the value `value` in the nearest scope that binds it,
    /// going from the current scope to its parent and on; fails, and
    /// changes nothing, where no such scope binds it.
    pub fn assign(&mut self, name: &String, value: Value) -> (r: Result<(), RuntimeError>)
        requires
            old(self).wf(),
        ensures
            final(self).wf(),
            match old(self)@.assign(name@, value@) {
                Some(env) => r is Ok && final(self)@ == env,
                None => r matches Err(e) && e@ == RuntimeErrorModel::UnknownVariable(name@)
                    && final(self)@ == old(self)@,
            },
            final(self)@.scopes.len() == old(self)@.scopes.len(),
            final(self)@.current == old(self)@.current,
    {
        broadcast use group_views;

        match self.resolve(name) {
            Some((s, i)) => {
                proof {
                    let scope = self.scopes[s as int];
                    lemma_bindings_update(
                        views(scope.names@),
                        views(scope.values@),
                        i as int,
                        value@,
                    );
                    assert(views(scope.values@.update(i as int, value)) =~= views(
                        scope.values@,
                    ).update(i as int, value@));
                }
                self.scopes[s].values[i] = value;
                assert(self@.scopes =~= old(self)@.bind_in(s as nat, name@, value@).scopes);
                Ok(())
            },
            None => Err(RuntimeError::UnknownVariable(name.clone())),
        }
    }

    /// Makes a scope under `parent` in which each of `names` is bound to the
    /// value at its position, and gives its position. Of two equal names the
    /// later one counts; a name without a value and a value without a name
    /// bind nothing. A parent that does not exist is no parent.
    #[verifier::loop_isolation(false)]
    pub fn child_scope(&mut self, parent: usize, names: &Vec<String>, values: Vec<Value>) -> (r:
        usize)
        requires
            old(self).wf(),
        ensures
            final(self).wf(),
            r == old(self)@.scopes.len(),
            final(self)@ == old(self)@.child_scope(
                parent as nat,
                bindings(views(names@), views(values@)),
            ),
    {
        broadcast use group_views;

        let mut scope = Scope::new(
            if parent < self.scopes.len() {
                Some(parent)
            } else {
                None
            },
        );
        let ghost all = views(values@);
        let mut values = values;
        let count = if names.len() < values.len() {
            names.len()
        } else {
            values.len()
        };
        let mut i: usize = 0;
        while i < count
            invariant
                i <= count,
                values.len() == all.len(),
                scope.wf(),
                scope@.parent == (if parent < self.scopes.len() {
                    Some(parent as nat)
                } else {
                    None
                }),
                scope@.vars == bindings(views(names@).take(i as int), all.take(i as int)),
                forall|j: int| i <= j < values.len() ==> values[j]@ == all[j],
            decreases count - i,
        {
            let mut value = Value::Void;
            core::mem::swap(&mut values[i], &mut value);
            proof {
                assert(views(names@).take(i + 1).drop_last() =~= views(names@).take(i as int));
                assert(all.take(i + 1).drop_last() =~= all.take(i as int));
            }
            scope.bind(names[i].clone(), value);
            i += 1;
        }
        proof {
            lemma_bindings_common(views(names@), all, count as int);
        }
        let position = self.scopes.len();
        self.scopes.push(scope);
        assert(self@.scopes =~= old(self)@.child_scope(
            parent as nat,
            bindings(views(names@), all),
        ).scopes);
        position
    }

    /// Moves evaluation to scope `scope` and says so, or leaves it where
    /// it is where no such scope exists.
    pub fn enter(&mut self, scope: usize) -> (entered: bool)
        requires
            old(self).wf(),
        ensures
            final(self).wf(),
            entered == (scope < old(self)@.scopes.len()),
            final(self)@ == (if entered {
                old(self)@.enter(scope as nat)
            } else {
                old(self)@
            }),
    {
        broadcast use group_views;

        if scope < self.scopes.len() {
            self.current = scope;
            true
        } else {
            false
        }
    }

    /// Adds `text` to the end of the output.
    pub fn print(&mut self, text: &str)
        requires
            old(self).wf(),
        ensures
            final(self).wf(),
            final(self)@ == old(self)@.print(text@),
    {
        self.output.append(text);
    }
}

} // verus!
