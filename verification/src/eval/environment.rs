//! Environments: the bindings of names to values, scope within scope.
use vstd::prelude::*;
use crate::data::expression::{share, Expr};
use crate::eval::error::{EvalError, EvalResult};
use crate::text::same_text;

verus! {

/// The bindings that a list of entries makes: a later entry of a name
/// replaces an earlier one.
pub open spec fn bindings_of(entries: Seq<(String, Expr)>) -> Map<Seq<char>, Expr>
    decreases entries.len(),
{
    if entries.len() == 0 {
        Map::empty()
    } else {
        bindings_of(entries.drop_last()).insert(entries.last().0@, entries.last().1)
    }
}

/// The scopes given by their entries.
pub open spec fn scopes_of(scopes: Seq<Vec<(String, Expr)>>) -> Seq<Map<Seq<char>, Expr>> {
    Seq::new(scopes.len(), |i: int| bindings_of(scopes[i]@))
}

/// The value that the scopes `scopes[..depth]` give to a name: that of the
/// innermost scope that binds it. The innermost scope is the last.
pub open spec fn lookup(scopes: Seq<Map<Seq<char>, Expr>>, depth: int, name: Seq<char>) -> Option<
    Expr,
>
    decreases depth,
{
    if depth <= 0 || depth > scopes.len() {
        None
    } else if scopes[depth - 1].contains_key(name) {
        Some(scopes[depth - 1][name])
    } else {
        lookup(scopes, depth - 1, name)
    }
}

/// The scope among `scopes[..depth]` that gives a name its value.
pub open spec fn binding_scope(scopes: Seq<Map<Seq<char>, Expr>>, depth: int, name: Seq<char>) -> Option<
    int,
>
    decreases depth,
{
    if depth <= 0 || depth > scopes.len() {
        None
    } else if scopes[depth - 1].contains_key(name) {
        Some(depth - 1)
    } else {
        binding_scope(scopes, depth - 1, name)
    }
}

/// The scopes after a name has got a value in the innermost of them; where
/// there is no scope yet, one is made.
pub open spec fn defined(scopes: Seq<Map<Seq<char>, Expr>>, name: Seq<char>, value: Expr) -> Seq<
    Map<Seq<char>, Expr>,
> {
    if scopes.len() == 0 {
        seq![Map::<Seq<char>, Expr>::empty().insert(name, value)]
    } else {
        scopes.update(scopes.len() - 1, scopes.last().insert(name, value))
    }
}

/// An evaluation environment mapping variable names to values.
///
/// An environment is a stack of scopes. A name is looked up in the innermost
/// scope first and then in those around it.
pub struct Environment {
    scopes: Vec<Vec<(String, Expr)>>,
}

impl View for Environment {
    type V = Seq<Map<Seq<char>, Expr>>;

    closed spec fn view(&self) -> Seq<Map<Seq<char>, Expr>> {
        scopes_of(self.scopes@)
    }
}

/// The index of the last entry of the name, where there is one.
fn find(entries: &Vec<(String, Expr)>, name: &str) -> (r: Option<usize>)
    ensures
        match r {
            Some(i) => i < entries@.len() && entries@[i as int].0@ == name@ && bindings_of(
                entries@,
            ).contains_key(name@) && bindings_of(entries@)[name@] == entries@[i as int].1
                && forall|j: int| i < j < entries@.len() ==> entries@[j].0@ != name@,
            None => !bindings_of(entries@).contains_key(name@),
        },
{
    let mut i: usize = entries.len();
    proof {
        assert(entries@.take(i as int) =~= entries@);
    }
    while i > 0
        invariant
            i <= entries@.len(),
            bindings_of(entries@).contains_key(name@) == bindings_of(
                entries@.take(i as int),
            ).contains_key(name@),
            bindings_of(entries@).contains_key(name@) ==> bindings_of(entries@)[name@]
                == bindings_of(entries@.take(i as int))[name@],
            forall|j: int| i <= j < entries@.len() ==> entries@[j].0@ != name@,
        decreases i,
    {
        i -= 1;
        proof {
            let now = entries@.take(i + 1);
            assert(now.drop_last() =~= entries@.take(i as int));
            assert(now.last() == entries@[i as int]);
        }
        if same_text(entries[i].0.as_str(), name) {
            return Some(i);
        }
    }
    proof {
        assert(entries@.take(0) =~= Seq::<(String, Expr)>::empty());
    }
    None
}

/// Replacing the value of the last entry of a name replaces the value that
/// the entries bind to the name.
proof fn lemma_update_binding(entries: Seq<(String, Expr)>, i: int, value: (String, Expr))
    requires
        0 <= i < entries.len(),
        value.0@ == entries[i].0@,
        forall|j: int| i < j < entries.len() ==> entries[j].0@ != entries[i].0@,
    ensures
        bindings_of(entries.update(i, value)) == bindings_of(entries).insert(value.0@, value.1),
    decreases entries.len(),
{
    let updated = entries.update(i, value);
    if i == entries.len() - 1 {
        assert(updated.drop_last() =~= entries.drop_last());
        assert(bindings_of(updated) =~= bindings_of(entries).insert(value.0@, value.1));
    } else {
        assert(updated.drop_last() =~= entries.drop_last().update(i, value));
        lemma_update_binding(entries.drop_last(), i, value);
        assert(updated.last() == entries.last());
        assert(bindings_of(updated) =~= bindings_of(entries).insert(value.0@, value.1));
    }
}

impl Environment {
    /// The number of scopes.
    pub open spec fn depth(&self) -> int {
        self@.len() as int
    }

    /// The value that the environment gives to a name.
    pub open spec fn value_of(&self, name: Seq<char>) -> Option<Expr> {
        lookup(self@, self.depth(), name)
    }

    /// Creates a new environment with one empty scope.
    pub fn empty() -> (r: Environment)
        ensures
            r@ == seq![Map::<Seq<char>, Expr>::empty()],
    {
        let mut scopes: Vec<Vec<(String, Expr)>> = Vec::new();
        scopes.push(Vec::new());
        proof {
            assert(scopes_of(scopes@) =~= seq![Map::<Seq<char>, Expr>::empty()]);
        }
        Environment { scopes }
    }

    /// Creates the environment that has a new empty scope within those of
    /// `outer`.
    pub fn inner(outer: Environment) -> (r: Environment)
        ensures
            r@ == outer@.push(Map::empty()),
    {
        let mut scopes = outer.scopes;
        let ghost before = scopes@;
        scopes.push(Vec::new());
        proof {
            assert(scopes_of(scopes@) =~= scopes_of(before).push(Map::empty()));
        }
        Environment { scopes }
    }

    /// Leaves the innermost scope: gives the environment around it, or
    /// nothing where the environment has one scope only.
    pub fn outer(self) -> (r: Option<Environment>)
        ensures
            match r {
                Some(env) => self@.len() > 1 && env@ == self@.drop_last(),
                None => self@.len() <= 1,
            },
    {
        let mut scopes = self.scopes;
        let ghost before = scopes@;
        if scopes.len() > 1 {
            scopes.pop();
            proof {
                assert(scopes_of(scopes@) =~= scopes_of(before).drop_last());
            }
            Some(Environment { scopes })
        } else {
            None
        }
    }

    /// Defines a variable in the innermost scope, mapping the given name to
    /// the given value. A binding that the scope has for the name is
    /// replaced.
    pub fn define(&mut self, name: &str, value: &Expr)
        ensures
            final(self)@ == defined(old(self)@, name@, *value),
    {
        if self.scopes.len() == 0 {
            self.scopes.push(Vec::new());
        }
        let ghost before = self.scopes@;
        proof {
            assert(scopes_of(before) =~= if old(self)@.len() == 0 {
                seq![Map::<Seq<char>, Expr>::empty()]
            } else {
                old(self)@
            });
        }
        let last: usize = self.scopes.len() - 1;
        let mut scope: Vec<(String, Expr)> = Vec::new();
        std::mem::swap(&mut scope, &mut self.scopes[last]);
        let ghost entries = scope@;
        scope.push((name.to_owned(), share(value)));
        proof {
            assert(scope@.drop_last() =~= entries);
        }
        self.scopes.set(last, scope);
        proof {
            assert(scopes_of(self.scopes@) =~= scopes_of(before).update(
                last as int,
                scopes_of(before).last().insert(name@, *value),
            ));
        }
    }

    /// Sets the value of an existing variable. The innermost scope that
    /// binds the name gets the new value; without such a scope the variable
    /// is unbound, and nothing changes.
    pub fn set(&mut self, name: &str, value: &Expr) -> (r: EvalResult<()>)
        ensures
            match r {
                Ok(_) => binding_scope(old(self)@, old(self).depth(), name@) matches Some(i)
                    && final(self)@ == old(self)@.update(i, old(self)@[i].insert(name@, *value)),
                Err(EvalError::UnboundVariable(n)) => n@ == name@ && binding_scope(
                    old(self)@,
                    old(self).depth(),
                    name@,
                ) is None && final(self)@ == old(self)@,
                Err(_) => false,
            },
    {
        let ghost before = self.scopes@;
        let mut depth: usize = self.scopes.len();
        while depth > 0
            invariant
                depth <= self.scopes@.len(),
                self.scopes@ == before,
                old(self)@ == scopes_of(before),
                binding_scope(scopes_of(before), before.len() as int, name@) == binding_scope(
                    scopes_of(before),
                    depth as int,
                    name@,
                ),
            decreases depth,
        {
            depth -= 1;
            match find(&self.scopes[depth], name) {
                Some(i) => {
                    let mut scope: Vec<(String, Expr)> = Vec::new();
                    std::mem::swap(&mut scope, &mut self.scopes[depth]);
                    let ghost entries = scope@;
                    let ghost entry = (scope@[i as int].0, *value);
                    let mut replaced: (String, Expr) = (name.to_owned(), share(value));
                    std::mem::swap(&mut replaced, &mut scope[i]);
                    proof {
                        assert(entries == before[depth as int]@);
                        assert(scope@ =~= entries.update(i as int, scope@[i as int]));
                        assert(scope@[i as int].1 == *value);
                        lemma_update_binding(entries, i as int, scope@[i as int]);
                        assert(scopes_of(before)[depth as int] == bindings_of(entries));
                        assert(binding_scope(scopes_of(before), depth + 1, name@) == Some(
                            depth as int,
                        ));
                    }
                    self.scopes.set(depth, scope);
                    proof {
                        assert(scopes_of(self.scopes@) =~= scopes_of(before).update(
                            depth as int,
                            scopes_of(before)[depth as int].insert(name@, *value),
                        ));
                    }
                    return Ok(());
                },
                None => {},
            }
        }
        Err(EvalError::UnboundVariable(name.to_owned()))
    }

    /// Gets the value of a variable by name: that of the innermost scope
    /// that binds the name. Without such a scope the variable is unbound.
    pub fn get(&self, name: &str) -> (r: EvalResult<Expr>)
        ensures
            match r {
                Ok(value) => self.value_of(name@) == Some(value),
                Err(EvalError::UnboundVariable(n)) => n@ == name@ && self.value_of(name@) is None,
                Err(_) => false,
            },
    {
        let mut depth: usize = self.scopes.len();
        while depth > 0
            invariant
                depth <= self.scopes@.len(),
                lookup(self@, self.depth(), name@) == lookup(self@, depth as int, name@),
            decreases depth,
        {
            depth -= 1;
            match find(&self.scopes[depth], name) {
                Some(i) => {
                    return Ok(share(&self.scopes[depth][i].1));
                },
                None => {},
            }
        }
        Err(EvalError::UnboundVariable(name.to_owned()))
    }
}

} // verus!
