use std::rc::Rc;
use vstd::prelude::*;

verus! {

/// A named type. Its field table is reserved for later use and stays empty.
pub struct Type {
    pub fields: Vec<(String, String)>,
}

/// A scope: named types, variables and nested scopes, and the enclosing scope.
///
/// Within one table a later entry hides an earlier one of the same name, so adding a
/// name that is already there replaces what it stands for.
pub struct Module {
    pub parent: Option<Box<Module>>,
    pub types: Vec<(String, Rc<Type>)>,
    pub variables: Vec<(String, Rc<Type>)>,
    pub modules: Vec<(String, Module)>,
}

/// What `name` stands for in a table: its latest entry, if any.
pub open spec fn entry_of<V>(entries: Seq<(String, V)>, name: Seq<char>) -> Option<V>
    decreases entries.len(),
{
    if entries.len() == 0 {
        None
    } else if entries.last().0@ == name {
        Some(entries.last().1)
    } else {
        entry_of(entries.drop_last(), name)
    }
}

/// The type `name` resolves to from scope `m`: the scope's own entry, else the
/// enclosing scopes' outward.
pub open spec fn resolve_type(m: Module, name: Seq<char>) -> Option<Rc<Type>>
    decreases m,
{
    match entry_of(m.types@, name) {
        Some(t) => Some(t),
        None => match m.parent {
            Some(p) => resolve_type(*p, name),
            None => None,
        },
    }
}

/// The type of the variable `name` as seen from scope `m`.
pub open spec fn resolve_variable(m: Module, name: Seq<char>) -> Option<Rc<Type>>
    decreases m,
{
    match entry_of(m.variables@, name) {
        Some(t) => Some(t),
        None => match m.parent {
            Some(p) => resolve_variable(*p, name),
            None => None,
        },
    }
}

/// The scope named `name` as seen from scope `m`.
pub open spec fn resolve_module(m: Module, name: Seq<char>) -> Option<Module>
    decreases m,
{
    match entry_of(m.modules@, name) {
        Some(t) => Some(t),
        None => match m.parent {
            Some(p) => resolve_module(*p, name),
            None => None,
        },
    }
}

/// Whether some scope from `m` outward has a type entry for `name`.
pub open spec fn chain_has_type(m: Module, name: Seq<char>) -> bool
    decreases m,
{
    entry_of(m.types@, name) is Some || match m.parent {
        Some(p) => chain_has_type(*p, name),
        None => false,
    }
}

/// Whether some scope from `m` outward has a variable entry for `name`.
pub open spec fn chain_has_variable(m: Module, name: Seq<char>) -> bool
    decreases m,
{
    entry_of(m.variables@, name) is Some || match m.parent {
        Some(p) => chain_has_variable(*p, name),
        None => false,
    }
}

/// Whether some scope from `m` outward has a nested scope named `name`.
pub open spec fn chain_has_module(m: Module, name: Seq<char>) -> bool
    decreases m,
{
    entry_of(m.modules@, name) is Some || match m.parent {
        Some(p) => chain_has_module(*p, name),
        None => false,
    }
}

pub proof fn lemma_entry_of_push<V>(entries: Seq<(String, V)>, e: (String, V), name: Seq<char>)
    ensures
        entry_of(entries.push(e), name) == if e.0@ == name {
            Some(e.1)
        } else {
            entry_of(entries, name)
        },
{
    assert(entries.push(e).drop_last() =~= entries);
}

/// A name that a scope does not hold itself is looked up in the enclosing scope, so a
/// name registered only in a parent scope is found from the child scope.
pub proof fn lemma_child_sees_parent(parent: Module, child: Module, name: Seq<char>)
    requires
        child.parent == Some(Box::new(parent)),
    ensures
        entry_of(child.types@, name) is None ==> resolve_type(child, name) == resolve_type(
            parent,
            name,
        ),
        entry_of(child.variables@, name) is None ==> resolve_variable(child, name)
            == resolve_variable(parent, name),
        entry_of(child.modules@, name) is None ==> resolve_module(child, name) == resolve_module(
            parent,
            name,
        ),
{
}

/// A lookup succeeds exactly when some scope from `m` outward holds the name; a name
/// that no scope holds is not found, the search ending at the root.
pub proof fn lemma_lookup_found_iff_registered(m: Module, name: Seq<char>)
    ensures
        resolve_type(m, name) is Some <==> chain_has_type(m, name),
        resolve_variable(m, name) is Some <==> chain_has_variable(m, name),
        resolve_module(m, name) is Some <==> chain_has_module(m, name),
    decreases m,
{
    if let Some(p) = m.parent {
        lemma_lookup_found_iff_registered(*p, name);
    }
}

/// Relies on `Rc::clone`: the new pointer shares the same value.
#[verifier::external_body]
fn share(t: &Rc<Type>) -> (r: Rc<Type>)
    ensures
        r == *t,
{
    Rc::clone(t)
}

/// The index of the latest entry for `name`, if any.
fn latest<V>(entries: &Vec<(String, V)>, name: &str) -> (r: Option<usize>)
    ensures
        match r {
            Some(i) => i < entries@.len() && entry_of(entries@, name@) == Some(entries@[i as int].1),
            None => entry_of(entries@, name@) is None,
        },
{
    let key = name.to_owned();
    let mut i = entries.len();
    assert(entries@.subrange(0, i as int) =~= entries@);
    while i > 0
        invariant
            i <= entries@.len(),
            key@ == name@,
            entry_of(entries@, name@) == entry_of(entries@.subrange(0, i as int), name@),
        decreases i,
    {
        let ghost prefix = entries@.subrange(0, i as int);
        assert(prefix.drop_last() =~= entries@.subrange(0, i - 1));
        if entries[i - 1].0 == key {
            return Some(i - 1);
        }
        i = i - 1;
    }
    None
}

impl Type {
    pub fn new() -> (r: Type)
        ensures
            r.fields@.len() == 0,
    {
        Type { fields: Vec::new() }
    }
}

impl Module {
    /// A root scope: empty, with no enclosing scope.
    pub fn new() -> (r: Module)
        ensures
            r.parent is None,
            r.types@.len() == 0,
            r.variables@.len() == 0,
            r.modules@.len() == 0,
    {
        Module { parent: None, types: Vec::new(), variables: Vec::new(), modules: Vec::new() }
    }

    /// An empty scope enclosed by `parent`.
    pub fn new_child(parent: Module) -> (r: Module)
        ensures
            r.parent == Some(Box::new(parent)),
            r.types@.len() == 0,
            r.variables@.len() == 0,
            r.modules@.len() == 0,
    {
        Module {
            parent: Some(Box::new(parent)),
            types: Vec::new(),
            variables: Vec::new(),
            modules: Vec::new(),
        }
    }

    pub fn add_type(&mut self, name: &str, t: Type)
        ensures
            final(self).parent == old(self).parent,
            final(self).variables == old(self).variables,
            final(self).modules == old(self).modules,
            forall|n: Seq<char>|
                #[trigger] entry_of(final(self).types@, n) == if n == name@ {
                    Some(Rc::new(t))
                } else {
                    entry_of(old(self).types@, n)
                },
    {
        let entry = (name.to_owned(), Rc::new(t));
        proof {
            assert forall|n: Seq<char>| #[trigger]
                entry_of(old(self).types@.push(entry), n) == if n == name@ {
                    Some(Rc::new(t))
                } else {
                    entry_of(old(self).types@, n)
                } by {
                lemma_entry_of_push(old(self).types@, entry, n);
            }
        }
        self.types.push(entry);
    }

    pub fn add_variable(&mut self, name: &str, t: Type)
        ensures
            final(self).parent == old(self).parent,
            final(self).types == old(self).types,
            final(self).modules == old(self).modules,
            forall|n: Seq<char>|
                #[trigger] entry_of(final(self).variables@, n) == if n == name@ {
                    Some(Rc::new(t))
                } else {
                    entry_of(old(self).variables@, n)
                },
    {
        let entry = (name.to_owned(), Rc::new(t));
        proof {
            assert forall|n: Seq<char>| #[trigger]
                entry_of(old(self).variables@.push(entry), n) == if n == name@ {
                    Some(Rc::new(t))
                } else {
                    entry_of(old(self).variables@, n)
                } by {
                lemma_entry_of_push(old(self).variables@, entry, n);
            }
        }
        self.variables.push(entry);
    }

    pub fn add_module(&mut self, name: &str, m: Module)
        ensures
            final(self).parent == old(self).parent,
            final(self).types == old(self).types,
            final(self).variables == old(self).variables,
            forall|n: Seq<char>|
                #[trigger] entry_of(final(self).modules@, n) == if n == name@ {
                    Some(m)
                } else {
                    entry_of(old(self).modules@, n)
                },
    {
        let entry = (name.to_owned(), m);
        proof {
            assert forall|n: Seq<char>| #[trigger]
                entry_of(old(self).modules@.push(entry), n) == if n == name@ {
                    Some(m)
                } else {
                    entry_of(old(self).modules@, n)
                } by {
                lemma_entry_of_push(old(self).modules@, entry, n);
            }
        }
        self.modules.push(entry);
    }

    /// Looks `name` up among the types, from this scope outward.
    pub fn solve_type(&self, name: &str) -> (r: Option<Rc<Type>>)
        ensures
            r == resolve_type(*self, name@),
        decreases self,
    {
        if let Some(i) = latest(&self.types, name) {
            return Some(share(&self.types[i].1));
        }
        if let Some(p) = &self.parent {
            return p.solve_type(name);
        }
        None
    }

    /// Looks `name` up among the variables, from this scope outward.
    pub fn solve_variable(&self, name: &str) -> (r: Option<Rc<Type>>)
        ensures
            r == resolve_variable(*self, name@),
        decreases self,
    {
        if let Some(i) = latest(&self.variables, name) {
            return Some(share(&self.variables[i].1));
        }
        if let Some(p) = &self.parent {
            return p.solve_variable(name);
        }
        None
    }

    /// Looks `name` up among the nested scopes, from this scope outward.
    pub fn solve_module(&self, name: &str) -> (r: Option<&Module>)
        ensures
            match r {
                Some(m) => resolve_module(*self, name@) == Some(*m),
                None => resolve_module(*self, name@) is None,
            },
        decreases self,
    {
        if let Some(i) = latest(&self.modules, name) {
            return Some(&self.modules[i].1);
        }
        if let Some(p) = &self.parent {
            return p.solve_module(name);
        }
        None
    }
}

} // verus!
