//! The scope: the names that a running script has bound, and their values.

use crate::data_types::{Variable, VariableView};
use crate::errors::{Error, ErrorView};
use vstd::hash_map::StringHashMap;
use vstd::prelude::*;
use vstd::string::StringExecFns;

verus! {

/// A mapping from names to values. One scope is shared by everything a
/// running script executes.
pub struct Scope {
    map: StringHashMap<Variable>,
}

impl View for Scope {
    type V = Map<Seq<char>, VariableView>;

    closed spec fn view(&self) -> Map<Seq<char>, VariableView> {
        self.map@.map_values(|v: Variable| v@)
    }
}

/// The value bound to `name`, or the error for a name that is bound to
/// nothing.
pub open spec fn bound_value(scope: Map<Seq<char>, VariableView>, name: Seq<char>) -> Result<
    VariableView,
    ErrorView,
> {
    if scope.contains_key(name) {
        Ok(scope[name])
    } else {
        Err(ErrorView::NonexistentVar(name))
    }
}

impl Scope {
    /// A scope that binds nothing.
    pub fn new() -> (r: Scope)
        ensures
            r@ == Map::<Seq<char>, VariableView>::empty(),
    {
        let r = Scope { map: StringHashMap::new() };
        assert(r@ =~= Map::<Seq<char>, VariableView>::empty());
        r
    }

    /// Binds `name` to `value`; an earlier binding of the name is replaced.
    pub fn insert(&mut self, name: String, value: Variable)
        ensures
            final(self)@ == old(self)@.insert(name@, value@),
    {
        self.map.insert(name, value);
        assert(self@ =~= old(self)@.insert(name@, value@));
    }

    /// Removes the binding of `name`, if there is one.
    pub fn remove(&mut self, name: &str)
        ensures
            final(self)@ == old(self)@.remove(name@),
    {
        self.map.remove(name);
        assert(self@ =~= old(self)@.remove(name@));
    }

    /// Whether `name` is bound.
    pub fn contains(&self, name: &str) -> (r: bool)
        ensures
            r == self@.contains_key(name@),
    {
        self.map.contains_key(name)
    }

    /// A copy of the value bound to `name`.
    pub fn get(&self, name: &str) -> (r: Option<Variable>)
        ensures
            match r {
                Some(v) => self@.contains_key(name@) && v@ == self@[name@],
                None => !self@.contains_key(name@),
            },
    {
        match self.map.get(name) {
            Some(v) => Some(v.copy()),
            None => None,
        }
    }

    /// A copy of the value bound to `name`; an unbound name is an error.
    pub fn lookup(&self, name: &str) -> (r: Result<Variable, Error>)
        ensures
            match bound_value(self@, name@) {
                Ok(v) => r is Ok && r->Ok_0@ == v,
                Err(e) => r is Err && r->Err_0@ == e,
            },
    {
        match self.get(name) {
            Some(v) => Ok(v),
            None => Err(Error::NonexistentVar(String::from_str(name))),
        }
    }
}

} // verus!
