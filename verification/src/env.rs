//! Variable bindings with lexical scoping: each environment holds the
//! bindings of one scope and may refer to the environment of the enclosing
//! scope.

use vstd::hash_map::StringHashMap;
use vstd::prelude::*;
use crate::values::Value;

verus! {

/// One scope of bindings, with the scopes that enclose it.
pub struct Env<'parent> {
    bindings: StringHashMap<Value>,
    parent: Option<&'parent Env<'parent>>,
}

/// The value that `name` is bound to in the innermost of `scopes` that
/// binds it. The innermost scope comes first.
pub open spec fn lookup(scopes: Seq<Map<Seq<char>, Value>>, name: Seq<char>) -> Option<Value>
    decreases scopes.len(),
{
    if scopes.len() == 0 {
        None
    } else if scopes[0].contains_key(name) {
        Some(scopes[0][name])
    } else {
        lookup(scopes.drop_first(), name)
    }
}

/// The text of the error for a name that no scope binds.
pub open spec fn missing_binding_text(name: Seq<char>) -> Seq<char> {
    "binding with name ‘"@ + name + "’ does not exist"@
}

/// Formats the error for a name that no scope binds.
///
/// Calls `format!` of the standard library with a fixed template and one
/// string argument. Trusted: the result is the template with the argument
/// put in place of its hole, character for character.
#[verifier::external_body]
fn missing_binding_message(name: &str) -> (msg: String)
    ensures
        msg@ == missing_binding_text(name@),
{
    format!("binding with name ‘{}’ does not exist", name)
}

impl<'parent> View for Env<'parent> {
    type V = Seq<Map<Seq<char>, Value>>;

    /// The scopes of this environment, its own first, then those that
    /// enclose it, outermost last.
    closed spec fn view(&self) -> Seq<Map<Seq<char>, Value>> {
        self.scopes()
    }
}

impl<'parent> Default for Env<'parent> {
    /// An environment with one empty scope and no enclosing scope.
    fn default() -> (env: Self)
        ensures
            env@ == seq![Map::<Seq<char>, Value>::empty()],
    {
        Env { bindings: StringHashMap::new(), parent: None }
    }
}

impl<'parent> Env<'parent> {
    spec fn scopes(&self) -> Seq<Map<Seq<char>, Value>>
        decreases self,
    {
        match self.parent {
            Some(parent) => seq![self.bindings@] + parent.scopes(),
            None => seq![self.bindings@],
        }
    }

    /// Binds `name` to `val` in this environment's own scope. An earlier
    /// binding of the name in that scope is replaced.
    pub fn store_binding(&mut self, name: String, val: Value)
        ensures
            final(self)@.len() == old(self)@.len(),
            final(self)@ == old(self)@.update(0, old(self)@[0].insert(name@, val)),
    {
        self.bindings.insert(name, val);
        assert(self@ =~= old(self)@.update(0, old(self)@[0].insert(name@, val)));
    }

    /// The value bound to `name`, or an error that names it.
    pub fn get_binding_value(&self, name: &str) -> (r: Result<Value, String>)
        ensures
            match lookup(self@, name@) {
                Some(val) => r == Ok::<Value, String>(val),
                None => r is Err && r->Err_0@ == missing_binding_text(name@),
            },
    {
        match self.get_binding_value_without_error_msg(name) {
            Some(val) => Ok(val),
            None => Err(missing_binding_message(name)),
        }
    }

    /// The value bound to `name` in the innermost scope that binds it.
    pub fn get_binding_value_without_error_msg(&self, name: &str) -> (r: Option<Value>)
        ensures
            r == lookup(self@, name@),
        decreases self,
    {
        match self.bindings.get(name) {
            Some(val) => Some(*val),
            None => {
                match self.parent {
                    Some(parent) => {
                        assert(self@.drop_first() =~= parent@);
                        parent.get_binding_value_without_error_msg(name)
                    },
                    None => {
                        assert(self@.drop_first() =~= Seq::<Map<Seq<char>, Value>>::empty());
                        None
                    },
                }
            },
        }
    }

    /// A fresh, empty scope enclosed by this one.
    pub fn create_child(&'parent self) -> (child: Self)
        ensures
            child@ == seq![Map::<Seq<char>, Value>::empty()] + self@,
    {
        Env { bindings: StringHashMap::new(), parent: Some(self) }
    }
}

} // verus!
