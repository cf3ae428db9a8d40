//! The variable store: a session-long mapping from variable name to value.
//!
//! A variable holds a tagged value; the tag may change freely across
//! assignments.  Reading an absent name is not an error — the expression
//! evaluator coerces it to zero.

use vstd::prelude::*;
use vstd::hash_map::StringHashMap;

verus! {

/// A value held by a script variable.
///
/// `Num` carries a fixed-point number: a raw `i64` counting millionths
/// (see [`crate::fixed`]).
#[derive(Debug, Clone)]
pub enum Value {
    Int(i64),
    Num(i64),
    Bool(bool),
    Text(String),
}

/// Mapping from variable name (case-sensitive) to current value.
///
/// Its view is the mathematical map from the name's character sequence to
/// the stored value.
pub struct VarStore {
    vars: StringHashMap<Value>,
}

impl View for VarStore {
    type V = Map<Seq<char>, Value>;

    closed spec fn view(&self) -> Map<Seq<char>, Value> {
        self.vars@
    }
}

impl VarStore {
    /// An empty store.
    pub fn new() -> (result: Self)
        ensures
            result@ == Map::<Seq<char>, Value>::empty(),
    {
        VarStore { vars: StringHashMap::new() }
    }

    /// Overwrite or insert unconditionally; there is no error path.
    pub fn set(&mut self, key: &str, value: Value)
        ensures
            final(self)@ == old(self)@.insert(key@, value),
    {
        self.vars.insert(key.to_owned(), value);
    }

    /// Read a variable; an unknown name yields `None`, not an error.
    pub fn get<'a>(&'a self, key: &str) -> (result: Option<&'a Value>)
        ensures
            match result {
                Some(v) => self@.contains_key(key@) && *v == self@[key@],
                None => !self@.contains_key(key@),
            },
    {
        self.vars.get(key)
    }
}

impl Default for VarStore {
    /// An empty store.
    fn default() -> (result: Self)
        ensures
            result@ == Map::<Seq<char>, Value>::empty(),
    {
        VarStore::new()
    }
}

} // verus!
