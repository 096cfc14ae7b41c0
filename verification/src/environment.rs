//! The bindings of variables to values that an evaluation reads.

use vstd::prelude::*;
use vstd::hash_map::StringHashMap;
use crate::number::Binary64;

verus! {

/// A finite map from variable names to values, with at most one value per name.
pub struct Environment {
    bindings: StringHashMap<Binary64>,
}

impl View for Environment {
    type V = Map<Seq<char>, Binary64>;

    closed spec fn view(&self) -> Map<Seq<char>, Binary64> {
        self.bindings@
    }
}

impl Environment {
    /// The environment that binds no name.
    pub fn new() -> (empty: Self)
        ensures
            empty@ == Map::<Seq<char>, Binary64>::empty(),
    {
        Environment { bindings: StringHashMap::new() }
    }

    /// Binds `name` to `value`, in place of any earlier binding of that name.
    pub fn insert(&mut self, name: String, value: Binary64)
        ensures
            final(self)@ == old(self)@.insert(name@, value),
    {
        self.bindings.insert(name, value);
    }

    /// The value bound to `name`, if any.
    pub fn get(&self, name: &str) -> (value: Option<Binary64>)
        ensures
            value == if self@.contains_key(name@) {
                Some(self@[name@])
            } else {
                None
            },
    {
        match self.bindings.get(name) {
            Some(value) => Some(*value),
            None => None,
        }
    }
}

} // verus!
