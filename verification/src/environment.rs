//! The table of variables that an evaluation reads.

use vstd::prelude::*;
use vstd::hash_map::StringHashMap;
use crate::value::{Value, ValueView};

verus! {

/// The values bound to names. An evaluation only reads it.
pub struct Environment {
    table: StringHashMap<Value>,
}

impl Environment {
    /// The bindings: what each bound name holds.
    pub closed spec fn view(&self) -> Map<Seq<char>, ValueView> {
        Map::new(|name: Seq<char>| self.table@.contains_key(name), |name: Seq<char>| self.table@[name]@)
    }

    pub fn new() -> (result: Environment)
        ensures
            result@ == Map::<Seq<char>, ValueView>::empty(),
    {
        let result = Environment { table: StringHashMap::new() };
        assert(result@ =~= Map::<Seq<char>, ValueView>::empty());
        result
    }

    /// Binds `name` to `value`; an earlier binding of the name is replaced.
    pub fn insert(&mut self, name: String, value: Value)
        ensures
            final(self)@ == old(self)@.insert(name@, value@),
    {
        self.table.insert(name, value);
        assert(self@ =~= old(self)@.insert(name@, value@));
    }

    /// The value bound to `name`, if there is one.
    pub fn get(&self, name: &str) -> (result: Option<&Value>)
        ensures
            match result {
                Some(value) => self@.contains_key(name@) && value@ == self@[name@],
                None => !self@.contains_key(name@),
            },
    {
        self.table.get(name)
    }

    pub fn contains_key(&self, name: &str) -> (result: bool)
        ensures
            result == self@.contains_key(name@),
    {
        self.table.contains_key(name)
    }
}

} // verus!
