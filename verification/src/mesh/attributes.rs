//! Entity attribute maps.

use vstd::prelude::*;
use vstd::std_specs::hash::obeys_key_model;
use std::collections::HashMap;
use std::hash::Hash;

verus! {

/// Generic attribute map for mesh entities.
pub struct AttributeMap<K, V> {
    pub map: HashMap<K, V>,
}

impl<K: Hash + Eq, V> AttributeMap<K, V> {
    /// The value stored for each entity that has one.
    pub open spec fn view(&self) -> Map<K, V> {
        self.map@
    }

    /// Create an empty attribute map.
    pub fn new() -> (attrs: Self)
        ensures
            obeys_key_model::<K>() ==> attrs@ == Map::<K, V>::empty(),
    {
        AttributeMap { map: HashMap::new() }
    }

    /// Insert a value for an entity.  A value stored for it before is replaced.
    pub fn insert(&mut self, key: K, value: V)
        ensures
            obeys_key_model::<K>() ==> final(self)@ == old(self)@.insert(key, value),
    {
        self.map.insert(key, value);
    }

    /// Get a reference to the value stored for an entity, if there is one.
    pub fn get(&self, key: &K) -> (value: Option<&V>)
        ensures
            obeys_key_model::<K>() ==> match value {
                Some(v) => self@.contains_key(*key) && self@[*key] == *v,
                None => !self@.contains_key(*key),
            },
    {
        self.map.get(key)
    }
}

} // verus!
