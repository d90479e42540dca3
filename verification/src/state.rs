//! The state of one request.
//!
//! Extractors put the values they have read into the state, and handlers
//! take them out. A value is stored under the key of its kind, and the state
//! holds at most one value of each kind.

use vstd::prelude::*;
use std::collections::HashMap;

verus! {

broadcast use vstd::std_specs::hash::group_hash_axioms;

/// Names a kind of value that the state can hold.
#[derive(Clone, Copy, PartialEq, Eq, Structural, Debug)]
pub struct StateKey {
    pub id: u64,
}

/// The values that belong to one request, one for each kind at most.
pub struct State<V> {
    values: HashMap<u64, V>,
}

impl<V> View for State<V> {
    type V = Map<u64, V>;

    closed spec fn view(&self) -> Map<u64, V> {
        self.values@
    }
}

impl<V> State<V> {
    /// The state of a request that has just come in: it holds nothing.
    pub fn new() -> (state: Self)
        ensures
            state@ == Map::<u64, V>::empty(),
    {
        State { values: HashMap::new() }
    }

    /// Stores `value` under `key`, in place of the value that was there.
    pub fn put(&mut self, key: StateKey, value: V)
        ensures
            final(self)@ == old(self)@.insert(key.id, value),
    {
        self.values.insert(key.id, value);
    }

    /// Whether a value is stored under `key`.
    pub fn has(&self, key: StateKey) -> (present: bool)
        ensures
            present == self@.contains_key(key.id),
    {
        self.values.contains_key(&key.id)
    }

    /// The value stored under `key`, if there is one. The state keeps it.
    pub fn get(&self, key: StateKey) -> (value: Option<&V>)
        ensures
            value is Some <==> self@.contains_key(key.id),
            value matches Some(v) ==> *v == self@[key.id],
    {
        self.values.get(&key.id)
    }

    /// Removes the value stored under `key` and returns it, if there is one.
    pub fn take(&mut self, key: StateKey) -> (value: Option<V>)
        ensures
            value is Some <==> old(self)@.contains_key(key.id),
            value matches Some(v) ==> v == old(self)@[key.id],
            final(self)@ == old(self)@.remove(key.id),
    {
        self.values.remove(&key.id)
    }
}

} // verus!
