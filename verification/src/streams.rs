//! A map keyed by channel.
use std::collections::HashMap;
use vstd::prelude::*;

use crate::frame::StreamId;

verus! {

broadcast use vstd::std_specs::hash::group_hash_axioms;

/// A map from channels to values, held as two hash maps keyed by channel
/// number: one for the channels this side opened and one for the channels
/// the peer opened.
#[derive(Debug)]
pub struct StreamMap<V> {
    local: HashMap<u64, V>,
    remote: HashMap<u64, V>,
}

impl<V> View for StreamMap<V> {
    type V = Map<StreamId, V>;

    closed spec fn view(&self) -> Map<StreamId, V> {
        Map::new(
            |id: StreamId|
                match id {
                    StreamId::Local(n) => self.local@.contains_key(n),
                    StreamId::Remote(n) => self.remote@.contains_key(n),
                },
            |id: StreamId|
                match id {
                    StreamId::Local(n) => self.local@[n],
                    StreamId::Remote(n) => self.remote@[n],
                },
        )
    }
}

impl<V> StreamMap<V> {
    /// An empty map.
    pub fn new() -> (r: Self)
        ensures
            r@ == Map::<StreamId, V>::empty(),
    {
        let r = StreamMap { local: HashMap::new(), remote: HashMap::new() };
        assert(r@ =~= Map::<StreamId, V>::empty());
        r
    }

    /// Maps `id` to `value`, replacing what it mapped to.
    pub fn insert(&mut self, id: StreamId, value: V)
        ensures
            final(self)@ == old(self)@.insert(id, value),
    {
        match id {
            StreamId::Local(n) => {
                self.local.insert(n, value);
            },
            StreamId::Remote(n) => {
                self.remote.insert(n, value);
            },
        }
        assert(self@ =~= old(self)@.insert(id, value));
    }

    /// Takes out what `id` maps to, if anything.
    pub fn remove(&mut self, id: StreamId) -> (r: Option<V>)
        ensures
            final(self)@ == old(self)@.remove(id),
            match r {
                Some(v) => old(self)@.contains_key(id) && old(self)@[id] == v,
                None => !old(self)@.contains_key(id),
            },
    {
        let r = match id {
            StreamId::Local(n) => self.local.remove(&n),
            StreamId::Remote(n) => self.remote.remove(&n),
        };
        assert(self@ =~= old(self)@.remove(id));
        r
    }

    /// What `id` maps to, if anything.
    pub fn get(&self, id: StreamId) -> (r: Option<&V>)
        ensures
            match r {
                Some(v) => self@.contains_key(id) && self@[id] == *v,
                None => !self@.contains_key(id),
            },
    {
        match id {
            StreamId::Local(n) => self.local.get(&n),
            StreamId::Remote(n) => self.remote.get(&n),
        }
    }
}

} // verus!
