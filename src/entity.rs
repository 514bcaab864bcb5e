use vstd::prelude::*;
use std::collections::HashMap;

verus! {

broadcast use vstd::std_specs::hash::group_hash_axioms;

/// An entity identity, meaningful only inside the container that allocated it.
#[derive(Clone, Copy, Debug, PartialEq, Eq, Structural)]
pub struct Entity {
    pub id: u64,
}

/// Where each entity of a source container went in a destination container.
pub struct EntityMap {
    map: HashMap<u64, u64>,
}

impl View for EntityMap {
    type V = Map<u64, u64>;

    closed spec fn view(&self) -> Map<u64, u64> {
        self.map@
    }
}

impl EntityMap {
    pub fn new() -> (r: EntityMap)
        ensures
            r@ == Map::<u64, u64>::empty(),
    {
        EntityMap { map: HashMap::new() }
    }

    /// Records that `source` became `target`.
    pub fn insert(&mut self, source: Entity, target: Entity)
        ensures
            final(self)@ == old(self)@.insert(source.id, target.id),
    {
        self.map.insert(source.id, target.id);
    }

    /// The destination identity of `source`, if it was recorded.
    pub fn get(&self, source: Entity) -> (r: Option<Entity>)
        ensures
            r == map_entity(self@, source),
    {
        match self.map.get(&source.id) {
            Some(t) => Some(Entity { id: *t }),
            None => None,
        }
    }

    pub fn len(&self) -> (r: usize)
        ensures
            r == self@.len(),
    {
        self.map.len()
    }
}

/// The image of `e` under `m`, if `m` knows it.
pub open spec fn map_entity(m: Map<u64, u64>, e: Entity) -> Option<Entity> {
    if m.contains_key(e.id) {
        Some(Entity { id: m[e.id] })
    } else {
        None
    }
}

} // verus!
