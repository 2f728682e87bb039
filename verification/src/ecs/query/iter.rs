use vstd::prelude::*;
use core::marker::PhantomData;
use crate::ecs::component::{Component, ComponentId};
use crate::ecs::world::World;

verus! {

/// A query that fetches the components of one type from the world.
pub struct Query<'a, T: Component> {
    _marker: PhantomData<&'a T>,
}

impl<'a, T: Component> Query<'a, T> {
    /// Creates a new query for component type `T`.
    pub fn new() -> Self {
        Query { _marker: PhantomData }
    }

    /// Returns all components of type `type_id` (the identifier of `T`) in
    /// the world, archetype by archetype and row by row.
    pub fn iter(&self, world: &'a World, type_id: ComponentId) -> (r: Vec<&'a Vec<u8>>)
        requires
            world.wf(),
        ensures
            r@.map_values(|v: &Vec<u8>| v@) == world.values_of(type_id),
    {
        world.values_of_type(type_id)
    }
}

} // verus!
