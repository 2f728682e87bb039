use vstd::prelude::*;
use crate::ecs::component::ComponentId;
use crate::ecs::index_map::{TypeIndex, type_index_entries, type_index_new};

verus! {

/// Transitions between archetypes when components are added or removed.
pub struct Edges {
    /// Maps a component type being **added** to the destination archetype index.
    pub add: TypeIndex,
    /// Maps a component type being **removed** to the destination archetype index.
    pub remove: TypeIndex,
}

impl Edges {
    /// Creates a new empty `Edges` structure.
    pub fn new() -> (r: Self)
        ensures
            type_index_entries(r.add).dom() == Set::<ComponentId>::empty(),
            type_index_entries(r.remove).dom() == Set::<ComponentId>::empty(),
    {
        Edges { add: type_index_new(), remove: type_index_new() }
    }
}

} // verus!
