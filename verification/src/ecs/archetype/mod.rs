//! Archetypes: groups of entities that share one set of component types,
//! stored as a table with one column per type.

pub mod column;
pub mod table;
pub mod edges;

use vstd::prelude::*;
use crate::ecs::component::{ComponentId, ComponentInfo, ids_of};
use crate::ecs::entity::Entity;
use crate::ecs::index_map::type_index_entries;
pub use table::Table;
pub use edges::Edges;

verus! {

/// The order on component identifiers.
pub open spec fn id_leq() -> spec_fn(ComponentId, ComponentId) -> bool {
    |a: ComponentId, b: ComponentId| a <= b
}

/// Whether `s` is in ascending order.
pub open spec fn sorted(s: Seq<ComponentId>) -> bool {
    vstd::relations::sorted_by(s, id_leq())
}

/// Two sorted lists with the same elements are the same list.
pub proof fn lemma_sorted_canonical(x: Seq<ComponentId>, y: Seq<ComponentId>)
    requires
        sorted(x),
        sorted(y),
        x.to_multiset() == y.to_multiset(),
    ensures
        x == y,
{
    assert(vstd::relations::total_ordering(id_leq()));
    vstd::seq_lib::lemma_sorted_unique(x, y, id_leq());
}

/// Calls `slice::sort` (through `Vec`'s deref), which sorts the identifiers
/// in ascending order.
#[verifier::external_body]
pub(crate) fn sort_ids(v: &mut Vec<ComponentId>)
    ensures
        final(v)@.to_multiset() == old(v)@.to_multiset(),
        sorted(final(v)@),
{
    v.sort();
}

/// The sorted identifiers of `infos`.
pub(crate) fn sorted_ids(infos: &Vec<ComponentInfo>) -> (r: Vec<ComponentId>)
    ensures
        r@.to_multiset() == ids_of(infos@).to_multiset(),
        sorted(r@),
{
    let mut types: Vec<ComponentId> = Vec::new();
    let mut i: usize = 0;
    while i < infos.len()
        invariant
            i <= infos@.len(),
            types@ == ids_of(infos@.subrange(0, i as int)),
        decreases infos@.len() - i,
    {
        types.push(infos[i].type_id);
        assert(ids_of(infos@.subrange(0, i + 1)) =~= ids_of(infos@.subrange(0, i as int)).push(infos@[i as int].type_id));
        i = i + 1;
    }
    assert(infos@.subrange(0, infos@.len() as int) =~= infos@);
    sort_ids(&mut types);
    types
}

/// A group of entities that share the exact same set of component types.
///
/// Each archetype has a `Table` for storing component data and `Edges` for
/// transitions to other archetypes.
pub struct Archetype {
    pub(crate) id: usize,
    pub(crate) types: Vec<ComponentId>,
    pub(crate) table: Table,
    pub(crate) edges: Edges,
    pub(crate) component_infos: Vec<ComponentInfo>,
}

impl Archetype {
    /// The position of this archetype in the world.
    pub closed spec fn spec_id(&self) -> usize {
        self.id
    }

    /// The sorted component types of this archetype.
    pub closed spec fn spec_types(&self) -> Seq<ComponentId> {
        self.types@
    }

    /// The component metadata of this archetype, in the order given.
    pub closed spec fn spec_infos(&self) -> Seq<ComponentInfo> {
        self.component_infos@
    }

    /// The table of this archetype.
    pub closed spec fn spec_table(&self) -> Table {
        self.table
    }

    /// The transitions recorded from this archetype to others.
    pub closed spec fn spec_edges(&self) -> Edges {
        self.edges
    }

    /// The accessors name the fields.
    pub(crate) broadcast proof fn lemma_fields(a: Archetype)
        ensures
            #![trigger a.spec_table()]
            #![trigger a.table]
            #![trigger a.spec_id()]
            #![trigger a.spec_types()]
            #![trigger a.spec_infos()]
            a.spec_table() == a.table,
            a.spec_id() == a.id,
            a.spec_types() == a.types@,
            a.spec_infos() == a.component_infos@,
    {
    }

    /// Creates a new archetype with the given component infos.
    pub fn new(id: usize, component_infos: Vec<ComponentInfo>) -> (r: Self)
        ensures
            r.spec_id() == id,
            r.spec_infos() == component_infos@,
            r.spec_types().to_multiset() == ids_of(component_infos@).to_multiset(),
            sorted(r.spec_types()),
            r.spec_table().wf(),
            r.spec_table().rows() == Seq::<Entity>::empty(),
            forall|t: ComponentId| #[trigger] r.spec_table().ids().contains(t) <==> ids_of(component_infos@).contains(t),
            forall|t: ComponentId| #[trigger] r.spec_table().ids().contains(t) ==> r.spec_table().column(t) == Seq::<Seq<u8>>::empty(),
            forall|i: int|
                0 <= i < component_infos@.len() && (forall|j: int|
                    i < j < component_infos@.len() ==> component_infos@[j].type_id
                        != component_infos@[i].type_id) ==> #[trigger] r.spec_table().column_info(
                    component_infos@[i].type_id,
                ) == component_infos@[i],
            type_index_entries(r.spec_edges().add).dom() == Set::<ComponentId>::empty(),
            type_index_entries(r.spec_edges().remove).dom() == Set::<ComponentId>::empty(),
    {
        let types = sorted_ids(&component_infos);
        let table = Table::new(component_infos.as_slice());
        proof {
            assert forall|t: ComponentId| #[trigger] table.ids().contains(t) <==> ids_of(component_infos@).contains(t) by {
                if table.ids().contains(t) {
                    let i = choose|i: int| 0 <= i < component_infos@.len() && component_infos@[i].type_id == t;
                    assert(ids_of(component_infos@)[i] == t);
                }
                if ids_of(component_infos@).contains(t) {
                    let i = choose|i: int| 0 <= i < ids_of(component_infos@).len() && ids_of(component_infos@)[i] == t;
                    assert(component_infos@[i].type_id == t);
                }
            }
        }
        Archetype { id, types, table, edges: Edges::new(), component_infos }
    }
}

} // verus!
