//! The hash maps of the store, each a `hashbrown::HashMap` held in a struct
//! of its own. Verus sees the entries of each map through a name, and each
//! operation the store uses through a wrapper that states what
//! `hashbrown::HashMap` does to those entries.

use vstd::prelude::*;
use hashbrown::HashMap;
use super::component::ComponentId;

verus! {

/// A map from component type to a position (a column, or an archetype).
#[verifier::external_body]
pub struct TypeIndex {
    inner: HashMap<ComponentId, usize>,
}

/// The entries of a [`TypeIndex`].
pub uninterp spec fn type_index_entries(m: TypeIndex) -> Map<ComponentId, usize>;

/// Calls `hashbrown::HashMap::new`, which creates an empty map.
#[verifier::external_body]
pub(crate) fn type_index_new() -> (m: TypeIndex)
    ensures
        type_index_entries(m).dom() == Set::<ComponentId>::empty(),
{
    TypeIndex { inner: HashMap::new() }
}

/// Calls `hashbrown::HashMap::get`, which returns the value stored under
/// `k`, if any.
#[verifier::external_body]
pub(crate) fn type_index_get(m: &TypeIndex, k: ComponentId) -> (r: Option<usize>)
    ensures
        r == type_index_entries(*m).get(k),
{
    m.inner.get(&k).copied()
}

/// Calls `hashbrown::HashMap::insert`, which stores `v` under `k`, replacing
/// any value that was there.
#[verifier::external_body]
pub(crate) fn type_index_insert(m: &mut TypeIndex, k: ComponentId, v: usize)
    ensures
        type_index_entries(*final(m)) == type_index_entries(*old(m)).insert(k, v),
{
    m.inner.insert(k, v);
}

/// A map from an entity, given as its index and generation, to the
/// archetype and row that hold its components.
#[verifier::external_body]
pub struct LocationMap {
    inner: HashMap<(u32, u32), (usize, usize)>,
}

/// The entries of a [`LocationMap`].
pub uninterp spec fn location_entries(m: LocationMap) -> Map<(u32, u32), (usize, usize)>;

/// Calls `hashbrown::HashMap::new`, which creates an empty map.
#[verifier::external_body]
pub(crate) fn location_map_new() -> (m: LocationMap)
    ensures
        location_entries(m).dom() == Set::<(u32, u32)>::empty(),
{
    LocationMap { inner: HashMap::new() }
}

/// Calls `hashbrown::HashMap::get`, which returns the value stored under
/// `k`, if any.
#[verifier::external_body]
pub(crate) fn location_map_get(m: &LocationMap, k: (u32, u32)) -> (r: Option<(usize, usize)>)
    ensures
        r == location_entries(*m).get(k),
{
    m.inner.get(&k).copied()
}

/// Calls `hashbrown::HashMap::insert`, which stores `v` under `k`, replacing
/// any value that was there.
#[verifier::external_body]
pub(crate) fn location_map_insert(m: &mut LocationMap, k: (u32, u32), v: (usize, usize))
    ensures
        location_entries(*final(m)) == location_entries(*old(m)).insert(k, v),
{
    m.inner.insert(k, v);
}

/// Calls `hashbrown::HashMap::remove`, which takes the entry under `k` out
/// of the map and returns its value, if there was one.
#[verifier::external_body]
pub(crate) fn location_map_remove(m: &mut LocationMap, k: (u32, u32)) -> (r: Option<(usize, usize)>)
    ensures
        r == location_entries(*old(m)).get(k),
        location_entries(*final(m)) == location_entries(*old(m)).remove(k),
{
    m.inner.remove(&k)
}

/// A map from a sorted list of component types to the archetype that holds
/// exactly those types.
#[verifier::external_body]
pub struct ArchetypeIndex {
    inner: HashMap<Vec<ComponentId>, usize>,
}

/// The entries of an [`ArchetypeIndex`], keyed by the lists' contents.
pub uninterp spec fn archetype_index_entries(m: ArchetypeIndex) -> Map<Seq<ComponentId>, usize>;

/// Calls `hashbrown::HashMap::new`, which creates an empty map.
#[verifier::external_body]
pub(crate) fn archetype_index_new() -> (m: ArchetypeIndex)
    ensures
        archetype_index_entries(m).dom() == Set::<Seq<ComponentId>>::empty(),
{
    ArchetypeIndex { inner: HashMap::new() }
}

/// Calls `hashbrown::HashMap::get`, which returns the value stored under a
/// key equal to `k` (vectors are equal when their contents are).
#[verifier::external_body]
pub(crate) fn archetype_index_get(m: &ArchetypeIndex, k: &Vec<ComponentId>) -> (r: Option<usize>)
    ensures
        r == archetype_index_entries(*m).get(k@),
{
    m.inner.get(k).copied()
}

/// Calls `hashbrown::HashMap::insert`, which stores `v` under `k`, replacing
/// any value stored under an equal key.
#[verifier::external_body]
pub(crate) fn archetype_index_insert(m: &mut ArchetypeIndex, k: Vec<ComponentId>, v: usize)
    ensures
        archetype_index_entries(*final(m)) == archetype_index_entries(*old(m)).insert(k@, v),
{
    m.inner.insert(k, v);
}

} // verus!
