use vstd::prelude::*;

verus! {

/// Trait implemented by all component types.
///
/// Components must be thread-safe (`Send + Sync`) and have a static lifetime.
pub trait Component: 'static + Send + Sync {}

impl<T: 'static + Send + Sync> Component for T {}

/// The identifier by which the store tells component types apart.
///
/// Two components with the same identifier are of the same type; the
/// identifiers are also ordered, which gives each set of component types a
/// canonical sorted form.
pub type ComponentId = u64;

/// Metadata about a component type.
#[derive(Debug, Clone, Copy, PartialEq, Eq, Structural)]
pub struct ComponentInfo {
    pub type_id: ComponentId,
    pub size: usize,
    pub align: usize,
}

impl ComponentInfo {
    /// Creates the metadata of a component type from its identifier, size
    /// and alignment.
    pub fn new(type_id: ComponentId, size: usize, align: usize) -> (r: Self)
        ensures
            r.type_id == type_id,
            r.size == size,
            r.align == align,
    {
        ComponentInfo { type_id, size, align }
    }
}

/// The identifiers of a sequence of component infos, in order.
pub open spec fn ids_of(infos: Seq<ComponentInfo>) -> Seq<ComponentId> {
    infos.map_values(|i: ComponentInfo| i.type_id)
}

} // verus!
