use vstd::prelude::*;
use smallvec::SmallVec;
use crate::ecs::entity::Entity;

verus! {

/// Component added to an entity to point to its parent.
#[derive(Debug, Clone, Copy, PartialEq, Eq, Structural)]
pub struct Parent(pub Entity);

/// A list of child entities, kept inline up to eight entries.
#[verifier::external_body]
#[derive(Debug)]
pub struct ChildList {
    pub inner: SmallVec<[Entity; 8]>,
}

/// The entities a child list holds, in order.
pub uninterp spec fn child_entities(v: ChildList) -> Seq<Entity>;

/// Calls `smallvec::SmallVec::new`, which creates an empty vector.
#[verifier::external_body]
fn child_list_new() -> (v: ChildList)
    ensures
        child_entities(v) == Seq::<Entity>::empty(),
{
    ChildList { inner: SmallVec::new() }
}

impl Clone for ChildList {
    /// Calls `smallvec::SmallVec::clone`, which copies the entities in
    /// order.
    #[verifier::external_body]
    fn clone(&self) -> (r: Self)
        ensures
            child_entities(r) == child_entities(*self),
    {
        ChildList { inner: self.inner.clone() }
    }
}

/// Component added to an entity to track its children.
#[derive(Debug, Clone)]
pub struct Children {
    pub list: ChildList,
}

impl Children {
    /// Creates an empty children list.
    pub fn new() -> (r: Self)
        ensures
            child_entities(r.list) == Seq::<Entity>::empty(),
    {
        Children { list: child_list_new() }
    }
}

} // verus!
