use vstd::prelude::*;

verus! {

/// Index into the mesh storage of the render context.
#[derive(Clone, Copy, Debug, PartialEq, Eq, Structural)]
pub struct MeshHandle(pub usize);

/// Index into the material storage of the render context.
#[derive(Clone, Copy, Debug, PartialEq, Eq, Structural)]
pub struct MaterialHandle(pub usize);

} // verus!
