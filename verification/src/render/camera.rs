use vstd::prelude::*;
use crate::ecs::entity::Entity;

verus! {

/// ECS resource that identifies which entity is the active (main) camera.
#[derive(Clone, Copy, Debug)]
pub struct ActiveCamera(pub Entity);

} // verus!
