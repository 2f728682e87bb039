//! Verified core of the RedOx engine: the archetype-based entity-component
//! store, its double-buffered events, and the integer side of the renderer
//! (procedural mesh topology and resource handles).

pub mod ecs;
pub mod render;
