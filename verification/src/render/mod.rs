//! The integer side of the renderer: mesh topology, resource handles and
//! the per-frame choices of which resources an object is drawn with.

pub mod topology;
pub mod systems;
pub mod camera;
pub mod resources;
pub mod texture;
