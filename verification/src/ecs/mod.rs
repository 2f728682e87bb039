//! Entity-component system: entities with generations, archetype tables,
//! the world that moves entities between archetypes, queries, events,
//! systems and hierarchy components.

pub mod entity;
pub mod component;
pub mod index_map;
pub mod archetype;
pub mod world;
pub mod query;
pub mod event;
pub mod hierarchy;
pub mod system;
