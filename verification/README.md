# RedOx engine core

An archetype-based entity-component system and the integer side of a
`wgpu` renderer, with their behaviour stated in contracts and proved by Verus.

## Layout

- `src/` — the verified library (crate `redox_engine`).
  - `ecs/entity.rs`: entity handles with generations and the allocator that
    reuses freed indices in FIFO order; laws on stale handles (a freed
    handle is never handed out again) and fresh allocations.
  - `ecs/archetype/`: columns of component bytes, tables, archetypes and the
    sorted type lists that identify them.
  - `ecs/world.rs`: the world that moves entities between archetypes as
    components are added and removed. Its contracts describe the store as a
    map from entity to component type to value; laws cover reading back a
    write, removal undoing an addition, a query yielding the value of each
    entity that has its type exactly once (so its length is the number of
    such entities), and archetypes grouping entities by their type set.
  - `ecs/event.rs`: double-buffered events that live for two frames.
  - `ecs/query`, `ecs/hierarchy.rs`, `ecs/system.rs`: queries, parent and
    children components, system stages.
  - `render/topology.rs`: index buffers of the procedural meshes and the
    order of their grid vertices; each index is proved to be below the
    number of vertices that the vertex order lists, and the renderer builds
    its vertex buffers by walking that order.
  - `render/resources.rs`: which index a stored mesh, material or texture
    gets, and which texture an object is drawn with.
  - `render/texture.rs`: decoding texture images to RGBA pixels through
    `image`, and their upload layout.
- `app/` — ordinary Rust around the library: the `f32` math layer on `glam`,
  typed component access and parallel queries on `rayon`, and the `wgpu`
  renderer (pipeline, buffers, textures, OBJ loading).
- `tests/` — tests of the library on concrete values.

The hash maps, the free-index queue, the generation lock and the child list
come from `hashbrown`, `crossbeam-queue`, `parking_lot` and `smallvec`, and
image decoding from `image`; each
call into them goes through a small trusted wrapper whose contract states
what the call does.
