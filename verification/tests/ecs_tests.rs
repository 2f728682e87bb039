use redox_engine::ecs::component::{ComponentId, ComponentInfo};
use redox_engine::ecs::entity::EntityAllocator;
use redox_engine::ecs::event::{EventReader, Events};
use redox_engine::ecs::hierarchy::{Children, Parent};
use redox_engine::ecs::query::Query;
use redox_engine::ecs::system::{System, SystemStage};
use redox_engine::ecs::world::World;

#[derive(Debug, PartialEq, Clone)]
struct Position(f32, f32, f32);

#[derive(Debug, PartialEq, Clone)]
struct Health(f32);

#[derive(Debug, PartialEq, Clone)]
struct Name(String);

const POSITION: ComponentId = 1;
const HEALTH: ComponentId = 2;
const NAME: ComponentId = 3;
const PARENT: ComponentId = 4;

fn position_info() -> ComponentInfo {
    ComponentInfo::new(POSITION, 12, 4)
}

fn health_info() -> ComponentInfo {
    ComponentInfo::new(HEALTH, 4, 4)
}

fn name_info() -> ComponentInfo {
    ComponentInfo::new(NAME, 24, 8)
}

fn parent_info() -> ComponentInfo {
    ComponentInfo::new(PARENT, 8, 4)
}

fn position_bytes(p: &Position) -> Vec<u8> {
    let mut v = Vec::new();
    v.extend_from_slice(&p.0.to_le_bytes());
    v.extend_from_slice(&p.1.to_le_bytes());
    v.extend_from_slice(&p.2.to_le_bytes());
    v
}

fn position_from(bytes: &[u8]) -> Position {
    let f = |i: usize| f32::from_le_bytes([bytes[i], bytes[i + 1], bytes[i + 2], bytes[i + 3]]);
    Position(f(0), f(4), f(8))
}

fn health_bytes(h: &Health) -> Vec<u8> {
    h.0.to_le_bytes().to_vec()
}

fn health_from(bytes: &[u8]) -> Health {
    Health(f32::from_le_bytes([bytes[0], bytes[1], bytes[2], bytes[3]]))
}

fn name_bytes(n: &Name) -> Vec<u8> {
    // A fixed-size record of `name_info().size` bytes: the name, zero-padded.
    let mut v = n.0.as_bytes().to_vec();
    v.resize(name_info().size, 0);
    v
}

fn parent_bytes(p: &Parent) -> Vec<u8> {
    let mut v = Vec::new();
    v.extend_from_slice(&p.0.id().to_le_bytes());
    v.extend_from_slice(&p.0.generation().to_le_bytes());
    v
}

fn parent_entity_of(bytes: &[u8]) -> (u32, u32) {
    (
        u32::from_le_bytes([bytes[0], bytes[1], bytes[2], bytes[3]]),
        u32::from_le_bytes([bytes[4], bytes[5], bytes[6], bytes[7]]),
    )
}

#[test]
fn test_entity_allocation() {
    let mut world = World::new();
    let e1 = world.spawn();
    let e2 = world.spawn();
    assert_ne!(e1.id(), e2.id());
    assert_eq!(e1.generation(), 0);
    assert_eq!(e2.generation(), 0);
}

#[test]
fn test_add_component_and_query() {
    let mut world = World::new();
    let entity = world.spawn();
    world.add_component(entity, position_info(), position_bytes(&Position(1.0, 2.0, 3.0)));
    world.add_component(entity, health_info(), health_bytes(&Health(100.0)));

    let query = Query::<Position>::new();
    let positions: Vec<Position> = query.iter(&world, POSITION).into_iter().map(|b| position_from(b)).collect();
    assert_eq!(positions.len(), 1);
    assert_eq!(positions[0], Position(1.0, 2.0, 3.0));

    let health_query = Query::<Health>::new();
    let healths: Vec<Health> = health_query.iter(&world, HEALTH).into_iter().map(|b| health_from(b)).collect();
    assert_eq!(healths.len(), 1);
    assert_eq!(healths[0], Health(100.0));
}

#[test]
fn test_remove_component() {
    let mut world = World::new();
    let entity = world.spawn();
    world.add_component(entity, position_info(), position_bytes(&Position(1.0, 2.0, 3.0)));
    world.add_component(entity, health_info(), health_bytes(&Health(100.0)));

    let removed = world.remove_component(entity, HEALTH);
    assert!(removed);

    let health_query = Query::<Health>::new();
    let healths = health_query.iter(&world, HEALTH);
    assert_eq!(healths.len(), 0);

    let pos_query = Query::<Position>::new();
    let positions = pos_query.iter(&world, POSITION);
    assert_eq!(positions.len(), 1);
}

#[test]
fn test_despawn() {
    let mut world = World::new();
    let entity = world.spawn();
    world.add_component(entity, position_info(), position_bytes(&Position(1.0, 2.0, 3.0)));

    world.despawn(entity);

    let pos_query = Query::<Position>::new();
    let positions = pos_query.iter(&world, POSITION);
    assert_eq!(positions.len(), 0);
}

#[test]
fn test_hierarchy() {
    let mut world = World::new();
    let parent = world.spawn();
    let child = world.spawn();

    world.add_component(parent, name_info(), name_bytes(&Name("Parent".to_string())));
    world.add_component(child, name_info(), name_bytes(&Name("Child".to_string())));

    world.add_component(child, parent_info(), parent_bytes(&Parent(parent)));

    let query = Query::<Parent>::new();
    let parents = query.iter(&world, PARENT);
    assert_eq!(parents.len(), 1);
    assert_eq!(parent_entity_of(parents[0]), (parent.id(), parent.generation()));
}

#[test]
fn test_events() {
    struct TestEvent(i32);
    let mut events = Events::<TestEvent>::new();
    events.send(TestEvent(42));
    events.update(); // swap buffers

    let mut reader = EventReader::new(&events);
    let collected: Vec<i32> = reader.iter().into_iter().map(|e| e.0).collect();
    assert_eq!(collected, vec![42]);
}

#[test]
fn events_are_gone_after_two_updates() {
    let mut events = Events::<u32>::new();
    events.send(7);
    events.update();
    assert_eq!(events.iter().len(), 1);
    events.update();
    assert_eq!(events.iter().len(), 0);
}

#[test]
fn events_read_previous_frame_first() {
    let mut events = Events::<u32>::new();
    events.send(1);
    events.send(2);
    events.update();
    events.send(3);
    let read: Vec<u32> = events.iter().into_iter().copied().collect();
    assert_eq!(read, vec![1, 2, 3]);
}

#[test]
fn two_readers_read_the_same_events() {
    let mut events = Events::<u32>::new();
    events.send(5);
    events.update();
    events.send(6);
    let mut first = EventReader::new(&events);
    let mut second = EventReader::new(&events);
    let a: Vec<u32> = first.iter().into_iter().copied().collect();
    let b: Vec<u32> = second.iter().into_iter().copied().collect();
    let again: Vec<u32> = first.iter().into_iter().copied().collect();
    assert_eq!(a, vec![5, 6]);
    assert_eq!(a, b);
    assert_eq!(a, again);
}

#[test]
fn freed_indices_are_reused_in_order() {
    let mut alloc = EntityAllocator::new();
    let a = alloc.allocate();
    let b = alloc.allocate();
    let c = alloc.allocate();
    assert!(alloc.deallocate(c));
    assert!(alloc.deallocate(a));
    let first = alloc.allocate();
    let second = alloc.allocate();
    let third = alloc.allocate();
    assert_eq!((first.id(), first.generation()), (c.id(), 1));
    assert_eq!((second.id(), second.generation()), (a.id(), 1));
    assert_eq!((third.id(), third.generation()), (3, 0));
    assert_ne!(third.id(), b.id());
}

#[test]
fn allocator_reuses_freed_index_with_new_generation() {
    let mut alloc = EntityAllocator::new();
    let a = alloc.allocate();
    let b = alloc.allocate();
    assert_eq!((a.id(), a.generation()), (0, 0));
    assert_eq!((b.id(), b.generation()), (1, 0));
    assert!(alloc.deallocate(a));
    assert!(!alloc.deallocate(a));
    let c = alloc.allocate();
    assert_eq!((c.id(), c.generation()), (0, 1));
    let d = alloc.allocate();
    assert_eq!((d.id(), d.generation()), (2, 0));
    assert!(!alloc.deallocate(a));
    assert!(alloc.deallocate(c));
}

#[test]
fn add_component_twice_replaces_value() {
    let mut world = World::new();
    let e = world.spawn();
    world.add_component(e, health_info(), health_bytes(&Health(1.0)));
    world.add_component(e, health_info(), health_bytes(&Health(2.0)));
    let q = Query::<Health>::new();
    let hs: Vec<Health> = q.iter(&world, HEALTH).into_iter().map(|b| health_from(b)).collect();
    assert_eq!(hs, vec![Health(2.0)]);
}

#[test]
fn remove_missing_component_reports_false() {
    let mut world = World::new();
    let e = world.spawn();
    assert!(!world.remove_component(e, HEALTH));
    world.add_component(e, position_info(), position_bytes(&Position(0.0, 0.0, 0.0)));
    assert!(!world.remove_component(e, HEALTH));
    assert_eq!(Query::<Position>::new().iter(&world, POSITION).len(), 1);
}

#[test]
fn removing_last_component_despawns() {
    let mut world = World::new();
    let e = world.spawn();
    world.add_component(e, health_info(), health_bytes(&Health(5.0)));
    assert!(world.remove_component(e, HEALTH));
    // The entity was despawned: its index is reused with a new generation.
    let again = world.spawn();
    assert_eq!((again.id(), again.generation()), (e.id(), e.generation() + 1));
    assert!(!world.remove_component(e, HEALTH));
}

#[test]
fn moving_entities_keep_their_values() {
    let mut world = World::new();
    let a = world.spawn();
    let b = world.spawn();
    let c = world.spawn();
    for (e, x) in [(a, 1.0f32), (b, 2.0), (c, 3.0)] {
        world.add_component(e, position_info(), position_bytes(&Position(x, 0.0, 0.0)));
    }
    // Moving `a` out of the position-only archetype swaps `c` into its row.
    world.add_component(a, health_info(), health_bytes(&Health(10.0)));
    let mut xs: Vec<f32> = Query::<Position>::new()
        .iter(&world, POSITION)
        .into_iter()
        .map(|bytes| position_from(bytes).0)
        .collect();
    xs.sort_by(|p, q| p.partial_cmp(q).unwrap());
    assert_eq!(xs, vec![1.0, 2.0, 3.0]);
    world.despawn(b);
    let mut left: Vec<f32> = Query::<Position>::new()
        .iter(&world, POSITION)
        .into_iter()
        .map(|bytes| position_from(bytes).0)
        .collect();
    left.sort_by(|p, q| p.partial_cmp(q).unwrap());
    assert_eq!(left, vec![1.0, 3.0]);
    assert!(world.remove_component(a, HEALTH));
    assert_eq!(Query::<Health>::new().iter(&world, HEALTH).len(), 0);
    assert_eq!(Query::<Position>::new().iter(&world, POSITION).len(), 2);
}

#[test]
fn despawn_without_components_frees_the_entity() {
    let mut world = World::new();
    let e = world.spawn();
    world.despawn(e);
    let next = world.spawn();
    assert_eq!((next.id(), next.generation()), (e.id(), e.generation() + 1));
    assert_eq!((next.id(), next.generation()), (0, 1));
}

#[test]
fn children_start_empty() {
    let children = Children::new();
    assert!(children.list.inner.is_empty());
    let copy = children.clone();
    assert!(copy.list.inner.is_empty());
    assert!(format!("{:?}", copy).starts_with("Children"));
}

#[test]
fn entities_with_the_same_types_are_stored_together() {
    let mut world = World::new();
    let a = world.spawn();
    let b = world.spawn();
    let c = world.spawn();
    world.add_component(a, position_info(), position_bytes(&Position(1.0, 0.0, 0.0)));
    world.add_component(a, health_info(), health_bytes(&Health(1.0)));
    world.add_component(b, position_info(), position_bytes(&Position(2.0, 0.0, 0.0)));
    // Added in the other order, `c` still joins the archetype of `a`.
    world.add_component(c, health_info(), health_bytes(&Health(3.0)));
    world.add_component(c, position_info(), position_bytes(&Position(3.0, 0.0, 0.0)));
    let d = world.spawn();
    world.add_component(d, position_info(), position_bytes(&Position(4.0, 0.0, 0.0)));
    world.add_component(d, health_info(), health_bytes(&Health(4.0)));
    let xs: Vec<f32> = Query::<Position>::new()
        .iter(&world, POSITION)
        .into_iter()
        .map(|bytes| position_from(bytes).0)
        .collect();
    // The position-only archetype comes first, then the shared one, row by row.
    assert_eq!(xs, vec![2.0, 1.0, 3.0, 4.0]);
}

#[test]
fn fresh_entities_do_not_overflow_their_generation() {
    let mut world = World::new();
    let e = world.spawn();
    assert!(world.can_spawn());
    assert!(!world.despawn_overflows(e));
    world.add_component(e, position_info(), position_bytes(&Position(1.0, 2.0, 3.0)));
    assert!(!world.removal_overflows(e, POSITION));
    assert!(!world.removal_overflows(e, HEALTH));
    assert!(!world.despawn_overflows(e));
    let mut alloc = EntityAllocator::new();
    let a = alloc.allocate();
    assert!(!alloc.deallocation_overflows(a));
    assert!(alloc.next_index_fits());
}

#[test]
fn defaults_start_empty() {
    let mut world = World::default();
    let e = world.spawn();
    assert_eq!((e.id(), e.generation()), (0, 0));
    assert_eq!(Query::<Position>::new().iter(&world, POSITION).len(), 0);
    let mut alloc = EntityAllocator::default();
    let a = alloc.allocate();
    assert_eq!((a.id(), a.generation()), (0, 0));
}

struct SetHealth {
    target: redox_engine::ecs::entity::Entity,
    value: f32,
}

impl System for SetHealth {
    fn run(&mut self, world: &mut World) {
        world.add_component(self.target, health_info(), health_bytes(&Health(self.value)));
    }
}

#[test]
fn stage_runs_each_system_once_in_order() {
    let mut world = World::new();
    let e = world.spawn();
    let mut stage = SystemStage::new();
    stage.add_system(SetHealth { target: e, value: 1.0 });
    stage.add_system(SetHealth { target: e, value: 2.0 });
    stage.run(&mut world);
    let healths: Vec<f32> = Query::<Health>::new()
        .iter(&world, HEALTH)
        .into_iter()
        .map(|bytes| health_from(bytes).0)
        .collect();
    // The system added last ran last.
    assert_eq!(healths, vec![2.0]);
}

#[test]
fn query_returns_one_value_per_holder() {
    let mut world = World::new();
    let a = world.spawn();
    let b = world.spawn();
    world.add_component(a, position_info(), position_bytes(&Position(1.0, 0.0, 0.0)));
    world.add_component(b, health_info(), health_bytes(&Health(5.0)));
    assert_eq!(Query::<Position>::new().iter(&world, POSITION).len(), 1);
    // A new holder adds one value.
    world.add_component(b, position_info(), position_bytes(&Position(2.0, 0.0, 0.0)));
    assert_eq!(Query::<Position>::new().iter(&world, POSITION).len(), 2);
    // Writing again to a holder adds none, and other types keep their count.
    world.add_component(a, position_info(), position_bytes(&Position(3.0, 0.0, 0.0)));
    assert_eq!(Query::<Position>::new().iter(&world, POSITION).len(), 2);
    assert_eq!(Query::<Health>::new().iter(&world, HEALTH).len(), 1);
}

#[test]
fn despawned_handle_is_never_handed_out_again() {
    let mut world = World::new();
    let e = world.spawn();
    world.add_component(e, position_info(), position_bytes(&Position(1.0, 0.0, 0.0)));
    world.despawn(e);
    for _ in 0..50 {
        let x = world.spawn();
        assert_ne!((x.id(), x.generation()), (e.id(), e.generation()));
        world.despawn(x);
    }
}

struct Logger {
    name: u32,
    log: std::rc::Rc<std::cell::RefCell<Vec<u32>>>,
}

impl System for Logger {
    fn run(&mut self, _world: &mut World) {
        self.log.borrow_mut().push(self.name);
    }
}

#[test]
fn a_second_run_repeats_the_same_calls() {
    let log = std::rc::Rc::new(std::cell::RefCell::new(Vec::new()));
    let mut stage = SystemStage::new();
    for name in [1, 2, 3] {
        stage.add_system(Logger { name, log: log.clone() });
    }
    let mut world = World::new();
    stage.run(&mut world);
    stage.run(&mut world);
    assert_eq!(*log.borrow(), vec![1, 2, 3, 1, 2, 3]);
}
