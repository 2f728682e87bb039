use vstd::prelude::*;
use crate::ecs::component::{ComponentId, ComponentInfo, ids_of};
use crate::ecs::entity::{Entity, EntityAllocator, AllocState, group_entity, allocate_state, allocated_entity, next_index, is_current, deallocate_state, deallocate_overflows};
use crate::ecs::archetype::{Archetype, sorted, sorted_ids, lemma_sorted_canonical};
use crate::ecs::archetype::table::Table;
use crate::ecs::index_map::{LocationMap, location_entries, location_map_new, location_map_get, location_map_insert, location_map_remove, ArchetypeIndex, archetype_index_entries, archetype_index_new, archetype_index_get, archetype_index_insert};

verus! {

broadcast use group_entity, Archetype::lemma_fields, vstd::seq_lib::to_multiset_contains;

/// The key under which the world files the location of `e`.
pub open spec fn key(e: Entity) -> (u32, u32) {
    (e.index(), e.gen())
}

/// The values of a table's row `r`, keyed by component type.
pub open spec fn row_of(t: Table, r: int) -> Map<ComponentId, Seq<u8>> {
    Map::new(|c: ComponentId| t.ids().contains(c), |c: ComponentId| t.column(c)[r])
}

/// What holds of each archetype: it sits at its own position, its table is
/// sound and full, its metadata lists each type once, the table has a column
/// for exactly the listed types, and its type list is the sorted form of
/// the listed types.
pub open spec fn archetype_ok(arch: Archetype, a: int) -> bool {
    let t = arch.spec_table();
    &&& arch.spec_id() == a
    &&& arch.spec_infos().len() > 0
    &&& t.wf()
    &&& t.full()
    &&& ids_of(arch.spec_infos()).no_duplicates()
    &&& forall|c: ComponentId| #[trigger] t.ids().contains(c) <==> ids_of(arch.spec_infos()).contains(c)
    &&& arch.spec_types().to_multiset() == ids_of(arch.spec_infos()).to_multiset()
    &&& sorted(arch.spec_types())
}

/// The map that a list of (type, value) pairs describes; a later pair for
/// the same type overrides an earlier one.
pub open spec fn value_map(vals: Seq<(ComponentId, Vec<u8>)>) -> Map<ComponentId, Seq<u8>>
    decreases vals.len(),
{
    if vals.len() == 0 {
        Map::empty()
    } else {
        value_map(vals.drop_last()).insert(vals.last().0, vals.last().1@)
    }
}

/// Whether no type occurs twice in the pairs.
pub open spec fn distinct_types(vals: Seq<(ComponentId, Vec<u8>)>) -> bool {
    forall|i: int, j: int| 0 <= i < j < vals.len() ==> vals[i].0 != vals[j].0
}

/// With distinct types, the map gives each pair's value under its type, and
/// holds no other type.
pub proof fn lemma_value_map(vals: Seq<(ComponentId, Vec<u8>)>)
    requires
        distinct_types(vals),
    ensures
        forall|c: ComponentId| #[trigger] value_map(vals).contains_key(c) <==> exists|j: int| 0 <= j < vals.len() && vals[j].0 == c,
        forall|j: int| 0 <= j < vals.len() ==> #[trigger] value_map(vals)[vals[j].0] == vals[j].1@,
    decreases vals.len(),
{
    if vals.len() > 0 {
        let pre = vals.drop_last();
        assert(distinct_types(pre));
        lemma_value_map(pre);
        assert forall|c: ComponentId| #[trigger] value_map(vals).contains_key(c) <==> exists|j: int| 0 <= j < vals.len() && vals[j].0 == c by {
            if value_map(vals).contains_key(c) {
                if c == vals.last().0 {
                    assert(vals[vals.len() - 1].0 == c);
                } else {
                    assert(value_map(pre).contains_key(c));
                    let j = choose|j: int| 0 <= j < pre.len() && pre[j].0 == c;
                    assert(vals[j].0 == c);
                }
            }
            if exists|j: int| 0 <= j < vals.len() && vals[j].0 == c {
                let j = choose|j: int| 0 <= j < vals.len() && vals[j].0 == c;
                if j < vals.len() - 1 {
                    assert(pre[j].0 == c);
                    assert(value_map(pre).contains_key(c));
                }
            }
        }
        assert forall|j: int| 0 <= j < vals.len() implies #[trigger] value_map(vals)[vals[j].0] == vals[j].1@ by {
            if j < vals.len() - 1 {
                assert(pre[j] == vals[j]);
                assert(vals[j].0 != vals[vals.len() - 1].0);
                assert(value_map(pre)[pre[j].0] == pre[j].1@);
            }
        }
    }
}

/// A copy of the component metadata.
fn copy_infos(v: &Vec<ComponentInfo>) -> (r: Vec<ComponentInfo>)
    ensures
        r@ == v@,
{
    let mut r: Vec<ComponentInfo> = Vec::new();
    let mut i: usize = 0;
    while i < v.len()
        invariant
            i <= v@.len(),
            r@ == v@.subrange(0, i as int),
        decreases v@.len() - i,
    {
        r.push(v[i]);
        i = i + 1;
        assert(r@ =~= v@.subrange(0, i as int));
    }
    assert(r@ =~= v@);
    r
}

/// Whether `infos` lists type `t`.
fn has_type(infos: &Vec<ComponentInfo>, t: ComponentId) -> (r: bool)
    ensures
        r == ids_of(infos@).contains(t),
{
    let mut i: usize = 0;
    while i < infos.len()
        invariant
            i <= infos@.len(),
            forall|j: int| 0 <= j < i ==> infos@[j].type_id != t,
        decreases infos@.len() - i,
    {
        if infos[i].type_id == t {
            assert(ids_of(infos@)[i as int] == t);
            return true;
        }
        i = i + 1;
    }
    proof {
        if ids_of(infos@).contains(t) {
            let j = choose|j: int| 0 <= j < ids_of(infos@).len() && ids_of(infos@)[j] == t;
            assert(infos@[j].type_id == t);
        }
    }
    false
}

/// The position of type `t` among the pairs.
fn type_position(values: &Vec<(ComponentId, Vec<u8>)>, t: ComponentId) -> (p: usize)
    requires
        exists|j: int| 0 <= j < values@.len() && values@[j].0 == t,
    ensures
        p < values@.len(),
        values@[p as int].0 == t,
{
    let mut i: usize = 0;
    while i < values.len()
        invariant
            i <= values@.len(),
            forall|j: int| 0 <= j < i ==> values@[j].0 != t,
            exists|j: int| 0 <= j < values@.len() && values@[j].0 == t,
        decreases values@.len() - i,
    {
        if values[i].0 == t {
            return i;
        }
        i = i + 1;
    }
    proof {
        let j = choose|j: int| 0 <= j < values@.len() && values@[j].0 == t;
        assert(values@[j].0 != t);
    }
    0
}

/// Dropping one pair (types being distinct) drops its type from the map.
pub proof fn lemma_value_map_remove(vals: Seq<(ComponentId, Vec<u8>)>, p: int)
    requires
        distinct_types(vals),
        0 <= p < vals.len(),
    ensures
        distinct_types(vals.remove(p)),
        value_map(vals.remove(p)) == value_map(vals).remove(vals[p].0),
{
    let rest = vals.remove(p);
    assert forall|x: int, y: int| 0 <= x < y < rest.len() implies rest[x].0 != rest[y].0 by {
        let xx = if x < p { x } else { x + 1 };
        let yy = if y < p { y } else { y + 1 };
        assert(rest[x] == vals[xx]);
        assert(rest[y] == vals[yy]);
    }
    lemma_value_map(vals);
    lemma_value_map(rest);
    let t = vals[p].0;
    assert forall|c: ComponentId| #[trigger] value_map(rest).contains_key(c) <==> value_map(vals).remove(t).contains_key(c) by {
        if value_map(rest).contains_key(c) {
            let j = choose|j: int| 0 <= j < rest.len() && rest[j].0 == c;
            let jj = if j < p { j } else { j + 1 };
            assert(vals[jj].0 == c);
            assert(jj != p);
        }
        if value_map(vals).remove(t).contains_key(c) {
            let j = choose|j: int| 0 <= j < vals.len() && vals[j].0 == c;
            assert(j != p);
            let jr = if j < p { j } else { j - 1 };
            assert(rest[jr].0 == c);
        }
    }
    assert forall|c: ComponentId| #[trigger] value_map(rest).contains_key(c) implies value_map(rest)[c] == value_map(vals)[c] by {
        let j = choose|j: int| 0 <= j < rest.len() && rest[j].0 == c;
        let jj = if j < p { j } else { j + 1 };
        assert(rest[j] == vals[jj]);
        assert(value_map(rest)[rest[j].0] == rest[j].1@);
        assert(value_map(vals)[vals[jj].0] == vals[jj].1@);
    }
    assert(value_map(rest) =~= value_map(vals).remove(t));
}

/// The values of type `t` in the given archetypes, archetype by archetype
/// and row by row.
pub open spec fn values_of_type(archs: Seq<Archetype>, t: ComponentId) -> Seq<Seq<u8>>
    decreases archs.len(),
{
    if archs.len() == 0 {
        Seq::empty()
    } else {
        let tbl = archs.last().spec_table();
        values_of_type(archs.drop_last(), t) + if tbl.ids().contains(t) {
            tbl.column(t)
        } else {
            Seq::empty()
        }
    }
}

/// The components of every entity, keyed by entity and then by type.
pub type ComponentTable = Map<Entity, Map<ComponentId, Seq<u8>>>;

/// The components of `e` in `m`, or none when `m` has no entry for `e`.
pub open spec fn entry_or_empty(m: ComponentTable, e: Entity) -> Map<ComponentId, Seq<u8>> {
    if m.contains_key(e) {
        m[e]
    } else {
        Map::empty()
    }
}

/// `m` after `e` is given the value `v` of type `t`.
pub open spec fn with_component(m: ComponentTable, e: Entity, t: ComponentId, v: Seq<u8>) -> ComponentTable {
    m.insert(e, entry_or_empty(m, e).insert(t, v))
}

/// `m` after the component of type `t` of `e` is taken away; an entity left
/// with nothing is dropped.
pub open spec fn without_component(m: ComponentTable, e: Entity, t: ComponentId) -> ComponentTable {
    if m[e].dom() == Set::<ComponentId>::empty().insert(t) {
        m.remove(e)
    } else {
        m.insert(e, m[e].remove(t))
    }
}

/// The central store of all entities and components.
///
/// Organises data into archetypes (tables) for efficient iteration.
pub struct World {
    entities: EntityAllocator,
    entity_locations: LocationMap,
    pub(crate) archetypes: Vec<Archetype>,
    type_to_archetype: ArchetypeIndex,
}

impl World {
    /// The state of the entity allocator.
    pub closed spec fn allocator(&self) -> AllocState {
        self.entities@
    }

    /// Where each entity's components are: archetype and row.
    pub closed spec fn locations(&self) -> Map<(u32, u32), (usize, usize)> {
        location_entries(self.entity_locations)
    }

    /// The archetypes, in creation order.
    pub closed spec fn archs(&self) -> Seq<Archetype> {
        self.archetypes@
    }

    /// The archetype index: sorted type lists to archetype positions.
    pub closed spec fn type_index(&self) -> Map<Seq<ComponentId>, usize> {
        archetype_index_entries(self.type_to_archetype)
    }

    /// Whether the world holds components of `e`.
    pub open spec fn holds(&self, e: Entity) -> bool {
        self.locations().contains_key(key(e))
    }

    /// The components of `e`, keyed by type.
    pub open spec fn components_of(&self, e: Entity) -> Map<ComponentId, Seq<u8>> {
        let loc = self.locations()[key(e)];
        row_of(self.archs()[loc.0 as int].spec_table(), loc.1 as int)
    }

    /// The components of every entity the world holds.
    pub open spec fn components(&self) -> Map<Entity, Map<ComponentId, Seq<u8>>> {
        Map::new(|e: Entity| self.holds(e), |e: Entity| self.components_of(e))
    }

    /// The components of `e`, or none when the world does not hold `e`.
    pub open spec fn components_or_empty(&self, e: Entity) -> Map<ComponentId, Seq<u8>> {
        if self.holds(e) {
            self.components_of(e)
        } else {
            Map::empty()
        }
    }

    /// The world's invariant.
    pub open spec fn wf(&self) -> bool {
        let archs = self.archs();
        let locs = self.locations();
        let idx = self.type_index();
        &&& crate::ecs::entity::alloc_wf(self.allocator())
        &&& self.allocator().generations.len() <= usize::MAX
        &&& forall|a: int| 0 <= a < archs.len() ==> #[trigger] archetype_ok(archs[a], a)
        &&& forall|k: Seq<ComponentId>| #[trigger] idx.contains_key(k) ==> idx[k] < archs.len() && archs[idx[k] as int].spec_types() == k
        &&& forall|a: int| 0 <= a < archs.len() ==> #[trigger] idx.contains_key(archs[a].spec_types()) && idx[archs[a].spec_types()] == a
        &&& forall|k: (u32, u32)| #[trigger] locs.contains_key(k) ==> {
            &&& locs[k].0 < archs.len()
            &&& locs[k].1 < archs[locs[k].0 as int].spec_table().rows().len()
            &&& key(archs[locs[k].0 as int].spec_table().rows()[locs[k].1 as int]) == k
        }
        &&& forall|a: int, r: int| 0 <= a < archs.len() && 0 <= r < archs[a].spec_table().rows().len() ==> {
            &&& #[trigger] locs.contains_key(key(archs[a].spec_table().rows()[r]))
            &&& locs[key(archs[a].spec_table().rows()[r])].0 == a
            &&& locs[key(archs[a].spec_table().rows()[r])].1 == r
        }
    }

    /// Creates a new empty world.
    pub fn new() -> (r: Self)
        ensures
            r.wf(),
            r.components() == Map::<Entity, Map<ComponentId, Seq<u8>>>::empty(),
            r.allocator().generations == Seq::<u32>::empty(),
            r.allocator().free == Seq::<u32>::empty(),
            r.allocator().next_id == 0,
    {
        let r = World {
            entities: EntityAllocator::new(),
            entity_locations: location_map_new(),
            archetypes: Vec::new(),
            type_to_archetype: archetype_index_new(),
        };
        assert(r.components() =~= Map::<Entity, Map<ComponentId, Seq<u8>>>::empty());
        r
    }

    /// Spawns a new entity with no components.
    pub fn spawn(&mut self) -> (e: Entity)
        requires
            old(self).wf(),
            next_index(old(self).allocator()) < usize::MAX,
        ensures
            final(self).wf(),
            final(self).allocator() == allocate_state(old(self).allocator()),
            e == allocated_entity(old(self).allocator()),
            final(self).components() == old(self).components(),
    {
        let e = self.entities.allocate();
        assert(self.archs() == old(self).archs());
        assert(self.locations() == old(self).locations());
        assert(self.type_index() == old(self).type_index());
        assert(self.components() =~= old(self).components());
        e
    }

    /// Finds or creates an archetype for the given set of component infos.
    #[verifier::spinoff_prover]
    fn find_or_create_archetype(&mut self, infos: Vec<ComponentInfo>) -> (r: usize)
        requires
            old(self).wf(),
            infos@.len() > 0,
            ids_of(infos@).no_duplicates(),
        ensures
            final(self).wf(),
            final(self).allocator() == old(self).allocator(),
            final(self).locations() == old(self).locations(),
            old(self).archs().len() <= final(self).archs().len() <= old(self).archs().len() + 1,
            final(self).archs().subrange(0, old(self).archs().len() as int) == old(self).archs(),
            final(self).archs().len() == old(self).archs().len() + 1 ==> r == old(self).archs().len() &&
                final(self).archs()[r as int].spec_table().rows() == Seq::<Entity>::empty(),
            r < final(self).archs().len(),
            forall|c: ComponentId| #[trigger] final(self).archs()[r as int].spec_table().ids().contains(c)
                <==> ids_of(infos@).contains(c),
            final(self).archs()[r as int].spec_infos().to_multiset() =~= infos@.to_multiset() || r < old(self).archs().len(),
            final(self).components() == old(self).components(),
    {
        let types = sorted_ids(&infos);
        match archetype_index_get(&self.type_to_archetype, &types) {
            Some(id) => {
                proof {
                    let arch = self.archs()[id as int];
                    assert(archetype_ok(arch, id as int));
                    assert forall|c: ComponentId| #[trigger] arch.spec_table().ids().contains(c)
                        <==> ids_of(infos@).contains(c) by {
                        assert(types@.to_multiset().count(c) == ids_of(infos@).to_multiset().count(c));
                        assert(arch.spec_types().to_multiset().count(c) == ids_of(arch.spec_infos()).to_multiset().count(c));
                    }
                    assert(self.archs().subrange(0, old(self).archs().len() as int) =~= old(self).archs());
                }
                id
            },
            None => {
                let id = self.archetypes.len();
                let archetype = Archetype::new(id, infos);
                let ghost new_types = archetype.spec_types();
                let ghost new_arch = archetype;
                self.archetypes.push(archetype);
                archetype_index_insert(&mut self.type_to_archetype, types, id);
                proof {
                    let archs = self.archs();
                    let idx = self.type_index();
                    let old_idx = old(self).type_index();
                    assert(archs.subrange(0, id as int) =~= old(self).archs());
                    assert(archs[id as int] == new_arch);
                    assert(self.locations() == old(self).locations());
                    assert(new_types.to_multiset() == types@.to_multiset());
                    lemma_sorted_canonical(new_types, types@);
                    assert(!old_idx.contains_key(types@));
                    assert forall|a: int| 0 <= a < archs.len() implies #[trigger] archetype_ok(archs[a], a) by {
                        if a < id {
                            assert(archs[a] == old(self).archs()[a]);
                        } else {
                            assert forall|c: ComponentId| #[trigger] archs[a].spec_table().ids().contains(c)
                                implies archs[a].spec_table().column(c).len() == archs[a].spec_table().rows().len() by {
                            }
                        }
                    }
                    assert forall|k: Seq<ComponentId>| #[trigger] idx.contains_key(k) implies idx[k] < archs.len()
                        && archs[idx[k] as int].spec_types() == k by {
                        if k != types@ {
                            assert(old_idx.contains_key(k));
                            assert(archs[old_idx[k] as int] == old(self).archs()[old_idx[k] as int]);
                        } else {
                            assert(archs[id as int].spec_types() == types@);
                        }
                    }
                    assert forall|a: int| 0 <= a < archs.len() implies #[trigger] idx.contains_key(archs[a].spec_types())
                        && idx[archs[a].spec_types()] == a by {
                        if a < id {
                            assert(archs[a] == old(self).archs()[a]);
                            assert(old_idx.contains_key(archs[a].spec_types()));
                            assert(archs[a].spec_types() != types@);
                        }
                    }
                    assert forall|a: int, r: int| 0 <= a < archs.len() && 0 <= r < archs[a].spec_table().rows().len()
                        implies #[trigger] self.locations().contains_key(key(archs[a].spec_table().rows()[r]))
                        && self.locations()[key(archs[a].spec_table().rows()[r])].0 == a
                        && self.locations()[key(archs[a].spec_table().rows()[r])].1 == r by {
                        if a == id {
                            assert(archs[a].spec_table().rows().len() == 0);
                        }
                        assert(archs[a] == old(self).archs()[a]);
                        assert(old(self).locations().contains_key(key(old(self).archs()[a].spec_table().rows()[r])));
                    }
                    let locs = self.locations();
                    assert forall|k: (u32, u32)| #[trigger] locs.contains_key(k) implies {
                        &&& locs[k].0 < archs.len()
                        &&& locs[k].1 < archs[locs[k].0 as int].spec_table().rows().len()
                        &&& key(archs[locs[k].0 as int].spec_table().rows()[locs[k].1 as int]) == k
                    } by {
                        assert(old(self).locations().contains_key(k));
                        assert(archs[locs[k].0 as int] == old(self).archs()[locs[k].0 as int]);
                    }
                    assert forall|e: Entity| #[trigger] self.components().contains_key(e) == old(self).components().contains_key(e)
                        && (self.components().contains_key(e) ==> self.components()[e] == old(self).components()[e]) by {
                        if self.holds(e) {
                            assert(archs[locs[key(e)].0 as int] == old(self).archs()[locs[key(e)].0 as int]);
                        }
                    }
                    assert(self.components() =~= old(self).components());
                }
                id
            },
        }
    }

    /// Despawns an entity, removing it from the world entirely: its
    /// components are dropped and, when it is the current handle of its
    /// index, the index is freed for reuse under the next generation.
    pub fn despawn(&mut self, entity: Entity)
        requires
            old(self).wf(),
            !deallocate_overflows(old(self).allocator(), entity),
        ensures
            final(self).wf(),
            final(self).components() == old(self).components().remove(entity),
            final(self).allocator() == deallocate_state(old(self).allocator(), entity),
    {
        let k = (entity.id(), entity.generation());
        match location_map_get(&self.entity_locations, k) {
            Some(loc) => {
                self.unlink_row(entity, loc.0, loc.1);
            },
            None => {
                assert(self.components() =~= old(self).components().remove(entity));
            },
        }
        let ghost mid = *self;
        self.entities.deallocate(entity);
        proof {
            assert(self.archs() == mid.archs());
            assert(self.locations() == mid.locations());
            assert(self.type_index() == mid.type_index());
            assert(self.components() =~= mid.components());
            assert(self.wf());
        }
    }

    /// Takes the row of `entity` out of archetype `a`: the last row moves
    /// into its place, and the world forgets where `entity` was.
    fn unlink_row(&mut self, entity: Entity, a: usize, row: usize)
        requires
            old(self).wf(),
            old(self).locations().contains_key(key(entity)),
            old(self).locations()[key(entity)] == (a, row),
        ensures
            final(self).wf(),
            final(self).components() == old(self).components().remove(entity),
            final(self).allocator() == old(self).allocator(),
            final(self).archs().len() == old(self).archs().len(),
            forall|b: int| 0 <= b < old(self).archs().len() && b != a ==> #[trigger] final(self).archs()[b] == old(self).archs()[b],
            !final(self).holds(entity),
    {
        let k = (entity.id(), entity.generation());
        location_map_remove(&mut self.entity_locations, k);
        let ghost t0 = self.archs()[a as int].spec_table();
        proof {
            assert(archetype_ok(old(self).archs()[a as int], a as int));
        }
        let moved = self.archetypes[a].table.swap_remove(row);
        match moved {
            Some(m) => {
                location_map_insert(&mut self.entity_locations, (m.id(), m.generation()), (a, row));
            },
            None => {},
        }
        proof {
            assert(self.archs()[a as int].spec_id() == old(self).archs()[a as int].spec_id());
            self.lemma_after_row_removed(*old(self), entity, a, row, t0);
            assert(!self.components().contains_key(entity));
        }
    }

    /// After the row of `entity` in archetype `a` is swap-removed and the
    /// moved entity is filed under its new row, the world is sound again and
    /// holds the same components for everything but `entity`.
    #[verifier::spinoff_prover]
    #[verifier::rlimit(40)]
    proof fn lemma_after_row_removed(&self, pre: World, entity: Entity, a: usize, row: usize, t0: Table)
        requires
            pre.wf(),
            pre.locations().contains_key(key(entity)),
            pre.locations()[key(entity)] == (a, row),
            t0 == pre.archs()[a as int].spec_table(),
            self.allocator() == pre.allocator(),
            self.type_index() == pre.type_index(),
            self.archs().len() == pre.archs().len(),
            forall|b: int| 0 <= b < pre.archs().len() && b != a as int ==> #[trigger] self.archs()[b] == pre.archs()[b],
            self.archs()[a as int].spec_id() == pre.archs()[a as int].spec_id(),
            self.archs()[a as int].spec_types() == pre.archs()[a as int].spec_types(),
            self.archs()[a as int].spec_infos() == pre.archs()[a as int].spec_infos(),
            ({
                let t1 = self.archs()[a as int].spec_table();
                &&& t1.wf()
                &&& t1.full()
                &&& t1.ids() == t0.ids()
                &&& t1.rows() == t0.rows().update(row as int, t0.rows().last()).drop_last()
                &&& forall|c: ComponentId| #[trigger] t1.ids().contains(c) ==> t1.column(c) == t0.column(c).update(row as int, t0.column(c).last()).drop_last()
            }),
            self.locations() == if row + 1 < t0.rows().len() {
                pre.locations().remove(key(entity)).insert(key(t0.rows().last()), (a, row))
            } else {
                pre.locations().remove(key(entity))
            },
        ensures
            self.wf(),
            self.components() == pre.components().remove(entity),
    {
        let archs = self.archs();
        let locs = self.locations();
        let t1 = archs[a as int].spec_table();
        let n = t0.rows().len();
        assert(archetype_ok(pre.archs()[a as int], a as int));
        assert(key(t0.rows()[row as int]) == key(entity));
        assert forall|b: int| 0 <= b < archs.len() implies #[trigger] archetype_ok(archs[b], b) by {
            assert(archetype_ok(pre.archs()[b], b));
        }
        assert forall|kk: Seq<ComponentId>| #[trigger] self.type_index().contains_key(kk) implies self.type_index()[kk] < archs.len()
            && archs[self.type_index()[kk] as int].spec_types() == kk by {
            assert(pre.type_index().contains_key(kk));
        }
        assert forall|b: int| 0 <= b < archs.len() implies #[trigger] self.type_index().contains_key(archs[b].spec_types())
            && self.type_index()[archs[b].spec_types()] == b by {
            assert(pre.archs()[b].spec_types() == archs[b].spec_types());
        }
        assert forall|k: (u32, u32)| #[trigger] locs.contains_key(k) implies {
            &&& locs[k].0 < archs.len()
            &&& locs[k].1 < archs[locs[k].0 as int].spec_table().rows().len()
            &&& key(archs[locs[k].0 as int].spec_table().rows()[locs[k].1 as int]) == k
        } by {
            if row + 1 < n && k == key(t0.rows().last()) {
            } else {
                assert(pre.locations().contains_key(k));
                assert(k != key(entity));
                let (b, r) = pre.locations()[k];
                if b == a {
                    assert(r != row);
                    if r as int == n - 1 {
                        assert(k == key(t0.rows().last()));
                    }
                }
            }
        }
        let last = t0.rows()[n - 1];
        assert(pre.locations().contains_key(key(pre.archs()[a as int].spec_table().rows()[n - 1])));
        assert(pre.locations()[key(last)].0 == a && pre.locations()[key(last)].1 == n - 1);
        assert forall|b: int, r: int| 0 <= b < archs.len() && 0 <= r < archs[b].spec_table().rows().len() implies {
            &&& #[trigger] locs.contains_key(key(archs[b].spec_table().rows()[r]))
            &&& locs[key(archs[b].spec_table().rows()[r])].0 == b
            &&& locs[key(archs[b].spec_table().rows()[r])].1 == r
        } by {
            if b != a as int {
                let x = pre.archs()[b].spec_table().rows()[r];
                assert(archs[b] == pre.archs()[b]);
                assert(pre.locations().contains_key(key(x)));
                assert(key(x) != key(entity));
                assert(key(x) != key(last));
            } else if r == row as int {
                assert(archs[b].spec_table().rows()[r] == last);
            } else {
                let x = t0.rows()[r];
                assert(archs[b].spec_table().rows()[r] == x);
                assert(pre.locations().contains_key(key(pre.archs()[a as int].spec_table().rows()[r])));
                assert(key(x) != key(entity));
                assert(key(x) != key(last));
            }
        }
        assert forall|x: Entity| #[trigger] self.components().contains_key(x) == pre.components().remove(entity).contains_key(x)
            && (self.components().contains_key(x) ==> self.components()[x] == pre.components()[x]) by {
            if pre.holds(x) && x != entity {
                let (b, r) = pre.locations()[key(x)];
                assert(key(x) != key(entity));
                if row + 1 < n && key(x) == key(t0.rows().last()) {
                    assert(row_of(t1, row as int) =~= row_of(t0, n - 1));
                } else {
                    if b == a {
                        assert(r != row);
                        assert(r as int != n - 1);
                        assert(row_of(t1, r as int) =~= row_of(t0, r as int));
                    } else {
                        assert(archs[b as int] == pre.archs()[b as int]);
                    }
                }
            }
            if self.holds(x) {
                if row + 1 < n && key(x) == key(t0.rows().last()) {
                    assert(pre.locations().contains_key(key(t0.rows()[n - 1])));
                }
            }
        }
        assert(self.components() =~= pre.components().remove(entity));
        assert(crate::ecs::entity::alloc_wf(self.allocator()));
        assert(forall|a: int| 0 <= a < archs.len() ==> #[trigger] archetype_ok(archs[a], a));
        let idx = self.type_index();
        assert(forall|k: Seq<ComponentId>| #[trigger] idx.contains_key(k) ==> idx[k] < archs.len() && archs[idx[k] as int].spec_types() == k);
        assert(forall|a: int| 0 <= a < archs.len() ==> #[trigger] idx.contains_key(archs[a].spec_types()) && idx[archs[a].spec_types()] == a);
        assert(forall|k: (u32, u32)| #[trigger] locs.contains_key(k) ==> {
            &&& locs[k].0 < archs.len()
            &&& locs[k].1 < archs[locs[k].0 as int].spec_table().rows().len()
            &&& key(archs[locs[k].0 as int].spec_table().rows()[locs[k].1 as int]) == k
        });
        assert(forall|a: int, r: int| 0 <= a < archs.len() && 0 <= r < archs[a].spec_table().rows().len() ==> {
            &&& #[trigger] locs.contains_key(key(archs[a].spec_table().rows()[r]))
            &&& locs[key(archs[a].spec_table().rows()[r])].0 == a
            &&& locs[key(archs[a].spec_table().rows()[r])].1 == r
        });
        assert(self.wf());
    }

    /// The values of row `row` of archetype `a`, one pair per listed type,
    /// in the order the archetype lists its types.
    #[verifier::spinoff_prover]
    fn row_values(&self, a: usize, row: usize) -> (r: Vec<(ComponentId, Vec<u8>)>)
        requires
            self.wf(),
            a < self.archs().len(),
            row < self.archs()[a as int].spec_table().rows().len(),
        ensures
            r@.len() == self.archs()[a as int].spec_infos().len(),
            forall|j: int| 0 <= j < r@.len() ==> #[trigger] r@[j].0 == self.archs()[a as int].spec_infos()[j].type_id,
            distinct_types(r@),
            value_map(r@) == row_of(self.archs()[a as int].spec_table(), row as int),
    {
        let ghost arch = self.archs()[a as int];
        let ghost t = arch.spec_table();
        proof {
            assert(archetype_ok(arch, a as int));
        }
        let infos = &self.archetypes[a].component_infos;
        let table = &self.archetypes[a].table;
        let mut r: Vec<(ComponentId, Vec<u8>)> = Vec::new();
        let mut i: usize = 0;
        while i < infos.len()
            invariant
                i <= infos@.len(),
                infos@ == arch.spec_infos(),
                t == arch.spec_table(),
                *table == t,
                archetype_ok(arch, a as int),
                row < t.rows().len(),
                r@.len() == i,
                forall|j: int| 0 <= j < i ==> #[trigger] r@[j].0 == infos@[j].type_id,
                forall|j: int| 0 <= j < i ==> #[trigger] r@[j].1@ == t.column(infos@[j].type_id)[row as int],
            decreases infos@.len() - i,
        {
            let c = infos[i].type_id;
            proof {
                assert(ids_of(infos@)[i as int] == c);
                assert(t.ids().contains(c));
            }
            let bytes = table.get_component(c, row).unwrap().clone();
            proof {
                assert(bytes@ =~= t.column(c)[row as int]);
            }
            r.push((c, bytes));
            i = i + 1;
        }
        proof {
            assert forall|x: int, y: int| 0 <= x < y < r@.len() implies r@[x].0 != r@[y].0 by {
                assert(ids_of(infos@)[x] == r@[x].0);
                assert(ids_of(infos@)[y] == r@[y].0);
            }
            lemma_value_map(r@);
            assert forall|c: ComponentId| #[trigger] value_map(r@).contains_key(c) <==> row_of(t, row as int).contains_key(c) by {
                if value_map(r@).contains_key(c) {
                    let j = choose|j: int| 0 <= j < r@.len() && r@[j].0 == c;
                    assert(ids_of(infos@)[j] == c);
                }
                if row_of(t, row as int).contains_key(c) {
                    assert(ids_of(infos@).contains(c));
                    let j = choose|j: int| 0 <= j < ids_of(infos@).len() && ids_of(infos@)[j] == c;
                    assert(r@[j].0 == c);
                }
            }
            assert forall|c: ComponentId| #[trigger] value_map(r@).contains_key(c) implies value_map(r@)[c] == row_of(t, row as int)[c] by {
                let j = choose|j: int| 0 <= j < r@.len() && r@[j].0 == c;
                assert(value_map(r@)[r@[j].0] == r@[j].1@);
            }
            assert(value_map(r@) =~= row_of(t, row as int));
        }
        r
    }

    /// After a row for `entity` is appended to archetype `a` with the values
    /// `vm` and `entity` is filed under it, the world is sound again and holds
    /// `vm` as the components of `entity`.
    #[verifier::spinoff_prover]
    #[verifier::rlimit(40)]
    proof fn lemma_after_row_appended(&self, pre: World, entity: Entity, a: usize, new_row: usize, t0: Table, vm: Map<ComponentId, Seq<u8>>)
        requires
            pre.wf(),
            !pre.holds(entity),
            a < pre.archs().len(),
            t0 == pre.archs()[a as int].spec_table(),
            new_row == t0.rows().len(),
            vm.dom() == t0.ids(),
            self.allocator() == pre.allocator(),
            self.type_index() == pre.type_index(),
            self.archs().len() == pre.archs().len(),
            forall|b: int| 0 <= b < pre.archs().len() && b != a ==> #[trigger] self.archs()[b] == pre.archs()[b],
            self.archs()[a as int].spec_id() == pre.archs()[a as int].spec_id(),
            self.archs()[a as int].spec_types() == pre.archs()[a as int].spec_types(),
            self.archs()[a as int].spec_infos() == pre.archs()[a as int].spec_infos(),
            ({
                let t1 = self.archs()[a as int].spec_table();
                &&& t1.wf()
                &&& t1.ids() == t0.ids()
                &&& t1.rows() == t0.rows().push(entity)
                &&& forall|c: ComponentId| #[trigger] t1.ids().contains(c) ==> t1.column(c) == t0.column(c).push(vm[c])
            }),
            self.locations() == pre.locations().insert(key(entity), (a, new_row)),
        ensures
            self.wf(),
            self.components() == pre.components().insert(entity, vm),
    {
        let archs = self.archs();
        let locs = self.locations();
        let t1 = archs[a as int].spec_table();
        assert(archetype_ok(pre.archs()[a as int], a as int));
        assert forall|b: int| 0 <= b < archs.len() implies #[trigger] archetype_ok(archs[b], b) by {
            assert(archetype_ok(pre.archs()[b], b));
            if b == a as int {
                assert forall|c: ComponentId| #[trigger] t1.ids().contains(c) implies t1.column(c).len() == t1.rows().len() by {
                    assert(t0.ids().contains(c));
                }
            }
        }
        let idx = self.type_index();
        assert forall|kk: Seq<ComponentId>| #[trigger] idx.contains_key(kk) implies idx[kk] < archs.len()
            && archs[idx[kk] as int].spec_types() == kk by {
            assert(pre.type_index().contains_key(kk));
        }
        assert forall|b: int| 0 <= b < archs.len() implies #[trigger] idx.contains_key(archs[b].spec_types())
            && idx[archs[b].spec_types()] == b by {
            assert(pre.archs()[b].spec_types() == archs[b].spec_types());
        }
        assert forall|k: (u32, u32)| #[trigger] locs.contains_key(k) implies {
            &&& locs[k].0 < archs.len()
            &&& locs[k].1 < archs[locs[k].0 as int].spec_table().rows().len()
            &&& key(archs[locs[k].0 as int].spec_table().rows()[locs[k].1 as int]) == k
        } by {
            if k != key(entity) {
                assert(pre.locations().contains_key(k));
            }
        }
        assert forall|b: int, r: int| 0 <= b < archs.len() && 0 <= r < archs[b].spec_table().rows().len() implies {
            &&& #[trigger] locs.contains_key(key(archs[b].spec_table().rows()[r]))
            &&& locs[key(archs[b].spec_table().rows()[r])].0 == b
            &&& locs[key(archs[b].spec_table().rows()[r])].1 == r
        } by {
            if b != a as int {
                assert(archs[b] == pre.archs()[b]);
                assert(pre.locations().contains_key(key(pre.archs()[b].spec_table().rows()[r])));
            } else if r < new_row {
                assert(archs[b].spec_table().rows()[r] == t0.rows()[r]);
                assert(pre.locations().contains_key(key(pre.archs()[a as int].spec_table().rows()[r])));
            }
        }
        assert forall|k: (u32, u32)| #[trigger] locs.contains_key(k) implies {
            &&& locs[k].0 < archs.len()
            &&& locs[k].1 < archs[locs[k].0 as int].spec_table().rows().len()
            &&& key(archs[locs[k].0 as int].spec_table().rows()[locs[k].1 as int]) == k
        } by {}
        assert forall|x: Entity| #[trigger] self.components().contains_key(x) == pre.components().insert(entity, vm).contains_key(x)
            && (self.components().contains_key(x) ==> self.components()[x] == pre.components().insert(entity, vm)[x]) by {
            if x == entity {
                assert forall|c: ComponentId| #[trigger] row_of(t1, new_row as int).contains_key(c) implies row_of(t1, new_row as int)[c] == vm[c] by {
                    assert(t0.ids().contains(c));
                }
                assert(row_of(t1, new_row as int) =~= vm);
            } else if pre.holds(x) {
                let (b, r) = pre.locations()[key(x)];
                assert(key(x) != key(entity));
                if b == a {
                    assert(row_of(t1, r as int) =~= row_of(t0, r as int));
                } else {
                    assert(archs[b as int] == pre.archs()[b as int]);
                }
            }
        }
        assert(self.components() =~= pre.components().insert(entity, vm));
        assert(crate::ecs::entity::alloc_wf(self.allocator()));
        assert(self.wf());
    }

    /// Appends a row for `entity` (which the world does not hold) to
    /// archetype `a`, with one value per type of the archetype.
    fn append_row(&mut self, entity: Entity, a: usize, values: Vec<(ComponentId, Vec<u8>)>)
        requires
            old(self).wf(),
            !old(self).holds(entity),
            a < old(self).archs().len(),
            distinct_types(values@),
            forall|c: ComponentId| #[trigger] old(self).archs()[a as int].spec_table().ids().contains(c)
                <==> exists|j: int| 0 <= j < values@.len() && values@[j].0 == c,
        ensures
            final(self).wf(),
            final(self).allocator() == old(self).allocator(),
            final(self).components() == old(self).components().insert(entity, value_map(values@)),
    {
        let ghost t0 = self.archs()[a as int].spec_table();
        let ghost vm = value_map(values@);
        proof {
            assert(archetype_ok(old(self).archs()[a as int], a as int));
            lemma_value_map(values@);
            assert(vm.dom() =~= t0.ids());
        }
        let new_row = self.archetypes[a].table.row_count();
        self.archetypes[a].table.push_entity(entity);
        let ghost all = values@;
        let mut vals = values;
        while vals.len() > 0
            invariant
                self.archs().len() == old(self).archs().len(),
                a < self.archs().len(),
                forall|b: int| 0 <= b < old(self).archs().len() && b != a ==> #[trigger] self.archs()[b] == old(self).archs()[b],
                self.archs()[a as int].spec_id() == old(self).archs()[a as int].spec_id(),
                self.archs()[a as int].spec_types() == old(self).archs()[a as int].spec_types(),
                self.archs()[a as int].spec_infos() == old(self).archs()[a as int].spec_infos(),
                self.allocator() == old(self).allocator(),
                self.type_index() == old(self).type_index(),
                self.locations() == old(self).locations(),
                t0 == old(self).archs()[a as int].spec_table(),
                vm == value_map(all),
                vm.dom() == t0.ids(),
                distinct_types(all),
                vals@.len() <= all.len(),
                vals@ == all.subrange(0, vals@.len() as int),
                ({
                    let t1 = self.archs()[a as int].spec_table();
                    &&& t1.wf()
                    &&& t1.ids() == t0.ids()
                    &&& t1.rows() == t0.rows().push(entity)
                    &&& forall|c: ComponentId| #[trigger] t1.ids().contains(c) ==> t1.column(c) == if exists|j: int| 0 <= j < vals@.len() && vals@[j].0 == c {
                        t0.column(c)
                    } else {
                        t0.column(c).push(vm[c])
                    }
                }),
            decreases vals@.len(),
        {
            let ghost before = self.archs()[a as int].spec_table();
            let ghost rem = vals@;
            let (c, bytes) = vals.pop().unwrap();
            proof {
                let j = rem.len() - 1;
                assert(all[j] == rem[j]);
                assert(vm[all[j].0] == all[j].1@) by {
                    lemma_value_map(all);
                }
            }
            self.archetypes[a].table.push_component_raw(c, bytes);
            proof {
                let t1 = self.archs()[a as int].spec_table();
                assert forall|d: ComponentId| #[trigger] t1.ids().contains(d) implies t1.column(d) == if exists|j: int| 0 <= j < vals@.len() && vals@[j].0 == d {
                    t0.column(d)
                } else {
                    t0.column(d).push(vm[d])
                } by {
                    if d == c {
                        if exists|j: int| 0 <= j < vals@.len() && vals@[j].0 == d {
                            let j = choose|j: int| 0 <= j < vals@.len() && vals@[j].0 == d;
                            assert(all[j].0 == all[rem.len() - 1].0);
                        }
                        assert(exists|j: int| 0 <= j < rem.len() && rem[j].0 == d) by {
                            assert(rem[rem.len() - 1].0 == d);
                        }
                    } else {
                        if exists|j: int| 0 <= j < rem.len() && rem[j].0 == d {
                            let j = choose|j: int| 0 <= j < rem.len() && rem[j].0 == d;
                            assert(j != rem.len() - 1);
                            assert(vals@[j].0 == d);
                        }
                        if exists|j: int| 0 <= j < vals@.len() && vals@[j].0 == d {
                            let j = choose|j: int| 0 <= j < vals@.len() && vals@[j].0 == d;
                            assert(rem[j].0 == d);
                        }
                    }
                }
            }
        }
        let k = (entity.id(), entity.generation());
        location_map_insert(&mut self.entity_locations, k, (a, new_row));
        proof {
            let t1 = self.archs()[a as int].spec_table();
            assert forall|c: ComponentId| #[trigger] t1.ids().contains(c) implies t1.column(c) == t0.column(c).push(vm[c]) by {
                if exists|j: int| 0 <= j < vals@.len() && vals@[j].0 == c {
                    let j = choose|j: int| 0 <= j < vals@.len() && vals@[j].0 == c;
                }
            }
            self.lemma_after_row_appended(*old(self), entity, a, new_row, t0, vm);
        }
    }

    /// After the value of type `c` in the row of `entity` (archetype `a`,
    /// row `row`) is replaced by `v`, the world is sound and holds `v` there.
    #[verifier::spinoff_prover]
    #[verifier::rlimit(40)]
    proof fn lemma_after_value_replaced(&self, pre: World, entity: Entity, a: usize, row: usize, c: ComponentId, v: Seq<u8>)
        requires
            pre.wf(),
            pre.locations().contains_key(key(entity)),
            pre.locations()[key(entity)] == (a, row),
            pre.archs()[a as int].spec_table().ids().contains(c),
            self.allocator() == pre.allocator(),
            self.type_index() == pre.type_index(),
            self.locations() == pre.locations(),
            self.archs().len() == pre.archs().len(),
            forall|b: int| 0 <= b < pre.archs().len() && b != a ==> #[trigger] self.archs()[b] == pre.archs()[b],
            self.archs()[a as int].spec_id() == pre.archs()[a as int].spec_id(),
            self.archs()[a as int].spec_types() == pre.archs()[a as int].spec_types(),
            self.archs()[a as int].spec_infos() == pre.archs()[a as int].spec_infos(),
            ({
                let t0 = pre.archs()[a as int].spec_table();
                let t1 = self.archs()[a as int].spec_table();
                &&& t1.wf()
                &&& t1.ids() == t0.ids()
                &&& t1.rows() == t0.rows()
                &&& forall|d: ComponentId| #[trigger] t1.ids().contains(d) ==> t1.column(d) == if d == c {
                    t0.column(d).update(row as int, v)
                } else {
                    t0.column(d)
                }
            }),
        ensures
            self.wf(),
            self.components() == pre.components().insert(entity, pre.components()[entity].insert(c, v)),
    {
        let archs = self.archs();
        let locs = self.locations();
        let t0 = pre.archs()[a as int].spec_table();
        let t1 = archs[a as int].spec_table();
        assert(archetype_ok(pre.archs()[a as int], a as int));
        assert forall|b: int| 0 <= b < archs.len() implies #[trigger] archetype_ok(archs[b], b) by {
            assert(archetype_ok(pre.archs()[b], b));
            if b == a as int {
                assert forall|d: ComponentId| #[trigger] t1.ids().contains(d) implies t1.column(d).len() == t1.rows().len() by {
                    assert(t0.ids().contains(d));
                }
            }
        }
        let idx = self.type_index();
        assert forall|kk: Seq<ComponentId>| #[trigger] idx.contains_key(kk) implies idx[kk] < archs.len()
            && archs[idx[kk] as int].spec_types() == kk by {
            assert(pre.type_index().contains_key(kk));
        }
        assert forall|b: int| 0 <= b < archs.len() implies #[trigger] idx.contains_key(archs[b].spec_types())
            && idx[archs[b].spec_types()] == b by {
            assert(pre.archs()[b].spec_types() == archs[b].spec_types());
        }
        assert forall|k: (u32, u32)| #[trigger] locs.contains_key(k) implies {
            &&& locs[k].0 < archs.len()
            &&& locs[k].1 < archs[locs[k].0 as int].spec_table().rows().len()
            &&& key(archs[locs[k].0 as int].spec_table().rows()[locs[k].1 as int]) == k
        } by {
            assert(pre.locations().contains_key(k));
        }
        assert forall|b: int, r: int| 0 <= b < archs.len() && 0 <= r < archs[b].spec_table().rows().len() implies {
            &&& #[trigger] locs.contains_key(key(archs[b].spec_table().rows()[r]))
            &&& locs[key(archs[b].spec_table().rows()[r])].0 == b
            &&& locs[key(archs[b].spec_table().rows()[r])].1 == r
        } by {
            if b != a as int {
                assert(archs[b] == pre.archs()[b]);
            }
            assert(pre.locations().contains_key(key(pre.archs()[b].spec_table().rows()[r])));
        }
        let target = pre.components()[entity].insert(c, v);
        assert forall|x: Entity| #[trigger] self.components().contains_key(x) == pre.components().insert(entity, target).contains_key(x)
            && (self.components().contains_key(x) ==> self.components()[x] == pre.components().insert(entity, target)[x]) by {
            if x == entity {
                assert(row_of(t1, row as int) =~= target);
            } else if pre.holds(x) {
                let (b, r) = pre.locations()[key(x)];
                assert(key(x) != key(entity));
                if b == a {
                    assert(r != row);
                    assert(row_of(t1, r as int) =~= row_of(t0, r as int));
                } else {
                    assert(archs[b as int] == pre.archs()[b as int]);
                }
            }
        }
        assert(self.components() =~= pre.components().insert(entity, target));
        assert(crate::ecs::entity::alloc_wf(self.allocator()));
        assert(forall|k: (u32, u32)| #[trigger] locs.contains_key(k) ==> {
            &&& locs[k].0 < archs.len()
            &&& locs[k].1 < archs[locs[k].0 as int].spec_table().rows().len()
            &&& key(archs[locs[k].0 as int].spec_table().rows()[locs[k].1 as int]) == k
        });
        assert(self.wf());
    }

    /// Adds a component to an entity: `component` holds the value's bytes,
    /// exactly `info.size` of them.
    ///
    /// If the entity already has a component of this type, its value is
    /// replaced. Otherwise the entity moves to the archetype of its old types
    /// plus this one.
    pub fn add_component(&mut self, entity: Entity, info: ComponentInfo, component: Vec<u8>)
        requires
            old(self).wf(),
            component@.len() == info.size,
        ensures
            final(self).wf(),
            final(self).allocator() == old(self).allocator(),
            final(self).components() == with_component(old(self).components(), entity, info.type_id, component@),
    {
        let k = (entity.id(), entity.generation());
        let location = location_map_get(&self.entity_locations, k);
        let mut new_infos: Vec<ComponentInfo> = match location {
            Some(loc) => {
                proof {
                    assert(self.locations().contains_key(key(entity)));
                }
                copy_infos(&self.archetypes[loc.0].component_infos)
            },
            None => Vec::new(),
        };
        proof {
            if let Some(loc) = location {
                assert(old(self).locations().contains_key(key(entity)));
                assert(archetype_ok(old(self).archs()[loc.0 as int], loc.0 as int));
            }
        }
        if has_type(&new_infos, info.type_id) {
            match location {
                Some(loc) => {
                    let ghost t0 = self.archs()[loc.0 as int].spec_table();
                    self.archetypes[loc.0].table.set_component(info.type_id, loc.1, component);
                    proof {
                        assert(t0.ids().contains(info.type_id));
                        self.lemma_after_value_replaced(*old(self), entity, loc.0, loc.1, info.type_id, component@);
                    }
                },
                None => {
                    assert(new_infos@.len() == 0);
                },
            }
            return;
        }
        let ghost carried_infos = new_infos@;
        new_infos.push(info);
        proof {
            assert(ids_of(new_infos@) =~= ids_of(carried_infos).push(info.type_id));
            assert(ids_of(carried_infos).no_duplicates());
            assert(ids_of(new_infos@).no_duplicates()) by {
                assert forall|x: int, y: int| 0 <= x < y < ids_of(new_infos@).len() implies ids_of(new_infos@)[x] != ids_of(new_infos@)[y] by {
                    if y == carried_infos.len() {
                        assert(ids_of(carried_infos).contains(ids_of(carried_infos)[x]));
                    }
                }
            }
        }
        let target = self.find_or_create_archetype(new_infos);
        let mut values: Vec<(ComponentId, Vec<u8>)> = Vec::new();
        let ghost w1 = *self;
        match location {
            Some(loc) => {
                proof {
                    assert(self.archs()[loc.0 as int] == old(self).archs()[loc.0 as int]);
                    assert(archetype_ok(self.archs()[loc.0 as int], loc.0 as int));
                    assert(self.locations().contains_key(key(entity)));
                    assert(target != loc.0) by {
                        let tt = self.archs()[target as int].spec_table();
                        assert(ids_of(new_infos@).contains(info.type_id)) by {
                            assert(ids_of(new_infos@)[carried_infos.len() as int] == info.type_id);
                        }
                        assert(tt.ids().contains(info.type_id));
                    }
                }
                values = self.row_values(loc.0, loc.1);
                self.unlink_row(entity, loc.0, loc.1);
            },
            None => {},
        }
        let ghost carried = values@;
        values.push((info.type_id, component));
        proof {
            let tt = self.archs()[target as int].spec_table();
            assert(tt == w1.archs()[target as int].spec_table());
            assert(value_map(values@) =~= value_map(carried).insert(info.type_id, component@)) by {
                assert(values@.drop_last() == carried);
            }
            assert(carried.len() == carried_infos.len());
            assert forall|j: int| 0 <= j < carried.len() implies #[trigger] carried[j].0 == carried_infos[j].type_id by {
            }
            assert(distinct_types(values@)) by {
                assert forall|x: int, y: int| 0 <= x < y < values@.len() implies values@[x].0 != values@[y].0 by {
                    if y == carried.len() {
                        assert(ids_of(carried_infos)[x] == carried[x].0);
                    } else {
                        assert(values@[x] == carried[x]);
                        assert(values@[y] == carried[y]);
                    }
                }
            }
            assert forall|c: ComponentId| #[trigger] tt.ids().contains(c) <==> exists|j: int| 0 <= j < values@.len() && values@[j].0 == c by {
                if tt.ids().contains(c) {
                    assert(ids_of(new_infos@).contains(c));
                    let j = choose|j: int| 0 <= j < ids_of(new_infos@).len() && ids_of(new_infos@)[j] == c;
                    if j < carried.len() {
                        assert(values@[j].0 == c);
                    } else {
                        assert(values@[j].0 == c);
                    }
                }
                if exists|j: int| 0 <= j < values@.len() && values@[j].0 == c {
                    let j = choose|j: int| 0 <= j < values@.len() && values@[j].0 == c;
                    assert(ids_of(new_infos@)[j] == c);
                }
            }
            if location is Some {
                assert(value_map(carried) == old(self).components_or_empty(entity));
            } else {
                assert(carried.len() == 0);
                assert(value_map(carried) =~= old(self).components_or_empty(entity));
            }
        }
        self.append_row(entity, target, values);
    }

    /// Removes a component from an entity.
    ///
    /// Returns `true` if the component was present and removed, `false`
    /// otherwise. An entity left with no component is despawned.
    pub fn remove_component(&mut self, entity: Entity, type_id: ComponentId) -> (r: bool)
        requires
            old(self).wf(),
            old(self).holds(entity) && old(self).components()[entity].dom() == set![type_id]
                ==> !deallocate_overflows(old(self).allocator(), entity),
        ensures
            final(self).wf(),
            r == (old(self).holds(entity) && old(self).components()[entity].contains_key(type_id)),
            !r ==> final(self).components() == old(self).components() && final(self).allocator() == old(self).allocator(),
            r ==> final(self).components() == without_component(old(self).components(), entity, type_id),
            final(self).allocator() == if r && !final(self).holds(entity) {
                deallocate_state(old(self).allocator(), entity)
            } else {
                old(self).allocator()
            },
    {
        let k = (entity.id(), entity.generation());
        let loc = match location_map_get(&self.entity_locations, k) {
            Some(l) => l,
            None => {
                return false;
            },
        };
        let (a, row) = loc;
        proof {
            assert(self.locations().contains_key(key(entity)));
            assert(archetype_ok(self.archs()[a as int], a as int));
        }
        let ghost t0 = self.archs()[a as int].spec_table();
        let ghost comps = self.components()[entity];
        assert(comps == row_of(t0, row as int));
        if !self.archetypes[a].table.has_component(type_id) {
            return false;
        }
        let mut values = self.row_values(a, row);
        let ghost all = values@;
        let ghost infos = self.archs()[a as int].spec_infos();
        proof {
            lemma_value_map(all);
            assert(value_map(all).contains_key(type_id));
        }
        let p = type_position(&values, type_id);
        values.remove(p);
        let mut new_infos = copy_infos(&self.archetypes[a].component_infos);
        new_infos.remove(p);
        proof {
            lemma_value_map_remove(all, p as int);
            assert(values@ == all.remove(p as int));
            assert(value_map(values@) == comps.remove(type_id));
            assert forall|j: int| 0 <= j < values@.len() implies #[trigger] values@[j].0 == new_infos@[j].type_id by {
                if j < p {
                    assert(values@[j] == all[j]);
                    assert(new_infos@[j] == infos[j]);
                } else {
                    assert(values@[j] == all[j + 1]);
                    assert(new_infos@[j] == infos[j + 1]);
                }
            }
            assert(ids_of(new_infos@).no_duplicates()) by {
                assert forall|x: int, y: int| 0 <= x < y < ids_of(new_infos@).len() implies ids_of(new_infos@)[x] != ids_of(new_infos@)[y] by {
                    assert(ids_of(new_infos@)[x] == values@[x].0);
                    assert(ids_of(new_infos@)[y] == values@[y].0);
                }
            }
        }
        if new_infos.len() == 0 {
            proof {
                lemma_value_map(values@);
                assert(comps.dom() =~= Set::<ComponentId>::empty().insert(type_id)) by {
                    assert forall|c: ComponentId| comps.dom().contains(c) implies c == type_id by {
                        if c != type_id {
                            assert(value_map(values@).contains_key(c));
                        }
                    }
                }
            }
            self.despawn(entity);
            assert(!self.components().contains_key(entity));
            return true;
        }
        proof {
            assert(values@.len() > 0);
            lemma_value_map(values@);
            assert(value_map(values@).contains_key(values@[0].0));
            assert(comps.dom() != Set::<ComponentId>::empty().insert(type_id)) by {
                assert(values@[0].0 != type_id);
                assert(comps.dom().contains(values@[0].0));
            }
        }
        let ghost ni = new_infos@;
        let target = self.find_or_create_archetype(new_infos);
        proof {
            assert(self.archs()[a as int] == old(self).archs()[a as int]);
            assert(self.locations().contains_key(key(entity)));
            let tt = self.archs()[target as int].spec_table();
            assert(target != a) by {
                assert(t0.ids().contains(type_id));
                if tt.ids().contains(type_id) {
                    let j = choose|j: int| 0 <= j < ids_of(ni).len() && ids_of(ni)[j] == type_id;
                    assert(values@[j].0 == type_id);
                    assert(value_map(values@).contains_key(type_id));
                }
            }
            assert forall|c: ComponentId| #[trigger] tt.ids().contains(c) <==> exists|j: int| 0 <= j < values@.len() && values@[j].0 == c by {
                if tt.ids().contains(c) {
                    let j = choose|j: int| 0 <= j < ids_of(ni).len() && ids_of(ni)[j] == c;
                    assert(values@[j].0 == c);
                }
                if exists|j: int| 0 <= j < values@.len() && values@[j].0 == c {
                    let j = choose|j: int| 0 <= j < values@.len() && values@[j].0 == c;
                    assert(ids_of(ni)[j] == c);
                }
            }
        }
        let ghost w1 = *self;
        self.unlink_row(entity, a, row);
        proof {
            assert(self.archs()[target as int] == w1.archs()[target as int]);
        }
        self.append_row(entity, target, values);
        proof {
            assert(self.components() =~= old(self).components().insert(entity, comps.remove(type_id)));
            assert(self.components().contains_key(entity));
        }
        true
    }

    /// All values of component type `t`, archetype by archetype and row by
    /// row.
    pub open spec fn values_of(&self, t: ComponentId) -> Seq<Seq<u8>> {
        values_of_type(self.archs(), t)
    }

    /// Returns every value of component type `t` in the world, archetype by
    /// archetype and row by row.
    pub fn values_of_type(&self, t: ComponentId) -> (r: Vec<&Vec<u8>>)
        requires
            self.wf(),
        ensures
            r@.map_values(|v: &Vec<u8>| v@) == self.values_of(t),
    {
        let mut r: Vec<&Vec<u8>> = Vec::new();
        let mut a: usize = 0;
        while a < self.archetypes.len()
            invariant
                self.wf(),
                a <= self.archs().len(),
                r@.map_values(|v: &Vec<u8>| v@) == values_of_type(self.archs().subrange(0, a as int), t),
            decreases self.archs().len() - a,
        {
            let ghost before = r@.map_values(|v: &Vec<u8>| v@);
            let table = &self.archetypes[a].table;
            proof {
                assert(archetype_ok(self.archs()[a as int], a as int));
                assert(self.archs().subrange(0, a + 1).drop_last() =~= self.archs().subrange(0, a as int));
            }
            if table.has_component(t) {
                let n = table.row_count();
                let mut row: usize = 0;
                while row < n
                    invariant
                        table.wf(),
                        table.full(),
                        table.ids().contains(t),
                        n == table.rows().len(),
                        row <= n,
                        r@.map_values(|v: &Vec<u8>| v@) == before + table.column(t).subrange(0, row as int),
                    decreases n - row,
                {
                    let got = table.get_component(t, row);
                    let v = got.unwrap();
                    assert(v@ == table.column(t)[row as int]);
                    let ghost mid = r@.map_values(|v: &Vec<u8>| v@);
                    r.push(v);
                    proof {
                        assert(r@.map_values(|v: &Vec<u8>| v@) =~= mid.push(v@));
                        assert(r@.map_values(|v: &Vec<u8>| v@) =~= before + table.column(t).subrange(0, row + 1));
                    }
                    row = row + 1;
                }
                proof {
                    assert(table.column(t).subrange(0, n as int) =~= table.column(t));
                }
            } else {
                assert(r@.map_values(|v: &Vec<u8>| v@) =~= before + Seq::<Seq<u8>>::empty());
            }
            a = a + 1;
        }
        proof {
            assert(self.archs().subrange(0, a as int) =~= self.archs());
        }
        r
    }

    /// Whether the `j`-th value of type `t` is the value of an entity the
    /// world holds.
    pub open spec fn read_from_holder(&self, t: ComponentId, j: int) -> bool {
        exists|e: Entity| #[trigger] self.components().contains_key(e) && self.components()[e].contains_key(t)
            && self.components()[e][t] == self.values_of(t)[j]
    }

    /// Whether the value of type `t` of entity `e` is among the values of
    /// type `t`.
    pub open spec fn holder_is_read(&self, t: ComponentId, e: Entity) -> bool {
        exists|j: int| #![trigger self.values_of(t)[j]] 0 <= j < self.values_of(t).len() && self.values_of(t)[j] == self.components()[e][t]
    }

    /// A query for type `t` returns exactly the values of type `t` of the
    /// entities the world holds: every value read belongs to such an entity,
    /// and the value of every entity that has the type is read. In
    /// particular, the query is empty exactly when no entity has the type.
    pub proof fn law_query_reads_holders(&self, t: ComponentId)
        requires
            self.wf(),
        ensures
            forall|j: int| 0 <= j < self.values_of(t).len() ==> #[trigger] self.read_from_holder(t, j),
            forall|e: Entity| #[trigger] self.components().contains_key(e) && self.components()[e].contains_key(t)
                ==> self.holder_is_read(t, e),
    {
        let archs = self.archs();
        lemma_values_of_type(archs, t);
        assert forall|j: int| 0 <= j < self.values_of(t).len() implies #[trigger] self.read_from_holder(t, j) by {
            assert(values_of_type(archs, t)[j] == self.values_of(t)[j]);
            assert(value_from_cell(archs, t, j));
            let (a, r) = choose|a: int, r: int| #![trigger cell(archs, t, a, r)] has_cell(archs, t, a, r) && values_of_type(archs, t)[j] == cell(archs, t, a, r);
            assert(archetype_ok(archs[a], a));
            let e = archs[a].spec_table().rows()[r];
            assert(self.locations().contains_key(key(archs[a].spec_table().rows()[r])));
            assert(self.components().contains_key(e));
            assert(self.components()[e][t] == archs[a].spec_table().column(t)[r]);
            assert(self.components().contains_key(e) && self.components()[e].contains_key(t)
                && self.components()[e][t] == self.values_of(t)[j]);
        }
        assert forall|e: Entity| #[trigger] self.components().contains_key(e) && self.components()[e].contains_key(t)
            implies self.holder_is_read(t, e) by {
            let (a, r) = self.locations()[key(e)];
            assert(self.locations().contains_key(key(e)));
            assert(archetype_ok(archs[a as int], a as int));
            let tbl = archs[a as int].spec_table();
            assert(tbl.ids().contains(t));
            assert(self.components()[e][t] == cell(archs, t, a as int, r as int));
            assert(has_cell(archs, t, a as int, r as int));
            assert(cell_in_values(archs, t, a as int, r as int));
            let j = choose|j: int| #![trigger values_of_type(archs, t)[j]] 0 <= j < values_of_type(archs, t).len() && values_of_type(archs, t)[j] == cell(archs, t, a as int, r as int);
            assert(self.values_of(t)[j] == values_of_type(archs, t)[j]);
            assert(0 <= j < self.values_of(t).len() && self.values_of(t)[j] == self.components()[e][t]);
        }
    }

    /// Whether despawning `entity` would overflow its generation counter:
    /// it is the current handle of its index and its generation is the
    /// largest there is.
    pub fn despawn_overflows(&self, entity: Entity) -> (r: bool)
        ensures
            r == deallocate_overflows(self.allocator(), entity),
    {
        self.entities.deallocation_overflows(entity)
    }

    /// Whether removing the component of type `type_id` from `entity` would
    /// overflow its generation counter: it is the entity's only component,
    /// so the entity is despawned, and its generation is the largest there
    /// is.
    pub fn removal_overflows(&self, entity: Entity, type_id: ComponentId) -> (r: bool)
        requires
            self.wf(),
        ensures
            r == (self.holds(entity) && self.components()[entity].dom() == set![type_id] && deallocate_overflows(
                self.allocator(),
                entity,
            )),
    {
        let k = (entity.id(), entity.generation());
        match location_map_get(&self.entity_locations, k) {
            Some(loc) => {
                let a = loc.0;
                proof {
                    assert(self.locations().contains_key(key(entity)));
                    assert(archetype_ok(self.archs()[a as int], a as int));
                }
                let ghost arch = self.archs()[a as int];
                let ghost ids = ids_of(arch.spec_infos());
                let ghost dom = self.components()[entity].dom();
                assert(dom =~= arch.spec_table().ids());
                let only = self.archetypes[a].component_infos.len() == 1
                    && self.archetypes[a].table.has_component(type_id);
                proof {
                    if only {
                        assert(ids[0] == type_id);
                        assert(dom =~= set![type_id]);
                    }
                    if dom == set![type_id] {
                        assert(dom.contains(type_id));
                        assert(arch.spec_table().ids().contains(type_id));
                        assert(ids.contains(type_id));
                        if ids.len() > 1 {
                            assert(dom.contains(ids[0]) && dom.contains(ids[1]));
                            assert(ids[0] != ids[1]);
                        }
                        assert(ids.len() == 1);
                    }
                }
                only && self.entities.deallocation_overflows(entity)
            },
            None => false,
        }
    }

    /// Whether the next spawn's index is known to be below `usize::MAX`.
    pub fn can_spawn(&self) -> (r: bool)
        requires
            self.wf(),
        ensures
            r == (self.allocator().next_id < usize::MAX),
            r ==> next_index(self.allocator()) < usize::MAX,
    {
        self.entities.next_index_fits()
    }

    /// The position of the archetype that stores the components of `e`.
    pub open spec fn archetype_of(&self, e: Entity) -> int {
        self.locations()[key(e)].0 as int
    }

    /// Entities are grouped by their set of component types: two entities
    /// the world holds are stored in the same archetype exactly when they
    /// have the same component types.
    pub proof fn law_archetype_by_types(&self, e1: Entity, e2: Entity)
        requires
            self.wf(),
            self.holds(e1),
            self.holds(e2),
        ensures
            (self.archetype_of(e1) == self.archetype_of(e2)) <==> (self.components()[e1].dom()
                == self.components()[e2].dom()),
    {
        let archs = self.archs();
        let a1 = self.archetype_of(e1);
        let a2 = self.archetype_of(e2);
        assert(self.locations().contains_key(key(e1)));
        assert(self.locations().contains_key(key(e2)));
        let arch1 = archs[a1];
        let arch2 = archs[a2];
        assert(archetype_ok(arch1, a1));
        assert(archetype_ok(arch2, a2));
        assert(self.components()[e1].dom() =~= arch1.spec_table().ids());
        assert(self.components()[e2].dom() =~= arch2.spec_table().ids());
        if self.components()[e1].dom() == self.components()[e2].dom() {
            let s1 = ids_of(arch1.spec_infos());
            let s2 = ids_of(arch2.spec_infos());
            s1.lemma_multiset_has_no_duplicates();
            s2.lemma_multiset_has_no_duplicates();
            assert forall|c: ComponentId| #[trigger] s1.to_multiset().count(c) == s2.to_multiset().count(c) by {
                assert(arch1.spec_table().ids().contains(c) == arch2.spec_table().ids().contains(c));
                if s1.to_multiset().contains(c) {
                    assert(s2.contains(c));
                } else if s2.to_multiset().contains(c) {
                    assert(s1.contains(c));
                }
            }
            assert(s1.to_multiset() =~= s2.to_multiset());
            lemma_sorted_canonical(arch1.spec_types(), arch2.spec_types());
            assert(self.type_index().contains_key(archs[a1].spec_types()));
            assert(self.type_index().contains_key(archs[a2].spec_types()));
            assert(a1 == a2);
        }
        if a1 == a2 {
            assert(arch1 == arch2);
            assert(self.components()[e1].dom() == self.components()[e2].dom());
        }
    }

    /// The entities holding the values of type `t`, in the order a query
    /// reads the values.
    pub open spec fn holders_of(&self, t: ComponentId) -> Seq<Entity> {
        holders_of_type(self.archs(), t)
    }

    /// The entities the world holds that have a component of type `t`.
    pub open spec fn holder_set(&self, t: ComponentId) -> Set<Entity> {
        Set::new(|e: Entity| self.components().contains_key(e) && self.components()[e].contains_key(t))
    }

    /// A query for type `t` yields the value of each entity that has a
    /// component of type `t` exactly once, and nothing else: the values line
    /// up with their holders, no holder comes twice, the holders are exactly
    /// the entities with `t`, and so the number of values is the number of
    /// such entities.
    pub proof fn law_query_yields_each_holder_once(&self, t: ComponentId)
        requires
            self.wf(),
        ensures
            self.holders_of(t).len() == self.values_of(t).len(),
            self.holders_of(t).no_duplicates(),
            forall|j: int| 0 <= j < self.values_of(t).len() ==> {
                &&& self.components().contains_key(#[trigger] self.holders_of(t)[j])
                &&& self.components()[self.holders_of(t)[j]].contains_key(t)
                &&& self.components()[self.holders_of(t)[j]][t] == self.values_of(t)[j]
            },
            forall|e: Entity| #[trigger] self.holder_set(t).contains(e) <==> self.holders_of(t).contains(e),
            self.holder_set(t).finite(),
            self.values_of(t).len() == self.holder_set(t).len(),
    {
        let archs = self.archs();
        let locs = self.locations();
        assert(rows_filed(archs, t, locs)) by {
            assert forall|a: int| 0 <= a < archs.len() && #[trigger] archs[a].spec_table().ids().contains(t) implies archs[a].spec_table().column(t).len() == archs[a].spec_table().rows().len() by {
                assert(archetype_ok(archs[a], a));
            }
        }
        lemma_holders_of_type(archs, t, locs);
        let hs = self.holders_of(t);
        assert forall|j: int| 0 <= j < self.values_of(t).len() implies {
            &&& self.components().contains_key(#[trigger] self.holders_of(t)[j])
            &&& self.components()[self.holders_of(t)[j]].contains_key(t)
            &&& self.components()[self.holders_of(t)[j]][t] == self.values_of(t)[j]
        } by {
            assert(holder_known(archs, t, j));
            let (a, r) = choose|a: int, r: int| #[trigger] holder_at(archs, t, j, a, r);
            let e = archs[a].spec_table().rows()[r];
            assert(locs.contains_key(key(e)));
            assert(self.holds(e));
            assert(self.components()[e] == row_of(archs[a].spec_table(), r));
        }
        assert forall|e: Entity| #[trigger] self.holder_set(t).contains(e) <==> hs.contains(e) by {
            if self.holder_set(t).contains(e) {
                assert(self.holds(e));
                let (a, r) = locs[key(e)];
                assert(locs.contains_key(key(e)));
                let x = archs[a as int].spec_table().rows()[r as int];
                assert(key(x) == key(e));
                assert(x.index() == e.index() && x.gen() == e.gen());
                assert(x == e);
                assert(archetype_ok(archs[a as int], a as int));
                assert(self.components()[e].contains_key(t));
                assert(archs[a as int].spec_table().ids().contains(t));
                assert(hs.contains(archs[a as int].spec_table().rows()[r as int]));
            }
            if hs.contains(e) {
                let j = choose|j: int| 0 <= j < hs.len() && hs[j] == e;
                assert(self.components().contains_key(self.holders_of(t)[j]));
            }
        }
        assert(self.holder_set(t) =~= hs.to_set());
        hs.unique_seq_to_set();
    }

    /// Adding a component: a query for the written type returns one value
    /// more when the entity had no component of that type before and as
    /// many as before otherwise; a query for any other type returns as many
    /// values as before.
    pub proof fn law_add_component_query_count(pre: World, post: World, e: Entity, t: ComponentId, v: Seq<u8>, u: ComponentId)
        requires
            pre.wf(),
            post.wf(),
            post.components() == with_component(pre.components(), e, t, v),
        ensures
            post.values_of(u).len() == pre.values_of(u).len() + if u == t && !pre.holder_set(t).contains(e) {
                1int
            } else {
                0int
            },
    {
        pre.law_query_yields_each_holder_once(u);
        post.law_query_yields_each_holder_once(u);
        law_write_holders(pre.components(), e, t, v, u);
        assert(pre.holder_set(u) =~= holders_in(pre.components(), u));
        assert(post.holder_set(u) =~= holders_in(post.components(), u));
    }

    /// Every entity the world holds has at least one component.
    pub proof fn law_held_entities_have_components(&self, e: Entity)
        requires
            self.wf(),
            self.holds(e),
        ensures
            self.components()[e].dom() != Set::<ComponentId>::empty(),
    {
        let (a, r) = self.locations()[key(e)];
        let arch = self.archs()[a as int];
        assert(archetype_ok(arch, a as int));
        let c = arch.spec_infos()[0].type_id;
        assert(ids_of(arch.spec_infos())[0] == c);
        assert(self.components()[e].dom().contains(c));
    }
}


/// Reading back a write: the written value is there, and nothing else
/// changed.
pub proof fn law_read_after_write(m: ComponentTable, e: Entity, t: ComponentId, v: Seq<u8>, other: Entity, u: ComponentId)
    ensures
        with_component(m, e, t, v).contains_key(e),
        with_component(m, e, t, v)[e].contains_key(t),
        with_component(m, e, t, v)[e][t] == v,
        other != e ==> with_component(m, e, t, v).contains_key(other) == m.contains_key(other),
        other != e && m.contains_key(other) ==> with_component(m, e, t, v)[other] == m[other],
        u != t && m.contains_key(e) ==> with_component(m, e, t, v)[e].contains_key(u) == m[e].contains_key(u),
        u != t && m.contains_key(e) && m[e].contains_key(u) ==> with_component(m, e, t, v)[e][u] == m[e][u],
{
}

/// A second write of the same component replaces the first.
pub proof fn law_last_write_wins(m: ComponentTable, e: Entity, t: ComponentId, v1: Seq<u8>, v2: Seq<u8>)
    ensures
        with_component(with_component(m, e, t, v1), e, t, v2) == with_component(m, e, t, v2),
{
    assert(with_component(with_component(m, e, t, v1), e, t, v2)[e] =~= with_component(m, e, t, v2)[e]);
    assert(with_component(with_component(m, e, t, v1), e, t, v2) =~= with_component(m, e, t, v2));
}

/// Writes of different component types do not interfere.
pub proof fn law_writes_commute(m: ComponentTable, e: Entity, t1: ComponentId, v1: Seq<u8>, t2: ComponentId, v2: Seq<u8>)
    requires
        t1 != t2,
    ensures
        with_component(with_component(m, e, t1, v1), e, t2, v2) == with_component(with_component(m, e, t2, v2), e, t1, v1),
{
    let a = with_component(with_component(m, e, t1, v1), e, t2, v2);
    let b = with_component(with_component(m, e, t2, v2), e, t1, v1);
    assert(a[e] =~= b[e]);
    assert(a =~= b);
}

/// The entities of `m` that have a component of type `t`.
pub open spec fn holders_in(m: ComponentTable, t: ComponentId) -> Set<Entity> {
    Set::new(|e: Entity| m.contains_key(e) && m[e].contains_key(t))
}

/// Writing a component of type `t` to `e` makes `e` a holder of `t` and
/// changes the holders of no other type.
pub proof fn law_write_holders(m: ComponentTable, e: Entity, t: ComponentId, v: Seq<u8>, u: ComponentId)
    ensures
        holders_in(with_component(m, e, t, v), u) == if u == t {
            holders_in(m, u).insert(e)
        } else {
            holders_in(m, u)
        },
{
    let w = with_component(m, e, t, v);
    if u == t {
        assert(holders_in(w, u) =~= holders_in(m, u).insert(e));
    } else {
        assert forall|x: Entity| #[trigger] holders_in(w, u).contains(x) <==> holders_in(m, u).contains(x) by {
            if x == e {
                assert(w[e] == entry_or_empty(m, e).insert(t, v));
            }
        }
        assert(holders_in(w, u) =~= holders_in(m, u));
    }
}

/// Removing a component of `e`: that component is gone, every other
/// component of `e` and every other entity's components stay as they were,
/// and `e` is dropped exactly when it had no other component.
pub proof fn law_remove_component_effect(m: ComponentTable, e: Entity, t: ComponentId, other: Entity, u: ComponentId)
    requires
        m.contains_key(e),
        m[e].contains_key(t),
    ensures
        !(without_component(m, e, t).contains_key(e) && without_component(m, e, t)[e].contains_key(t)),
        other != e ==> without_component(m, e, t).contains_key(other) == m.contains_key(other),
        other != e && m.contains_key(other) ==> without_component(m, e, t)[other] == m[other],
        u != t && m[e].contains_key(u) ==> without_component(m, e, t).contains_key(e)
            && without_component(m, e, t)[e].contains_key(u) && without_component(m, e, t)[e][u] == m[e][u],
        without_component(m, e, t).contains_key(e) <==> m[e].dom() != set![t],
{
    if m[e].dom() == set![t] {
        if u != t && m[e].contains_key(u) {
            assert(m[e].dom().contains(u));
        }
    } else {
        if m[e].dom() =~= set![t] {
        }
    }
}

/// Removing a component type that was just added restores the table, for
/// a table in which every entity has some component.
pub proof fn law_remove_undoes_add(m: ComponentTable, e: Entity, t: ComponentId, v: Seq<u8>)
    requires
        !entry_or_empty(m, e).contains_key(t),
        m.contains_key(e) ==> m[e].dom() != Set::<ComponentId>::empty(),
    ensures
        without_component(with_component(m, e, t, v), e, t) == m,
{
    let w = with_component(m, e, t, v);
    if m.contains_key(e) {
        if !(exists|c: ComponentId| m[e].dom().contains(c)) {
            assert(m[e].dom() =~= Set::<ComponentId>::empty());
        }
        let c = choose|c: ComponentId| m[e].dom().contains(c);
        assert(w[e].dom().contains(c));
        assert(c != t);
        assert(w[e].dom() != Set::<ComponentId>::empty().insert(t));
        assert(w[e].remove(t) =~= m[e]);
        assert(without_component(w, e, t) =~= m);
    } else {
        assert(w[e].dom() =~= Set::<ComponentId>::empty().insert(t));
        assert(without_component(w, e, t) =~= m);
    }
}


/// Whether row `r` of archetype `a` has a value of type `t`.
pub open spec fn has_cell(archs: Seq<Archetype>, t: ComponentId, a: int, r: int) -> bool {
    0 <= a < archs.len() && archs[a].spec_table().ids().contains(t) && 0 <= r < archs[a].spec_table().column(t).len()
}

/// The value of type `t` in row `r` of archetype `a`.
pub open spec fn cell(archs: Seq<Archetype>, t: ComponentId, a: int, r: int) -> Seq<u8> {
    archs[a].spec_table().column(t)[r]
}

/// Whether the `j`-th value of type `t` is the value of some row.
pub open spec fn value_from_cell(archs: Seq<Archetype>, t: ComponentId, j: int) -> bool {
    exists|a: int, r: int| #![trigger cell(archs, t, a, r)] has_cell(archs, t, a, r) && values_of_type(archs, t)[j] == cell(archs, t, a, r)
}

/// Whether the value of row `r` of archetype `a` is among the values of type `t`.
pub open spec fn cell_in_values(archs: Seq<Archetype>, t: ComponentId, a: int, r: int) -> bool {
    exists|j: int| #![trigger values_of_type(archs, t)[j]] 0 <= j < values_of_type(archs, t).len() && values_of_type(archs, t)[j] == cell(archs, t, a, r)
}

/// Each value of type `t` that the archetypes hold comes from some row of an
/// archetype with a column for `t`, and each such row's value is among them.
proof fn lemma_values_of_type(archs: Seq<Archetype>, t: ComponentId)
    ensures
        forall|j: int| 0 <= j < values_of_type(archs, t).len() ==> #[trigger] value_from_cell(archs, t, j),
        forall|a: int, r: int| has_cell(archs, t, a, r) ==> #[trigger] cell_in_values(archs, t, a, r),
    decreases archs.len(),
{
    if archs.len() > 0 {
        let pre = archs.drop_last();
        lemma_values_of_type(pre, t);
        let last = archs.last().spec_table();
        let tail = if last.ids().contains(t) { last.column(t) } else { Seq::<Seq<u8>>::empty() };
        let vs = values_of_type(archs, t);
        let pv = values_of_type(pre, t);
        assert(vs == pv + tail);
        assert forall|j: int| 0 <= j < vs.len() implies #[trigger] value_from_cell(archs, t, j) by {
            if j < pv.len() {
                assert(value_from_cell(pre, t, j));
                let (a, r) = choose|a: int, r: int| #![trigger cell(pre, t, a, r)] has_cell(pre, t, a, r) && pv[j] == cell(pre, t, a, r);
                assert(archs[a] == pre[a]);
                assert(cell(archs, t, a, r) == cell(pre, t, a, r));
                assert(vs[j] == pv[j]);
                assert(has_cell(archs, t, a, r) && vs[j] == cell(archs, t, a, r));
            } else {
                let a = archs.len() - 1;
                let r = j - pv.len();
                assert(vs[j] == tail[r]);
                assert(archs[a].spec_table() == last);
                assert(cell(archs, t, a, r) == tail[r]);
                assert(has_cell(archs, t, a, r) && vs[j] == cell(archs, t, a, r));
            }
        }
        assert forall|a: int, r: int| has_cell(archs, t, a, r) implies #[trigger] cell_in_values(archs, t, a, r) by {
            if a < archs.len() - 1 {
                assert(archs[a] == pre[a]);
                assert(cell(pre, t, a, r) == cell(archs, t, a, r));
                assert(has_cell(pre, t, a, r));
                assert(cell_in_values(pre, t, a, r));
                let j = choose|j: int| #![trigger values_of_type(pre, t)[j]] 0 <= j < pv.len() && values_of_type(pre, t)[j] == cell(pre, t, a, r);
                assert(vs[j] == pv[j]);
                assert(0 <= j < vs.len() && vs[j] == cell(archs, t, a, r));
            } else {
                let j = pv.len() + r;
                assert(vs[j] == tail[r]);
                assert(0 <= j < vs.len() && vs[j] == cell(archs, t, a, r));
            }
        }
    }
}

/// The entities of the rows that hold a value of type `t`, archetype by
/// archetype and row by row: entry `j` holds the `j`-th value of
/// [`values_of_type`].
pub open spec fn holders_of_type(archs: Seq<Archetype>, t: ComponentId) -> Seq<Entity>
    decreases archs.len(),
{
    if archs.len() == 0 {
        Seq::empty()
    } else {
        let tbl = archs.last().spec_table();
        holders_of_type(archs.drop_last(), t) + if tbl.ids().contains(t) {
            tbl.rows()
        } else {
            Seq::empty()
        }
    }
}

/// Whether entry `j` of the holders and values of type `t` is row `r` of
/// archetype `a`.
pub open spec fn holder_at(archs: Seq<Archetype>, t: ComponentId, j: int, a: int, r: int) -> bool {
    &&& 0 <= a < archs.len()
    &&& archs[a].spec_table().ids().contains(t)
    &&& 0 <= r < archs[a].spec_table().rows().len()
    &&& holders_of_type(archs, t)[j] == archs[a].spec_table().rows()[r]
    &&& values_of_type(archs, t)[j] == archs[a].spec_table().column(t)[r]
}

/// Whether entry `j` of the holders and values of type `t` is some row.
pub open spec fn holder_known(archs: Seq<Archetype>, t: ComponentId, j: int) -> bool {
    exists|a: int, r: int| #[trigger] holder_at(archs, t, j, a, r)
}

/// Whether every table with a column for `t` has one value per row, and
/// every row is filed in `locs` under its own archetype and row.
pub open spec fn rows_filed(archs: Seq<Archetype>, t: ComponentId, locs: Map<(u32, u32), (usize, usize)>) -> bool {
    &&& forall|a: int|
        0 <= a < archs.len() && #[trigger] archs[a].spec_table().ids().contains(t) ==> archs[a].spec_table().column(
            t,
        ).len() == archs[a].spec_table().rows().len()
    &&& forall|a: int, r: int|
        0 <= a < archs.len() && 0 <= r < archs[a].spec_table().rows().len() ==> {
            &&& #[trigger] locs.contains_key(key(archs[a].spec_table().rows()[r]))
            &&& locs[key(archs[a].spec_table().rows()[r])].0 == a
            &&& locs[key(archs[a].spec_table().rows()[r])].1 == r
        }
}

/// The holders of type `t` line up with its values, each row once.
proof fn lemma_holders_of_type(archs: Seq<Archetype>, t: ComponentId, locs: Map<(u32, u32), (usize, usize)>)
    requires
        rows_filed(archs, t, locs),
    ensures
        holders_of_type(archs, t).len() == values_of_type(archs, t).len(),
        forall|j: int| 0 <= j < holders_of_type(archs, t).len() ==> #[trigger] holder_known(archs, t, j),
        holders_of_type(archs, t).no_duplicates(),
        forall|a: int, r: int|
            0 <= a < archs.len() && archs[a].spec_table().ids().contains(t) && 0 <= r < archs[a].spec_table().rows().len()
                ==> holders_of_type(archs, t).contains(#[trigger] archs[a].spec_table().rows()[r]),
    decreases archs.len(),
{
    if archs.len() > 0 {
        let n = archs.len() - 1;
        let pre = archs.drop_last();
        assert forall|a: int| 0 <= a < pre.len() implies #[trigger] pre[a] == archs[a] by {}
        assert(rows_filed(pre, t, locs)) by {
            assert forall|a: int, r: int| 0 <= a < pre.len() && 0 <= r < pre[a].spec_table().rows().len() implies {
                &&& #[trigger] locs.contains_key(key(pre[a].spec_table().rows()[r]))
                &&& locs[key(pre[a].spec_table().rows()[r])].0 == a
                &&& locs[key(pre[a].spec_table().rows()[r])].1 == r
            } by {
                assert(pre[a] == archs[a]);
            }
            assert forall|a: int| 0 <= a < pre.len() && #[trigger] pre[a].spec_table().ids().contains(t) implies pre[a].spec_table().column(t).len() == pre[a].spec_table().rows().len() by {
                assert(pre[a] == archs[a]);
            }
        }
        lemma_holders_of_type(pre, t, locs);
        let last = archs[n].spec_table();
        assert(archs.last() == archs[n]);
        let has = last.ids().contains(t);
        let htail = if has { last.rows() } else { Seq::<Entity>::empty() };
        let vtail = if has { last.column(t) } else { Seq::<Seq<u8>>::empty() };
        let hp = holders_of_type(pre, t);
        let vp = values_of_type(pre, t);
        let hs = holders_of_type(archs, t);
        let vs = values_of_type(archs, t);
        assert(hs == hp + htail);
        assert(vs == vp + vtail);
        if has {
            assert(last.column(t).len() == last.rows().len());
        }
        assert forall|j: int| 0 <= j < hs.len() implies #[trigger] holder_known(archs, t, j) by {
            if j < hp.len() {
                assert(holder_known(pre, t, j));
                let (a, r) = choose|a: int, r: int| #[trigger] holder_at(pre, t, j, a, r);
                assert(pre[a] == archs[a]);
                assert(hs[j] == hp[j]);
                assert(vs[j] == vp[j]);
                assert(holder_at(archs, t, j, a, r));
            } else {
                let r = j - hp.len();
                assert(hs[j] == htail[r]);
                assert(vs[j] == vtail[r]);
                assert(holder_at(archs, t, j, n, r));
            }
        }
        assert(htail.no_duplicates()) by {
            assert forall|i: int, k: int| 0 <= i < htail.len() && 0 <= k < htail.len() && i != k implies htail[i] != htail[k] by {
                assert(has);
                assert(htail[i] == archs[n].spec_table().rows()[i]);
                assert(locs.contains_key(key(archs[n].spec_table().rows()[i])));
                assert(locs.contains_key(key(archs[n].spec_table().rows()[k])));
            }
        }
        assert forall|i: int, k: int| 0 <= i < hp.len() && 0 <= k < htail.len() implies hp[i] != htail[k] by {
            assert(holder_known(pre, t, i));
            let (a, r) = choose|a: int, r: int| #[trigger] holder_at(pre, t, i, a, r);
            assert(pre[a] == archs[a]);
            assert(has);
            assert(locs.contains_key(key(archs[a].spec_table().rows()[r])));
            assert(locs.contains_key(key(archs[n].spec_table().rows()[k])));
        }
        vstd::seq_lib::lemma_no_dup_in_concat(hp, htail);
        assert forall|a: int, r: int|
            0 <= a < archs.len() && archs[a].spec_table().ids().contains(t) && 0 <= r < archs[a].spec_table().rows().len()
                implies hs.contains(#[trigger] archs[a].spec_table().rows()[r]) by {
            if a < n {
                assert(pre[a] == archs[a]);
                assert(hp.contains(pre[a].spec_table().rows()[r]));
                let i = choose|i: int| 0 <= i < hp.len() && hp[i] == pre[a].spec_table().rows()[r];
                assert(hs[i] == hp[i]);
            } else {
                assert(hs[hp.len() + r] == htail[r]);
            }
        }
    }
}

impl Default for World {
    /// An empty world.
    fn default() -> (r: Self)
        ensures
            r.wf(),
            r.components() == Map::<Entity, Map<ComponentId, Seq<u8>>>::empty(),
            r.allocator().generations == Seq::<u32>::empty(),
            r.allocator().free == Seq::<u32>::empty(),
            r.allocator().next_id == 0,
    {
        World::new()
    }
}

} // verus!
