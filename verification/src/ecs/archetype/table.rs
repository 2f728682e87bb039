use vstd::prelude::*;
use crate::ecs::component::{ComponentId, ComponentInfo};
use crate::ecs::entity::Entity;
use crate::ecs::index_map::{TypeIndex, type_index_entries, type_index_new, type_index_get, type_index_insert};
use super::column::Column;

verus! {

/// A table storing components for a single archetype: one row per entity,
/// one column per component type.
pub struct Table {
    pub(crate) columns: Vec<Column>,
    pub(crate) column_index: TypeIndex,
    entities: Vec<Entity>,
}

impl Table {
    /// The component types that have a column.
    pub closed spec fn ids(&self) -> Set<ComponentId> {
        type_index_entries(self.column_index).dom()
    }

    /// The values stored in the column of type `t`, row by row.
    pub closed spec fn column(&self, t: ComponentId) -> Seq<Seq<u8>> {
        self.columns@[type_index_entries(self.column_index)[t] as int]@
    }

    /// The metadata of the column of type `t`.
    pub closed spec fn column_info(&self, t: ComponentId) -> ComponentInfo {
        self.columns@[type_index_entries(self.column_index)[t] as int].spec_info()
    }

    /// The entities, row by row.
    pub closed spec fn rows(&self) -> Seq<Entity> {
        self.entities@
    }

    /// The table's invariant: the index names each column by its type, and
    /// no column is left out of it.
    pub closed spec fn wf(&self) -> bool {
        let idx = type_index_entries(self.column_index);
        &&& forall|t: ComponentId| #[trigger] idx.contains_key(t) ==> {
            &&& idx[t] < self.columns.len()
            &&& self.columns@[idx[t] as int].spec_info().type_id == t
        }
        &&& forall|i: int| 0 <= i < self.columns.len() ==> {
            &&& #[trigger] idx.contains_key(self.columns@[i].spec_info().type_id)
            &&& idx[self.columns@[i].spec_info().type_id] == i
        }
    }

    /// Every column has one value per row.
    pub open spec fn full(&self) -> bool {
        forall|t: ComponentId| #[trigger] self.ids().contains(t) ==> self.column(t).len() == self.rows().len()
    }

    /// Creates a new table for the given component types, with no rows.
    ///
    /// When a type is listed more than once, its last entry gives the
    /// column's metadata.
    pub fn new(component_infos: &[ComponentInfo]) -> (r: Self)
        ensures
            r.wf(),
            r.rows() == Seq::<Entity>::empty(),
            forall|t: ComponentId| #[trigger] r.ids().contains(t) <==> exists|i: int|
                0 <= i < component_infos@.len() && component_infos@[i].type_id == t,
            forall|t: ComponentId| #[trigger] r.ids().contains(t) ==> r.column(t) == Seq::<Seq<u8>>::empty(),
            forall|i: int|
                0 <= i < component_infos@.len() && (forall|j: int|
                    i < j < component_infos@.len() ==> component_infos@[j].type_id
                        != component_infos@[i].type_id) ==> #[trigger] r.column_info(
                    component_infos@[i].type_id,
                ) == component_infos@[i],
    {
        let mut columns: Vec<Column> = Vec::new();
        let mut column_index = type_index_new();
        let mut k: usize = 0;
        while k < component_infos.len()
            invariant
                k <= component_infos@.len(),
                forall|t: ComponentId| #[trigger] type_index_entries(column_index).contains_key(t) ==> {
                    &&& type_index_entries(column_index)[t] < columns.len()
                    &&& columns@[type_index_entries(column_index)[t] as int].spec_info().type_id == t
                },
                forall|i: int| 0 <= i < columns.len() ==> {
                    &&& #[trigger] type_index_entries(column_index).contains_key(
                        columns@[i].spec_info().type_id,
                    )
                    &&& type_index_entries(column_index)[columns@[i].spec_info().type_id] == i
                },
                forall|i: int| 0 <= i < columns.len() ==> #[trigger] columns@[i]@ == Seq::<Seq<u8>>::empty(),
                forall|t: ComponentId| #[trigger] type_index_entries(column_index).contains_key(t) <==> exists|i: int|
                    0 <= i < k && component_infos@[i].type_id == t,
                forall|i: int|
                    0 <= i < k && (forall|j: int|
                        i < j < k ==> component_infos@[j].type_id != component_infos@[i].type_id)
                        ==> #[trigger] columns@[type_index_entries(column_index)[component_infos@[i].type_id] as int].spec_info()
                        == component_infos@[i],
            decreases component_infos@.len() - k,
        {
            let info = component_infos[k];
            let ghost old_columns = columns@;
            let ghost old_index = type_index_entries(column_index);
            match type_index_get(&column_index, info.type_id) {
                Some(pos) => {
                    columns.set(pos, Column::new(info));
                    proof {
                        assert forall|i: int|
                            0 <= i < k + 1 && (forall|j: int|
                                i < j < k + 1 ==> component_infos@[j].type_id
                                    != component_infos@[i].type_id) implies #[trigger] columns@[type_index_entries(column_index)[component_infos@[i].type_id] as int].spec_info()
                            == component_infos@[i] by {
                            let t_i = component_infos@[i].type_id;
                            if i < k {
                                assert(t_i != info.type_id);
                                assert(old_index.contains_key(t_i));
                                assert(old_columns[old_index[t_i] as int].spec_info().type_id == t_i);
                                assert(old_index[t_i] != pos);
                            }
                        }
                    }
                },
                None => {
                    let pos = columns.len();
                    columns.push(Column::new(info));
                    type_index_insert(&mut column_index, info.type_id, pos);
                    proof {
                        let idx = type_index_entries(column_index);
                        assert forall|t: ComponentId| #[trigger] idx.contains_key(t) implies {
                            &&& idx[t] < columns.len()
                            &&& columns@[idx[t] as int].spec_info().type_id == t
                        } by {
                            if t != info.type_id {
                                assert(old_index.contains_key(t));
                            }
                        }
                        assert forall|i: int| 0 <= i < columns.len() implies {
                            &&& #[trigger] idx.contains_key(columns@[i].spec_info().type_id)
                            &&& idx[columns@[i].spec_info().type_id] == i
                        } by {
                            if i < pos {
                                assert(old_columns[i] == columns@[i]);
                                assert(old_index.contains_key(old_columns[i].spec_info().type_id));
                            }
                        }
                        assert forall|i: int|
                            0 <= i < k + 1 && (forall|j: int|
                                i < j < k + 1 ==> component_infos@[j].type_id
                                    != component_infos@[i].type_id) implies #[trigger] columns@[idx[component_infos@[i].type_id] as int].spec_info()
                            == component_infos@[i] by {
                            if i < k {
                                assert(component_infos@[i].type_id != info.type_id);
                                assert(old_index.contains_key(component_infos@[i].type_id));
                            }
                        }
                    }
                },
            }
            proof {
                let idx = type_index_entries(column_index);
                assert forall|t: ComponentId| #[trigger] idx.contains_key(t) <==> exists|i: int|
                    0 <= i < k + 1 && component_infos@[i].type_id == t by {
                    if idx.contains_key(t) && t != info.type_id {
                        assert(old_index.contains_key(t));
                    }
                    if exists|i: int| 0 <= i < k + 1 && component_infos@[i].type_id == t {
                        let i = choose|i: int| 0 <= i < k + 1 && component_infos@[i].type_id == t;
                        if i < k {
                            assert(old_index.contains_key(t));
                        }
                    }
                }
            }
            k = k + 1;
        }
        Table { columns, column_index, entities: Vec::new() }
    }

    /// Removes the row `row` by moving the last row into its place.
    ///
    /// Returns the entity that was moved into the vacated slot, if any.
    pub fn swap_remove(&mut self, row: usize) -> (moved: Option<Entity>)
        requires
            old(self).wf(),
            old(self).full(),
            row < old(self).rows().len(),
        ensures
            final(self).wf(),
            final(self).full(),
            final(self).ids() == old(self).ids(),
            final(self).rows() == old(self).rows().update(row as int, old(self).rows().last()).drop_last(),
            forall|t: ComponentId| #[trigger] final(self).ids().contains(t) ==> final(self).column(t) == old(
                self,
            ).column(t).update(row as int, old(self).column(t).last()).drop_last(),
            forall|t: ComponentId| #[trigger] final(self).ids().contains(t) ==> final(self).column_info(t)
                == old(self).column_info(t),
            moved == (if row + 1 < old(self).rows().len() {
                Some(old(self).rows().last())
            } else {
                None::<Entity>
            }),
    {
        let last_index = self.entities.len() - 1;
        self.entities.swap_remove(row);
        let ghost idx = type_index_entries(self.column_index);
        let ghost old_columns = self.columns@;
        let ghost ents = self.entities@;
        proof {
            assert forall|j: int| 0 <= j < old_columns.len() implies #[trigger] old_columns[j]@.len()
                == ents.len() + 1 by {
                let t = old_columns[j].spec_info().type_id;
                assert(idx.contains_key(t));
                assert(old(self).ids().contains(t));
            }
        }
        let mut i: usize = 0;
        while i < self.columns.len()
            invariant
                i <= self.columns.len(),
                self.columns.len() == old_columns.len(),
                idx == type_index_entries(self.column_index),
                row < self.entities@.len() + 1,
                self.entities@ == ents,
                last_index == ents.len(),
                old(self).wf(),
                old(self).full(),
                old(self).columns@ == old_columns,
                old(self).column_index == self.column_index,
                forall|j: int| 0 <= j < old_columns.len() ==> #[trigger] old_columns[j]@.len()
                    == self.entities@.len() + 1,
                forall|j: int| 0 <= j < self.columns.len() ==> #[trigger] self.columns@[j].spec_info()
                    == old_columns[j].spec_info(),
                forall|j: int| 0 <= j < i ==> #[trigger] self.columns@[j]@ == old_columns[j]@.update(
                    row as int,
                    old_columns[j]@.last(),
                ).drop_last(),
                forall|j: int| i <= j < self.columns.len() ==> #[trigger] self.columns@[j] == old_columns[j],
            decreases self.columns.len() - i,
        {
            self.columns[i].swap_remove(row, false);
            i = i + 1;
        }
        proof {
            assert forall|t: ComponentId| #[trigger] self.ids().contains(t) implies self.column(t).len()
                == self.rows().len() by {
                assert(old(self).ids().contains(t));
            }
        }
        if row != last_index {
            Some(self.entities[row])
        } else {
            None
        }
    }

    /// Adds an entity to the table (creates a new row).
    ///
    /// Components for the new row are added separately with
    /// [`push_component_raw`](Self::push_component_raw).
    pub fn push_entity(&mut self, entity: Entity)
        ensures
            final(self).ids() == old(self).ids(),
            final(self).rows() == old(self).rows().push(entity),
            forall|t: ComponentId| #[trigger] final(self).column(t) == old(self).column(t),
            forall|t: ComponentId| #[trigger] final(self).column_info(t) == old(self).column_info(t),
            final(self).wf() == old(self).wf(),
    {
        self.entities.push(entity);
    }

    /// Adds a component value to the column of type `type_id`; a type the
    /// table has no column for is ignored.
    pub fn push_component_raw(&mut self, type_id: ComponentId, component: Vec<u8>)
        requires
            old(self).wf(),
        ensures
            final(self).wf(),
            final(self).ids() == old(self).ids(),
            final(self).rows() == old(self).rows(),
            forall|t: ComponentId| #[trigger] final(self).ids().contains(t) ==> final(self).column(t) == if t == type_id {
                old(self).column(t).push(component@)
            } else {
                old(self).column(t)
            },
            forall|t: ComponentId| #[trigger] final(self).ids().contains(t) ==> final(self).column_info(t) == old(self).column_info(t),
    {
        match type_index_get(&self.column_index, type_id) {
            Some(pos) => {
                self.columns[pos].push(component);
                proof {
                    let idx = type_index_entries(self.column_index);
                    assert forall|i: int| 0 <= i < self.columns.len() implies #[trigger] self.columns@[i].spec_info()
                        == old(self).columns@[i].spec_info() by {
                        if i != pos {
                            assert(self.columns@[i] == old(self).columns@[i]);
                        }
                    }
                    assert forall|t: ComponentId| #[trigger] idx.contains_key(t) implies {
                        &&& idx[t] < self.columns.len()
                        &&& self.columns@[idx[t] as int].spec_info().type_id == t
                    } by {
                        assert(old(self).columns@[idx[t] as int].spec_info().type_id == t);
                    }
                    assert forall|i: int| 0 <= i < self.columns.len() implies {
                        &&& #[trigger] idx.contains_key(self.columns@[i].spec_info().type_id)
                        &&& idx[self.columns@[i].spec_info().type_id] == i
                    } by {
                        assert(idx.contains_key(old(self).columns@[i].spec_info().type_id));
                    }
                    assert(self.columns@[pos as int].spec_info() == old(self).columns@[pos as int].spec_info());
                    assert(idx == type_index_entries(old(self).column_index));
                    assert(self.wf());
                    assert forall|t: ComponentId| #[trigger] self.ids().contains(t) implies self.column(t) == if t == type_id {
                        old(self).column(t).push(component@)
                    } else {
                        old(self).column(t)
                    } by {
                        if t != type_id && idx.contains_key(t) {
                            assert(idx[t] != pos);
                        }
                    }
                }
            },
            None => {},
        }
    }

    /// Replaces the value of type `type_id` at `row`; a type the table has
    /// no column for is ignored.
    pub fn set_component(&mut self, type_id: ComponentId, row: usize, component: Vec<u8>)
        requires
            old(self).wf(),
            old(self).ids().contains(type_id) ==> row < old(self).column(type_id).len(),
        ensures
            final(self).wf(),
            final(self).ids() == old(self).ids(),
            final(self).rows() == old(self).rows(),
            forall|t: ComponentId| #[trigger] final(self).ids().contains(t) ==> final(self).column(t) == if t == type_id {
                old(self).column(t).update(row as int, component@)
            } else {
                old(self).column(t)
            },
            forall|t: ComponentId| #[trigger] final(self).ids().contains(t) ==> final(self).column_info(t) == old(self).column_info(t),
    {
        match type_index_get(&self.column_index, type_id) {
            Some(pos) => {
                self.columns[pos].replace(row, component);
            },
            None => {},
        }
    }

    /// Returns the value of type `type_id` at `row`, or `None` when the
    /// table has no column for that type.
    pub fn get_component(&self, type_id: ComponentId, row: usize) -> (r: Option<&Vec<u8>>)
        requires
            self.wf(),
            self.ids().contains(type_id) ==> row < self.column(type_id).len(),
        ensures
            match r {
                Some(v) => self.ids().contains(type_id) && v@ == self.column(type_id)[row as int],
                None => !self.ids().contains(type_id),
            },
    {
        match type_index_get(&self.column_index, type_id) {
            Some(pos) => Some(self.columns[pos].get(row)),
            None => None,
        }
    }

    /// Returns the entities of this table, row by row.
    pub fn entities(&self) -> (r: &[Entity])
        ensures
            r@ == self.rows(),
    {
        self.entities.as_slice()
    }

    /// Returns the number of rows.
    pub fn row_count(&self) -> (r: usize)
        ensures
            r == self.rows().len(),
    {
        self.entities.len()
    }

    /// Checks if this table contains a column for the given type.
    pub fn has_component(&self, type_id: ComponentId) -> (r: bool)
        ensures
            r == self.ids().contains(type_id),
    {
        type_index_get(&self.column_index, type_id).is_some()
    }
}

} // verus!
