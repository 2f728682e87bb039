use vstd::prelude::*;
use crate::ecs::component::ComponentInfo;

verus! {

/// A column of component data: the value of one component type for every
/// row of a table, each stored as the bytes of the value.
pub struct Column {
    info: ComponentInfo,
    data: Vec<Vec<u8>>,
}

impl View for Column {
    type V = Seq<Seq<u8>>;

    /// The stored values, row by row.
    closed spec fn view(&self) -> Seq<Seq<u8>> {
        self.data@.map_values(|v: Vec<u8>| v@)
    }
}

impl Column {
    /// The component type this column stores.
    pub closed spec fn spec_info(&self) -> ComponentInfo {
        self.info
    }

    /// Creates a new empty column for the given component type.
    pub fn new(info: ComponentInfo) -> (r: Self)
        ensures
            r.spec_info() == info,
            r@ == Seq::<Seq<u8>>::empty(),
    {
        let r = Column { info, data: Vec::new() };
        assert(r@ =~= Seq::<Seq<u8>>::empty());
        r
    }

    /// Returns the component type this column stores.
    pub fn info(&self) -> (r: ComponentInfo)
        ensures
            r == self.spec_info(),
    {
        self.info
    }

    /// Pushes a component value onto the column.
    pub fn push(&mut self, component: Vec<u8>)
        ensures
            final(self).spec_info() == old(self).spec_info(),
            final(self)@ == old(self)@.push(component@),
    {
        self.data.push(component);
        assert(self@ =~= old(self)@.push(component@));
    }

    /// Removes the element at `index` by moving the last element into its
    /// place.
    ///
    /// Returns `true` if the last element was moved into the vacated slot.
    pub fn swap_remove(&mut self, index: usize, _drop: bool) -> (moved: bool)
        requires
            index < old(self)@.len(),
        ensures
            final(self).spec_info() == old(self).spec_info(),
            moved == (index + 1 != old(self)@.len()),
            final(self)@ == old(self)@.update(index as int, old(self)@.last()).drop_last(),
    {
        let last_index = self.data.len() - 1;
        self.data.swap_remove(index);
        assert(self@ =~= old(self)@.update(index as int, old(self)@.last()).drop_last());
        index != last_index
    }

    /// Returns the element at `index`.
    pub fn get(&self, index: usize) -> (r: &Vec<u8>)
        requires
            index < self@.len(),
        ensures
            r@ == self@[index as int],
    {
        &self.data[index]
    }

    /// Replaces the element at `index` with `component`.
    pub fn replace(&mut self, index: usize, component: Vec<u8>)
        requires
            index < old(self)@.len(),
        ensures
            final(self).spec_info() == old(self).spec_info(),
            final(self)@ == old(self)@.update(index as int, component@),
    {
        self.data.set(index, component);
        assert(self@ =~= old(self)@.update(index as int, component@));
    }

    /// Returns the number of elements in the column.
    pub fn len(&self) -> (r: usize)
        ensures
            r == self@.len(),
    {
        self.data.len()
    }
}

} // verus!
