//! The bookkeeping of the render context's resource storage: which meshes,
//! materials and textures have been stored, under which index, and which of
//! them an object is drawn with.

use vstd::prelude::*;

verus! {

/// What the render context has stored: the number of meshes, the texture
/// index of each material, and the number of textures.
pub struct ResourceTable {
    mesh_count: usize,
    material_textures: Vec<Option<usize>>,
    texture_count: usize,
}

/// The abstract contents of a [`ResourceTable`].
pub struct ResourceState {
    pub meshes: nat,
    pub materials: Seq<Option<usize>>,
    pub textures: nat,
}

/// The texture an object with material `material` is drawn with: the
/// material's own texture when the material and its texture exist, and
/// `None` (the fallback texture) otherwise.
pub open spec fn texture_for(s: ResourceState, material: usize) -> Option<usize> {
    if material < s.materials.len() {
        match s.materials[material as int] {
            Some(t) => if t < s.textures {
                Some(t)
            } else {
                None
            },
            None => None,
        }
    } else {
        None
    }
}

impl View for ResourceTable {
    type V = ResourceState;

    closed spec fn view(&self) -> ResourceState {
        ResourceState {
            meshes: self.mesh_count as nat,
            materials: self.material_textures@,
            textures: self.texture_count as nat,
        }
    }
}

impl ResourceTable {
    /// An empty table.
    pub fn new() -> (r: Self)
        ensures
            r@.meshes == 0,
            r@.materials == Seq::<Option<usize>>::empty(),
            r@.textures == 0,
    {
        ResourceTable { mesh_count: 0, material_textures: Vec::new(), texture_count: 0 }
    }

    /// Records a stored mesh and returns its index.
    pub fn add_mesh(&mut self) -> (index: usize)
        requires
            old(self)@.meshes < usize::MAX,
        ensures
            index == old(self)@.meshes,
            final(self)@ == (ResourceState { meshes: old(self)@.meshes + 1, ..old(self)@ }),
    {
        let index = self.mesh_count;
        self.mesh_count = self.mesh_count + 1;
        index
    }

    /// Records a stored material with its texture index and returns the
    /// material's index.
    pub fn add_material(&mut self, texture_index: Option<usize>) -> (index: usize)
        ensures
            index == old(self)@.materials.len(),
            final(self)@ == (ResourceState { materials: old(self)@.materials.push(texture_index), ..old(self)@ }),
    {
        let index = self.material_textures.len();
        self.material_textures.push(texture_index);
        index
    }

    /// Records a stored texture and returns its index.
    pub fn add_texture(&mut self) -> (index: usize)
        requires
            old(self)@.textures < usize::MAX,
        ensures
            index == old(self)@.textures,
            final(self)@ == (ResourceState { textures: old(self)@.textures + 1, ..old(self)@ }),
    {
        let index = self.texture_count;
        self.texture_count = self.texture_count + 1;
        index
    }

    /// The texture an object with the given material is drawn with; `None`
    /// stands for the fallback texture.
    pub fn texture_for(&self, material_index: usize) -> (r: Option<usize>)
        ensures
            r == texture_for(self@, material_index),
            r matches Some(t) ==> material_index < self@.materials.len() && self@.materials[material_index as int]
                == Some(t) && t < self@.textures,
            material_index < self@.materials.len() && self@.materials[material_index as int] is Some
                && self@.materials[material_index as int]->0 < self@.textures ==> r == self@.materials[material_index as int],
    {
        if material_index < self.material_textures.len() {
            match self.material_textures[material_index] {
                Some(t) => if t < self.texture_count {
                    Some(t)
                } else {
                    None
                },
                None => None,
            }
        } else {
            None
        }
    }

    /// Whether a mesh is stored under `mesh_index` (objects whose mesh is
    /// missing are not drawn).
    pub fn has_mesh(&self, mesh_index: usize) -> (r: bool)
        ensures
            r == (mesh_index < self@.meshes),
    {
        mesh_index < self.mesh_count
    }
}

/// The surface size after a resize request: a request with a zero side is
/// ignored.
pub open spec fn resized(current: (u32, u32), width: u32, height: u32) -> (u32, u32) {
    if width == 0 || height == 0 {
        current
    } else {
        (width, height)
    }
}

/// The surface size after a resize request: a request with a zero side is
/// ignored.
pub fn resize_extent(current: (u32, u32), width: u32, height: u32) -> (r: (u32, u32))
    ensures
        r == resized(current, width, height),
        width != 0 && height != 0 ==> r == (width, height),
        width == 0 || height == 0 ==> r == current,
{
    if width == 0 || height == 0 {
        current
    } else {
        (width, height)
    }
}

/// The size of the surface for a window of `width` × `height` pixels: each
/// side at least one pixel.
pub open spec fn surface_size(width: u32, height: u32) -> (u32, u32) {
    (if width == 0 { 1 } else { width }, if height == 0 { 1 } else { height })
}

/// The size of the surface for a window of `width` × `height` pixels: each
/// side at least one pixel.
pub fn surface_extent(width: u32, height: u32) -> (r: (u32, u32))
    ensures
        r == surface_size(width, height),
        r.0 >= 1,
        r.1 >= 1,
        width != 0 ==> r.0 == width,
        height != 0 ==> r.1 == height,
{
    (if width == 0 { 1 } else { width }, if height == 0 { 1 } else { height })
}

/// A stored texture is what objects with a material that names it are drawn
/// with, from the moment both are stored; textures stored later change
/// nothing for them.
pub proof fn law_texture_choice_stable(s: ResourceState, material: usize)
    ensures
        texture_for(s, material) is Some ==> texture_for(ResourceState { textures: s.textures + 1, ..s }, material)
            == texture_for(s, material),
        texture_for(s, material) is Some ==> texture_for(ResourceState { materials: s.materials.push(None), ..s }, material)
            == texture_for(s, material),
        texture_for(s, material) is Some ==> texture_for(s, material).unwrap() < s.textures,
{
}

/// An object is drawn with the texture its material names exactly when the
/// material is stored and names a stored texture; otherwise it is drawn
/// with the fallback, whatever the material's index.
pub proof fn law_material_texture(s: ResourceState, material: usize, t: usize)
    ensures
        material < s.materials.len() && s.materials[material as int] == Some(t) && t < s.textures
            ==> texture_for(s, material) == Some(t),
        texture_for(s, material) == Some(t) ==> material < s.materials.len() && s.materials[material as int]
            == Some(t) && t < s.textures,
        material >= s.materials.len() ==> texture_for(s, material) is None,
        material < s.materials.len() && s.materials[material as int] is None ==> texture_for(s, material) is None,
{
}

/// A texture stored and then named by a new material is what that material
/// is drawn with.
pub proof fn law_new_material_uses_its_texture(s: ResourceState, t: usize)
    requires
        t < s.textures,
        s.materials.len() < usize::MAX,
    ensures
        texture_for(ResourceState { materials: s.materials.push(Some(t)), ..s }, s.materials.len() as usize)
            == Some(t),
{
    let s2 = ResourceState { materials: s.materials.push(Some(t)), ..s };
    assert(s2.materials[s.materials.len() as int] == Some(t));
}

/// A resize request with two non-zero sides is taken as it is, whatever the
/// current size; a request with a zero side leaves the size as it is.
pub proof fn law_resize(current: (u32, u32), width: u32, height: u32)
    ensures
        width != 0 && height != 0 ==> resized(current, width, height) == (width, height),
        width == 0 || height == 0 ==> resized(current, width, height) == current,
        resized(current, width, height).0 != 0 || current.0 == 0,
{
}

} // verus!
