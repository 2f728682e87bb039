use vstd::prelude::*;
use core::marker::PhantomData;
use crate::ecs::component::Component;

verus! {

/// Filter that ensures a component exists.
pub struct With<T: Component>(pub PhantomData<T>);

/// Filter that ensures a component does **not** exist.
pub struct Without<T: Component>(pub PhantomData<T>);

/// Filter for components that were modified in the current or previous frame.
///
/// **Note:** Not yet implemented; placeholder for future extension.
pub struct Changed<T: Component>(pub PhantomData<T>);

/// Filter for entities created in the current frame.
///
/// **Note:** Not yet implemented; placeholder for future extension.
pub struct Added<T: Component>(pub PhantomData<T>);

} // verus!
