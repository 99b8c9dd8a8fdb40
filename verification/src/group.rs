//! Groups: components that only hold other components together.

use vstd::prelude::*;
use crate::component::Variant;
use crate::scene::Scene;

verus! {

/// A component with nothing of its own.
#[derive(Clone, Copy, Debug, PartialEq, Eq)]
pub struct Group;

impl Group {
    /// Puts a new group in the arena of `scene`, detached, and returns its
    /// index.
    pub fn new_ref(scene: &mut Scene) -> (id: usize)
        requires
            old(scene).wf(),
        ensures
            final(scene).inserted(*old(scene), id as int),
            final(scene).component(id as int).variant == Variant::Group(Group),
    {
        scene.insert(Variant::Group(Group))
    }
}

} // verus!
