//! What can be bound to a draw.

use vstd::prelude::*;

verus! {

/// The name of an object of the graphics backend: a pipeline, a buffer, a
/// set of resources. The backend gives the names out and resolves them; the
/// scene graph only passes them on.
pub type Handle = u32;

/// Something that may have a set of resources to bind before a draw.
pub trait Bindable {
    spec fn spec_bind_group(&self) -> Option<Handle>;

    /// The set of resources to bind, if there is one.
    fn bind_group(&self) -> (group: Option<Handle>)
        ensures
            group == self.spec_bind_group(),
    ;
}

} // verus!
