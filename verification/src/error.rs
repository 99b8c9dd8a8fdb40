//! The faults of the scene graph. None is recovered from inside the library:
//! each ends the operation that met it.

use vstd::prelude::*;

verus! {

/// Why an operation on the graph was refused.
#[derive(Clone, Copy, Debug, PartialEq, Eq)]
pub enum SceneError {
    /// An index names no component of this scene.
    UnknownComponent,
    /// The component to attach has been attached before.
    AlreadyParented,
    /// The scene has a root, and a root is not replaced.
    RootAlreadySet,
    /// The component to add is the top of the tree that it would be added to.
    Cycle,
    /// The global transformation of a camera has no inverse.
    SingularTransformation,
}

/// Why a frame was not composed.
#[derive(Clone, Copy, Debug, PartialEq, Eq)]
pub enum RenderError {
    /// No target was acquired in time.
    AcquireTimeout,
    /// The camera is attached to no scene.
    Detached,
    /// The index names no camera of this scene.
    NotACamera,
}

/// A capability that is declared and not provided.
#[derive(Clone, Copy, Debug, PartialEq, Eq)]
pub enum Unimplemented {
    SphereSphereHit,
    SphereBoxHit,
    SpherePillHit,
    BoxBoxHit,
    BoxPillHit,
    PillPillHit,
    BindLight,
}

} // verus!
