//! Collision volumes. Which routine answers for which pair of shapes is
//! decided here; no routine is provided yet, and each says so.

use vstd::prelude::*;
use crate::algebra::{Scalar, Vector3};
use crate::component::Variant;
use crate::error::Unimplemented;
use crate::scene::Scene;

verus! {

/// The shape of a collision volume.
#[derive(Clone, Copy, Debug, PartialEq, Eq)]
pub enum HitboxType {
    SphereHitbox { center: Vector3, radius: Scalar },
    BoxHitbox { max: Vector3, min: Vector3 },
    PillHitbox { x1: Vector3, x2: Vector3, radius: Scalar },
}

/// A component that takes part in collisions.
#[derive(Clone, Copy, Debug, PartialEq, Eq)]
pub struct Hitbox {
    pub hitbox_type: HitboxType,
}

/// The routine that answers for the shapes `a` and `b`. It is the same for
/// `b` and `a`.
pub open spec fn routine_for(a: HitboxType, b: HitboxType) -> Unimplemented {
    match (a, b) {
        (HitboxType::SphereHitbox { .. }, HitboxType::SphereHitbox { .. }) => {
            Unimplemented::SphereSphereHit
        },
        (HitboxType::SphereHitbox { .. }, HitboxType::BoxHitbox { .. }) => Unimplemented::SphereBoxHit,
        (HitboxType::BoxHitbox { .. }, HitboxType::SphereHitbox { .. }) => Unimplemented::SphereBoxHit,
        (HitboxType::SphereHitbox { .. }, HitboxType::PillHitbox { .. }) => {
            Unimplemented::SpherePillHit
        },
        (HitboxType::PillHitbox { .. }, HitboxType::SphereHitbox { .. }) => {
            Unimplemented::SpherePillHit
        },
        (HitboxType::BoxHitbox { .. }, HitboxType::BoxHitbox { .. }) => Unimplemented::BoxBoxHit,
        (HitboxType::BoxHitbox { .. }, HitboxType::PillHitbox { .. }) => Unimplemented::BoxPillHit,
        (HitboxType::PillHitbox { .. }, HitboxType::BoxHitbox { .. }) => Unimplemented::BoxPillHit,
        (HitboxType::PillHitbox { .. }, HitboxType::PillHitbox { .. }) => Unimplemented::PillPillHit,
    }
}

impl Hitbox {
    /// Puts a new collision volume in the arena of `scene`, detached, and
    /// returns its index.
    pub fn new(hitbox_type: HitboxType, scene: &mut Scene) -> (id: usize)
        requires
            old(scene).wf(),
        ensures
            final(scene).inserted(*old(scene), id as int),
            final(scene).component(id as int).variant == Variant::Hitbox(Hitbox { hitbox_type }),
    {
        scene.insert(Variant::Hitbox(Hitbox { hitbox_type }))
    }

    /// Whether this volume and `hitbox` overlap. The pair of shapes picks the
    /// routine; as long as the routine is missing, the answer is the fault
    /// that names it, never `false`.
    pub fn hits(&self, hitbox: &Hitbox) -> (answer: Result<bool, Unimplemented>)
        ensures
            answer == Err::<bool, Unimplemented>(routine_for(self.hitbox_type, hitbox.hitbox_type)),
    {
        match self.hitbox_type {
            HitboxType::SphereHitbox { center, radius } => {
                let c1 = center;
                let r1 = radius;
                match hitbox.hitbox_type {
                    HitboxType::SphereHitbox { center, radius } => {
                        Hitbox::sphere_sphere_hit(c1, r1, center, radius)
                    },
                    HitboxType::BoxHitbox { max, min } => Hitbox::sphere_box_hit(c1, r1, max, min),
                    HitboxType::PillHitbox { x1, x2, radius } => {
                        Hitbox::sphere_pill_hit(c1, r1, x1, x2, radius)
                    },
                }
            },
            HitboxType::BoxHitbox { max, min } => match hitbox.hitbox_type {
                HitboxType::SphereHitbox { center, radius } => {
                    Hitbox::sphere_box_hit(center, radius, max, min)
                },
                HitboxType::BoxHitbox { .. } => Err(Unimplemented::BoxBoxHit),
                HitboxType::PillHitbox { x1, x2, radius } => {
                    Hitbox::box_pill_hit(max, min, x1, x2, radius)
                },
            },
            HitboxType::PillHitbox { x1, x2, radius } => {
                let first_end = x1;
                let second_end = x2;
                let thickness = radius;
                match hitbox.hitbox_type {
                    HitboxType::SphereHitbox { center, radius } => {
                        Hitbox::sphere_pill_hit(center, radius, first_end, second_end, thickness)
                    },
                    HitboxType::BoxHitbox { max, min } => {
                        Hitbox::box_pill_hit(max, min, first_end, second_end, thickness)
                    },
                    HitboxType::PillHitbox { .. } => Err(Unimplemented::PillPillHit),
                }
            },
        }
    }

    /// Whether two spheres overlap: not provided.
    pub fn sphere_sphere_hit(_c1: Vector3, _r1: Scalar, _c2: Vector3, _r2: Scalar) -> (answer: Result<
        bool,
        Unimplemented,
    >)
        ensures
            answer == Err::<bool, Unimplemented>(Unimplemented::SphereSphereHit),
    {
        Err(Unimplemented::SphereSphereHit)
    }

    /// Whether a sphere and a box overlap: not provided.
    pub fn sphere_box_hit(_c: Vector3, _r: Scalar, _max: Vector3, _min: Vector3) -> (answer: Result<
        bool,
        Unimplemented,
    >)
        ensures
            answer == Err::<bool, Unimplemented>(Unimplemented::SphereBoxHit),
    {
        Err(Unimplemented::SphereBoxHit)
    }

    /// Whether a sphere and a pill overlap: not provided.
    pub fn sphere_pill_hit(
        _cc: Vector3,
        _cr: Scalar,
        _pc1: Vector3,
        _pc22: Vector3,
        _pr: Scalar,
    ) -> (answer: Result<bool, Unimplemented>)
        ensures
            answer == Err::<bool, Unimplemented>(Unimplemented::SpherePillHit),
    {
        Err(Unimplemented::SpherePillHit)
    }

    /// Whether a box and a pill overlap: not provided.
    pub fn box_pill_hit(
        _max: Vector3,
        _min: Vector3,
        _c1: Vector3,
        _c22: Vector3,
        _r: Scalar,
    ) -> (answer: Result<bool, Unimplemented>)
        ensures
            answer == Err::<bool, Unimplemented>(Unimplemented::BoxPillHit),
    {
        Err(Unimplemented::BoxPillHit)
    }
}

/// The routine for a pair of shapes does not depend on which shape is asked.
pub proof fn routine_is_symmetric(a: HitboxType, b: HitboxType)
    ensures
        routine_for(a, b) == routine_for(b, a),
{
}

} // verus!
