//! The pose of a component and its two cached matrices.

use vstd::prelude::*;
use crate::algebra::{Arithmetic, Matrix4, Quaternion, Scalar, Vector3, ZERO};

verus! {

/// What a [`Transformation`] holds.
pub struct TransformationView {
    /// Whether the pose was changed since the local matrix was last computed.
    pub needs_update: bool,
    pub translation: Vector3,
    pub rotation: Quaternion,
    pub scaling: Vector3,
    /// The cached matrix of the pose.
    pub local: Matrix4,
    /// The cached matrix of the pose in the frame of the world.
    pub global: Matrix4,
}

/// A pose (translation, rotation, scale), the matrix of that pose and the
/// matrix of that pose in the frame of the world.
///
/// The pose changes only through the methods below, and each of them marks
/// the local matrix as stale. The local matrix is computed again by
/// [`Transformation::update_local`], the global one by
/// [`Transformation::update_global`].
#[derive(Clone, Copy, Debug, PartialEq, Eq)]
pub struct Transformation {
    needs_update: bool,
    translation: Vector3,
    rotation: Quaternion,
    scaling: Vector3,
    local_transformation: Matrix4,
    global_transformation: Matrix4,
}

impl View for Transformation {
    type V = TransformationView;

    closed spec fn view(&self) -> TransformationView {
        TransformationView {
            needs_update: self.needs_update,
            translation: self.translation,
            rotation: self.rotation,
            scaling: self.scaling,
            local: self.local_transformation,
            global: self.global_transformation,
        }
    }
}

/// The identity pose, with both matrices the identity and nothing stale.
pub open spec fn is_identity(t: TransformationView) -> bool {
    &&& !t.needs_update
    &&& t.translation == Vector3::zero()
    &&& t.rotation == Quaternion::identity()
    &&& t.scaling == Vector3::ones()
    &&& t.local.m@ == Matrix4::identity_words()
    &&& t.global == t.local
}

/// `m` is the matrix of the pose `(t, r, s)`: the product of the translation
/// matrix with the rotation matrix, times the scale matrix.
pub open spec fn pose_gives<A: Arithmetic>(
    ops: &A,
    t: Vector3,
    r: Quaternion,
    s: Vector3,
    m: Matrix4,
) -> bool {
    exists|mt: Matrix4, mr: Matrix4, ms: Matrix4, tr: Matrix4|
        {
            &&& ops.translation_gives(t, mt)
            &&& ops.rotation_gives(r, mr)
            &&& ops.scale_gives(s, ms)
            &&& #[trigger] ops.product_gives(mt, mr, tr)
            &&& #[trigger] ops.product_gives(tr, ms, m)
        }
}

/// `post` is `pre` turned further by the angles `x`, `y`, `z`: the new
/// rotation is the old one times the rotation of the angles, and the local
/// matrix is stale.
pub open spec fn turned_by_angles<A: Arithmetic>(
    ops: &A,
    pre: TransformationView,
    x: Scalar,
    y: Scalar,
    z: Scalar,
    post: TransformationView,
) -> bool {
    &&& post == TransformationView { needs_update: true, rotation: post.rotation, ..pre }
    &&& exists|e: Quaternion|
        ops.euler_gives(x, y, z, e) && #[trigger] ops.turn_gives(pre.rotation, e, post.rotation)
}

/// `post` is `pre` after `update_local(forced)`: where `pre` was stale or
/// the update was forced, the local matrix is that of the pose; otherwise it
/// is the one that `pre` had. Either way `post` is not stale.
pub open spec fn local_updated<A: Arithmetic>(
    ops: &A,
    pre: TransformationView,
    forced: bool,
    post: TransformationView,
) -> bool {
    &&& post == TransformationView { needs_update: false, local: post.local, ..pre }
    &&& if pre.needs_update || forced {
        pose_gives(ops, pre.translation, pre.rotation, pre.scaling, post.local)
    } else {
        post.local == pre.local
    }
}

/// `post` is `pre` after `update_global(parent)`: the global matrix is the
/// local one times `parent`.
pub open spec fn global_updated<A: Arithmetic>(
    ops: &A,
    pre: TransformationView,
    parent: Matrix4,
    post: TransformationView,
) -> bool {
    &&& post == TransformationView { global: post.global, ..pre }
    &&& ops.product_gives(pre.local, parent, post.global)
}

/// `post` is `pre` after `update_local(false)` and then
/// `update_global(parent)`: the local matrix is computed from the pose where
/// it was stale and kept where it was not, and the global matrix is the local
/// one times `parent`.
pub open spec fn refreshed<A: Arithmetic>(
    ops: &A,
    pre: TransformationView,
    parent: Matrix4,
    post: TransformationView,
) -> bool {
    &&& post == TransformationView {
        needs_update: false,
        local: post.local,
        global: post.global,
        ..pre
    }
    &&& if pre.needs_update {
        pose_gives(ops, pre.translation, pre.rotation, pre.scaling, post.local)
    } else {
        post.local == pre.local
    }
    &&& ops.product_gives(post.local, parent, post.global)
}

impl Transformation {
    /// The identity pose, with both matrices the identity and nothing stale.
    pub fn new() -> (t: Transformation)
        ensures
            is_identity(t@),
    {
        let identity = Matrix4::identity();
        Transformation {
            needs_update: false,
            translation: Vector3::zero(),
            rotation: Quaternion::identity(),
            scaling: Vector3::ones(),
            local_transformation: identity,
            global_transformation: identity,
        }
    }

    /// Turns the pose by `x_rotation` radians about its own x axis.
    pub fn rotate_x<A: Arithmetic>(&mut self, x_rotation: Scalar, ops: &A)
        requires
            ops.total(),
        ensures
            turned_by_angles(ops, old(self)@, x_rotation, ZERO, ZERO, final(self)@),
    {
        let turn = ops.euler(x_rotation, ZERO, ZERO);
        self.rotation = ops.turn(self.rotation, turn);
        self.change_made();
        assert(ops.turn_gives(old(self)@.rotation, turn, self@.rotation));
    }

    /// Turns the pose by `y_rotation` radians about its own y axis.
    pub fn rotate_y<A: Arithmetic>(&mut self, y_rotation: Scalar, ops: &A)
        requires
            ops.total(),
        ensures
            turned_by_angles(ops, old(self)@, ZERO, y_rotation, ZERO, final(self)@),
    {
        let turn = ops.euler(ZERO, y_rotation, ZERO);
        self.rotation = ops.turn(self.rotation, turn);
        self.change_made();
        assert(ops.turn_gives(old(self)@.rotation, turn, self@.rotation));
    }

    /// Turns the pose by `z_rotation` radians about its own z axis.
    pub fn rotate_z<A: Arithmetic>(&mut self, z_rotation: Scalar, ops: &A)
        requires
            ops.total(),
        ensures
            turned_by_angles(ops, old(self)@, ZERO, ZERO, z_rotation, final(self)@),
    {
        let turn = ops.euler(ZERO, ZERO, z_rotation);
        self.rotation = ops.turn(self.rotation, turn);
        self.change_made();
        assert(ops.turn_gives(old(self)@.rotation, turn, self@.rotation));
    }

    /// Turns the pose by `rotation`, in the pose's own frame: the new
    /// rotation is the old one times `rotation`.
    pub fn rotate<A: Arithmetic>(&mut self, rotation: &Quaternion, ops: &A)
        requires
            ops.total(),
        ensures
            final(self)@ == (TransformationView {
                needs_update: true,
                rotation: final(self)@.rotation,
                ..old(self)@
            }),
            ops.turn_gives(old(self)@.rotation, *rotation, final(self)@.rotation),
    {
        self.rotation = ops.turn(self.rotation, *rotation);
        self.change_made();
    }

    /// Moves the pose by `additional_translation`.
    pub fn translate<A: Arithmetic>(&mut self, additional_translation: &Vector3, ops: &A)
        requires
            ops.total(),
        ensures
            final(self)@ == (TransformationView {
                needs_update: true,
                translation: final(self)@.translation,
                ..old(self)@
            }),
            ops.sum_gives(
                old(self)@.translation,
                *additional_translation,
                final(self)@.translation,
            ),
    {
        self.translation = ops.sum(self.translation, *additional_translation);
        self.change_made();
    }

    /// Adds `additional_scale` to the scale of the pose.
    pub fn scale<A: Arithmetic>(&mut self, additional_scale: &Vector3, ops: &A)
        requires
            ops.total(),
        ensures
            final(self)@ == (TransformationView {
                needs_update: true,
                scaling: final(self)@.scaling,
                ..old(self)@
            }),
            ops.sum_gives(old(self)@.scaling, *additional_scale, final(self)@.scaling),
    {
        self.scaling = ops.sum(self.scaling, *additional_scale);
        self.change_made();
    }

    /// Replaces the rotation of the pose.
    pub fn set_rotation(&mut self, rotation: &Quaternion)
        ensures
            final(self)@ == (TransformationView {
                needs_update: true,
                rotation: *rotation,
                ..old(self)@
            }),
    {
        self.rotation = *rotation;
        self.change_made();
    }

    /// Replaces the translation of the pose.
    pub fn set_translation(&mut self, translation: &Vector3)
        ensures
            final(self)@ == (TransformationView {
                needs_update: true,
                translation: *translation,
                ..old(self)@
            }),
    {
        self.translation = *translation;
        self.change_made();
    }

    /// Replaces the scale of the pose.
    pub fn set_scaling(&mut self, scaling: &Vector3)
        ensures
            final(self)@ == (TransformationView {
                needs_update: true,
                scaling: *scaling,
                ..old(self)@
            }),
    {
        self.scaling = *scaling;
        self.change_made();
    }

    /// Computes the local matrix from the pose if the pose changed since the
    /// last computation, or if `forced`; leaves it as it is otherwise.
    pub fn update_local<A: Arithmetic>(&mut self, forced: bool, ops: &A)
        requires
            ops.total(),
        ensures
            local_updated(ops, old(self)@, forced, final(self)@),
    {
        if self.needs_update || forced {
            let translation = ops.translation(self.translation);
            let rotation = ops.rotation(self.rotation);
            let scaling = ops.scale(self.scaling);
            let placed = ops.product(translation, rotation);
            self.local_transformation = ops.product(placed, scaling);
        }
        self.needs_update = false;
    }

    fn change_made(&mut self)
        ensures
            final(self)@ == (TransformationView { needs_update: true, ..old(self)@ }),
    {
        self.needs_update = true;
    }

    /// Sets the global matrix to the local one times `parent_transform`.
    pub fn update_global<A: Arithmetic>(&mut self, parent_transform: &Matrix4, ops: &A)
        requires
            ops.total(),
        ensures
            global_updated(ops, old(self)@, *parent_transform, final(self)@),
    {
        self.global_transformation = ops.product(self.local_transformation, *parent_transform);
    }

    /// Brings both matrices up to date under the global matrix
    /// `parent_transform` of the parent: `update_local(false)`, then
    /// `update_global(parent_transform)`.
    pub fn refresh<A: Arithmetic>(&mut self, parent_transform: &Matrix4, ops: &A)
        requires
            ops.total(),
        ensures
            refreshed(ops, old(self)@, *parent_transform, final(self)@),
    {
        self.update_local(false, ops);
        self.update_global(parent_transform, ops);
    }

    /// The cached matrix of the pose in the frame of the world.
    pub fn global_transformation(&self) -> (m: &Matrix4)
        ensures
            *m == self@.global,
    {
        &self.global_transformation
    }

    /// The cached matrix of the pose.
    pub fn local_transformation(&self) -> (m: &Matrix4)
        ensures
            *m == self@.local,
    {
        &self.local_transformation
    }

    /// Whether the pose changed since the local matrix was last computed.
    pub fn needs_update(&self) -> (stale: bool)
        ensures
            stale == self@.needs_update,
    {
        self.needs_update
    }

    pub fn translation(&self) -> (v: &Vector3)
        ensures
            *v == self@.translation,
    {
        &self.translation
    }

    pub fn rotation(&self) -> (q: &Quaternion)
        ensures
            *q == self@.rotation,
    {
        &self.rotation
    }

    pub fn scaling(&self) -> (v: &Vector3)
        ensures
            *v == self@.scaling,
    {
        &self.scaling
    }

}

/// A local matrix that is not stale is not computed twice: after one
/// `update_local`, a second one that is not forced changes nothing, so the
/// local matrix is the same word for word.
pub proof fn update_local_twice_is_once<A: Arithmetic>(
    ops: &A,
    start: TransformationView,
    forced: bool,
    once: TransformationView,
    twice: TransformationView,
)
    requires
        local_updated(ops, start, forced, once),
        local_updated(ops, once, false, twice),
    ensures
        twice == once,
        twice.local == once.local,
{
}

} // verus!
