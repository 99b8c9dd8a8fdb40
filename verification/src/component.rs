//! Components: the nodes of the scene graph.

use vstd::prelude::*;
use crate::algebra::{Arithmetic, Matrix4};
use crate::camera::{camera_updated, RenderCamera, SingularTransformation};
use crate::group::Group;
use crate::hitbox::Hitbox;
use crate::light::PointLight;
use crate::mesh::Mesh;
use crate::transformation::{is_identity, refreshed, Transformation};

verus! {

/// What a component is, with what only that kind of component has.
#[derive(Clone, Copy, Debug, PartialEq, Eq)]
pub enum Variant {
    Group(Group),
    Mesh(Mesh),
    Camera(RenderCamera),
    Light(PointLight),
    Hitbox(Hitbox),
}

/// What a [`Component`] holds.
pub struct ComponentView {
    /// Whether the component has been attached: made the child of another
    /// component, or the root of the scene. Once true, it stays true.
    pub has_parent: bool,
    /// Whether the component is part of the scene: whether its reference to
    /// the scene resolves.
    pub scene: bool,
    /// The component that this one is a child of.
    pub parent: Option<usize>,
    /// The children, in the order in which they were added.
    pub children: Seq<usize>,
    pub transformation: Transformation,
    pub variant: Variant,
}

/// A node of the scene graph. It lives in the arena of a scene and names its
/// parent and its children by their indices there.
#[derive(Debug)]
pub struct Component {
    has_parent: bool,
    scene: bool,
    parent: Option<usize>,
    children: Vec<usize>,
    transformation: Transformation,
    variant: Variant,
}

impl View for Component {
    type V = ComponentView;

    closed spec fn view(&self) -> ComponentView {
        ComponentView {
            has_parent: self.has_parent,
            scene: self.scene,
            parent: self.parent,
            children: self.children@,
            transformation: self.transformation,
            variant: self.variant,
        }
    }
}

/// How the hook `update` leaves what a component has of its own, when the
/// global matrix of the component is `global`. A camera computes what it
/// uploads; every other component stays as it is, and does not fail.
pub open spec fn variant_updated<A: Arithmetic>(
    ops: &A,
    pre: Variant,
    global: Matrix4,
    post: Variant,
    outcome: Result<(), SingularTransformation>,
) -> bool {
    match pre {
        Variant::Camera(camera) => post matches Variant::Camera(updated) && camera_updated(
            ops,
            camera,
            global,
            updated,
            outcome,
        ),
        _ => post == pre && outcome is Ok,
    }
}

/// `post` is `pre` after one visit of the traversal with the global matrix
/// `parent` of the parent: first the hook `update`, which saw the global
/// matrix that `pre` had, then the transformation brought up to date. The
/// links and the attachment are as they were.
pub open spec fn visited<A: Arithmetic>(
    ops: &A,
    pre: ComponentView,
    parent: Matrix4,
    post: ComponentView,
) -> bool {
    &&& post == ComponentView { transformation: post.transformation, variant: post.variant, ..pre }
    &&& variant_updated(ops, pre.variant, pre.transformation@.global, post.variant, Ok(()))
    &&& refreshed(ops, pre.transformation@, parent, post.transformation@)
}

/// `post` differs from `pre` at most in the transformation and, if it is a
/// camera, in what the camera holds.
pub open spec fn same_frame(pre: ComponentView, post: ComponentView) -> bool {
    &&& post == ComponentView { transformation: post.transformation, variant: post.variant, ..pre }
    &&& match pre.variant {
        Variant::Camera(_) => post.variant is Camera,
        _ => post.variant == pre.variant,
    }
}

impl Component {
    /// A detached component: never attached, part of no scene, without
    /// parent or children, in the identity pose.
    pub(crate) fn new(variant: Variant) -> (component: Component)
        ensures
            component@ == (ComponentView {
                has_parent: false,
                scene: false,
                parent: None,
                children: Seq::empty(),
                transformation: component@.transformation,
                variant,
            }),
            is_identity(component@.transformation@),
    {
        Component {
            has_parent: false,
            scene: false,
            parent: None,
            children: Vec::new(),
            transformation: Transformation::new(),
            variant,
        }
    }

    /// Whether the component has been attached.
    pub fn has_parent(&self) -> (attached: bool)
        ensures
            attached == self@.has_parent,
    {
        self.has_parent
    }

    /// Whether the component is part of the scene.
    pub fn scene(&self) -> (resolves: bool)
        ensures
            resolves == self@.scene,
    {
        self.scene
    }

    /// The component that this one is a child of, if it is a child.
    pub fn parent(&self) -> (parent: Option<usize>)
        ensures
            parent == self@.parent,
    {
        self.parent
    }

    /// The children, in the order in which they were added.
    pub fn children(&self) -> (children: &Vec<usize>)
        ensures
            children@ == self@.children,
    {
        &self.children
    }

    pub fn transformation(&self) -> (transformation: &Transformation)
        ensures
            *transformation == self@.transformation,
    {
        &self.transformation
    }

    pub fn variant(&self) -> (variant: &Variant)
        ensures
            *variant == self@.variant,
    {
        &self.variant
    }

    pub(crate) fn mark_attached(&mut self)
        ensures
            final(self)@ == (ComponentView { has_parent: true, ..old(self)@ }),
    {
        self.has_parent = true;
    }

    pub(crate) fn set_parent(&mut self, parent: usize)
        ensures
            final(self)@ == (ComponentView { parent: Some(parent), ..old(self)@ }),
    {
        self.parent = Some(parent);
    }

    pub(crate) fn set_scene(&mut self)
        ensures
            final(self)@ == (ComponentView { scene: true, ..old(self)@ }),
    {
        self.scene = true;
    }

    pub(crate) fn push_child(&mut self, child: usize)
        ensures
            final(self)@ == (ComponentView {
                children: old(self)@.children.push(child),
                ..old(self)@
            }),
    {
        self.children.push(child);
    }

    pub(crate) fn set_transformation(&mut self, transformation: Transformation)
        ensures
            final(self)@ == (ComponentView { transformation, ..old(self)@ }),
    {
        self.transformation = transformation;
    }

    pub(crate) fn set_camera(&mut self, camera: RenderCamera)
        requires
            old(self)@.variant is Camera,
        ensures
            final(self)@ == (ComponentView { variant: Variant::Camera(camera), ..old(self)@ }),
    {
        self.variant = Variant::Camera(camera);
    }

    /// The hook of the traversal, called before the transformation is
    /// brought up to date. A camera computes what it uploads from its global
    /// matrix, and fails where that matrix has no inverse; nothing else does
    /// anything.
    pub(crate) fn update<A: Arithmetic>(&mut self, ops: &A) -> (outcome: Result<
        (),
        SingularTransformation,
    >)
        requires
            ops.total(),
        ensures
            final(self)@ == (ComponentView { variant: final(self)@.variant, ..old(self)@ }),
            variant_updated(
                ops,
                old(self)@.variant,
                old(self)@.transformation@.global,
                final(self)@.variant,
                outcome,
            ),
            outcome is Err ==> final(self)@ == old(self)@,
    {
        match self.variant {
            Variant::Camera(camera) => {
                let mut camera = camera;
                let global = *self.transformation.global_transformation();
                let outcome = camera.update(&global, ops);
                self.variant = Variant::Camera(camera);
                outcome
            },
            _ => Ok(()),
        }
    }

    /// Brings the transformation up to date under the global matrix of the
    /// parent.
    pub(crate) fn refresh<A: Arithmetic>(&mut self, parent_transformation: &Matrix4, ops: &A)
        requires
            ops.total(),
        ensures
            final(self)@ == (ComponentView {
                transformation: final(self)@.transformation,
                ..old(self)@
            }),
            refreshed(
                ops,
                old(self)@.transformation@,
                *parent_transformation,
                final(self)@.transformation@,
            ),
    {
        self.transformation.refresh(parent_transformation, ops);
    }
}

} // verus!
