//! Lights.

use vstd::prelude::*;
use crate::algebra::{Matrix4, Vector3};
use crate::component::Variant;
use crate::error::Unimplemented;
use crate::render_pass_wrapper::RenderPassWrapper;
use crate::scene::Scene;

verus! {

/// The size in bytes of a [`LightUniform`] as it is uploaded: two vectors of
/// three words, one word, and a matrix of sixteen.
pub const LIGHT_UNIFORM_SIZE: u32 = 92;

/// What a light uploads.
#[derive(Clone, Copy, Debug, PartialEq, Eq)]
pub struct LightUniform {
    pub light_color: Vector3,
    pub light_position: Vector3,
    pub is_directional_light: u32,
    pub light_projection_matrix: Matrix4,
}

/// A component that lights the scene.
pub trait Light {
    /// Binds the light to a render pass. No light can be bound yet: the call
    /// fails and records nothing.
    fn bind_light(&self, render_pass: &mut RenderPassWrapper) -> (outcome: Result<(), Unimplemented>)
        ensures
            outcome == Err::<(), Unimplemented>(Unimplemented::BindLight),
            *final(render_pass) == *old(render_pass),
    ;
}

/// A light that shines from one point.
#[derive(Clone, Copy, Debug, PartialEq, Eq)]
pub struct PointLight;

impl PointLight {
    /// Puts a new point light in the arena of `scene`, detached, and returns
    /// its index.
    pub fn new_ref(scene: &mut Scene) -> (id: usize)
        requires
            old(scene).wf(),
        ensures
            final(scene).inserted(*old(scene), id as int),
            final(scene).component(id as int).variant == Variant::Light(PointLight),
    {
        scene.insert(Variant::Light(PointLight))
    }
}

impl Light for PointLight {
    fn bind_light(&self, render_pass: &mut RenderPassWrapper) -> (outcome: Result<(), Unimplemented>) {
        Err(Unimplemented::BindLight)
    }
}

} // verus!
