//! Materials: how a geometry is drawn.

use vstd::prelude::*;
use crate::algebra::{Scalar, Vector3};
use crate::bindable::{Bindable, Handle};
use crate::bytes::{words_be, words_le, words_to_bytes};
use crate::camera::CameraUniform;
use crate::geometry::Geometry;
use crate::mesh::MeshUniform;
use crate::render_pass_wrapper::{pipeline_commands, Command, RenderPassWrapper};

verus! {

/// What binding the set of resources `group` records, if there is one.
pub open spec fn bind_commands(group: Option<Handle>) -> Seq<Command> {
    match group {
        Some(bind_group) => seq![Command::SetBindGroup { index: 0, bind_group }],
        None => Seq::empty(),
    }
}

/// What the draw of one mesh records: the pipeline with the two records
/// (the camera's first), the resources of the geometry and then those of the
/// material, where they have any, and the draw of the geometry.
pub open spec fn material_commands(
    pipeline: Handle,
    camera: CameraUniform,
    mesh: MeshUniform,
    geometry_group: Option<Handle>,
    material_group: Option<Handle>,
    draw: Seq<Command>,
) -> Seq<Command> {
    pipeline_commands(pipeline, camera, mesh) + bind_commands(geometry_group) + bind_commands(
        material_group,
    ) + draw
}

/// Something that can draw a geometry in a render pass.
///
/// Every material records the same: see [`material_commands`]. The backend
/// lays out one constant region for all of them.
pub trait Material: Bindable {
    /// Records the draw of `geometry` with this material by `pipeline`.
    /// `lights` are the lights of the scene, by index.
    fn draw_material<G: Geometry>(
        &self,
        geometry: &G,
        lights: &Vec<usize>,
        pipeline: Handle,
        render_pass: &mut RenderPassWrapper,
    )
        ensures
            final(render_pass).render_pass@ == old(render_pass).render_pass@ + material_commands(
                pipeline,
                old(render_pass).camera_uniform,
                old(render_pass).mesh_uniform,
                geometry.spec_bind_group(),
                self.spec_bind_group(),
                geometry.spec_draw(),
            ),
            final(render_pass).mesh_uniform == old(render_pass).mesh_uniform,
            final(render_pass).camera_uniform == old(render_pass).camera_uniform,
    ;
}

/// A material of one colour.
#[derive(Clone, Copy, Debug, PartialEq, Eq)]
pub struct SolidColorMaterial {
    pub color: Vector3,
    /// The set of resources that holds the colour.
    pub bind_group: Handle,
}

impl SolidColorMaterial {
    /// The material of the colour `color`, whose resources are `bind_group`.
    pub fn new(color: Vector3, bind_group: Handle) -> (material: SolidColorMaterial)
        ensures
            material == (SolidColorMaterial { color, bind_group }),
    {
        SolidColorMaterial { color, bind_group }
    }

    /// The three words of the colour.
    pub open spec fn color_words(color: Vector3) -> Seq<Scalar> {
        seq![color.x, color.y, color.z]
    }

    /// What the buffer of the material is to hold: the colour, in the byte
    /// order of this machine.
    pub fn color_bytes(color: Vector3) -> (bytes: Vec<u8>)
        ensures
            bytes@.len() == 12,
            bytes@ == words_le(Self::color_words(color)) || bytes@ == words_be(
                Self::color_words(color),
            ),
    {
        let mut words: Vec<Scalar> = Vec::new();
        words.push(color.x);
        words.push(color.y);
        words.push(color.z);
        assert(words@ == Self::color_words(color));
        words_to_bytes(&words)
    }
}

impl Bindable for SolidColorMaterial {
    open spec fn spec_bind_group(&self) -> Option<Handle> {
        Some(self.bind_group)
    }

    fn bind_group(&self) -> (group: Option<Handle>) {
        Some(self.bind_group)
    }
}

impl Material for SolidColorMaterial {
    fn draw_material<G: Geometry>(
        &self,
        geometry: &G,
        lights: &Vec<usize>,
        pipeline: Handle,
        render_pass: &mut RenderPassWrapper,
    ) {
        render_pass.set_pipeline(pipeline);
        if let Some(bind_group) = geometry.bind_group() {
            render_pass.render_pass.push(Command::SetBindGroup { index: 0, bind_group });
        }
        let ghost bound_geometry = render_pass.render_pass@;
        assert(bound_geometry =~= old(render_pass).render_pass@ + pipeline_commands(
            pipeline,
            old(render_pass).camera_uniform,
            old(render_pass).mesh_uniform,
        ) + bind_commands(geometry.spec_bind_group()));
        if let Some(bind_group) = self.bind_group() {
            render_pass.render_pass.push(Command::SetBindGroup { index: 0, bind_group });
        }
        assert(render_pass.render_pass@ =~= bound_geometry + bind_commands(self.spec_bind_group()));
        geometry.draw_geometry(render_pass);
        assert(render_pass.render_pass@ =~= old(render_pass).render_pass@ + material_commands(
            pipeline,
            old(render_pass).camera_uniform,
            old(render_pass).mesh_uniform,
            geometry.spec_bind_group(),
            self.spec_bind_group(),
            geometry.spec_draw(),
        ));
    }
}

} // verus!
