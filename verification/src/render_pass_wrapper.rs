//! The record of a render pass: what is drawn, in order, and the small data
//! that goes with each draw.

use vstd::prelude::*;
use crate::bindable::Handle;
use crate::bytes::{words_be, words_le};
use crate::camera::{CameraUniform, CAMERA_UNIFORM_SIZE};
use crate::mesh::{MeshUniform, MESH_UNIFORM_SIZE};

verus! {

/// The size in bytes of the constant region of a draw: the record of the
/// camera, then the record of the mesh. The backend is asked for this much
/// once, when the device is negotiated.
pub const PUSH_CONSTANT_SIZE: u32 = CAMERA_UNIFORM_SIZE + MESH_UNIFORM_SIZE;

/// A record that is uploaded to the constant region.
#[derive(Clone, Copy, Debug, PartialEq, Eq)]
pub enum Uniform {
    Camera(CameraUniform),
    Mesh(MeshUniform),
}

impl Uniform {
    /// The size in bytes of the record as it is uploaded.
    pub open spec fn spec_size(&self) -> u32 {
        match self {
            Uniform::Camera(_) => CAMERA_UNIFORM_SIZE,
            Uniform::Mesh(_) => MESH_UNIFORM_SIZE,
        }
    }

    #[verifier::when_used_as_spec(spec_size)]
    pub fn size(&self) -> (size: u32)
        ensures
            size == self.spec_size(),
    {
        match self {
            Uniform::Camera(_) => CAMERA_UNIFORM_SIZE,
            Uniform::Mesh(_) => MESH_UNIFORM_SIZE,
        }
    }

    /// The words of the record, of whichever kind it is.
    pub open spec fn spec_words(&self) -> Seq<u32> {
        match self {
            Uniform::Camera(camera) => camera.spec_words(),
            Uniform::Mesh(mesh) => mesh.spec_words(),
        }
    }

    /// The record as the words that are uploaded.
    pub fn words(&self) -> (words: Vec<u32>)
        ensures
            words@ == self.spec_words(),
            4 * words@.len() == self.spec_size(),
    {
        match self {
            Uniform::Camera(camera) => camera.words(),
            Uniform::Mesh(mesh) => mesh.words(),
        }
    }

    /// The record as the bytes that are uploaded.
    pub fn bytes(&self) -> (bytes: Vec<u8>)
        ensures
            bytes@.len() == self.spec_size(),
            bytes@ == words_le(self.spec_words()) || bytes@ == words_be(self.spec_words()),
    {
        match self {
            Uniform::Camera(camera) => camera.bytes(),
            Uniform::Mesh(mesh) => mesh.bytes(),
        }
    }
}

/// One step of a render pass.
#[derive(Clone, Copy, Debug, PartialEq, Eq)]
pub enum Command {
    /// Bind a pipeline.
    SetPipeline { pipeline: Handle },
    /// Upload `data` to the constant region, `offset` bytes from its start,
    /// for the vertex and the fragment stage.
    SetPushConstants { offset: u32, data: Uniform },
    /// Bind a set of resources at `index`.
    SetBindGroup { index: u32, bind_group: Handle },
    /// Bind the whole of a buffer as the vertices of `slot`.
    SetVertexBuffer { slot: u32, buffer: Handle },
    /// Bind the whole of a buffer as the indices.
    SetIndexBuffer { buffer: Handle },
    /// Draw the indices from `first_index` up to `end_index`, each moved by
    /// `base_vertex`, for the instances from `first_instance` up to
    /// `end_instance`.
    DrawIndexed {
        first_index: u32,
        end_index: u32,
        base_vertex: i32,
        first_instance: u32,
        end_instance: u32,
    },
}

/// What binding `pipeline` records for a draw with the records `camera` and
/// `mesh`: the pipeline, then the camera's record at the start of the
/// constant region, then the mesh's record right behind it.
pub open spec fn pipeline_commands(pipeline: Handle, camera: CameraUniform, mesh: MeshUniform) -> Seq<
    Command,
> {
    seq![
        Command::SetPipeline { pipeline },
        Command::SetPushConstants { offset: 0, data: Uniform::Camera(camera) },
        Command::SetPushConstants { offset: CAMERA_UNIFORM_SIZE, data: Uniform::Mesh(mesh) },
    ]
}

/// A render pass in the making, with the two records of the draw at hand.
#[derive(Debug)]
pub struct RenderPassWrapper {
    /// What has been recorded so far.
    pub render_pass: Vec<Command>,
    pub mesh_uniform: MeshUniform,
    pub camera_uniform: CameraUniform,
}

impl RenderPassWrapper {
    /// Binds `pipeline` and uploads the two records: the camera's at offset
    /// 0, the mesh's at the offset that is the size of the camera's.
    pub fn set_pipeline(&mut self, pipeline: Handle)
        ensures
            final(self).render_pass@ == old(self).render_pass@ + pipeline_commands(
                pipeline,
                old(self).camera_uniform,
                old(self).mesh_uniform,
            ),
            final(self).mesh_uniform == old(self).mesh_uniform,
            final(self).camera_uniform == old(self).camera_uniform,
    {
        self.render_pass.push(Command::SetPipeline { pipeline });
        self.render_pass.push(
            Command::SetPushConstants { offset: 0, data: Uniform::Camera(self.camera_uniform) },
        );
        self.render_pass.push(
            Command::SetPushConstants {
                offset: CAMERA_UNIFORM_SIZE,
                data: Uniform::Mesh(self.mesh_uniform),
            },
        );
        assert(self.render_pass@ =~= old(self).render_pass@ + pipeline_commands(
            pipeline,
            old(self).camera_uniform,
            old(self).mesh_uniform,
        ));
    }
}

/// The layout of the constant region. Whatever the two records hold, the
/// mesh's record is uploaded at the offset that is the size in bytes of the
/// camera's record, the camera's at offset 0, each upload is as long as its
/// record, and the region is as long as both together.
pub proof fn constant_region_layout(pipeline: Handle, camera: CameraUniform, mesh: MeshUniform)
    ensures
        pipeline_commands(pipeline, camera, mesh)[1] == (Command::SetPushConstants {
            offset: 0,
            data: Uniform::Camera(camera),
        }),
        pipeline_commands(pipeline, camera, mesh)[2] == (Command::SetPushConstants {
            offset: (4 * camera.spec_words().len()) as u32,
            data: Uniform::Mesh(mesh),
        }),
        4 * camera.spec_words().len() == CAMERA_UNIFORM_SIZE,
        4 * mesh.spec_words().len() == MESH_UNIFORM_SIZE,
        Uniform::Camera(camera).spec_size() == 4 * camera.spec_words().len(),
        Uniform::Mesh(mesh).spec_size() == 4 * mesh.spec_words().len(),
        PUSH_CONSTANT_SIZE == 4 * camera.spec_words().len() + 4 * mesh.spec_words().len(),
{
}

} // verus!
