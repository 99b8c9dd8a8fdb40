//! Geometries: what is drawn.

use vstd::prelude::*;
use crate::algebra::Scalar;
use crate::bindable::{Bindable, Handle};
use crate::bytes::{words_be, words_le, words_to_bytes};
use crate::render_pass_wrapper::{Command, RenderPassWrapper};

verus! {

/// What the vertices of a geometry carry besides their position.
#[derive(Clone, Copy, Debug, PartialEq, Eq)]
pub struct GeometryUniformBase {
    pub has_normals: bool,
    pub has_color_vertices: bool,
    pub has_tex_coordinates: bool,
}

/// Something that can be drawn in a render pass.
pub trait Geometry: Bindable {
    /// What one draw of the geometry records.
    spec fn spec_draw(&self) -> Seq<Command>;

    /// Records the draw of the geometry.
    fn draw_geometry(&self, render_pass: &mut RenderPassWrapper)
        ensures
            final(render_pass).render_pass@ == old(render_pass).render_pass@ + self.spec_draw(),
            final(render_pass).mesh_uniform == old(render_pass).mesh_uniform,
            final(render_pass).camera_uniform == old(render_pass).camera_uniform,
    ;
}

/// The positions of the five corners of the pentagon, three words each.
pub const VERTICES: [Scalar; 15] = [
    0xBDB1D0D5, 0x3EFC1C5C, 0x00000000,
    0xBEFD8236, 0x3D8E835A, 0x00000000,
    0xBE607229, 0xBEE6175F, 0x00000000,
    0x3EB826AA, 0xBEB1D51F, 0x00000000,
    0x3EE208D8, 0x3E705E9C, 0x00000000,
];

/// The corners of the three triangles of the pentagon.
pub const INDICES: [u16; 9] = [0, 1, 4, 1, 2, 4, 2, 3, 4];

/// A pentagon in the plane, as three triangles.
#[derive(Clone, Copy, Debug, PartialEq, Eq)]
pub struct BaseGeometry {
    /// The buffer that holds `VERTICES`.
    pub vertex_buffer: Handle,
    /// The buffer that holds `INDICES`.
    pub index_buffer: Handle,
    /// How many indices are drawn.
    pub num_indices: u32,
}

impl BaseGeometry {
    /// The pentagon, with its vertices in `vertex_buffer` and its indices in
    /// `index_buffer`.
    pub fn new(vertex_buffer: Handle, index_buffer: Handle) -> (geometry: BaseGeometry)
        ensures
            geometry == (BaseGeometry { vertex_buffer, index_buffer, num_indices: 9 }),
            geometry.num_indices == INDICES@.len(),
    {
        BaseGeometry { vertex_buffer, index_buffer, num_indices: 9 }
    }

    /// What the vertex buffer is to hold: the words of `VERTICES` in the
    /// byte order of this machine.
    pub fn vertex_bytes() -> (bytes: Vec<u8>)
        ensures
            bytes@.len() == 60,
            bytes@ == words_le(VERTICES@) || bytes@ == words_be(VERTICES@),
    {
        let mut words: Vec<Scalar> = Vec::new();
        let mut i: usize = 0;
        while i < 15
            invariant
                i <= 15,
                words@ == VERTICES@.subrange(0, i as int),
            decreases 15 - i,
        {
            words.push(VERTICES[i]);
            i += 1;
        }
        assert(words@ == VERTICES@);
        words_to_bytes(&words)
    }
}

impl Bindable for BaseGeometry {
    open spec fn spec_bind_group(&self) -> Option<Handle> {
        None
    }

    fn bind_group(&self) -> (group: Option<Handle>) {
        None
    }
}

impl Geometry for BaseGeometry {
    /// The vertices in slot 0, the indices, and one instance of all indices.
    open spec fn spec_draw(&self) -> Seq<Command> {
        seq![
            Command::SetVertexBuffer { slot: 0, buffer: self.vertex_buffer },
            Command::SetIndexBuffer { buffer: self.index_buffer },
            Command::DrawIndexed {
                first_index: 0,
                end_index: self.num_indices,
                base_vertex: 0,
                first_instance: 0,
                end_instance: 1,
            },
        ]
    }

    fn draw_geometry(&self, render_pass: &mut RenderPassWrapper) {
        render_pass.render_pass.push(
            Command::SetVertexBuffer { slot: 0, buffer: self.vertex_buffer },
        );
        render_pass.render_pass.push(Command::SetIndexBuffer { buffer: self.index_buffer });
        render_pass.render_pass.push(
            Command::DrawIndexed {
                first_index: 0,
                end_index: self.num_indices,
                base_vertex: 0,
                first_instance: 0,
                end_instance: 1,
            },
        );
        assert(render_pass.render_pass@ =~= old(render_pass).render_pass@ + self.spec_draw());
    }
}

} // verus!
