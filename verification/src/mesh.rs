//! Meshes: the record that a mesh uploads with every draw, and the mesh
//! itself.

use vstd::prelude::*;
use crate::algebra::{Matrix3, Matrix4, Scalar};
use crate::bindable::Handle;
use crate::bytes::{words_be, words_le, words_to_bytes};
use crate::geometry::BaseGeometry;
use crate::material::SolidColorMaterial;
use crate::scene::Scene;
use crate::component::Variant;

verus! {

/// The size in bytes of a [`MeshUniform`] as it is uploaded.
pub const MESH_UNIFORM_SIZE: u32 = 100;

/// What a mesh uploads with every draw: its transformation in the world, and
/// the transformation of its normals.
#[derive(Clone, Copy, Debug, PartialEq, Eq)]
pub struct MeshUniform {
    pub transformation: Matrix4,
    pub normal_transformation: Matrix3,
}

impl MeshUniform {
    /// Both transformations the identity.
    pub fn new() -> (data: MeshUniform)
        ensures
            data.transformation.m@ == Matrix4::identity_words(),
            data.normal_transformation.m@ == Matrix3::identity_words(),
    {
        MeshUniform {
            transformation: Matrix4::identity(),
            normal_transformation: Matrix3::identity(),
        }
    }

    /// The record as words: the sixteen of the transformation, then the nine
    /// of the normal transformation.
    pub open spec fn spec_words(&self) -> Seq<Scalar> {
        self.transformation.m@ + self.normal_transformation.m@
    }

    pub fn words(&self) -> (words: Vec<Scalar>)
        ensures
            words@ == self.spec_words(),
            4 * words@.len() == MESH_UNIFORM_SIZE,
    {
        let mut words: Vec<Scalar> = Vec::new();
        let mut i: usize = 0;
        while i < 16
            invariant
                i <= 16,
                words@ == self.transformation.m@.subrange(0, i as int),
            decreases 16 - i,
        {
            words.push(self.transformation.m[i]);
            i += 1;
        }
        assert(words@ == self.transformation.m@);
        let mut j: usize = 0;
        while j < 9
            invariant
                j <= 9,
                words@ == self.transformation.m@ + self.normal_transformation.m@.subrange(
                    0,
                    j as int,
                ),
            decreases 9 - j,
        {
            words.push(self.normal_transformation.m[j]);
            j += 1;
        }
        assert(words@ == self.spec_words());
        words
    }

    /// The record as it is uploaded: `MESH_UNIFORM_SIZE` bytes, the words in
    /// the byte order of this machine.
    pub fn bytes(&self) -> (bytes: Vec<u8>)
        ensures
            bytes@.len() == MESH_UNIFORM_SIZE,
            bytes@ == words_le(self.spec_words()) || bytes@ == words_be(self.spec_words()),
    {
        let words = self.words();
        words_to_bytes(&words)
    }
}

/// A geometry drawn with a material by a pipeline.
#[derive(Clone, Copy, Debug, PartialEq, Eq)]
pub struct Mesh {
    /// The pipeline that was built for this geometry and this material.
    pub render_pipeline: Handle,
    pub geometry: BaseGeometry,
    pub material: SolidColorMaterial,
    pub data: MeshUniform,
}

impl Mesh {
    /// A mesh whose record holds the identity twice.
    pub fn new(geometry: BaseGeometry, material: SolidColorMaterial, render_pipeline: Handle) -> (mesh:
        Mesh)
        ensures
            mesh == (Mesh { data: mesh.data, geometry, material, render_pipeline }),
            mesh.data.transformation.m@ == Matrix4::identity_words(),
            mesh.data.normal_transformation.m@ == Matrix3::identity_words(),
    {
        Mesh { render_pipeline, geometry, material, data: MeshUniform::new() }
    }

    /// Puts a new mesh in the arena of `scene`, detached, and returns its
    /// index.
    pub fn new_ref(
        geometry: BaseGeometry,
        material: SolidColorMaterial,
        render_pipeline: Handle,
        scene: &mut Scene,
    ) -> (id: usize)
        requires
            old(scene).wf(),
        ensures
            final(scene).inserted(*old(scene), id as int),
            final(scene).component(id as int).variant matches Variant::Mesh(mesh) && mesh == (Mesh {
                data: mesh.data,
                geometry,
                material,
                render_pipeline,
            }) && mesh.data.transformation.m@ == Matrix4::identity_words()
                && mesh.data.normal_transformation.m@ == Matrix3::identity_words(),
    {
        scene.insert(Variant::Mesh(Mesh::new(geometry, material, render_pipeline)))
    }
}

} // verus!
