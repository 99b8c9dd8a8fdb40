//! Cameras: the record that a camera uploads with every draw, and the camera
//! that renders a scene.

use vstd::prelude::*;
use crate::algebra::{Arithmetic, Matrix4, Scalar, Vector3, Vector4, ZERO};
use crate::bindable::Bindable;
use crate::bytes::{words_be, words_le, words_to_bytes};
use crate::component::Variant;
use crate::error::RenderError;
use crate::geometry::Geometry;
use crate::material::{material_commands, Material};
use crate::mesh::Mesh;
use crate::render_pass_wrapper::{Command, RenderPassWrapper};
use crate::scene::Scene;

verus! {

/// The size in bytes of a [`CameraUniform`] as it is uploaded. The record is
/// aligned to 16 bytes, so its nineteen words are followed by one that means
/// nothing.
pub const CAMERA_UNIFORM_SIZE: u32 = 80;

/// What a camera uploads with every draw: its projection of the world, and
/// where in the world it stands.
#[derive(Clone, Copy, Debug, PartialEq, Eq)]
pub struct CameraUniform {
    pub projection_matrix: Matrix4,
    pub camera_position: Vector3,
}

impl CameraUniform {
    /// The record as words: the sixteen of the projection, the three of the
    /// position, and one of padding, which is zero.
    pub open spec fn spec_words(&self) -> Seq<Scalar> {
        self.projection_matrix.m@ + seq![
            self.camera_position.x,
            self.camera_position.y,
            self.camera_position.z,
            ZERO,
        ]
    }

    pub fn words(&self) -> (words: Vec<Scalar>)
        ensures
            words@ == self.spec_words(),
            4 * words@.len() == CAMERA_UNIFORM_SIZE,
    {
        let mut words: Vec<Scalar> = Vec::new();
        let mut i: usize = 0;
        while i < 16
            invariant
                i <= 16,
                words@ == self.projection_matrix.m@.subrange(0, i as int),
            decreases 16 - i,
        {
            words.push(self.projection_matrix.m[i]);
            i += 1;
        }
        assert(words@ == self.projection_matrix.m@);
        words.push(self.camera_position.x);
        words.push(self.camera_position.y);
        words.push(self.camera_position.z);
        words.push(ZERO);
        assert(words@ == self.spec_words());
        words
    }

    /// The record as it is uploaded: `CAMERA_UNIFORM_SIZE` bytes, the words
    /// in the byte order of this machine.
    pub fn bytes(&self) -> (bytes: Vec<u8>)
        ensures
            bytes@.len() == CAMERA_UNIFORM_SIZE,
            bytes@ == words_le(self.spec_words()) || bytes@ == words_be(self.spec_words()),
    {
        let words = self.words();
        words_to_bytes(&words)
    }
}

/// The colour that every frame is cleared to, as the words of four
/// double-precision numbers: red 0.1, green 0.2, blue 0.3, alpha 1.
pub const CLEAR_COLOR: [u64; 4] = [
    0x3FB999999999999A,
    0x3FC999999999999A,
    0x3FD3333333333333,
    0x3FF0000000000000,
];

/// The draw work of one frame: one render pass, to be submitted as a whole.
#[derive(Debug)]
pub struct Frame {
    /// What the target is cleared to before anything is drawn.
    pub clear_color: [u64; 4],
    /// The steps of the pass, in order.
    pub commands: Vec<Command>,
}

/// What the draw of `mesh` records when the camera uploads `camera`.
pub open spec fn mesh_commands(camera: CameraUniform, mesh: Mesh) -> Seq<Command> {
    material_commands(
        mesh.render_pipeline,
        camera,
        mesh.data,
        mesh.geometry.spec_bind_group(),
        mesh.material.spec_bind_group(),
        mesh.geometry.spec_draw(),
    )
}

/// What a frame records: the draw of each mesh in turn.
pub open spec fn frame_commands(camera: CameraUniform, meshes: Seq<Mesh>) -> Seq<Command>
    decreases meshes.len(),
{
    if meshes.len() == 0 {
        Seq::empty()
    } else {
        frame_commands(camera, meshes.drop_last()) + mesh_commands(camera, meshes.last())
    }
}

/// Whether `frame` is the frame of a camera that uploads `camera` in a scene
/// that draws `meshes`.
pub open spec fn is_frame(frame: Frame, camera: CameraUniform, meshes: Seq<Mesh>) -> bool {
    frame.clear_color@ == CLEAR_COLOR@ && frame.commands@ == frame_commands(camera, meshes)
}

/// Something that composes the frames of a scene.
pub trait Camera {
    /// What the camera uploads with every draw.
    spec fn spec_uniform(&self) -> CameraUniform;

    /// Composes one frame. The caller has tried to acquire a target before
    /// and says in `acquired` whether it got one; `scene` is the scene that
    /// the camera is part of, if it is part of one.
    ///
    /// Without a target nothing else is looked at: the frame fails. With a
    /// target and without a scene it fails too. Otherwise the frame clears
    /// the target and draws every mesh of the scene, in the order of the list
    /// of meshes.
    fn render(&self, scene: Option<&Scene>, acquired: bool) -> (outcome: Result<Frame, RenderError>)
        requires
            scene matches Some(s) ==> s.wf(),
        ensures
            !acquired ==> (outcome matches Err(e) && e == RenderError::AcquireTimeout),
            acquired && scene is None ==> (outcome matches Err(e) && e == RenderError::Detached),
            acquired && scene is Some ==> (outcome matches Ok(frame) && is_frame(
                frame,
                self.spec_uniform(),
                scene->0.drawn(),
            )),
    ;
}

/// The global transformation of a camera has no inverse, so the camera has
/// no view of the world.
#[derive(Clone, Copy, Debug, PartialEq, Eq)]
pub struct SingularTransformation;

/// A camera that draws to a surface of `width` by `height` pixels.
#[derive(Clone, Copy, Debug, PartialEq, Eq)]
pub struct RenderCamera {
    pub width: u32,
    pub height: u32,
    /// The projection that the camera was made with.
    pub projection_matrix: Matrix4,
    /// What the camera uploads.
    pub data: CameraUniform,
}

/// `m` is the depth correction times `projection`.
pub open spec fn corrected_gives<A: Arithmetic>(ops: &A, projection: Matrix4, m: Matrix4) -> bool {
    exists|correction: Matrix4|
        correction.m@ == Matrix4::depth_correction_words() && #[trigger] ops.product_gives(
            correction,
            projection,
            m,
        )
}

/// `data` is what a camera with the projection `projection` uploads when its
/// global transformation is `global` and has the inverse `view`: the
/// corrected projection times `view`, and the image of the origin under
/// `global`, each of its first three parts divided by the fourth.
pub open spec fn uniform_gives<A: Arithmetic>(
    ops: &A,
    projection: Matrix4,
    global: Matrix4,
    view: Matrix4,
    data: CameraUniform,
) -> bool {
    exists|corrected: Matrix4, p: Vector4|
        {
            &&& corrected_gives(ops, projection, corrected)
            &&& #[trigger] ops.product_gives(corrected, view, data.projection_matrix)
            &&& #[trigger] ops.image_gives(global, Vector4::origin(), p)
            &&& ops.quotient_gives(p.x, p.w, data.camera_position.x)
            &&& ops.quotient_gives(p.y, p.w, data.camera_position.y)
            &&& ops.quotient_gives(p.z, p.w, data.camera_position.z)
        }
}

/// How `update` leaves a camera whose global transformation is `global`:
/// with `Ok`, the inversion gave some `view` and the camera uploads what
/// `uniform_gives` says; with `Err`, the inversion gave `None` and the camera
/// is as it was.
pub open spec fn camera_updated<A: Arithmetic>(
    ops: &A,
    pre: RenderCamera,
    global: Matrix4,
    post: RenderCamera,
    outcome: Result<(), SingularTransformation>,
) -> bool {
    match outcome {
        Ok(_) => {
            &&& post == RenderCamera { data: post.data, ..pre }
            &&& exists|view: Matrix4| #[trigger]
                ops.inverse_gives(global, Some(view)) && uniform_gives(
                    ops,
                    pre.projection_matrix,
                    global,
                    view,
                    post.data,
                )
        },
        Err(_) => post == pre && ops.inverse_gives(global, None),
    }
}

impl RenderCamera {
    /// A camera with the projection `projection_matrix` that stands at the
    /// origin and draws to a surface of `width` by `height` pixels.
    pub fn new<A: Arithmetic>(projection_matrix: Matrix4, width: u32, height: u32, ops: &A) -> (camera:
        RenderCamera)
        requires
            ops.total(),
        ensures
            camera == (RenderCamera { data: camera.data, projection_matrix, width, height }),
            camera.data.camera_position == Vector3::zero(),
            corrected_gives(ops, projection_matrix, camera.data.projection_matrix),
    {
        let correction = Matrix4::depth_correction();
        let corrected = ops.product(correction, projection_matrix);
        assert(ops.product_gives(correction, projection_matrix, corrected));
        RenderCamera {
            width,
            height,
            projection_matrix,
            data: CameraUniform { projection_matrix: corrected, camera_position: Vector3::zero() },
        }
    }

    /// Puts a new camera in the arena of `scene`, detached, and returns its
    /// index.
    pub fn new_ref<A: Arithmetic>(
        projection_matrix: Matrix4,
        width: u32,
        height: u32,
        scene: &mut Scene,
        ops: &A,
    ) -> (id: usize)
        requires
            old(scene).wf(),
            ops.total(),
        ensures
            final(scene).inserted(*old(scene), id as int),
            final(scene).component(id as int).variant matches Variant::Camera(camera) && camera == (
            RenderCamera { data: camera.data, projection_matrix, width, height })
                && camera.data.camera_position == Vector3::zero() && corrected_gives(
                ops,
                projection_matrix,
                camera.data.projection_matrix,
            ),
    {
        scene.insert(Variant::Camera(RenderCamera::new(projection_matrix, width, height, ops)))
    }

    /// Takes the new size of the surface. The surface itself is the
    /// caller's, who allocates it again with this size.
    pub fn resize(&mut self, width: u32, height: u32)
        ensures
            *final(self) == (RenderCamera { width, height, ..*old(self) }),
    {
        self.width = width;
        self.height = height;
    }

    /// Computes what the camera uploads from its global transformation: the
    /// view is the inverse of `global`, the position the image of the origin.
    /// Fails, and changes nothing, where `global` has no inverse.
    pub fn update<A: Arithmetic>(&mut self, global: &Matrix4, ops: &A) -> (outcome: Result<
        (),
        SingularTransformation,
    >)
        requires
            ops.total(),
        ensures
            camera_updated(ops, *old(self), *global, *final(self), outcome),
    {
        let view = match ops.inverse(*global) {
            Some(view) => view,
            None => {
                return Err(SingularTransformation);
            },
        };
        let correction = Matrix4::depth_correction();
        let corrected = ops.product(correction, self.projection_matrix);
        assert(ops.product_gives(correction, self.projection_matrix, corrected));
        self.data.projection_matrix = ops.product(corrected, view);
        let p = ops.image(*global, Vector4::origin());
        self.data.camera_position.x = ops.quotient(p.x, p.w);
        self.data.camera_position.y = ops.quotient(p.y, p.w);
        self.data.camera_position.z = ops.quotient(p.z, p.w);
        assert(ops.product_gives(corrected, view, self.data.projection_matrix));
        assert(ops.image_gives(*global, Vector4::origin(), p));
        assert(uniform_gives(ops, old(self).projection_matrix, *global, view, self.data));
        assert(ops.inverse_gives(*global, Some(view)));
        Ok(())
    }
}

impl Camera for RenderCamera {
    open spec fn spec_uniform(&self) -> CameraUniform {
        self.data
    }

    fn render(&self, scene: Option<&Scene>, acquired: bool) -> (outcome: Result<Frame, RenderError>) {
        if !acquired {
            return Err(RenderError::AcquireTimeout);
        }
        let scene = match scene {
            Some(scene) => scene,
            None => {
                return Err(RenderError::Detached);
            },
        };
        let meshes = scene.meshes();
        let lights = scene.lights();
        let mut commands: Vec<Command> = Vec::new();
        let mut k: usize = 0;
        while k < meshes.len()
            invariant
                k <= meshes@.len(),
                scene.wf(),
                meshes@ == scene.spec_meshes()@,
                commands@ == frame_commands(self.data, scene.drawn().take(k as int)),
            decreases meshes@.len() - k,
        {
            let ghost drawn = scene.drawn();
            proof {
                scene.lemma_drawn(k as int);
            }
            let mesh = match scene.get(meshes[k]) {
                Some(component) => match component.variant() {
                    Variant::Mesh(mesh) => *mesh,
                    _ => vstd::pervasive::unreached(),
                },
                None => vstd::pervasive::unreached(),
            };
            let mut wrapper = RenderPassWrapper {
                render_pass: commands,
                mesh_uniform: mesh.data,
                camera_uniform: self.data,
            };
            mesh.material.draw_material(&mesh.geometry, lights, mesh.render_pipeline, &mut wrapper);
            commands = wrapper.render_pass;
            proof {
                assert(drawn.take(k + 1).drop_last() =~= drawn.take(k as int));
                assert(drawn.take(k + 1).last() == mesh);
            }
            k += 1;
        }
        proof {
            assert(scene.drawn().take(k as int) =~= scene.drawn());
        }
        Ok(Frame { clear_color: CLEAR_COLOR, commands })
    }
}

} // verus!
