//! A retained-mode scene graph: a forest of components held in one arena,
//! with cached hierarchical transformations and the composition of the draw
//! work of a frame.

pub mod algebra;
pub mod bindable;
pub mod bytes;
pub mod camera;
pub mod component;
pub mod error;
pub mod geometry;
pub mod group;
pub mod hitbox;
pub mod laws;
pub mod light;
pub mod material;
pub mod mesh;
pub mod render_pass_wrapper;
pub mod scene;
pub mod shape;
pub mod transformation;

pub use crate::algebra::{
    Arithmetic, Kernels, Matrix3, Matrix4, Quaternion, Scalar, Vector3, Vector4, HALF, ONE, ZERO,
};
pub use crate::bindable::{Bindable, Handle};
pub use crate::camera::{
    Camera, CameraUniform, Frame, RenderCamera, SingularTransformation, CAMERA_UNIFORM_SIZE,
    CLEAR_COLOR,
};
pub use crate::component::{Component, ComponentView, Variant};
pub use crate::error::{RenderError, SceneError, Unimplemented};
pub use crate::geometry::{BaseGeometry, Geometry, GeometryUniformBase, INDICES, VERTICES};
pub use crate::group::Group;
pub use crate::hitbox::{Hitbox, HitboxType};
pub use crate::light::{Light, LightUniform, PointLight, LIGHT_UNIFORM_SIZE};
pub use crate::material::{Material, SolidColorMaterial};
pub use crate::mesh::{Mesh, MeshUniform, MESH_UNIFORM_SIZE};
pub use crate::render_pass_wrapper::{Command, RenderPassWrapper, Uniform, PUSH_CONSTANT_SIZE};
pub use crate::scene::Scene;
pub use crate::shape::Shape;
pub use crate::transformation::{Transformation, TransformationView};
