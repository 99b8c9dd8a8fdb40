use cgmath::SquareMatrix;
use transform3d::{
    BaseGeometry, Bindable, Camera, CameraUniform, Command, Geometry, Group, Kernels, Light,
    Material, Matrix3, Matrix4, Mesh, MeshUniform, PointLight, Quaternion, RenderCamera,
    RenderError, RenderPassWrapper, Scalar, Scene, SolidColorMaterial, Unimplemented, Uniform,
    Variant, Vector3, Vector4, CAMERA_UNIFORM_SIZE, CLEAR_COLOR, INDICES, MESH_UNIFORM_SIZE, ONE,
    PUSH_CONSTANT_SIZE, VERTICES,
};

fn f(w: Scalar) -> f32 {
    f32::from_bits(w)
}

fn v3(v: Vector3) -> cgmath::Vector3<f32> {
    cgmath::Vector3::new(f(v.x), f(v.y), f(v.z))
}

fn w3(v: cgmath::Vector3<f32>) -> Vector3 {
    Vector3 { x: v.x.to_bits(), y: v.y.to_bits(), z: v.z.to_bits() }
}

fn v4(v: Vector4) -> cgmath::Vector4<f32> {
    cgmath::Vector4::new(f(v.x), f(v.y), f(v.z), f(v.w))
}

fn w4(v: cgmath::Vector4<f32>) -> Vector4 {
    Vector4 { x: v.x.to_bits(), y: v.y.to_bits(), z: v.z.to_bits(), w: v.w.to_bits() }
}

fn q(a: Quaternion) -> cgmath::Quaternion<f32> {
    cgmath::Quaternion::new(f(a.s), f(a.v.x), f(a.v.y), f(a.v.z))
}

fn wq(a: cgmath::Quaternion<f32>) -> Quaternion {
    Quaternion { s: a.s.to_bits(), v: w3(a.v) }
}

fn m4(m: Matrix4) -> cgmath::Matrix4<f32> {
    let w = m.m;
    cgmath::Matrix4::new(
        f(w[0]), f(w[1]), f(w[2]), f(w[3]),
        f(w[4]), f(w[5]), f(w[6]), f(w[7]),
        f(w[8]), f(w[9]), f(w[10]), f(w[11]),
        f(w[12]), f(w[13]), f(w[14]), f(w[15]),
    )
}

fn wm(m: cgmath::Matrix4<f32>) -> Matrix4 {
    let a: [[f32; 4]; 4] = m.into();
    let mut words = [0u32; 16];
    for c in 0..4 {
        for r in 0..4 {
            words[4 * c + r] = a[c][r].to_bits();
        }
    }
    Matrix4 { m: words }
}

fn arithmetic() -> Kernels<
    impl Fn(Scalar, Scalar, Scalar) -> Quaternion,
    impl Fn(Quaternion, Quaternion) -> Quaternion,
    impl Fn(Vector3, Vector3) -> Vector3,
    impl Fn(Vector3) -> Matrix4,
    impl Fn(Quaternion) -> Matrix4,
    impl Fn(Vector3) -> Matrix4,
    impl Fn(Matrix4, Matrix4) -> Matrix4,
    impl Fn(Matrix4) -> Option<Matrix4>,
    impl Fn(Matrix4, Vector4) -> Vector4,
    impl Fn(Scalar, Scalar) -> Scalar,
> {
    Kernels {
        euler: |x: Scalar, y: Scalar, z: Scalar| {
            wq(cgmath::Quaternion::from(cgmath::Euler {
                x: cgmath::Rad(f(x)),
                y: cgmath::Rad(f(y)),
                z: cgmath::Rad(f(z)),
            }))
        },
        turn: |a: Quaternion, b: Quaternion| wq(q(a) * q(b)),
        sum: |a: Vector3, b: Vector3| w3(v3(a) + v3(b)),
        translation: |v: Vector3| wm(cgmath::Matrix4::from_translation(v3(v))),
        rotation: |r: Quaternion| wm(cgmath::Matrix4::from(q(r))),
        scale: |v: Vector3| wm(cgmath::Matrix4::from_nonuniform_scale(f(v.x), f(v.y), f(v.z))),
        product: |a: Matrix4, b: Matrix4| wm(m4(a) * m4(b)),
        inverse: |a: Matrix4| m4(a).invert().map(wm),
        image: |a: Matrix4, p: Vector4| w4(m4(a) * v4(p)),
        quotient: |a: Scalar, b: Scalar| (f(a) / f(b)).to_bits(),
    }
}

fn words3(x: f32, y: f32, z: f32) -> Vector3 {
    Vector3 { x: x.to_bits(), y: y.to_bits(), z: z.to_bits() }
}

fn sample_camera() -> CameraUniform {
    let mut words = [0u32; 16];
    for (i, word) in words.iter_mut().enumerate() {
        *word = (i as f32 + 1.0).to_bits();
    }
    CameraUniform { projection_matrix: Matrix4 { m: words }, camera_position: words3(17.0, 18.0, 19.0) }
}

fn sample_mesh() -> MeshUniform {
    let mut four = [0u32; 16];
    for (i, word) in four.iter_mut().enumerate() {
        *word = (i as f32 + 101.0).to_bits();
    }
    let mut three = [0u32; 9];
    for (i, word) in three.iter_mut().enumerate() {
        *word = (i as f32 + 201.0).to_bits();
    }
    MeshUniform { transformation: Matrix4 { m: four }, normal_transformation: Matrix3 { m: three } }
}

fn native(numbers: &[f32]) -> Vec<u8> {
    numbers.iter().flat_map(|x| x.to_ne_bytes()).collect()
}

#[test]
fn the_constant_region_holds_the_camera_and_then_the_mesh() {
    assert_eq!(CAMERA_UNIFORM_SIZE, 80);
    assert_eq!(MESH_UNIFORM_SIZE, 100);
    assert_eq!(PUSH_CONSTANT_SIZE, CAMERA_UNIFORM_SIZE + MESH_UNIFORM_SIZE);
    assert_eq!(PUSH_CONSTANT_SIZE, 180);
    let camera = sample_camera();
    let mesh = sample_mesh();
    assert_eq!(camera.bytes().len(), CAMERA_UNIFORM_SIZE as usize);
    assert_eq!(mesh.bytes().len(), MESH_UNIFORM_SIZE as usize);
    assert_eq!(Uniform::Camera(camera).size(), 80);
    assert_eq!(Uniform::Mesh(mesh).size(), 100);
    assert_eq!(Uniform::Camera(camera).bytes(), camera.bytes());
    assert_eq!(Uniform::Mesh(mesh).bytes(), mesh.bytes());
}

#[test]
fn the_records_are_uploaded_word_for_word() {
    let camera = sample_camera();
    let mut numbers: Vec<f32> = (1..=19).map(|i| i as f32).collect();
    numbers.push(0.0);
    assert_eq!(camera.words().len(), 20);
    assert_eq!(camera.bytes(), native(&numbers));

    let mesh = sample_mesh();
    let numbers: Vec<f32> = (101..=116).chain(201..=209).map(|i| i as f32).collect();
    assert_eq!(mesh.words().len(), 25);
    assert_eq!(mesh.bytes(), native(&numbers));

    let blank = MeshUniform::new();
    assert_eq!(m4(blank.transformation), cgmath::Matrix4::<f32>::identity());
    assert_eq!(blank.normal_transformation.m, [ONE, 0, 0, 0, ONE, 0, 0, 0, ONE]);
}

#[test]
fn set_pipeline_uploads_the_mesh_behind_the_camera() {
    let camera = sample_camera();
    let mesh = sample_mesh();
    let mut pass =
        RenderPassWrapper { render_pass: Vec::new(), mesh_uniform: mesh, camera_uniform: camera };
    pass.set_pipeline(42);
    assert_eq!(
        pass.render_pass,
        vec![
            Command::SetPipeline { pipeline: 42 },
            Command::SetPushConstants { offset: 0, data: Uniform::Camera(camera) },
            Command::SetPushConstants { offset: 80, data: Uniform::Mesh(mesh) },
        ]
    );
    match (pass.render_pass[1], pass.render_pass[2]) {
        (
            Command::SetPushConstants { offset: first, data: camera_data },
            Command::SetPushConstants { offset: second, data: _ },
        ) => {
            assert_eq!(first, 0);
            assert_eq!(second as usize, camera_data.bytes().len());
            assert_eq!(second, CAMERA_UNIFORM_SIZE);
        },
        _ => unreachable!(),
    }
    pass.set_pipeline(43);
    assert_eq!(pass.render_pass.len(), 6);
    assert_eq!(pass.render_pass[3], Command::SetPipeline { pipeline: 43 });
}

#[test]
fn the_pentagon_is_drawn_as_nine_indices() {
    let geometry = BaseGeometry::new(5, 6);
    assert_eq!(geometry.num_indices, 9);
    assert_eq!(geometry.num_indices as usize, INDICES.len());
    assert_eq!(INDICES, [0, 1, 4, 1, 2, 4, 2, 3, 4]);
    assert_eq!(geometry.bind_group(), None);
    let mut pass = RenderPassWrapper {
        render_pass: Vec::new(),
        mesh_uniform: sample_mesh(),
        camera_uniform: sample_camera(),
    };
    geometry.draw_geometry(&mut pass);
    assert_eq!(
        pass.render_pass,
        vec![
            Command::SetVertexBuffer { slot: 0, buffer: 5 },
            Command::SetIndexBuffer { buffer: 6 },
            Command::DrawIndexed {
                first_index: 0,
                end_index: 9,
                base_vertex: 0,
                first_instance: 0,
                end_instance: 1,
            },
        ]
    );
}

#[test]
fn the_buffers_hold_the_numbers_in_the_byte_order_of_the_machine() {
    let corners: [f32; 15] = [
        -0.0868241, 0.49240386, 0.0, -0.49513406, 0.06958647, 0.0, -0.21918549, -0.44939706, 0.0,
        0.35966998, -0.3473291, 0.0, 0.44147372, 0.2347359, 0.0,
    ];
    for (word, corner) in VERTICES.iter().zip(corners.iter()) {
        assert_eq!(f(*word), *corner);
    }
    assert_eq!(BaseGeometry::vertex_bytes(), native(&corners));
    assert_eq!(BaseGeometry::vertex_bytes().len(), 60);
    assert_eq!(SolidColorMaterial::color_bytes(words3(0.0, 1.0, 0.5)), native(&[0.0, 1.0, 0.5]));
}

#[test]
fn a_material_binds_geometry_resources_before_its_own() {
    let camera = sample_camera();
    let mesh = sample_mesh();
    let geometry = BaseGeometry::new(5, 6);
    let material = SolidColorMaterial::new(words3(0.0, 1.0, 0.0), 77);
    assert_eq!(material.bind_group(), Some(77));
    let mut pass =
        RenderPassWrapper { render_pass: Vec::new(), mesh_uniform: mesh, camera_uniform: camera };
    material.draw_material(&geometry, &Vec::new(), 3, &mut pass);
    assert_eq!(
        pass.render_pass,
        vec![
            Command::SetPipeline { pipeline: 3 },
            Command::SetPushConstants { offset: 0, data: Uniform::Camera(camera) },
            Command::SetPushConstants { offset: 80, data: Uniform::Mesh(mesh) },
            Command::SetBindGroup { index: 0, bind_group: 77 },
            Command::SetVertexBuffer { slot: 0, buffer: 5 },
            Command::SetIndexBuffer { buffer: 6 },
            Command::DrawIndexed {
                first_index: 0,
                end_index: 9,
                base_vertex: 0,
                first_instance: 0,
                end_instance: 1,
            },
        ]
    );
    assert_eq!(pass.mesh_uniform, mesh);
    assert_eq!(pass.camera_uniform, camera);
}

#[test]
fn one_camera_and_one_mesh_give_one_draw() {
    let ops = arithmetic();
    let mut scene = Scene::new_ref();
    let root = Group::new_ref(&mut scene);
    let eye = RenderCamera::new_ref(wm(cgmath::Matrix4::identity()), 800, 600, &mut scene, &ops);
    let geometry = BaseGeometry::new(11, 12);
    let material = SolidColorMaterial::new(words3(0.0, 1.0, 0.0), 13);
    let mesh = Mesh::new_ref(geometry, material, 7, &mut scene);
    assert_eq!(scene.set_root(root), Ok(()));
    assert_eq!(scene.add(root, eye), Ok(()));
    assert_eq!(scene.add(root, mesh), Ok(()));
    assert!(scene.get(mesh).unwrap().scene());
    assert!(scene.get(eye).unwrap().scene());

    let identity = wm(cgmath::Matrix4::identity());
    assert_eq!(scene.update_recursive(root, &identity, &ops), Ok(()));
    let frame = scene.render(eye, true).unwrap();

    let camera_data = match scene.get(eye).unwrap().variant() {
        Variant::Camera(camera) => camera.data,
        _ => unreachable!(),
    };
    let mesh_data = match scene.get(mesh).unwrap().variant() {
        Variant::Mesh(mesh) => mesh.data,
        _ => unreachable!(),
    };
    assert_eq!(m4(camera_data.projection_matrix), m4(Matrix4::depth_correction()));
    assert_eq!(frame.clear_color, CLEAR_COLOR);
    assert_eq!(
        frame.clear_color.map(f64::from_bits),
        [0.1, 0.2, 0.3, 1.0]
    );
    assert_eq!(
        frame.commands,
        vec![
            Command::SetPipeline { pipeline: 7 },
            Command::SetPushConstants { offset: 0, data: Uniform::Camera(camera_data) },
            Command::SetPushConstants {
                offset: CAMERA_UNIFORM_SIZE,
                data: Uniform::Mesh(mesh_data),
            },
            Command::SetBindGroup { index: 0, bind_group: 13 },
            Command::SetVertexBuffer { slot: 0, buffer: 11 },
            Command::SetIndexBuffer { buffer: 12 },
            Command::DrawIndexed {
                first_index: 0,
                end_index: 9,
                base_vertex: 0,
                first_instance: 0,
                end_instance: 1,
            },
        ]
    );
    let draws = frame.commands.iter().filter(|c| matches!(c, Command::DrawIndexed { .. })).count();
    assert_eq!(draws, 1);
}

#[test]
fn every_listed_mesh_is_drawn_in_the_order_of_the_list() {
    let ops = arithmetic();
    let mut scene = Scene::new_ref();
    let root = Group::new_ref(&mut scene);
    let eye = RenderCamera::new_ref(wm(cgmath::Matrix4::identity()), 800, 600, &mut scene, &ops);
    let mut ids = Vec::new();
    for pipeline in [30u32, 10, 20] {
        let geometry = BaseGeometry::new(pipeline + 1, pipeline + 2);
        let material = SolidColorMaterial::new(words3(1.0, 0.0, 0.0), pipeline + 3);
        ids.push(Mesh::new_ref(geometry, material, pipeline, &mut scene));
    }
    assert_eq!(scene.set_root(root), Ok(()));
    assert_eq!(scene.add(root, eye), Ok(()));
    for id in ids.iter() {
        assert_eq!(scene.add(root, *id), Ok(()));
    }
    let frame = scene.render(eye, true).unwrap();
    assert_eq!(frame.commands.len(), 21);
    let pipelines: Vec<u32> = frame
        .commands
        .iter()
        .filter_map(|c| match c {
            Command::SetPipeline { pipeline } => Some(*pipeline),
            _ => None,
        })
        .collect();
    assert_eq!(pipelines, vec![30, 10, 20]);
    assert_eq!(frame.commands[7], Command::SetPipeline { pipeline: 10 });
    assert_eq!(frame.commands[11], Command::SetVertexBuffer { slot: 0, buffer: 11 });
}

#[test]
fn an_empty_scene_gives_an_empty_frame() {
    let ops = arithmetic();
    let mut scene = Scene::new_ref();
    let eye = RenderCamera::new_ref(wm(cgmath::Matrix4::identity()), 800, 600, &mut scene, &ops);
    assert_eq!(scene.set_root(eye), Ok(()));
    let frame = scene.render(eye, true).unwrap();
    assert!(frame.commands.is_empty());
    assert_eq!(frame.clear_color, CLEAR_COLOR);
}

#[test]
fn rendering_faults() {
    let ops = arithmetic();
    let mut scene = Scene::new_ref();
    let root = Group::new_ref(&mut scene);
    let eye = RenderCamera::new_ref(wm(cgmath::Matrix4::identity()), 800, 600, &mut scene, &ops);
    assert_eq!(scene.render(eye, true).err(), Some(RenderError::Detached));
    assert_eq!(scene.render(eye, false).err(), Some(RenderError::AcquireTimeout));
    assert_eq!(scene.render(root, true).err(), Some(RenderError::NotACamera));
    assert_eq!(scene.render(root, false).err(), Some(RenderError::NotACamera));
    assert_eq!(scene.render(9, true).err(), Some(RenderError::NotACamera));
    assert_eq!(scene.set_root(root), Ok(()));
    assert_eq!(scene.add(root, eye), Ok(()));
    assert_eq!(scene.render(eye, false).err(), Some(RenderError::AcquireTimeout));
    assert!(scene.render(eye, true).is_ok());

    let camera = RenderCamera::new(wm(cgmath::Matrix4::identity()), 1, 1, &ops);
    assert_eq!(camera.render(None, false).err(), Some(RenderError::AcquireTimeout));
    assert_eq!(camera.render(None, true).err(), Some(RenderError::Detached));
    assert_eq!(camera.render(Some(&scene), false).err(), Some(RenderError::AcquireTimeout));
    assert!(camera.render(Some(&scene), true).unwrap().commands.is_empty());
}

#[test]
fn a_camera_computes_what_it_uploads() {
    let ops = arithmetic();
    let projection = cgmath::Matrix4::from_nonuniform_scale(2.0f32, 3.0, 4.0);
    let mut camera = RenderCamera::new(wm(projection), 640, 480, &ops);
    let correction = m4(Matrix4::depth_correction());
    assert_eq!(m4(camera.data.projection_matrix), correction * projection);
    assert_eq!(camera.data.camera_position, Vector3::zero());
    assert_eq!((camera.width, camera.height), (640, 480));

    let place = cgmath::Matrix4::from_translation(cgmath::Vector3::new(1.0f32, 2.0, 3.0))
        * cgmath::Matrix4::from_scale(2.0f32);
    assert_eq!(camera.update(&wm(place), &ops), Ok(()));
    assert_eq!(
        m4(camera.data.projection_matrix),
        correction * projection * place.invert().unwrap()
    );
    assert_eq!(v3(camera.data.camera_position), cgmath::Vector3::new(1.0f32, 2.0, 3.0));

    let halved = place * 2.0f32;
    assert_eq!(camera.update(&wm(halved), &ops), Ok(()));
    assert_eq!(v3(camera.data.camera_position), cgmath::Vector3::new(1.0f32, 2.0, 3.0));

    let before = camera;
    let flat = cgmath::Matrix4::from_nonuniform_scale(1.0f32, 0.0, 1.0);
    assert_eq!(camera.update(&wm(flat), &ops), Err(transform3d::SingularTransformation));
    assert_eq!(camera, before);

    camera.resize(10, 20);
    assert_eq!((camera.width, camera.height), (10, 20));
    assert_eq!(camera.data, before.data);
}

#[test]
fn no_light_can_be_bound() {
    let mut pass = RenderPassWrapper {
        render_pass: vec![Command::SetPipeline { pipeline: 1 }],
        mesh_uniform: sample_mesh(),
        camera_uniform: sample_camera(),
    };
    assert_eq!(PointLight.bind_light(&mut pass), Err(Unimplemented::BindLight));
    assert_eq!(pass.render_pass, vec![Command::SetPipeline { pipeline: 1 }]);
}
