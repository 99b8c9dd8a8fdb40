use cgmath::SquareMatrix;
use transform3d::{
    BaseGeometry, Group, Hitbox, HitboxType, Kernels, Matrix4, Mesh, PointLight, Quaternion,
    RenderCamera, Scalar, Scene, SceneError, SolidColorMaterial, Transformation, Variant, Vector3,
    Vector4,
};

fn f(w: Scalar) -> f32 {
    f32::from_bits(w)
}

fn v3(v: Vector3) -> cgmath::Vector3<f32> {
    cgmath::Vector3::new(f(v.x), f(v.y), f(v.z))
}

fn w3(v: cgmath::Vector3<f32>) -> Vector3 {
    Vector3 { x: v.x.to_bits(), y: v.y.to_bits(), z: v.z.to_bits() }
}

fn v4(v: Vector4) -> cgmath::Vector4<f32> {
    cgmath::Vector4::new(f(v.x), f(v.y), f(v.z), f(v.w))
}

fn w4(v: cgmath::Vector4<f32>) -> Vector4 {
    Vector4 { x: v.x.to_bits(), y: v.y.to_bits(), z: v.z.to_bits(), w: v.w.to_bits() }
}

fn q(a: Quaternion) -> cgmath::Quaternion<f32> {
    cgmath::Quaternion::new(f(a.s), f(a.v.x), f(a.v.y), f(a.v.z))
}

fn wq(a: cgmath::Quaternion<f32>) -> Quaternion {
    Quaternion { s: a.s.to_bits(), v: w3(a.v) }
}

fn m4(m: Matrix4) -> cgmath::Matrix4<f32> {
    let w = m.m;
    cgmath::Matrix4::new(
        f(w[0]), f(w[1]), f(w[2]), f(w[3]),
        f(w[4]), f(w[5]), f(w[6]), f(w[7]),
        f(w[8]), f(w[9]), f(w[10]), f(w[11]),
        f(w[12]), f(w[13]), f(w[14]), f(w[15]),
    )
}

fn wm(m: cgmath::Matrix4<f32>) -> Matrix4 {
    let a: [[f32; 4]; 4] = m.into();
    let mut words = [0u32; 16];
    for c in 0..4 {
        for r in 0..4 {
            words[4 * c + r] = a[c][r].to_bits();
        }
    }
    Matrix4 { m: words }
}

fn arithmetic() -> Kernels<
    impl Fn(Scalar, Scalar, Scalar) -> Quaternion,
    impl Fn(Quaternion, Quaternion) -> Quaternion,
    impl Fn(Vector3, Vector3) -> Vector3,
    impl Fn(Vector3) -> Matrix4,
    impl Fn(Quaternion) -> Matrix4,
    impl Fn(Vector3) -> Matrix4,
    impl Fn(Matrix4, Matrix4) -> Matrix4,
    impl Fn(Matrix4) -> Option<Matrix4>,
    impl Fn(Matrix4, Vector4) -> Vector4,
    impl Fn(Scalar, Scalar) -> Scalar,
> {
    Kernels {
        euler: |x: Scalar, y: Scalar, z: Scalar| {
            wq(cgmath::Quaternion::from(cgmath::Euler {
                x: cgmath::Rad(f(x)),
                y: cgmath::Rad(f(y)),
                z: cgmath::Rad(f(z)),
            }))
        },
        turn: |a: Quaternion, b: Quaternion| wq(q(a) * q(b)),
        sum: |a: Vector3, b: Vector3| w3(v3(a) + v3(b)),
        translation: |v: Vector3| wm(cgmath::Matrix4::from_translation(v3(v))),
        rotation: |r: Quaternion| wm(cgmath::Matrix4::from(q(r))),
        scale: |v: Vector3| wm(cgmath::Matrix4::from_nonuniform_scale(f(v.x), f(v.y), f(v.z))),
        product: |a: Matrix4, b: Matrix4| wm(m4(a) * m4(b)),
        inverse: |a: Matrix4| m4(a).invert().map(wm),
        image: |a: Matrix4, p: Vector4| w4(m4(a) * v4(p)),
        quotient: |a: Scalar, b: Scalar| (f(a) / f(b)).to_bits(),
    }
}

fn words3(x: f32, y: f32, z: f32) -> Vector3 {
    Vector3 { x: x.to_bits(), y: y.to_bits(), z: z.to_bits() }
}

fn mesh(scene: &mut Scene, pipeline: u32) -> usize {
    let geometry = BaseGeometry::new(10 * pipeline, 10 * pipeline + 1);
    let material = SolidColorMaterial::new(words3(0.0, 1.0, 0.0), 10 * pipeline + 2);
    Mesh::new_ref(geometry, material, pipeline, scene)
}

fn camera(scene: &mut Scene) -> usize {
    RenderCamera::new_ref(wm(cgmath::Matrix4::identity()), 800, 600, scene, &arithmetic())
}

fn moved(scene: &mut Scene, id: usize, x: f32, y: f32, z: f32) {
    let mut t: Transformation = *scene.get(id).unwrap().transformation();
    t.set_translation(&words3(x, y, z));
    assert_eq!(scene.set_transformation(id, t), Ok(()));
}

fn local(scene: &Scene, id: usize) -> cgmath::Matrix4<f32> {
    m4(*scene.get(id).unwrap().transformation().local_transformation())
}

fn global(scene: &Scene, id: usize) -> cgmath::Matrix4<f32> {
    m4(*scene.get(id).unwrap().transformation().global_transformation())
}

#[test]
fn test_new() {
    let scene = Scene::new_ref();
    assert_eq!(scene.count(), 0);
    assert_eq!(scene.root(), None);
    assert!(scene.meshes().is_empty());
    assert!(scene.lights().is_empty());
}

#[test]
fn every_new_component_is_detached_and_in_the_identity_pose() {
    let mut scene = Scene::new_ref();
    let sphere = HitboxType::SphereHitbox { center: words3(0.0, 0.0, 0.0), radius: 1.0f32.to_bits() };
    let ids = [
        Group::new_ref(&mut scene),
        mesh(&mut scene, 1),
        camera(&mut scene),
        PointLight::new_ref(&mut scene),
        Hitbox::new(sphere, &mut scene),
    ];
    assert_eq!(ids, [0, 1, 2, 3, 4]);
    assert_eq!(scene.count(), 5);
    for id in ids {
        let component = scene.get(id).unwrap();
        assert!(!component.has_parent());
        assert!(!component.scene());
        assert_eq!(component.parent(), None);
        assert!(component.children().is_empty());
        let t = component.transformation();
        assert!(!t.needs_update());
        assert_eq!(t.global_transformation(), t.local_transformation());
        assert_eq!(m4(*t.local_transformation()), cgmath::Matrix4::<f32>::identity());
    }
    assert!(matches!(scene.get(0).unwrap().variant(), Variant::Group(_)));
    assert!(matches!(scene.get(1).unwrap().variant(), Variant::Mesh(_)));
    assert!(matches!(scene.get(2).unwrap().variant(), Variant::Camera(_)));
    assert!(matches!(scene.get(3).unwrap().variant(), Variant::Light(_)));
    assert_eq!(*scene.get(4).unwrap().variant(), Variant::Hitbox(Hitbox { hitbox_type: sphere }));
    assert!(scene.get(5).is_none());
    assert!(scene.meshes().is_empty());
    assert_eq!(scene.root(), None);
}

#[test]
fn add_links_child_and_parent() {
    let mut scene = Scene::new_ref();
    let a = Group::new_ref(&mut scene);
    let b = Group::new_ref(&mut scene);
    let c = Group::new_ref(&mut scene);
    assert_eq!(scene.add(a, b), Ok(()));
    assert_eq!(scene.add(a, c), Ok(()));
    assert_eq!(scene.get(a).unwrap().children(), &vec![b, c]);
    assert_eq!(scene.get(b).unwrap().parent(), Some(a));
    assert_eq!(scene.get(c).unwrap().parent(), Some(a));
    assert!(scene.get(b).unwrap().has_parent());
    assert!(scene.get(c).unwrap().has_parent());
    assert!(!scene.get(a).unwrap().has_parent());
    assert!(!scene.get(b).unwrap().scene());
}

#[test]
fn adding_a_parented_child_faults_and_changes_nothing() {
    let mut scene = Scene::new_ref();
    let a = Group::new_ref(&mut scene);
    let b = Group::new_ref(&mut scene);
    let c = mesh(&mut scene, 1);
    assert_eq!(scene.add(a, c), Ok(()));
    assert_eq!(scene.add(b, c), Err(SceneError::AlreadyParented));
    assert_eq!(scene.add(a, c), Err(SceneError::AlreadyParented));
    assert_eq!(scene.get(a).unwrap().children(), &vec![c]);
    assert!(scene.get(b).unwrap().children().is_empty());
    assert_eq!(scene.get(c).unwrap().parent(), Some(a));
}

#[test]
fn adding_the_root_faults() {
    let mut scene = Scene::new_ref();
    let root = Group::new_ref(&mut scene);
    let other = Group::new_ref(&mut scene);
    assert_eq!(scene.set_root(root), Ok(()));
    assert_eq!(scene.add(other, root), Err(SceneError::AlreadyParented));
    assert!(scene.get(other).unwrap().children().is_empty());
}

#[test]
fn add_with_an_unknown_index_faults() {
    let mut scene = Scene::new_ref();
    let a = Group::new_ref(&mut scene);
    assert_eq!(scene.add(a, 7), Err(SceneError::UnknownComponent));
    assert_eq!(scene.add(7, a), Err(SceneError::UnknownComponent));
    assert!(!scene.get(a).unwrap().has_parent());
    assert!(scene.get(a).unwrap().children().is_empty());
}

#[test]
fn add_that_would_close_a_cycle_faults() {
    let mut scene = Scene::new_ref();
    let a = Group::new_ref(&mut scene);
    let b = Group::new_ref(&mut scene);
    let c = Group::new_ref(&mut scene);
    assert_eq!(scene.add(a, a), Err(SceneError::Cycle));
    assert_eq!(scene.add(a, b), Ok(()));
    assert_eq!(scene.add(b, c), Ok(()));
    assert_eq!(scene.add(c, a), Err(SceneError::Cycle));
    assert_eq!(scene.add(b, a), Err(SceneError::Cycle));
    assert!(!scene.get(a).unwrap().has_parent());
    assert!(scene.get(c).unwrap().children().is_empty());
}

#[test]
fn set_root_attaches_the_whole_subtree() {
    let mut scene = Scene::new_ref();
    let root = Group::new_ref(&mut scene);
    let inner = Group::new_ref(&mut scene);
    let m1 = mesh(&mut scene, 1);
    let light = PointLight::new_ref(&mut scene);
    let m2 = mesh(&mut scene, 2);
    let eye = camera(&mut scene);
    let stray = mesh(&mut scene, 3);
    assert_eq!(scene.add(root, inner), Ok(()));
    assert_eq!(scene.add(inner, m1), Ok(()));
    assert_eq!(scene.add(inner, light), Ok(()));
    assert_eq!(scene.add(root, m2), Ok(()));
    assert_eq!(scene.add(m2, eye), Ok(()));
    assert!(scene.meshes().is_empty());
    assert!(scene.lights().is_empty());

    assert_eq!(scene.set_root(root), Ok(()));

    assert_eq!(scene.root(), Some(root));
    assert!(scene.get(root).unwrap().has_parent());
    assert_eq!(scene.get(root).unwrap().parent(), None);
    for id in [root, inner, m1, light, m2, eye] {
        assert!(scene.get(id).unwrap().scene());
    }
    assert!(!scene.get(stray).unwrap().scene());
    assert_eq!(scene.meshes(), &vec![m1, m2]);
    assert_eq!(scene.lights(), &vec![light]);
}

#[test]
fn subtree_is_listed_parents_first_and_children_in_order() {
    let mut scene = Scene::new_ref();
    let root = Group::new_ref(&mut scene);
    let m = [
        mesh(&mut scene, 0),
        mesh(&mut scene, 1),
        mesh(&mut scene, 2),
        mesh(&mut scene, 3),
        mesh(&mut scene, 4),
    ];
    // m3 has the children m0 and m4; m0 has the child m2; m1 is the sibling
    // after m3.
    assert_eq!(scene.add(m[0], m[2]), Ok(()));
    assert_eq!(scene.add(m[3], m[0]), Ok(()));
    assert_eq!(scene.add(m[3], m[4]), Ok(()));
    assert_eq!(scene.set_root(root), Ok(()));
    assert_eq!(scene.add(root, m[3]), Ok(()));
    assert_eq!(scene.add(root, m[1]), Ok(()));
    assert_eq!(scene.meshes(), &vec![m[3], m[0], m[2], m[4], m[1]]);
}

#[test]
fn set_root_faults() {
    let mut scene = Scene::new_ref();
    let a = Group::new_ref(&mut scene);
    let b = Group::new_ref(&mut scene);
    let c = Group::new_ref(&mut scene);
    assert_eq!(scene.set_root(9), Err(SceneError::UnknownComponent));
    assert_eq!(scene.add(a, b), Ok(()));
    assert_eq!(scene.set_root(b), Err(SceneError::AlreadyParented));
    assert_eq!(scene.root(), None);
    assert!(!scene.get(b).unwrap().scene());
    assert_eq!(scene.set_root(a), Ok(()));
    assert_eq!(scene.set_root(c), Err(SceneError::RootAlreadySet));
    assert_eq!(scene.set_root(a), Err(SceneError::AlreadyParented));
    assert_eq!(scene.root(), Some(a));
    assert!(!scene.get(c).unwrap().has_parent());
    assert!(!scene.get(c).unwrap().scene());
}

#[test]
fn meshes_are_listed_in_the_order_of_attachment() {
    let mut scene = Scene::new_ref();
    let root = Group::new_ref(&mut scene);
    let m2 = mesh(&mut scene, 2);
    let m1 = mesh(&mut scene, 1);
    assert_eq!(scene.set_root(root), Ok(()));
    assert_eq!(scene.add(root, m1), Ok(()));
    assert_eq!(scene.meshes(), &vec![m1]);
    assert_eq!(scene.add(root, m2), Ok(()));
    assert_eq!(scene.meshes(), &vec![m1, m2]);
    let l1 = PointLight::new_ref(&mut scene);
    let l2 = PointLight::new_ref(&mut scene);
    assert_eq!(scene.add(m2, l2), Ok(()));
    assert_eq!(scene.add(m1, l1), Ok(()));
    assert_eq!(scene.lights(), &vec![l2, l1]);
    assert_eq!(scene.meshes(), &vec![m1, m2]);
}

#[test]
fn add_under_a_detached_parent_lists_nothing() {
    let mut scene = Scene::new_ref();
    let root = Group::new_ref(&mut scene);
    let loose = Group::new_ref(&mut scene);
    let m = mesh(&mut scene, 1);
    assert_eq!(scene.set_root(root), Ok(()));
    assert_eq!(scene.add(loose, m), Ok(()));
    assert!(scene.meshes().is_empty());
    assert!(!scene.get(m).unwrap().scene());
    assert_eq!(scene.add(root, loose), Ok(()));
    assert_eq!(scene.meshes(), &vec![m]);
    assert!(scene.get(m).unwrap().scene());
    assert!(scene.get(loose).unwrap().scene());
}

#[test]
fn traversal_composes_globals_down_a_tree_of_depth_three() {
    let ops = arithmetic();
    let mut scene = Scene::new_ref();
    let a = Group::new_ref(&mut scene);
    let b = Group::new_ref(&mut scene);
    let c = mesh(&mut scene, 1);
    let d = Group::new_ref(&mut scene);
    let e = mesh(&mut scene, 2);
    assert_eq!(scene.add(a, b), Ok(()));
    assert_eq!(scene.add(b, c), Ok(()));
    assert_eq!(scene.add(c, d), Ok(()));
    assert_eq!(scene.add(a, e), Ok(()));
    moved(&mut scene, a, 1.0, 0.0, 0.0);
    moved(&mut scene, b, 0.0, 2.0, 0.0);
    moved(&mut scene, c, 0.0, 0.0, 3.0);
    moved(&mut scene, d, 4.0, 4.0, 4.0);
    moved(&mut scene, e, -1.0, -1.0, -1.0);
    let mut turned: Transformation = *scene.get(b).unwrap().transformation();
    turned.rotate_z(0.5f32.to_bits(), &ops);
    turned.set_scaling(&words3(2.0, 1.0, 0.5));
    assert_eq!(scene.set_transformation(b, turned), Ok(()));

    let world = cgmath::Matrix4::from_nonuniform_scale(1.0f32, 2.0, 3.0);
    assert_eq!(scene.update_recursive(a, &wm(world), &ops), Ok(()));

    assert_eq!(global(&scene, a), local(&scene, a) * world);
    for (child, parent) in [(b, a), (c, b), (d, c), (e, a)] {
        assert_eq!(global(&scene, child), local(&scene, child) * global(&scene, parent));
        assert!(!scene.get(child).unwrap().transformation().needs_update());
    }
    assert_eq!(
        local(&scene, a),
        cgmath::Matrix4::from_translation(cgmath::Vector3::new(1.0f32, 0.0, 0.0))
    );
    assert_eq!(
        global(&scene, d),
        local(&scene, d) * (local(&scene, c) * (local(&scene, b) * (local(&scene, a) * world)))
    );
}

#[test]
fn traversal_leaves_the_rest_of_the_graph_alone() {
    let ops = arithmetic();
    let mut scene = Scene::new_ref();
    let a = Group::new_ref(&mut scene);
    let b = Group::new_ref(&mut scene);
    let c = Group::new_ref(&mut scene);
    assert_eq!(scene.add(a, b), Ok(()));
    assert_eq!(scene.add(a, c), Ok(()));
    moved(&mut scene, a, 1.0, 0.0, 0.0);
    moved(&mut scene, b, 0.0, 1.0, 0.0);
    moved(&mut scene, c, 0.0, 0.0, 1.0);
    let identity = wm(cgmath::Matrix4::identity());
    assert_eq!(scene.update_recursive(b, &identity, &ops), Ok(()));
    assert!(scene.get(a).unwrap().transformation().needs_update());
    assert!(scene.get(c).unwrap().transformation().needs_update());
    assert!(!scene.get(b).unwrap().transformation().needs_update());
    assert_eq!(local(&scene, a), cgmath::Matrix4::<f32>::identity());
    assert_eq!(
        global(&scene, b),
        cgmath::Matrix4::from_translation(cgmath::Vector3::new(0.0f32, 1.0, 0.0))
    );
    assert_eq!(scene.update_recursive(3, &identity, &ops), Err(SceneError::UnknownComponent));
}

#[test]
fn camera_update_sees_the_global_matrix_of_the_pass_before() {
    let ops = arithmetic();
    let mut scene = Scene::new_ref();
    let root = Group::new_ref(&mut scene);
    let projection = cgmath::Matrix4::from_nonuniform_scale(2.0f32, 2.0, 1.0);
    let eye = RenderCamera::new_ref(wm(projection), 640, 480, &mut scene, &ops);
    assert_eq!(scene.set_root(root), Ok(()));
    assert_eq!(scene.add(root, eye), Ok(()));
    moved(&mut scene, eye, 1.0, 2.0, 3.0);
    let correction = m4(Matrix4::depth_correction());
    let data = |scene: &Scene| match scene.get(eye).unwrap().variant() {
        Variant::Camera(camera) => camera.data,
        _ => unreachable!(),
    };
    assert_eq!(m4(data(&scene).projection_matrix), correction * projection);

    let identity = wm(cgmath::Matrix4::identity());
    assert_eq!(scene.update_recursive(root, &identity, &ops), Ok(()));
    // The hook ran before the transformation was brought up to date.
    assert_eq!(m4(data(&scene).projection_matrix), correction * projection);
    assert_eq!(v3(data(&scene).camera_position), cgmath::Vector3::new(0.0f32, 0.0, 0.0));

    assert_eq!(scene.update_recursive(root, &identity, &ops), Ok(()));
    let place = cgmath::Matrix4::from_translation(cgmath::Vector3::new(1.0f32, 2.0, 3.0));
    assert_eq!(global(&scene, eye), place);
    assert_eq!(
        m4(data(&scene).projection_matrix),
        correction * projection * place.invert().unwrap()
    );
    assert_eq!(v3(data(&scene).camera_position), cgmath::Vector3::new(1.0f32, 2.0, 3.0));
}

#[test]
fn a_camera_without_a_view_stops_the_traversal() {
    let ops = arithmetic();
    let mut scene = Scene::new_ref();
    let root = Group::new_ref(&mut scene);
    let before = Group::new_ref(&mut scene);
    let eye = camera(&mut scene);
    let after = Group::new_ref(&mut scene);
    assert_eq!(scene.add(root, before), Ok(()));
    assert_eq!(scene.add(root, eye), Ok(()));
    assert_eq!(scene.add(root, after), Ok(()));
    let mut flat: Transformation = *scene.get(eye).unwrap().transformation();
    flat.set_scaling(&words3(0.0, 1.0, 1.0));
    assert_eq!(scene.set_transformation(eye, flat), Ok(()));
    moved(&mut scene, before, 1.0, 1.0, 1.0);
    moved(&mut scene, after, 1.0, 1.0, 1.0);
    let identity = wm(cgmath::Matrix4::identity());

    // The first pass still sees the identity as the camera's global matrix.
    assert_eq!(scene.update_recursive(root, &identity, &ops), Ok(()));
    assert!(global(&scene, eye).invert().is_none());
    moved(&mut scene, before, 2.0, 2.0, 2.0);
    moved(&mut scene, after, 2.0, 2.0, 2.0);
    assert_eq!(
        scene.update_recursive(root, &identity, &ops),
        Err(SceneError::SingularTransformation)
    );
    assert!(!scene.get(before).unwrap().transformation().needs_update());
    assert!(scene.get(after).unwrap().transformation().needs_update());
    assert_eq!(scene.get(root).unwrap().children(), &vec![before, eye, after]);
}

#[test]
fn set_transformation_and_resize_fault_on_what_is_not_there() {
    let mut scene = Scene::new_ref();
    let group = Group::new_ref(&mut scene);
    let eye = camera(&mut scene);
    assert_eq!(
        scene.set_transformation(5, Transformation::new()),
        Err(SceneError::UnknownComponent)
    );
    assert_eq!(scene.resize(group, 1, 1), Err(transform3d::RenderError::NotACamera));
    assert_eq!(scene.resize(9, 1, 1), Err(transform3d::RenderError::NotACamera));
    assert_eq!(scene.resize(eye, 1024, 768), Ok(()));
    match scene.get(eye).unwrap().variant() {
        Variant::Camera(camera) => {
            assert_eq!((camera.width, camera.height), (1024, 768));
        },
        _ => unreachable!(),
    }
}
