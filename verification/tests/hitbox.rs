use transform3d::{Hitbox, HitboxType, Unimplemented, Vector3};

fn words3(x: f32, y: f32, z: f32) -> Vector3 {
    Vector3 { x: x.to_bits(), y: y.to_bits(), z: z.to_bits() }
}

fn sphere() -> Hitbox {
    Hitbox {
        hitbox_type: HitboxType::SphereHitbox {
            center: words3(0.0, 0.0, 0.0),
            radius: 1.0f32.to_bits(),
        },
    }
}

fn cuboid() -> Hitbox {
    Hitbox {
        hitbox_type: HitboxType::BoxHitbox { max: words3(1.0, 1.0, 1.0), min: words3(0.0, 0.0, 0.0) },
    }
}

fn pill() -> Hitbox {
    Hitbox {
        hitbox_type: HitboxType::PillHitbox {
            x1: words3(0.0, 0.0, 0.0),
            x2: words3(0.0, 1.0, 0.0),
            radius: 0.5f32.to_bits(),
        },
    }
}

#[test]
fn every_pair_of_shapes_names_its_missing_routine() {
    assert_eq!(sphere().hits(&sphere()), Err(Unimplemented::SphereSphereHit));
    assert_eq!(sphere().hits(&cuboid()), Err(Unimplemented::SphereBoxHit));
    assert_eq!(sphere().hits(&pill()), Err(Unimplemented::SpherePillHit));
    assert_eq!(cuboid().hits(&sphere()), Err(Unimplemented::SphereBoxHit));
    assert_eq!(cuboid().hits(&cuboid()), Err(Unimplemented::BoxBoxHit));
    assert_eq!(cuboid().hits(&pill()), Err(Unimplemented::BoxPillHit));
    assert_eq!(pill().hits(&sphere()), Err(Unimplemented::SpherePillHit));
    assert_eq!(pill().hits(&cuboid()), Err(Unimplemented::BoxPillHit));
    assert_eq!(pill().hits(&pill()), Err(Unimplemented::PillPillHit));
}

#[test]
fn no_pair_of_shapes_is_answered_with_no_collision() {
    let shapes = [sphere(), cuboid(), pill()];
    for a in shapes.iter() {
        for b in shapes.iter() {
            assert!(a.hits(b).is_err());
            assert_eq!(a.hits(b), b.hits(a));
        }
    }
}

#[test]
fn the_routines_fault_when_called_directly() {
    let o = words3(0.0, 0.0, 0.0);
    let r = 1.0f32.to_bits();
    assert_eq!(Hitbox::sphere_sphere_hit(o, r, o, r), Err(Unimplemented::SphereSphereHit));
    assert_eq!(Hitbox::sphere_box_hit(o, r, o, o), Err(Unimplemented::SphereBoxHit));
    assert_eq!(Hitbox::sphere_pill_hit(o, r, o, o, r), Err(Unimplemented::SpherePillHit));
    assert_eq!(Hitbox::box_pill_hit(o, o, o, o, r), Err(Unimplemented::BoxPillHit));
}
