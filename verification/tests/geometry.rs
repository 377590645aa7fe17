//! Ray-primitive intersection and nearest-hit resolution.

use pathtracer::fixed::{Fixed, SCALE};
use pathtracer::vec3::Vec3;
use pathtracer::intersections::{intersect_plane, intersect_sphere};
use pathtracer::object::{
    intersect_object, intersect_objects, IntersectableObject, Material, ObjectType,
};

fn fx(n: i64) -> Fixed {
    Fixed::from_int(n)
}

fn v(x: i64, y: i64, z: i64) -> Vec3 {
    Vec3::new(fx(x), fx(y), fx(z))
}

fn matte(r: i64, g: i64, b: i64) -> Material {
    Material::new(v(r, g, b), Fixed::one(), Fixed::zero())
}

#[test]
fn sphere_dead_ahead_hits_at_the_surface_distance() {
    let hit = intersect_sphere(v(0, 0, 0), v(0, 0, 1), v(0, 0, 4), fx(1)).unwrap();
    // Center 4 away, radius 1: the surface lies exactly 3 units out.
    assert_eq!(hit.distance.raw, 3 * SCALE);
    assert_eq!(hit.exit_distance.raw, 5 * SCALE);
    // The normal faces straight back along the ray.
    assert_eq!((hit.normal.x.raw, hit.normal.y.raw, hit.normal.z.raw), (0, 0, -SCALE));
    // The reported hit point is nudged back off the surface.
    assert_eq!(hit.intersection_position.z.raw, 3 * SCALE - 64);
    assert_eq!(hit.intersection_position.x.raw, 0);
}

#[test]
fn sphere_dead_ahead_is_exact_for_any_whole_unit_setup() {
    // Center 7 out, radius 2: entry at 5, exit at 9, normal reversed.
    let hit = intersect_sphere(v(0, 0, 0), v(0, 0, 1), v(0, 0, 7), fx(2)).unwrap();
    assert_eq!(hit.distance.raw, 5 * SCALE);
    assert_eq!(hit.exit_distance.raw, 9 * SCALE);
    assert_eq!((hit.normal.x.raw, hit.normal.y.raw, hit.normal.z.raw), (0, 0, -SCALE));
}

#[test]
fn sphere_entirely_behind_is_missed() {
    assert!(intersect_sphere(v(0, 0, 0), v(0, 0, 1), v(0, 0, -4), fx(1)).is_none());
}

#[test]
fn sphere_beside_the_ray_is_missed() {
    assert!(intersect_sphere(v(0, 0, 0), v(0, 0, 1), v(0, 2, 4), fx(1)).is_none());
}

#[test]
fn degenerate_radius_sphere_is_never_hit() {
    assert!(intersect_sphere(v(0, 0, 0), v(0, 0, 1), v(0, 0, 4), fx(0)).is_none());
    assert!(intersect_sphere(v(0, 0, 0), v(0, 0, 1), v(0, 0, 4), fx(-1)).is_none());
    // Even dead ahead, where truncation keeps the chord test at zero.
    assert!(intersect_sphere(v(0, 0, 0), v(0, 0, 1), v(0, 0, 0), fx(0)).is_none());
}

#[test]
fn sphere_ignores_zero_length_directions() {
    assert!(intersect_sphere(v(0, 0, 0), v(0, 0, 0), v(0, 0, 4), fx(1)).is_none());
}

#[test]
fn plane_parallel_ray_is_missed() {
    let r = intersect_plane(v(0, 0, 0), v(0, 0, 1), v(0, 1, 0), v(0, 1, 0));
    assert!(r.is_none());
}

#[test]
fn plane_hit_lies_on_the_ray_at_the_reported_distance() {
    let hit = intersect_plane(v(0, 0, 0), v(0, 0, 1), v(0, 0, 5), v(0, 0, -1)).unwrap();
    assert_eq!(hit.distance.raw, 5 * SCALE);
    assert_eq!(hit.exit_distance.raw, 5 * SCALE);
    // origin + direction * distance, exactly.
    assert_eq!(
        (
            hit.intersection_position.x.raw,
            hit.intersection_position.y.raw,
            hit.intersection_position.z.raw,
        ),
        (0, 0, 5 * SCALE),
    );
    assert_eq!(hit.normal.z.raw, -SCALE);
}

#[test]
fn plane_behind_the_origin_is_missed() {
    let r = intersect_plane(v(0, 0, 0), v(0, 0, 1), v(0, 0, -5), v(0, 0, -1));
    assert!(r.is_none());
}

#[test]
fn plane_facing_away_is_missed() {
    let r = intersect_plane(v(0, 0, 0), v(0, 0, 1), v(0, 0, 5), v(0, 0, 1));
    assert!(r.is_none());
}

#[test]
fn nearest_hit_picks_the_closer_sphere() {
    let near = IntersectableObject {
        object_type: ObjectType::Sphere { radius: fx(1) },
        material: matte(1, 0, 0),
        position: v(0, 0, 4),
    };
    let far = IntersectableObject {
        object_type: ObjectType::Sphere { radius: fx(1) },
        material: matte(0, 1, 0),
        position: v(0, 0, 6),
    };
    let best = intersect_objects(v(0, 0, 0), v(0, 0, 1), &vec![far, near]).unwrap();
    assert_eq!(best.object.position.z.raw, 4 * SCALE);
    assert_eq!(best.intersection.distance.raw, 3 * SCALE);
}

#[test]
fn nearest_hit_breaks_ties_in_scene_order() {
    let first = IntersectableObject {
        object_type: ObjectType::Sphere { radius: fx(1) },
        material: matte(1, 0, 0),
        position: v(0, 0, 4),
    };
    let second = IntersectableObject {
        object_type: ObjectType::Sphere { radius: fx(1) },
        material: matte(0, 1, 0),
        position: v(0, 0, 4),
    };
    let best = intersect_objects(v(0, 0, 0), v(0, 0, 1), &vec![first, second]).unwrap();
    assert_eq!(best.object.material, matte(1, 0, 0));
}

#[test]
fn empty_scene_yields_no_hit() {
    assert!(intersect_objects(v(0, 0, 0), v(0, 0, 1), &Vec::new()).is_none());
}

#[test]
fn single_object_dispatch_matches_the_primitive_test() {
    let plane = IntersectableObject {
        object_type: ObjectType::Plane { normal: v(0, 0, -1) },
        material: matte(1, 1, 1),
        position: v(0, 0, 5),
    };
    let oi = intersect_object(v(0, 0, 0), v(0, 0, 1), &plane).unwrap();
    assert_eq!(oi.intersection.distance.raw, 5 * SCALE);
    let sphere = IntersectableObject {
        object_type: ObjectType::Sphere { radius: fx(1) },
        material: matte(1, 1, 1),
        position: v(0, 0, -4),
    };
    assert!(intersect_object(v(0, 0, 0), v(0, 0, 1), &sphere).is_none());
}
