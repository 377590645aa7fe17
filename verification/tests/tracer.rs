//! The integrator, the samplers, tone mapping, and a full render.

use pathtracer::fixed::{Fixed, MAX_RAW, SCALE};
use pathtracer::vec3::Vec3;
use pathtracer::entropy::random_signed_unit;
use pathtracer::object::{
    collect_lights, generate_random_vector, get_random_point_on_surface, IntersectableObject,
    Material, ObjectType,
};
use pathtracer::renderer::{camera_basis, render, tone_map_channel, trace, Camera};

fn fx(n: i64) -> Fixed {
    Fixed::from_int(n)
}

fn v(x: i64, y: i64, z: i64) -> Vec3 {
    Vec3::new(fx(x), fx(y), fx(z))
}

fn sphere(x: i64, y: i64, z: i64, radius: i64, color: Vec3) -> IntersectableObject {
    IntersectableObject {
        object_type: ObjectType::Sphere { radius: fx(radius) },
        material: Material::new(color, Fixed::one(), Fixed::zero()),
        position: v(x, y, z),
    }
}

#[test]
fn random_unit_draw_stays_in_range() {
    let mut i: usize = 0;
    while i < 200 {
        let r = random_signed_unit();
        assert!(-SCALE <= r.raw && r.raw <= SCALE);
        i += 1;
    }
}

#[test]
fn random_direction_is_well_formed() {
    let mut i: usize = 0;
    while i < 100 {
        let u = generate_random_vector();
        assert!(u.x.raw.abs() <= MAX_RAW);
        assert!(u.y.raw.abs() <= MAX_RAW);
        assert!(u.z.raw.abs() <= MAX_RAW);
        i += 1;
    }
}

#[test]
fn diffuse_bounce_stays_in_the_normal_hemisphere() {
    // Fully diffuse material: the bounce is the flipped random draw.
    let material = Material::new(v(1, 0, 0), Fixed::one(), Fixed::zero());
    let normal = v(0, 0, 1);
    let incoming = v(0, 0, -1);
    let mut i: usize = 0;
    while i < 100 {
        let out = material.generate_random_vector(incoming, normal);
        assert!(normal.dot(out).raw >= 0);
        i += 1;
    }
}

#[test]
fn fully_specular_bounce_is_the_mirror_reflection() {
    // Roughness zero weights the diffuse draw away entirely.
    let material = Material::new(v(1, 0, 0), Fixed::zero(), Fixed::zero());
    let normal = v(0, 0, 1);
    let incoming = v(0, 0, -1);
    let out = material.generate_random_vector(incoming, normal);
    assert_eq!((out.x.raw, out.y.raw, out.z.raw), (0, 0, SCALE));
}

#[test]
fn light_sample_lies_on_the_sphere() {
    let light = sphere(0, 0, 0, 2, v(3, 3, 3));
    let mut i: usize = 0;
    while i < 50 {
        let p = get_random_point_on_surface(&light);
        // Distance from the center is the radius, up to fixed-point
        // rounding of the unit draw.
        let d = p.sub(light.position).length();
        assert!((d.raw - 2 * SCALE).abs() < SCALE / 8, "distance raw {}", d.raw);
        i += 1;
    }
}

#[test]
fn collect_lights_keeps_only_emissive_objects_in_order() {
    let dark = sphere(0, 0, 4, 1, v(1, 0, 0));
    let bright_a = sphere(0, 5, 0, 1, v(3, 3, 3));
    let bright_b = sphere(5, 0, 0, 1, v(0, 0, 2));
    let lights = collect_lights(&vec![dark, bright_a, dark, bright_b]);
    assert_eq!(lights.len(), 2);
    assert_eq!(lights[0].position.y.raw, 5 * SCALE);
    assert_eq!(lights[1].position.x.raw, 5 * SCALE);
}

#[test]
fn trace_returns_black_on_a_miss() {
    let objects = vec![sphere(0, 0, 4, 1, v(1, 1, 1))];
    let lights: Vec<IntersectableObject> = Vec::new();
    let c = trace(v(0, 0, 0), v(0, 0, -1), &objects, &lights, 8);
    assert_eq!((c.x.raw, c.y.raw, c.z.raw), (0, 0, 0));
}

#[test]
fn trace_absorbing_scene_stays_black_for_any_budget() {
    // Black surfaces, no lights: nothing can ever be gathered.
    let objects = vec![
        sphere(0, 0, 4, 1, v(0, 0, 0)),
        IntersectableObject {
            object_type: ObjectType::Plane { normal: v(0, 1, 0) },
            material: Material::new(v(0, 0, 0), Fixed::one(), Fixed::zero()),
            position: v(0, -1, 0),
        },
    ];
    let lights: Vec<IntersectableObject> = Vec::new();
    for bounces in [1u32, 2, 8, 32] {
        let c = trace(v(0, 0, 0), v(0, 0, 1), &objects, &lights, bounces);
        assert_eq!((c.x.raw, c.y.raw, c.z.raw), (0, 0, 0));
    }
}

#[test]
fn trace_emissive_first_hit_returns_emission_over_budget() {
    let light = sphere(0, 0, 4, 1, v(3, 3, 3));
    let objects = vec![light];
    let lights = collect_lights(&objects);
    let c = trace(v(0, 0, 0), v(0, 0, 1), &objects, &lights, 4);
    // The light's color divided by the full budget, however short the path.
    let expected: i64 = 3 * SCALE / 4;
    assert_eq!((c.x.raw, c.y.raw, c.z.raw), (expected, expected, expected));
}

#[test]
fn tone_map_fixes_zero_and_saturates_high_radiance() {
    assert_eq!(tone_map_channel(Fixed::zero()), 0);
    assert_eq!(tone_map_channel(fx(-3)), 0);
    // One unit of radiance maps to half range, rounded down.
    assert_eq!(tone_map_channel(Fixed::one()), 127);
    // The largest radiance approaches but never reaches 255.
    assert_eq!(tone_map_channel(Fixed::from_raw(MAX_RAW)), 254);
}

#[test]
fn tone_map_is_monotone() {
    let raws: [i64; 7] = [-SCALE, 0, 1, 1000, SCALE, 100 * SCALE, MAX_RAW];
    let mut i: usize = 1;
    while i < raws.len() {
        assert!(tone_map_channel(Fixed::from_raw(raws[i - 1])) <= tone_map_channel(
            Fixed::from_raw(raws[i]),
        ));
        i += 1;
    }
}

#[test]
fn camera_basis_is_the_right_and_up_axes() {
    let camera = Camera {
        position: v(0, 0, 0),
        direction: v(0, 0, 1),
        fov: Fixed::from_raw(SCALE / 2),
        aspect_ratio: Fixed::one(),
        resolution: (16, 16),
    };
    let (right, up) = camera_basis(&camera);
    assert_eq!((right.x.raw, right.y.raw, right.z.raw), (-SCALE, 0, 0));
    assert_eq!((up.x.raw, up.y.raw, up.z.raw), (0, SCALE, 0));
}

#[test]
fn camera_basis_parallel_to_world_up_falls_back() {
    let camera = Camera {
        position: v(0, 0, 0),
        direction: v(0, 1, 0),
        fov: Fixed::from_raw(SCALE / 2),
        aspect_ratio: Fixed::one(),
        resolution: (16, 16),
    };
    let (right, up) = camera_basis(&camera);
    assert_eq!((right.x.raw, right.y.raw, right.z.raw), (SCALE, 0, 0));
    assert_eq!((up.x.raw, up.y.raw, up.z.raw), (0, 0, SCALE));
}

#[test]
fn render_unlit_scene_is_pure_black() {
    // White walls but nothing emissive: no path can gather radiance.
    let objects = vec![
        sphere(0, 0, 4, 1, v(1, 1, 1)),
        IntersectableObject {
            object_type: ObjectType::Plane { normal: v(0, 1, 0) },
            material: Material::new(v(1, 1, 1), Fixed::one(), Fixed::zero()),
            position: v(0, -1, 0),
        },
    ];
    let camera = Camera {
        position: v(0, 0, 0),
        direction: v(0, 0, 1),
        fov: Fixed::from_raw(SCALE / 2),
        aspect_ratio: Fixed::one(),
        resolution: (8, 8),
    };
    let image = render(&camera, &objects, 2, 4);
    assert_eq!(image.len(), 3 * 8 * 8);
    for byte in &image {
        assert_eq!(*byte, 0);
    }
}

#[test]
fn render_center_pixel_sees_the_sphere_and_corner_sees_past_it() {
    // Camera at the origin looking down +z; an emissive red sphere dead
    // ahead, an emissive blue plane behind it. The center ray hits the
    // sphere; a corner ray misses it and reaches the plane.
    let red_sphere = sphere(0, 0, 4, 1, Vec3::new(fx(3), fx(0), fx(0)));
    let blue_plane = IntersectableObject {
        object_type: ObjectType::Plane { normal: v(0, 0, -1) },
        material: Material::new(Vec3::new(fx(0), fx(0), fx(3)), Fixed::one(), Fixed::zero()),
        position: v(0, 0, 10),
    };
    let objects = vec![red_sphere, blue_plane];
    let camera = Camera {
        position: v(0, 0, 0),
        direction: v(0, 0, 1),
        fov: Fixed::from_raw(SCALE / 2),
        aspect_ratio: Fixed::one(),
        resolution: (16, 16),
    };
    let image = render(&camera, &objects, 1, 2);
    assert_eq!(image.len(), 3 * 16 * 16);
    for byte in &image {
        assert!(*byte < 255);
    }
    // Center pixel (8, 8): emission 3 over budget 2 tone-maps to 153.
    let center: usize = (8 * 16 + 8) * 3;
    assert_eq!(image[center], 153);
    assert_eq!(image[center + 1], 0);
    assert_eq!(image[center + 2], 0);
    // Corner pixel (0, 0): the plane's blue, same magnitude.
    assert_eq!(image[0], 0);
    assert_eq!(image[1], 0);
    assert_eq!(image[2], 153);
}
