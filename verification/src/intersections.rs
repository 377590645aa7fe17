//! Closed-form ray-primitive intersection tests.
//!
//! Each test normalizes the ray direction itself, so callers may pass
//! unnormalized directions. Degenerate configurations — zero-length
//! directions, rays parallel to a plane, spheres behind the origin —
//! all resolve to "no intersection" rather than to an error. The exact
//! result of each test is pinned by a spec function over the vector
//! model ([`sphere_hit_m`], [`plane_hit_m`]).

use vstd::prelude::*;
use crate::fixed::{
    Fixed, fx_add, fx_sub, fx_mul, fx_div, fx_sqrt, is_sqrt, lemma_fx_sqrt_nonneg,
    lemma_fx_mul_one, lemma_fx_mul_units, lemma_fx_sqrt_units, lemma_fx_div_zero,
    lemma_sqrt_unique, SCALE,
};
use crate::vec3::{Vec3, V3, vm_zero, vm_neg, vm_add, vm_sub, vm_scale, vm_dot, vm_len, vm_norm};

verus! {

/// Raw offset (about a thousandth of a unit) by which a reported hit
/// point is nudged along the surface normal, so the next bounce does not
/// immediately re-intersect the surface it starts on.
pub const EPS_RAW: i64 = 64;

/// Model of a successful intersection: the original ray, the nudged hit
/// point, the outward unit normal, and the entry and exit distances.
pub ghost struct IntersectionM {
    pub starting_position: V3,
    pub starting_direction: V3,
    pub intersection_position: V3,
    pub normal: V3,
    pub distance: int,
    pub exit_distance: int,
}

/// Result of a successful ray-primitive test.
#[derive(Clone, Copy, Debug, PartialEq, Eq, Structural)]
pub struct Intersection {
    /// Origin of the ray that produced this hit.
    pub starting_position: Vec3,
    /// Original (unnormalized) ray direction, kept for reflection.
    pub starting_direction: Vec3,
    /// Hit point, nudged along the normal by `EPS_RAW`.
    pub intersection_position: Vec3,
    /// Unit surface normal at the hit point.
    pub normal: Vec3,
    /// Parametric distance from the origin to the entry point.
    pub distance: Fixed,
    /// Distance to the far side (equals `distance` for planes).
    pub exit_distance: Fixed,
}

impl View for Intersection {
    type V = IntersectionM;

    open spec fn view(&self) -> IntersectionM {
        IntersectionM {
            starting_position: self.starting_position@,
            starting_direction: self.starting_direction@,
            intersection_position: self.intersection_position@,
            normal: self.normal@,
            distance: self.distance@,
            exit_distance: self.exit_distance@,
        }
    }
}

impl Intersection {
    /// Every field within fixed-point bounds.
    pub open spec fn wf(self) -> bool {
        &&& self.starting_position.wf()
        &&& self.starting_direction.wf()
        &&& self.intersection_position.wf()
        &&& self.normal.wf()
        &&& self.distance.wf()
        &&& self.exit_distance.wf()
    }
}

/// What the ray-sphere test returns: the direction is normalized; the
/// offset to the center is projected onto it (`a`); `b` is the squared
/// distance from the center to the ray line; a hit requires `b` below
/// the squared radius and a non-negative entry root `a - c`, where `c`
/// spans the half chord. The normal points from the center through the
/// hit point. Degenerate inputs — a non-positive radius or a direction
/// whose length rounds to zero — are no hit (truncation could otherwise
/// let a zero-radius sphere pass the chord test on near-axial rays).
pub open spec fn sphere_hit_m(orig: V3, dir: V3, center: V3, radius: int) -> Option<
    IntersectionM,
> {
    if radius <= 0 || vm_len(dir) == 0 {
        None
    } else {
        let d = vm_norm(dir);
        let oc = vm_sub(center, orig);
        let a = vm_dot(d, oc);
        let b = fx_sub(vm_dot(oc, oc), fx_mul(a, a));
        if b >= fx_mul(radius, radius) {
            None
        } else {
            let c = fx_sqrt(fx_sub(fx_mul(radius, radius), b));
            let t = fx_sub(a, c);
            let t2 = fx_add(a, c);
            if t < 0 {
                None
            } else {
                let hit = vm_add(orig, vm_scale(d, t));
                let off = vm_sub(hit, center);
                if vm_len(off) == 0 {
                    None
                } else {
                    let n = vm_norm(off);
                    Some(
                        IntersectionM {
                            starting_position: orig,
                            starting_direction: dir,
                            intersection_position: vm_add(hit, vm_scale(n, EPS_RAW as int)),
                            normal: n,
                            distance: t,
                            exit_distance: t2,
                        },
                    )
                }
            }
        }
    }
}

/// What the ray-plane test returns: planes are one-sided, so the
/// normalized direction must approach the front face (`dot < 0`); the
/// plane equation then gives the distance, which must not be negative.
/// A plane has no interior, so the exit distance equals the entry
/// distance, and the hit point is not nudged.
pub open spec fn plane_hit_m(orig: V3, dir: V3, plane_position: V3, plane_normal: V3) -> Option<
    IntersectionM,
> {
    if vm_len(dir) == 0 {
        None
    } else {
        let d = vm_norm(dir);
        let facing = vm_dot(plane_normal, d);
        if facing >= 0 {
            None
        } else {
            let dist = fx_div(vm_dot(plane_normal, vm_sub(plane_position, orig)), facing);
            if dist < 0 {
                None
            } else {
                Some(
                    IntersectionM {
                        starting_position: orig,
                        starting_direction: dir,
                        intersection_position: vm_add(orig, vm_scale(d, dist)),
                        normal: plane_normal,
                        distance: dist,
                        exit_distance: dist,
                    },
                )
            }
        }
    }
}

/// Test a ray against a sphere.
pub fn intersect_sphere(
    starting_position: Vec3,
    starting_direction: Vec3,
    sphere_position: Vec3,
    sphere_radius: Fixed,
) -> (r: Option<Intersection>)
    requires
        starting_position.wf(),
        starting_direction.wf(),
        sphere_position.wf(),
        sphere_radius.wf(),
    ensures
        match r {
            Some(i) => i.wf() && sphere_hit_m(
                starting_position@,
                starting_direction@,
                sphere_position@,
                sphere_radius@,
            ) == Some(i@),
            None => sphere_hit_m(
                starting_position@,
                starting_direction@,
                sphere_position@,
                sphere_radius@,
            ) is None,
        },
        r matches Some(i) ==> 0 <= i@.distance <= i@.exit_distance,
{
    if sphere_radius.raw <= 0 {
        return None;
    }
    let direction = match starting_direction.normalized() {
        None => {
            return None;
        },
        Some(d) => d,
    };
    let starting_offset = sphere_position.sub(starting_position);
    let a = direction.dot(starting_offset);
    let b = starting_offset.dot(starting_offset).sub(a.mul(a));
    let radius_sq = sphere_radius.mul(sphere_radius);
    if b.raw >= radius_sq.raw {
        return None;
    }
    let c = radius_sq.sub(b).sqrt();
    let t = a.sub(c);
    let t2 = a.add(c);
    if t.raw < 0 {
        return None;
    }
    let hit = starting_position.add(direction.scale(t));
    let normal = match hit.sub(sphere_position).normalized() {
        None => {
            return None;
        },
        Some(n) => n,
    };
    let intersection_position = hit.add(normal.scale(Fixed::from_raw(EPS_RAW)));
    Some(
        Intersection {
            starting_position,
            starting_direction,
            intersection_position,
            normal,
            distance: t,
            exit_distance: t2,
        },
    )
}

/// Test a ray against a one-sided plane.
pub fn intersect_plane(
    starting_position: Vec3,
    starting_direction: Vec3,
    plane_position: Vec3,
    plane_normal: Vec3,
) -> (r: Option<Intersection>)
    requires
        starting_position.wf(),
        starting_direction.wf(),
        plane_position.wf(),
        plane_normal.wf(),
    ensures
        match r {
            Some(i) => i.wf() && plane_hit_m(
                starting_position@,
                starting_direction@,
                plane_position@,
                plane_normal@,
            ) == Some(i@),
            None => plane_hit_m(
                starting_position@,
                starting_direction@,
                plane_position@,
                plane_normal@,
            ) is None,
        },
        vm_len(starting_direction@) != 0 && vm_dot(plane_normal@, vm_norm(starting_direction@))
            >= 0 ==> r is None,
        r matches Some(i) ==> 0 <= i@.distance && i@.exit_distance == i@.distance,
        r matches Some(i) ==> i@.intersection_position == vm_add(
            starting_position@,
            vm_scale(vm_norm(starting_direction@), i@.distance),
        ),
{
    let direction = match starting_direction.normalized() {
        None => {
            return None;
        },
        Some(d) => d,
    };
    let facing = plane_normal.dot(direction);
    if facing.raw >= 0 {
        return None;
    }
    let distance = plane_normal.dot(plane_position.sub(starting_position)).div(facing);
    if distance.raw < 0 {
        return None;
    }
    let intersection_position = starting_position.add(direction.scale(distance));
    Some(
        Intersection {
            starting_position,
            starting_direction,
            intersection_position,
            normal: plane_normal,
            distance,
            exit_distance: distance,
        },
    )
}

/// A ray aimed straight at a sphere's center from outside hits the
/// near surface at exactly the center distance minus the radius, with
/// the normal pointing straight back along the ray, and leaves it at
/// the center distance plus the radius. Stated on the axis
/// configuration — origin at zero, direction one unit along z, center
/// `k` units out, radius `radius_units` — where whole units keep the
/// fixed-point arithmetic exact, so the tolerance of the general
/// statement tightens to equality.
pub proof fn lemma_sphere_dead_ahead(k: int, radius_units: int)
    requires
        0 < radius_units < k <= 0x8000,
    ensures
        ({
            let s = SCALE as int;
            let axis = V3 { x: 0, y: 0, z: s };
            let center = V3 { x: 0, y: 0, z: k * s };
            match sphere_hit_m(vm_zero(), axis, center, radius_units * s) {
                Some(i) => {
                    &&& i.distance == (k - radius_units) * s
                    &&& i.exit_distance == (k + radius_units) * s
                    &&& i.normal == vm_neg(axis)
                },
                None => false,
            }
        }),
{
    let s = SCALE as int;
    let axis = V3 { x: 0, y: 0, z: s };
    let center = V3 { x: 0, y: 0, z: k * s };
    let radius = radius_units * s;
    let orig = vm_zero();

    assert(k * k <= 0x4000_0000) by (nonlinear_arith)
        requires
            0 < k <= 0x8000,
    ;
    assert(radius_units * radius_units <= 0x4000_0000) by (nonlinear_arith)
        requires
            0 < radius_units <= 0x8000,
    ;
    assert(1 <= radius_units * radius_units) by (nonlinear_arith)
        requires
            1 <= radius_units,
    ;

    // The axis direction normalizes to itself.
    lemma_fx_mul_one(s);
    assert(vm_dot(axis, axis) == s);
    assert(is_sqrt(s * s, s));
    lemma_sqrt_unique(s * s, s);
    assert(vm_len(axis) == s);
    lemma_fx_div_zero(s);
    let d = vm_norm(axis);
    assert(d == axis);

    // Projection and squared distance to the ray line.
    let oc = vm_sub(center, orig);
    assert(oc == center);
    lemma_fx_mul_one(k * s);
    let a = vm_dot(d, oc);
    assert(a == k * s);
    lemma_fx_mul_units(k, k);
    assert(vm_dot(oc, oc) == k * k * s);
    assert(fx_mul(a, a) == k * k * s);
    let b = fx_sub(vm_dot(oc, oc), fx_mul(a, a));
    assert(b == 0);

    // The ray passes under the squared radius: a hit.
    lemma_fx_mul_units(radius_units, radius_units);
    assert(fx_mul(radius, radius) == radius_units * radius_units * s);
    assert(b < fx_mul(radius, radius));

    // The half chord is the radius itself.
    let c = fx_sqrt(fx_sub(fx_mul(radius, radius), b));
    lemma_fx_sqrt_units(radius_units);
    assert(c == radius);

    // Entry and exit roots.
    let t = fx_sub(a, c);
    assert(t == (k - radius_units) * s);
    let t2 = fx_add(a, c);
    assert(t2 == (k + radius_units) * s);
    assert(t >= 0);

    // The hit point sits on the axis, one radius short of the center.
    lemma_fx_mul_one(t);
    let hit = vm_add(orig, vm_scale(d, t));
    assert(hit == (V3 { x: 0, y: 0, z: t }));
    let off = vm_sub(hit, center);
    assert(off == (V3 { x: 0, y: 0, z: -radius }));

    // The offset normalizes to the negated axis.
    assert((-radius) * (-radius) == radius * radius) by (nonlinear_arith);
    assert(vm_dot(off, off) == radius_units * radius_units * s);
    assert(vm_len(off) == radius);
    lemma_fx_div_zero(radius);
    assert(((radius * s) / radius) == s) by (nonlinear_arith)
        requires
            radius > 0,
    ;
    assert(fx_div(-radius, radius) == -s);
    let n = vm_norm(off);
    assert(n == (V3 { x: 0, y: 0, z: -s }));
    assert(n == vm_neg(axis));
}

/// A sphere whose center lies behind the ray never returns a hit: when
/// the normalized direction points away from the center, the entry root
/// is negative and the test discards it.
pub proof fn lemma_sphere_behind_misses(orig: V3, dir: V3, center: V3, radius: int)
    requires
        vm_len(dir) != 0,
        vm_dot(vm_norm(dir), vm_sub(center, orig)) < 0,
    ensures
        sphere_hit_m(orig, dir, center, radius) is None,
{
    let d = vm_norm(dir);
    let oc = vm_sub(center, orig);
    let a = vm_dot(d, oc);
    let b = fx_sub(vm_dot(oc, oc), fx_mul(a, a));
    if !(b >= fx_mul(radius, radius)) {
        lemma_fx_sqrt_nonneg(fx_sub(fx_mul(radius, radius), b));
        assert(fx_sub(a, fx_sqrt(fx_sub(fx_mul(radius, radius), b))) < 0);
    }
}

} // verus!
