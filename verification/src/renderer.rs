//! The camera, the Monte Carlo integrator, and the frame sampler.
//!
//! `trace` walks one ray through the scene for a bounded number of
//! bounces, adding direct light at each diffuse hit (next-event
//! estimation) and ending the path on an emissive hit, a miss, or
//! budget exhaustion. `render` casts `samples` rays per pixel, averages
//! their radiance, and tone-maps the result into 8-bit channels.

use vstd::prelude::*;
use crate::fixed::{Fixed, fx_add, fx_mul, lemma_fx_mul_one, lemma_fx_div_zero, SCALE};
use crate::vec3::{
    Vec3, V3, vm_zero, vm_add, vm_sub, vm_scale, vm_mul_ew, vm_div_scalar, vm_cross, vm_len,
    vm_norm, vm_dot, unit_or_zero,
};
use crate::object::{
    IntersectableObject, ObjectIntersection, objects_wf, no_emissive, nearest_hit_m,
    object_hit_m, lemma_nearest_hit_minimal, lemma_no_emissive_no_lights, collect_lights,
    intersect_objects, get_random_point_on_surface,
};

verus! {

/// The observer: a position, a forward axis, a field-of-view scale (the
/// z extent of the near plane), an aspect ratio (carried for callers;
/// the sampler derives its extents from the resolution alone), and the
/// output resolution in pixels.
pub struct Camera {
    pub position: Vec3,
    pub direction: Vec3,
    pub fov: Fixed,
    pub aspect_ratio: Fixed,
    pub resolution: (u32, u32),
}

impl Camera {
    /// Fields within fixed-point bounds and a usable resolution.
    pub open spec fn wf(self) -> bool {
        &&& self.position.wf()
        &&& self.direction.wf()
        &&& self.fov.wf()
        &&& self.aspect_ratio.wf()
        &&& 1 <= self.resolution.0 <= 0xFFFF
        &&& 1 <= self.resolution.1 <= 0xFFFF
    }
}

/// White: the multiplicative identity color.
pub open spec fn vm_white() -> V3 {
    V3 { x: SCALE as int, y: SCALE as int, z: SCALE as int }
}

/// The camera's right axis: the cross product of the forward axis with
/// the world up axis, normalized; when the two are parallel (or the
/// direction degenerate) the cross product has no length and the world
/// x axis stands in.
pub open spec fn cam_right(dir: V3) -> V3 {
    let c = vm_cross(dir, V3 { x: 0, y: SCALE as int, z: 0 });
    if vm_len(c) == 0 {
        V3 { x: SCALE as int, y: 0, z: 0 }
    } else {
        vm_norm(c)
    }
}

/// The camera's up axis: right crossed with forward, normalized, with
/// the world y axis as the degenerate fallback.
pub open spec fn cam_up(dir: V3) -> V3 {
    let c = vm_cross(cam_right(dir), dir);
    if vm_len(c) == 0 {
        V3 { x: 0, y: SCALE as int, z: 0 }
    } else {
        vm_norm(c)
    }
}

/// Normalized screen coordinate of a pixel: its fraction of the
/// resolution, shifted to be zero at the center (`coord/extent - 1/2`).
pub open spec fn screen_coord(coord: int, extent: int) -> int
    recommends
        extent > 0,
{
    (coord * (SCALE as int)) / extent - (SCALE as int) / 2
}

/// The world-space direction of the primary ray through pixel `(x, y)`:
/// the screen-space direction `(sx, -sy, fov)` normalized and rotated
/// into the camera basis. A degenerate screen direction yields the zero
/// vector, which the integrator resolves to a miss.
pub open spec fn primary_ray_m(cam: Camera, x: int, y: int) -> V3 {
    let sx = screen_coord(x, cam.resolution.0 as int);
    let sy = -screen_coord(y, cam.resolution.1 as int);
    let v = V3 { x: sx, y: sy, z: cam.fov@ };
    if vm_len(v) == 0 {
        vm_zero()
    } else {
        let u = vm_norm(v);
        vm_add(
            vm_add(vm_scale(cam_right(cam.direction@), u.x), vm_scale(cam_up(cam.direction@), u.y)),
            vm_scale(cam.direction@, u.z),
        )
    }
}

/// Reinhard-style tone curve on a raw radiance value:
/// `255 * x / (x + 1)` in fixed point, zero for non-positive input.
pub open spec fn tone_m(x: int) -> int {
    if x <= 0 {
        0
    } else {
        (255 * x) / (x + SCALE as int)
    }
}

/// Compute the camera's orthonormal-by-construction basis.
pub fn camera_basis(camera: &Camera) -> (r: (Vec3, Vec3))
    requires
        camera.wf(),
    ensures
        r.0.wf(),
        r.1.wf(),
        r.0@ == cam_right(camera.direction@),
        r.1@ == cam_up(camera.direction@),
{
    let world_up = Vec3::new(Fixed::zero(), Fixed::one(), Fixed::zero());
    let right = match camera.direction.cross(world_up).normalized() {
        None => Vec3::new(Fixed::one(), Fixed::zero(), Fixed::zero()),
        Some(u) => u,
    };
    let up = match right.cross(camera.direction).normalized() {
        None => Vec3::new(Fixed::zero(), Fixed::one(), Fixed::zero()),
        Some(u) => u,
    };
    (right, up)
}

/// Build the primary ray direction through pixel `(x, y)`.
pub fn primary_ray(camera: &Camera, right: Vec3, up: Vec3, x: u32, y: u32) -> (r: Vec3)
    requires
        camera.wf(),
        right.wf(),
        up.wf(),
        right@ == cam_right(camera.direction@),
        up@ == cam_up(camera.direction@),
        x < camera.resolution.0,
        y < camera.resolution.1,
    ensures
        r.wf(),
        r@ == primary_ray_m(*camera, x as int, y as int),
{
    let half: i64 = SCALE / 2;
    let w: u64 = camera.resolution.0 as u64;
    let h: u64 = camera.resolution.1 as u64;
    proof {
        assert((x as int) * (SCALE as int) <= 0xFFFF * 65536) by (nonlinear_arith)
            requires
                0 <= (x as int) <= 0xFFFF,
        ;
        assert((y as int) * (SCALE as int) <= 0xFFFF * 65536) by (nonlinear_arith)
            requires
                0 <= (y as int) <= 0xFFFF,
        ;
    }
    let qx: u64 = ((x as u64) * (SCALE as u64)) / w;
    let qy: u64 = ((y as u64) * (SCALE as u64)) / h;
    let sx = Fixed { raw: (qx as i64) - half };
    let sy = Fixed { raw: half - (qy as i64) };
    proof {
        assert(qx as int <= SCALE as int) by (nonlinear_arith)
            requires
                qx as int == ((x as u64) * (SCALE as u64)) as int / (w as int),
                0 <= (x as u64) * (SCALE as u64) <= (w as int) * (SCALE as int),
                w as int > 0,
        ;
        assert(qy as int <= SCALE as int) by (nonlinear_arith)
            requires
                qy as int == ((y as u64) * (SCALE as u64)) as int / (h as int),
                0 <= (y as u64) * (SCALE as u64) <= (h as int) * (SCALE as int),
                h as int > 0,
        ;
        assert(sx@ == screen_coord(x as int, camera.resolution.0 as int));
        assert(sy@ == -screen_coord(y as int, camera.resolution.1 as int));
    }
    let v = Vec3::new(sx, sy, camera.fov);
    match v.normalized() {
        None => Vec3::zero(),
        Some(u) => {
            right.scale(u.x).add(up.scale(u.y)).add(camera.direction.scale(u.z))
        },
    }
}

/// Tone-map one accumulated radiance channel into a display byte.
pub fn tone_map_channel(radiance: Fixed) -> (r: u8)
    requires
        radiance.wf(),
    ensures
        r as int == tone_m(radiance@),
        r < 255,
{
    if radiance.raw <= 0 {
        return 0;
    }
    let num: u64 = 255 * (radiance.raw as u64);
    let den: u64 = (radiance.raw as u64) + (SCALE as u64);
    let q: u64 = num / den;
    proof {
        assert(q < 255) by (nonlinear_arith)
            requires
                q as int == (num as int) / (den as int),
                (num as int) < 255 * (den as int),
                den as int > 0,
        ;
    }
    q as u8
}

/// The tone curve never moves a channel past its ceiling: every output
/// lies in `[0, 255)`, so large radiance saturates gracefully.
pub proof fn lemma_tone_map_bounds(x: int)
    ensures
        0 <= tone_m(x) < 255,
{
    if x > 0 {
        assert(0 <= (255 * x) / (x + SCALE as int) < 255) by (nonlinear_arith)
            requires
                x > 0,
                255 * x < 255 * (x + SCALE as int),
        ;
    }
}

/// The tone curve is monotone: more radiance never yields a darker
/// channel.
pub proof fn lemma_tone_map_monotone(a: int, b: int)
    requires
        a <= b,
    ensures
        tone_m(a) <= tone_m(b),
{
    lemma_tone_map_bounds(a);
    lemma_tone_map_bounds(b);
    if 0 < a {
        let da = a + SCALE as int;
        let db = b + SCALE as int;
        let qa = (255 * a) / da;
        let qb = (255 * b) / db;
        vstd::arithmetic::div_mod::lemma_fundamental_div_mod(255 * a, da);
        vstd::arithmetic::div_mod::lemma_fundamental_div_mod(255 * b, db);
        vstd::arithmetic::div_mod::lemma_mod_bound(255 * a, da);
        vstd::arithmetic::div_mod::lemma_mod_bound(255 * b, db);
        assert(255 * a * db <= 255 * b * da) by (nonlinear_arith)
            requires
                0 < a <= b,
                da == a + SCALE as int,
                db == b + SCALE as int,
        ;
        assert(qa * db <= 255 * b) by (nonlinear_arith)
            requires
                da * qa <= 255 * a,
                255 * a * db <= 255 * b * da,
                da > 0,
                db > 0,
        ;
        assert(qa <= qb) by (nonlinear_arith)
            requires
                qa * db <= 255 * b,
                255 * b == db * qb + (255 * b) % db,
                0 <= (255 * b) % db < db,
                db > 0,
        ;
    }
}

/// The direct-light term of one light at one hit, for a given sampled
/// surface point: the shadow ray runs from the hit point toward the
/// sample; when its nearest hit is that light, the term is the light's
/// color over its squared distance, scaled by the cosine at the
/// surface; an occluded light (nearest hit elsewhere) or a missed
/// shadow ray contributes nothing.
pub open spec fn light_term_m(
    hit_position: V3,
    hit_normal: V3,
    light: IntersectableObject,
    sample_position: V3,
    objects: Seq<IntersectableObject>,
) -> V3 {
    let shadow_dir = unit_or_zero(vm_sub(sample_position, hit_position));
    match nearest_hit_m(hit_position, shadow_dir, objects) {
        Some(lh) => if lh.object == light {
            vm_scale(
                vm_div_scalar(
                    lh.object.material.color@,
                    fx_mul(lh.intersection.distance, lh.intersection.distance),
                ),
                vm_dot(hit_normal, shadow_dir),
            )
        } else {
            vm_zero()
        },
        None => vm_zero(),
    }
}

/// The saturating sum of the per-light terms over one sampled point per
/// light, accumulated in light order.
pub open spec fn direct_light_sum_m(
    hit_position: V3,
    hit_normal: V3,
    lights: Seq<IntersectableObject>,
    points: Seq<V3>,
    objects: Seq<IntersectableObject>,
) -> V3
    recommends
        points.len() == lights.len(),
    decreases lights.len(),
{
    if lights.len() == 0 {
        vm_zero()
    } else {
        vm_add(
            direct_light_sum_m(
                hit_position,
                hit_normal,
                lights.drop_last(),
                points.drop_last(),
                objects,
            ),
            light_term_m(hit_position, hit_normal, lights.last(), points.last(), objects),
        )
    }
}

/// Evaluate one light's direct contribution at a hit for one sampled
/// surface point; deterministic given the sample, and pinned exactly.
pub fn light_sample_term(
    hit_position: Vec3,
    hit_normal: Vec3,
    light: &IntersectableObject,
    sample_position: Vec3,
    objects: &Vec<IntersectableObject>,
) -> (r: Vec3)
    requires
        hit_position.wf(),
        hit_normal.wf(),
        light.wf(),
        sample_position.wf(),
        objects_wf(objects@),
    ensures
        r.wf(),
        r@ == light_term_m(hit_position@, hit_normal@, *light, sample_position@, objects@),
{
    let toward = sample_position.sub(hit_position);
    let shadow_direction = match toward.normalized() {
        None => Vec3::zero(),
        Some(u) => u,
    };
    match intersect_objects(hit_position, shadow_direction, objects) {
        Some(light_hit) => {
            if light_hit.object == *light {
                let light_distance = light_hit.intersection.distance;
                let falloff = light_distance.mul(light_distance);
                let cosine = hit_normal.dot(shadow_direction);
                light_hit.object.material.color.div_scalar(falloff).scale(cosine)
            } else {
                Vec3::zero()
            }
        },
        None => Vec3::zero(),
    }
}

/// Gather the direct light at a hit by next-event estimation: one
/// sampled point per light, summed. The one policy of this renderer:
/// only fully diffuse surfaces (raw roughness at least one) sample
/// lights — there the historical `1/roughness` cosine exponent equals
/// one, so the cosine enters linearly — and below full roughness the
/// contribution is exactly zero. For a fully diffuse hit the result is
/// the per-light sum over some drawn sample points.
pub fn direct_light_contribution(
    hit: &ObjectIntersection,
    objects: &Vec<IntersectableObject>,
    lights: &Vec<IntersectableObject>,
) -> (r: Vec3)
    requires
        hit.wf(),
        objects_wf(objects@),
        objects_wf(lights@),
    ensures
        r.wf(),
        hit.object.material.roughness@ < SCALE as int ==> r@ == vm_zero(),
        lights@.len() == 0 ==> r@ == vm_zero(),
        hit.object.material.roughness@ >= SCALE as int ==> exists|points: Seq<V3>|
            points.len() == lights@.len() && r@ == direct_light_sum_m(
                hit@.intersection.intersection_position,
                hit@.intersection.normal,
                lights@,
                points,
                objects@,
            ),
{
    if hit.object.material.roughness.raw < SCALE {
        return Vec3::zero();
    }
    let mut contribution = Vec3::zero();
    let ghost mut points: Seq<V3> = Seq::empty();
    let mut li: usize = 0;
    while li < lights.len()
        invariant
            hit.wf(),
            objects_wf(objects@),
            objects_wf(lights@),
            contribution.wf(),
            li <= lights@.len(),
            points.len() == li,
            contribution@ == direct_light_sum_m(
                hit@.intersection.intersection_position,
                hit@.intersection.normal,
                lights@.take(li as int),
                points,
                objects@,
            ),
        decreases lights@.len() - li,
    {
        let light = lights[li];
        let sample_position = get_random_point_on_surface(&light);
        let term = light_sample_term(
            hit.intersection.intersection_position,
            hit.intersection.normal,
            &light,
            sample_position,
            objects,
        );
        contribution = contribution.add(term);
        proof {
            let prev = points;
            points = points.push(sample_position@);
            assert(lights@.take(li + 1).drop_last() =~= lights@.take(li as int));
            assert(points.drop_last() =~= prev);
            assert(lights@.take(li + 1).last() == lights@[li as int]);
        }
        li += 1;
    }
    proof {
        assert(lights@.take(lights@.len() as int) =~= lights@);
    }
    contribution
}

/// The emissive-termination step of a path: the carried albedo times
/// the surface emission joins the gathered color, and the walk stops.
pub fn accumulate_emission(color: Vec3, albedo: Vec3, emission: Vec3) -> (r: Vec3)
    requires
        color.wf(),
        albedo.wf(),
        emission.wf(),
    ensures
        r.wf(),
        r@ == vm_add(color@, vm_mul_ew(albedo@, emission@)),
{
    color.add(albedo.mul_ew(emission))
}

/// Walk one ray through the scene for up to `bounces` segments.
///
/// State carried across bounces: `color`, the radiance gathered so far;
/// `albedo`, the product of the surface colors passed through. At each
/// hit: an emissive surface ends the path, adding `albedo * emission`;
/// otherwise direct light is gathered from every light (next-event
/// estimation) — performed only for fully diffuse surfaces (raw
/// roughness at least one), where the historical `1/roughness` cosine
/// exponent equals one, so the cosine enters linearly — the albedo is
/// attenuated by the surface color, the lit contribution is added, and
/// the walk continues in a direction drawn from the material sampler.
/// The returned radiance is `color` divided by the full bounce budget,
/// however early the path ended.
///
/// The contract pins the deterministic outcomes: a primary miss returns
/// black; a first hit on an emissive surface returns exactly that
/// emission over the budget; a scene with no lights and no emissive
/// surface returns black whatever the random draws did.
pub fn trace(
    origin: Vec3,
    direction: Vec3,
    objects: &Vec<IntersectableObject>,
    lights: &Vec<IntersectableObject>,
    bounces: u32,
) -> (r: Vec3)
    requires
        origin.wf(),
        direction.wf(),
        objects_wf(objects@),
        objects_wf(lights@),
        1 <= bounces <= 0x4000_0000,
    ensures
        r.wf(),
        nearest_hit_m(origin@, direction@, objects@) is None ==> r@ == vm_zero(),
        (match nearest_hit_m(origin@, direction@, objects@) {
            Some(first) => first.object.material.emissive() ==> r@ == vm_div_scalar(
                first.object.material.color@,
                bounces as int * (SCALE as int),
            ),
            None => true,
        }),
        lights@.len() == 0 && no_emissive(objects@) ==> r@ == vm_zero(),
{
    let ghost first = nearest_hit_m(origin@, direction@, objects@);
    let mut color = Vec3::zero();
    let mut albedo = Vec3::new(Fixed::one(), Fixed::one(), Fixed::one());
    let mut ray_origin = origin;
    let mut ray_direction = direction;
    let mut bounce: u32 = 0;
    let mut done = false;

    while bounce < bounces && !done
        invariant
            origin.wf(),
            direction.wf(),
            objects_wf(objects@),
            objects_wf(lights@),
            color.wf(),
            albedo.wf(),
            ray_origin.wf(),
            ray_direction.wf(),
            bounce <= bounces,
            first == nearest_hit_m(origin@, direction@, objects@),
            bounce == 0 && !done ==> ray_origin == origin && ray_direction == direction && color@
                == vm_zero() && albedo@ == vm_white(),
            bounce > 0 ==> (match first {
                Some(f) => !f.object.material.emissive(),
                None => false,
            }),
            first is None ==> color@ == vm_zero(),
            (match first {
                Some(f) => f.object.material.emissive() ==> (if bounce == 0 && !done {
                    color@ == vm_zero() && albedo@ == vm_white()
                } else {
                    color@ == f.object.material.color@
                }),
                None => true,
            }),
            lights@.len() == 0 && no_emissive(objects@) ==> color@ == vm_zero(),
        decreases bounces - bounce, (if done { 0int } else { 1int }),
    {
        match intersect_objects(ray_origin, ray_direction, objects) {
            None => {
                done = true;
            },
            Some(hit) => {
                if hit.object.material.is_emissive() {
                    proof {
                        if lights@.len() == 0 && no_emissive(objects@) {
                            lemma_nearest_hit_minimal(ray_origin@, ray_direction@, objects@);
                            let k = choose|k: int|
                                0 <= k < objects@.len() && objects@[k] == hit@.object
                                    && object_hit_m(ray_origin@, ray_direction@, #[trigger] objects@[k])
                                    == Some(hit@.intersection);
                            assert(!objects@[k].material.emissive());
                        }
                    }
                    color = accumulate_emission(color, albedo, hit.object.material.color);
                    proof {
                        if bounce == 0 {
                            lemma_fx_mul_one(hit.object.material.color.x@);
                            lemma_fx_mul_one(hit.object.material.color.y@);
                            lemma_fx_mul_one(hit.object.material.color.z@);
                        }
                    }
                    done = true;
                } else {
                    let contribution = direct_light_contribution(&hit, objects, lights);
                    albedo = albedo.mul_ew(hit.object.material.color);
                    color = color.add(albedo.mul_ew(contribution));
                    let new_direction = hit.object.material.generate_random_vector(
                        hit.intersection.starting_direction,
                        hit.intersection.normal,
                    );
                    ray_origin = hit.intersection.intersection_position;
                    ray_direction = new_direction;
                    bounce = bounce + 1;
                }
            },
        }
    }
    let budget = Fixed::from_int(bounces as i64);
    let result = color.div_scalar(budget);
    proof {
        if color@ == vm_zero() {
            lemma_fx_div_zero(budget@);
        }
    }
    result
}

/// Every accumulated cell still black.
spec fn all_black(cells: Seq<Vec3>) -> bool {
    forall|k: int| 0 <= k < cells.len() ==> (#[trigger] cells[k])@ == vm_zero()
}

/// Saturating sum of `n` copies of one raw value, added left to right.
pub open spec fn fx_sum_rep(x: int, n: nat) -> int
    decreases n,
{
    if n == 0 {
        0
    } else {
        fx_add(fx_sum_rep(x, (n - 1) as nat), x)
    }
}

/// Repeated sums of zero stay zero.
pub proof fn lemma_fx_sum_rep_zero(n: nat)
    ensures
        fx_sum_rep(0, n) == 0,
    decreases n,
{
    if n > 0 {
        lemma_fx_sum_rep_zero((n - 1) as nat);
    }
}

/// Component-wise repeated saturating sum.
pub open spec fn rep_v3(v: V3, n: nat) -> V3 {
    V3 { x: fx_sum_rep(v.x, n), y: fx_sum_rep(v.y, n), z: fx_sum_rep(v.z, n) }
}

/// The deterministic per-sample radiance share of a pixel: zero when
/// its primary ray misses the scene; the first hit's emission over the
/// bounce budget and then the sample count when that first hit is
/// emissive; undetermined (`None`) otherwise, where the radiance
/// depends on the random walk.
pub open spec fn pixel_share_m(
    cam: Camera,
    objects: Seq<IntersectableObject>,
    x: int,
    y: int,
    samples: int,
    bounces: int,
) -> Option<V3> {
    match nearest_hit_m(cam.position@, primary_ray_m(cam, x, y), objects) {
        None => Some(vm_zero()),
        Some(f) => if f.object.material.emissive() {
            Some(
                vm_div_scalar(
                    vm_div_scalar(f.object.material.color@, bounces * (SCALE as int)),
                    samples * (SCALE as int),
                ),
            )
        } else {
            None
        },
    }
}

/// How many samples the sweep has already added to pixel `(px, py)`
/// when it stands at pass `sample`, row `y`, column `x`.
spec fn passes_done(px: int, py: int, x: int, y: int, sample: int) -> int {
    if py < y || (py == y && px < x) {
        sample + 1
    } else {
        sample
    }
}

/// Every pixel whose share is deterministic holds exactly the repeated
/// sum of that share, once per sample already added to it.
spec fn cells_follow(
    cells: Seq<Vec3>,
    cam: Camera,
    objects: Seq<IntersectableObject>,
    samples: int,
    bounces: int,
    x: int,
    y: int,
    sample: int,
) -> bool {
    forall|px: int, py: int|
        0 <= px < cam.resolution.0 && 0 <= py < cam.resolution.1 ==> (
        match #[trigger] pixel_share_m(cam, objects, px, py, samples, bounces) {
            Some(share) => cells[py * (cam.resolution.0 as int) + px]@ == rep_v3(
                share,
                passes_done(px, py, x, y, sample) as nat,
            ),
            None => true,
        })
}

/// A grid of black cells satisfies the accumulation invariant at the
/// start of the sweep.
proof fn lemma_cells_start(
    cells: Seq<Vec3>,
    cam: Camera,
    objects: Seq<IntersectableObject>,
    samples: int,
    bounces: int,
)
    requires
        cells.len() == (cam.resolution.0 as int) * (cam.resolution.1 as int),
        all_black(cells),
    ensures
        cells_follow(cells, cam, objects, samples, bounces, 0, 0, 0),
{
    let wi = cam.resolution.0 as int;
    let hi = cam.resolution.1 as int;
    assert forall|px: int, py: int| 0 <= px < wi && 0 <= py < hi implies (
    match #[trigger] pixel_share_m(cam, objects, px, py, samples, bounces) {
        Some(share) => cells[py * wi + px]@ == rep_v3(share, passes_done(px, py, 0, 0, 0) as nat),
        None => true,
    }) by {
        assert(0 <= py * wi + px && py * wi + px < wi * hi) by (nonlinear_arith)
            requires
                0 <= px < wi,
                0 <= py < hi,
        ;
        assert(cells[py * wi + px]@ == vm_zero());
    }
}

/// What the accumulation invariant says of the pixel the sweep stands
/// on: its cell holds the share summed `sample` times.
proof fn lemma_cells_at(
    cells: Seq<Vec3>,
    cam: Camera,
    objects: Seq<IntersectableObject>,
    samples: int,
    bounces: int,
    x: int,
    y: int,
    sample: int,
)
    requires
        0 <= x < cam.resolution.0,
        0 <= y < cam.resolution.1,
        0 <= sample,
        cells_follow(cells, cam, objects, samples, bounces, x, y, sample),
    ensures
        match pixel_share_m(cam, objects, x, y, samples, bounces) {
            Some(share) => cells[y * (cam.resolution.0 as int) + x]@ == rep_v3(
                share,
                sample as nat,
            ),
            None => true,
        },
{
    assert(passes_done(x, y, x, y, sample) == sample);
}

/// Writing the summed share of the current pixel back advances the
/// sweep by one column.
proof fn lemma_cells_update(
    old_cells: Seq<Vec3>,
    new_cells: Seq<Vec3>,
    cam: Camera,
    objects: Seq<IntersectableObject>,
    samples: int,
    bounces: int,
    x: int,
    y: int,
    sample: int,
    fresh: Vec3,
)
    requires
        0 <= x < cam.resolution.0,
        0 <= y < cam.resolution.1,
        0 <= sample,
        old_cells.len() == (cam.resolution.0 as int) * (cam.resolution.1 as int),
        new_cells == old_cells.update(y * (cam.resolution.0 as int) + x, fresh),
        cells_follow(old_cells, cam, objects, samples, bounces, x, y, sample),
        (match pixel_share_m(cam, objects, x, y, samples, bounces) {
            Some(share) => fresh@ == rep_v3(share, (sample + 1) as nat),
            None => true,
        }),
    ensures
        cells_follow(new_cells, cam, objects, samples, bounces, x + 1, y, sample),
{
    let wi = cam.resolution.0 as int;
    let hi = cam.resolution.1 as int;
    assert(0 <= y * wi + x && y * wi + x < wi * hi) by (nonlinear_arith)
        requires
            0 <= x < wi,
            0 <= y < hi,
    ;
    assert forall|px: int, py: int| 0 <= px < wi && 0 <= py < hi implies (
    match #[trigger] pixel_share_m(cam, objects, px, py, samples, bounces) {
        Some(share) => new_cells[py * wi + px]@ == rep_v3(
            share,
            passes_done(px, py, x + 1, y, sample) as nat,
        ),
        None => true,
    }) by {
        assert(0 <= py * wi + px && py * wi + px < wi * hi) by (nonlinear_arith)
            requires
                0 <= px < wi,
                0 <= py < hi,
        ;
        if px == x && py == y {
            assert(passes_done(px, py, x + 1, y, sample) == sample + 1);
        } else {
            lemma_row_major_distinct(px, py, x, y, wi);
            assert(new_cells[py * wi + px] == old_cells[py * wi + px]);
            assert(passes_done(px, py, x + 1, y, sample) == passes_done(px, py, x, y, sample));
        }
    }
}

/// A fully swept row is the start of the next row.
proof fn lemma_cells_row_advance(
    cells: Seq<Vec3>,
    cam: Camera,
    objects: Seq<IntersectableObject>,
    samples: int,
    bounces: int,
    y: int,
    sample: int,
)
    requires
        cells_follow(cells, cam, objects, samples, bounces, cam.resolution.0 as int, y, sample),
    ensures
        cells_follow(cells, cam, objects, samples, bounces, 0, y + 1, sample),
{
    let wi = cam.resolution.0 as int;
    let hi = cam.resolution.1 as int;
    assert forall|px: int, py: int| 0 <= px < wi && 0 <= py < hi implies (
    match #[trigger] pixel_share_m(cam, objects, px, py, samples, bounces) {
        Some(share) => cells[py * wi + px]@ == rep_v3(
            share,
            passes_done(px, py, 0, y + 1, sample) as nat,
        ),
        None => true,
    }) by {
        assert(passes_done(px, py, wi, y, sample) == passes_done(px, py, 0, y + 1, sample));
    }
}

/// A fully swept pass is the start of the next pass.
proof fn lemma_cells_pass_advance(
    cells: Seq<Vec3>,
    cam: Camera,
    objects: Seq<IntersectableObject>,
    samples: int,
    bounces: int,
    sample: int,
)
    requires
        cells_follow(cells, cam, objects, samples, bounces, 0, cam.resolution.1 as int, sample),
    ensures
        cells_follow(cells, cam, objects, samples, bounces, 0, 0, sample + 1),
{
    let wi = cam.resolution.0 as int;
    let hi = cam.resolution.1 as int;
    assert forall|px: int, py: int| 0 <= px < wi && 0 <= py < hi implies (
    match #[trigger] pixel_share_m(cam, objects, px, py, samples, bounces) {
        Some(share) => cells[py * wi + px]@ == rep_v3(
            share,
            passes_done(px, py, 0, 0, sample + 1) as nat,
        ),
        None => true,
    }) by {
        assert(passes_done(px, py, 0, hi, sample) == passes_done(px, py, 0, 0, sample + 1));
    }
}

/// Distinct pixels of one row-major grid have distinct indices.
proof fn lemma_row_major_distinct(px: int, py: int, x: int, y: int, w: int)
    by (nonlinear_arith)
    requires
        0 <= px < w,
        0 <= x < w,
        !(px == x && py == y),
    ensures
        py * w + px != y * w + x,
{
}

/// Render the scene: cast `samples` primary rays through every pixel,
/// average their radiance, and tone-map each channel. The result is a
/// row-major RGB byte buffer of the camera's resolution; every byte is
/// strictly below 255 (the tone curve's open ceiling).
///
/// The contract pins everything no random draw decides: a scene with
/// no emissive object renders pure black; a pixel whose primary ray
/// misses the scene is black; and a pixel whose primary ray first hits
/// an emissive surface carries exactly the tone-mapped `samples`-fold
/// sum of its per-sample share ([`pixel_share_m`]).
#[verifier::rlimit(80)]
pub fn render(
    camera: &Camera,
    objects: &Vec<IntersectableObject>,
    samples: u32,
    bounces: u32,
) -> (r: Vec<u8>)
    requires
        camera.wf(),
        objects_wf(objects@),
        1 <= samples <= 0x4000_0000,
        1 <= bounces <= 0x4000_0000,
    ensures
        r@.len() == 3 * (camera.resolution.0 as int) * (camera.resolution.1 as int),
        forall|k: int| 0 <= k < r@.len() ==> #[trigger] r@[k] < 255,
        no_emissive(objects@) ==> forall|k: int| 0 <= k < r@.len() ==> #[trigger] r@[k] == 0,
        forall|x: int, y: int|
            0 <= x < camera.resolution.0 && 0 <= y < camera.resolution.1 ==> (
            match #[trigger] pixel_share_m(*camera, objects@, x, y, samples as int, bounces as int) {
                Some(share) => {
                    let base = 3 * (y * (camera.resolution.0 as int) + x);
                    &&& r@[base] == tone_m(fx_sum_rep(share.x, samples as nat))
                    &&& r@[base + 1] == tone_m(fx_sum_rep(share.y, samples as nat))
                    &&& r@[base + 2] == tone_m(fx_sum_rep(share.z, samples as nat))
                },
                None => true,
            }),
        forall|x: int, y: int|
            0 <= x < camera.resolution.0 && 0 <= y < camera.resolution.1 && nearest_hit_m(
                camera.position@,
                #[trigger] primary_ray_m(*camera, x, y),
                objects@,
            ) is None ==> {
                let base = 3 * (y * (camera.resolution.0 as int) + x);
                &&& r@[base] == 0
                &&& r@[base + 1] == 0
                &&& r@[base + 2] == 0
            },
{
    let w: usize = camera.resolution.0 as usize;
    let h: usize = camera.resolution.1 as usize;
    proof {
        assert((w as int) * (h as int) <= 0xFFFF * 0xFFFF) by (nonlinear_arith)
            requires
                0 < (w as int) && (w as int) <= 0xFFFF,
                0 < (h as int) && (h as int) <= 0xFFFF,
        ;
    }
    let cell_count: usize = w * h;
    let (right, up) = camera_basis(camera);
    let lights = collect_lights(objects);
    proof {
        if no_emissive(objects@) {
            lemma_no_emissive_no_lights(objects@);
        }
    }
    let per_sample = Fixed::from_int(samples as i64);

    let mut accumulation: Vec<Vec3> = Vec::new();
    let mut p: usize = 0;
    while p < cell_count
        invariant
            accumulation@.len() == p,
            p <= cell_count,
            forall|k: int| 0 <= k < p ==> (#[trigger] accumulation@[k]).wf(),
            all_black(accumulation@),
        decreases cell_count - p,
    {
        accumulation.push(Vec3::zero());
        p += 1;
    }
    proof {
        lemma_cells_start(accumulation@, *camera, objects@, samples as int, bounces as int);
    }

    let mut sample: u32 = 0;
    while sample < samples
        invariant
            camera.wf(),
            objects_wf(objects@),
            objects_wf(lights@),
            right.wf(),
            up.wf(),
            right@ == cam_right(camera.direction@),
            up@ == cam_up(camera.direction@),
            per_sample.wf(),
            per_sample@ == samples as int * (SCALE as int),
            sample <= samples,
            1 <= bounces <= 0x4000_0000,
            w == camera.resolution.0 as usize,
            h == camera.resolution.1 as usize,
            cell_count == w * h,
            accumulation@.len() == cell_count,
            forall|k: int| 0 <= k < cell_count ==> (#[trigger] accumulation@[k]).wf(),
            no_emissive(objects@) ==> lights@.len() == 0 && all_black(accumulation@),
            cells_follow(accumulation@, *camera, objects@, samples as int, bounces as int, 0, 0, sample as int),
        decreases samples - sample,
    {
        let mut y: u32 = 0;
        while y < camera.resolution.1
            invariant
                camera.wf(),
                objects_wf(objects@),
                objects_wf(lights@),
                right.wf(),
                up.wf(),
                right@ == cam_right(camera.direction@),
                up@ == cam_up(camera.direction@),
                per_sample.wf(),
                per_sample@ == samples as int * (SCALE as int),
                1 <= bounces <= 0x4000_0000,
                w == camera.resolution.0 as usize,
                h == camera.resolution.1 as usize,
                cell_count == w * h,
                accumulation@.len() == cell_count,
                y <= camera.resolution.1,
                forall|k: int| 0 <= k < cell_count ==> (#[trigger] accumulation@[k]).wf(),
                no_emissive(objects@) ==> lights@.len() == 0 && all_black(accumulation@),
                cells_follow(accumulation@, *camera, objects@, samples as int, bounces as int, 0, y as int, sample as int),
            decreases camera.resolution.1 - y,
        {
            let mut x: u32 = 0;
            while x < camera.resolution.0
                invariant
                    camera.wf(),
                    objects_wf(objects@),
                    objects_wf(lights@),
                    right.wf(),
                    up.wf(),
                    right@ == cam_right(camera.direction@),
                    up@ == cam_up(camera.direction@),
                    per_sample.wf(),
                    per_sample@ == samples as int * (SCALE as int),
                    1 <= bounces <= 0x4000_0000,
                    w == camera.resolution.0 as usize,
                    h == camera.resolution.1 as usize,
                    cell_count == w * h,
                    accumulation@.len() == cell_count,
                    y < camera.resolution.1,
                    x <= camera.resolution.0,
                    forall|k: int| 0 <= k < cell_count ==> (#[trigger] accumulation@[k]).wf(),
                    no_emissive(objects@) ==> lights@.len() == 0 && all_black(accumulation@),
                    cells_follow(accumulation@, *camera, objects@, samples as int, bounces as int, x as int, y as int, sample as int),
                decreases camera.resolution.0 - x,
            {
                let ray = primary_ray(camera, right, up, x, y);
                let radiance = trace(camera.position, ray, objects, &lights, bounces);
                proof {
                    assert((y as int) * (w as int) + (x as int) < (w as int) * (h as int))
                        by (nonlinear_arith)
                        requires
                            0 <= (x as int) && (x as int) < (w as int),
                            0 <= (y as int) && (y as int) < (h as int),
                    ;
                }
                let idx: usize = (y as usize) * w + (x as usize);
                let cell = accumulation[idx];
                let brighter = cell.add(radiance.div_scalar(per_sample));
                proof {
                    if no_emissive(objects@) {
                        lemma_fx_div_zero(per_sample@);
                        assert(brighter@ == vm_zero());
                    }
                    lemma_cells_at(
                        accumulation@,
                        *camera,
                        objects@,
                        samples as int,
                        bounces as int,
                        x as int,
                        y as int,
                        sample as int,
                    );
                    assert(per_sample@ == samples as int * (SCALE as int));
                    match pixel_share_m(
                        *camera,
                        objects@,
                        x as int,
                        y as int,
                        samples as int,
                        bounces as int,
                    ) {
                        Some(share) => {
                            match nearest_hit_m(
                                camera.position@,
                                primary_ray_m(*camera, x as int, y as int),
                                objects@,
                            ) {
                                None => {
                                    lemma_fx_div_zero(per_sample@);
                                    assert(share == vm_zero());
                                    assert(brighter@ == rep_v3(share, (sample as int + 1) as nat));
                                },
                                Some(f) => {
                                    assert(f.object.material.emissive());
                                    assert(radiance@ == vm_div_scalar(
                                        f.object.material.color@,
                                        bounces as int * (SCALE as int),
                                    ));
                                    assert(share == vm_div_scalar(radiance@, per_sample@));
                                    assert(brighter@ == rep_v3(share, (sample as int + 1) as nat));
                                },
                            }
                        },
                        None => {},
                    }
                }
                let ghost pre = accumulation@;
                accumulation[idx] = brighter;
                proof {
                    assert(idx as int == (y as int) * (camera.resolution.0 as int) + (x as int));
                    lemma_cells_update(
                        pre,
                        accumulation@,
                        *camera,
                        objects@,
                        samples as int,
                        bounces as int,
                        x as int,
                        y as int,
                        sample as int,
                        brighter,
                    );
                }
                x = x + 1;
            }
            proof {
                lemma_cells_row_advance(
                    accumulation@,
                    *camera,
                    objects@,
                    samples as int,
                    bounces as int,
                    y as int,
                    sample as int,
                );
            }
            y = y + 1;
        }
        proof {
            lemma_cells_pass_advance(
                accumulation@,
                *camera,
                objects@,
                samples as int,
                bounces as int,
                sample as int,
            );
        }
        sample = sample + 1;
    }

    let mut image: Vec<u8> = Vec::new();
    let mut q: usize = 0;
    while q < cell_count
        invariant
            camera.wf(),
            w == camera.resolution.0 as usize,
            h == camera.resolution.1 as usize,
            cell_count == w * h,
            accumulation@.len() == cell_count,
            q <= cell_count,
            image@.len() == 3 * q,
            forall|k: int| 0 <= k < cell_count ==> (#[trigger] accumulation@[k]).wf(),
            forall|k: int| 0 <= k < image@.len() ==> #[trigger] image@[k] < 255,
            no_emissive(objects@) ==> all_black(accumulation@),
            no_emissive(objects@) ==> forall|k: int| 0 <= k < image@.len() ==> #[trigger] image@[k]
                == 0,
            cells_follow(
                accumulation@,
                *camera,
                objects@,
                samples as int,
                bounces as int,
                0,
                0,
                samples as int,
            ),
            forall|px: int, py: int|
                0 <= px < camera.resolution.0 && 0 <= py < camera.resolution.1 && py * (
                camera.resolution.0 as int) + px < q ==> (
                match #[trigger] pixel_share_m(
                    *camera,
                    objects@,
                    px,
                    py,
                    samples as int,
                    bounces as int,
                ) {
                    Some(share) => {
                        &&& image@[3 * (py * (camera.resolution.0 as int) + px)] == tone_m(
                            fx_sum_rep(share.x, samples as nat),
                        )
                        &&& image@[3 * (py * (camera.resolution.0 as int) + px) + 1] == tone_m(
                            fx_sum_rep(share.y, samples as nat),
                        )
                        &&& image@[3 * (py * (camera.resolution.0 as int) + px) + 2] == tone_m(
                            fx_sum_rep(share.z, samples as nat),
                        )
                    },
                    None => true,
                }),
        decreases cell_count - q,
    {
        let cell = accumulation[q];
        image.push(tone_map_channel(cell.x));
        image.push(tone_map_channel(cell.y));
        image.push(tone_map_channel(cell.z));
        proof {
            let wi = camera.resolution.0 as int;
            let hi = camera.resolution.1 as int;
            assert forall|px: int, py: int|
                0 <= px < wi && 0 <= py < hi && py * wi + px < q + 1 implies (
            match #[trigger] pixel_share_m(*camera, objects@, px, py, samples as int, bounces as int) {
                Some(share) => {
                    &&& image@[3 * (py * wi + px)] == tone_m(fx_sum_rep(share.x, samples as nat))
                    &&& image@[3 * (py * wi + px) + 1] == tone_m(
                        fx_sum_rep(share.y, samples as nat),
                    )
                    &&& image@[3 * (py * wi + px) + 2] == tone_m(
                        fx_sum_rep(share.z, samples as nat),
                    )
                },
                None => true,
            }) by {
                if py * wi + px == q {
                    assert(passes_done(px, py, 0, 0, samples as int) == samples as int);
                    assert(match pixel_share_m(
                        *camera,
                        objects@,
                        px,
                        py,
                        samples as int,
                        bounces as int,
                    ) {
                        Some(share) => accumulation@[py * wi + px]@ == rep_v3(
                            share,
                            samples as nat,
                        ),
                        None => true,
                    });
                }
            }
        }
        q += 1;
    }
    proof {
        assert(image@.len() == 3 * (camera.resolution.0 as int) * (camera.resolution.1 as int))
            by (nonlinear_arith)
            requires
                image@.len() == 3 * (cell_count as int),
                cell_count == (w as int) * (h as int),
                w == camera.resolution.0 as int,
                h == camera.resolution.1 as int,
        ;
        let wi = camera.resolution.0 as int;
        let hi = camera.resolution.1 as int;
        assert forall|x: int, y: int| 0 <= x < wi && 0 <= y < hi implies (
        match #[trigger] pixel_share_m(*camera, objects@, x, y, samples as int, bounces as int) {
            Some(share) => {
                &&& image@[3 * (y * wi + x)] == tone_m(fx_sum_rep(share.x, samples as nat))
                &&& image@[3 * (y * wi + x) + 1] == tone_m(fx_sum_rep(share.y, samples as nat))
                &&& image@[3 * (y * wi + x) + 2] == tone_m(fx_sum_rep(share.z, samples as nat))
            },
            None => true,
        }) by {
            assert(0 <= y * wi + x && y * wi + x < wi * hi) by (nonlinear_arith)
                requires
                    0 <= x < wi,
                    0 <= y < hi,
            ;
        }
        assert forall|x: int, y: int|
            0 <= x < wi && 0 <= y < hi && nearest_hit_m(
                camera.position@,
                #[trigger] primary_ray_m(*camera, x, y),
                objects@,
            ) is None implies (image@[3 * (y * wi + x)] == 0 && image@[3 * (y * wi + x) + 1] == 0
            && image@[3 * (y * wi + x) + 2] == 0) by {
            lemma_fx_sum_rep_zero(samples as nat);
            assert(pixel_share_m(*camera, objects@, x, y, samples as int, bounces as int) == Some(
                vm_zero(),
            ));
        }
    }
    image
}

} // verus!
