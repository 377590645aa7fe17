//! The scene model: primitives, materials, nearest-hit resolution,
//! light enumeration, and the stochastic surface samplers.

use vstd::prelude::*;
use crate::fixed::{
    Fixed, fx_add, fx_sub, fx_mul, lemma_fx_mul_one, lemma_blend_weight_full,
    lemma_blend_weight_zero, SCALE,
};
use crate::vec3::{
    Vec3, V3, vm_add, vm_sub, vm_scale, vm_dot, vm_neg, vm_len, vm_norm, vm_zero, unit_or_zero,
    lemma_vm_dot_neg,
};
use crate::intersections::{
    Intersection, IntersectionM, intersect_sphere, intersect_plane, sphere_hit_m, plane_hit_m,
};
use crate::entropy::random_signed_unit;

verus! {

/// The shape of a primitive; its position lives on the owning object.
#[derive(Clone, Copy, Debug, PartialEq, Eq, Structural)]
pub enum ObjectType {
    /// A sphere of the given radius around the object position.
    Sphere { radius: Fixed },
    /// A one-sided plane through the object position with this normal.
    Plane { normal: Vec3 },
}

impl ObjectType {
    /// Parameters within fixed-point bounds.
    pub open spec fn wf(self) -> bool {
        match self {
            ObjectType::Sphere { radius } => radius.wf(),
            ObjectType::Plane { normal } => normal.wf(),
        }
    }
}

/// Each component of a draw lies within one unit of zero.
pub open spec fn draw_in_cube(v: V3) -> bool {
    &&& -(SCALE as int) <= v.x <= SCALE as int
    &&& -(SCALE as int) <= v.y <= SCALE as int
    &&& -(SCALE as int) <= v.z <= SCALE as int
}

/// What a drawn triple becomes: its direction, or the positive x axis
/// when the draw's length rounds to zero.
pub open spec fn drawn_direction_m(v: V3) -> V3 {
    if vm_len(v) == 0 {
        V3 { x: SCALE as int, y: 0, z: 0 }
    } else {
        vm_norm(v)
    }
}

/// A draw flipped into the hemisphere of `n`: negated when its dot
/// with `n` is negative, kept otherwise (a zero dot keeps the draw).
pub open spec fn hemisphere_flip(n: V3, u: V3) -> V3 {
    if vm_dot(n, u) < 0 {
        vm_neg(u)
    } else {
        u
    }
}

/// The mirror reflection of a direction about a surface normal, both
/// normalized first: `incoming - 2 (n . incoming) n`, itself normalized.
/// Degenerate lengths collapse to the zero vector at every step.
pub open spec fn mirror_dir(incoming_direction: V3, normal: V3) -> V3 {
    let n = unit_or_zero(normal);
    let inc = unit_or_zero(incoming_direction);
    let along = vm_dot(n, inc);
    unit_or_zero(vm_sub(inc, vm_scale(n, fx_add(along, along))))
}

/// The blended bounce direction for a given draw `u`: the draw flipped
/// into the normal's hemisphere, weighted by the roughness, plus the
/// mirror reflection weighted by the rest. Deliberately not
/// renormalized: callers treat the result as a direction and normalize
/// it again before use.
pub open spec fn bounce_blend_m(roughness: int, incoming_direction: V3, normal: V3, u: V3) -> V3 {
    let d = hemisphere_flip(unit_or_zero(normal), u);
    let s = mirror_dir(incoming_direction, normal);
    vm_add(vm_scale(d, roughness), vm_scale(s, fx_sub(SCALE as int, roughness)))
}

/// Where a drawn direction `u` lands on an object's surface: on a
/// sphere, the center plus the draw scaled by the radius; on a plane,
/// a point of a patch ten units wide around the plane position,
/// projected onto the plane.
pub open spec fn surface_point_m(object: IntersectableObject, u: V3) -> V3 {
    match object.object_type {
        ObjectType::Sphere { radius } => vm_add(object.position@, vm_scale(u, radius@)),
        ObjectType::Plane { normal } => {
            let patch = vm_scale(u, 10 * (SCALE as int));
            vm_add(object.position@, vm_sub(patch, vm_scale(normal@, vm_dot(normal@, patch))))
        },
    }
}

/// Surface description. A color channel above one marks the surface as
/// emissive: the channel is both albedo and emission flag.
#[derive(Clone, Copy, Debug, PartialEq, Eq, Structural)]
pub struct Material {
    /// Albedo, and emission when any channel exceeds one.
    pub color: Vec3,
    /// Diffuse weight in `(0, 1]`: one is fully diffuse, smaller values
    /// mix in the mirror reflection.
    pub roughness: Fixed,
    /// Reserved; carried but never read by the renderer.
    pub refractivity: Fixed,
}

impl Material {
    /// Fields within fixed-point bounds.
    pub open spec fn wf(self) -> bool {
        self.color.wf() && self.roughness.wf() && self.refractivity.wf()
    }

    /// A surface is emissive when any color channel exceeds one.
    pub open spec fn emissive(self) -> bool {
        self.color.x@ > SCALE as int || self.color.y@ > SCALE as int || self.color.z@ > SCALE
            as int
    }

    /// Build a material from its parts.
    pub fn new(color: Vec3, roughness: Fixed, refractivity: Fixed) -> (r: Material)
        requires
            color.wf(),
            roughness.wf(),
            refractivity.wf(),
        ensures
            r.wf(),
            r == (Material { color, roughness, refractivity }),
    {
        Material { color, roughness, refractivity }
    }

    /// Decide whether this material acts as a light source.
    pub fn is_emissive(&self) -> (r: bool)
        ensures
            r == self.emissive(),
    {
        self.color.x.raw > SCALE || self.color.y.raw > SCALE || self.color.z.raw > SCALE
    }

    /// Draw an outgoing bounce direction: a uniformly random direction
    /// flipped into the normal's hemisphere, blended with the mirror
    /// reflection of the incoming direction by the roughness weight
    /// (see [`bounce_blend_m`]). The contract states the result for
    /// every outcome as the blend of some drawn triple, and pins the
    /// two deterministic faces: at roughness zero the result is exactly
    /// the mirror reflection, and at full roughness it is exactly the
    /// flipped draw, so it never leaves the normal's hemisphere.
    #[verifier::rlimit(50)]
    pub fn generate_random_vector(&self, incoming_direction: Vec3, normal: Vec3) -> (r: Vec3)
        requires
            self.wf(),
            incoming_direction.wf(),
            normal.wf(),
        ensures
            r.wf(),
            exists|v: V3|
                draw_in_cube(v) && r@ == bounce_blend_m(
                    self.roughness@,
                    incoming_direction@,
                    normal@,
                    drawn_direction_m(v),
                ),
            self.roughness@ == 0 ==> r@ == mirror_dir(incoming_direction@, normal@),
            self.roughness@ == SCALE as int ==> vm_dot(unit_or_zero(normal@), r@) >= 0,
    {
        let n = match normal.normalized() {
            None => Vec3::zero(),
            Some(u) => u,
        };
        let incoming = match incoming_direction.normalized() {
            None => Vec3::zero(),
            Some(u) => u,
        };
        let drawn = generate_random_vector();
        let diffuse_direction = if n.dot(drawn).raw < 0 {
            drawn.neg()
        } else {
            drawn
        };
        let along = n.dot(incoming);
        let mirror = incoming.sub(n.scale(along.add(along)));
        let specular_direction = match mirror.normalized() {
            None => Vec3::zero(),
            Some(u) => u,
        };
        let blended = diffuse_direction.scale(self.roughness).add(
            specular_direction.scale(Fixed::one().sub(self.roughness)),
        );
        proof {
            let v = choose|v: V3| draw_in_cube(v) && drawn@ == drawn_direction_m(v);
            assert(n@ == unit_or_zero(normal@));
            assert(incoming@ == unit_or_zero(incoming_direction@));
            assert(diffuse_direction@ == hemisphere_flip(n@, drawn@));
            assert(specular_direction@ == mirror_dir(incoming_direction@, normal@));
            assert(draw_in_cube(v) && blended@ == bounce_blend_m(
                self.roughness@,
                incoming_direction@,
                normal@,
                drawn_direction_m(v),
            ));
            if self.roughness@ == 0 {
                lemma_blend_weight_zero(diffuse_direction.x@, specular_direction.x@);
                lemma_blend_weight_zero(diffuse_direction.y@, specular_direction.y@);
                lemma_blend_weight_zero(diffuse_direction.z@, specular_direction.z@);
                assert(blended@ == specular_direction@);
            }
            if self.roughness@ == SCALE as int {
                lemma_blend_weight_full(diffuse_direction.x@, specular_direction.x@);
                lemma_blend_weight_full(diffuse_direction.y@, specular_direction.y@);
                lemma_blend_weight_full(diffuse_direction.z@, specular_direction.z@);
                assert(blended@ == diffuse_direction@);
                lemma_vm_dot_neg(n@, drawn@);
                assert(vm_dot(n@, diffuse_direction@) >= 0);
            }
        }
        blended
    }
}

/// Draw a uniformly random direction: a triple with components in
/// `[-1, 1]`, normalized (cube-normalized, not exactly uniform on the
/// sphere). A draw whose length rounds to zero falls back to the
/// positive x axis; the contract states the result as the direction of
/// some in-cube draw, whatever was drawn.
pub fn generate_random_vector() -> (r: Vec3)
    ensures
        r.wf(),
        exists|v: V3| draw_in_cube(v) && r@ == drawn_direction_m(v),
{
    let v = Vec3::new(random_signed_unit(), random_signed_unit(), random_signed_unit());
    let r = match v.normalized() {
        None => Vec3::new(Fixed::one(), Fixed::zero(), Fixed::zero()),
        Some(u) => u,
    };
    proof {
        assert(draw_in_cube(v@));
        assert(r@ == drawn_direction_m(v@));
    }
    r
}

/// A primitive with its surface material and world position.
#[derive(Clone, Copy, Debug, PartialEq, Eq, Structural)]
pub struct IntersectableObject {
    pub object_type: ObjectType,
    pub material: Material,
    pub position: Vec3,
}

impl IntersectableObject {
    /// All parts within fixed-point bounds.
    pub open spec fn wf(self) -> bool {
        self.object_type.wf() && self.material.wf() && self.position.wf()
    }
}

/// Every object of a scene well formed.
pub open spec fn objects_wf(objects: Seq<IntersectableObject>) -> bool {
    forall|k: int| 0 <= k < objects.len() ==> (#[trigger] objects[k]).wf()
}

/// No object of the scene is emissive.
pub open spec fn no_emissive(objects: Seq<IntersectableObject>) -> bool {
    forall|k: int| 0 <= k < objects.len() ==> !(#[trigger] objects[k]).material.emissive()
}

/// Model of a hit together with the object that was hit.
pub ghost struct ObjectIntersectionM {
    pub object: IntersectableObject,
    pub intersection: IntersectionM,
}

/// A hit together with the object that was hit.
#[derive(Clone, Copy, Debug, PartialEq, Eq, Structural)]
pub struct ObjectIntersection {
    pub object: IntersectableObject,
    pub intersection: Intersection,
}

impl View for ObjectIntersection {
    type V = ObjectIntersectionM;

    open spec fn view(&self) -> ObjectIntersectionM {
        ObjectIntersectionM { object: self.object, intersection: self.intersection@ }
    }
}

impl ObjectIntersection {
    /// All parts within fixed-point bounds.
    pub open spec fn wf(self) -> bool {
        self.object.wf() && self.intersection.wf()
    }
}

/// What a ray returns against one object: the sphere or plane test with
/// the object's position and parameters.
pub open spec fn object_hit_m(orig: V3, dir: V3, object: IntersectableObject) -> Option<
    IntersectionM,
> {
    match object.object_type {
        ObjectType::Sphere { radius } => sphere_hit_m(orig, dir, object.position@, radius@),
        ObjectType::Plane { normal } => plane_hit_m(orig, dir, object.position@, normal@),
    }
}

/// Fold one object into the best hit so far: a new hit replaces the
/// candidate only when strictly nearer, so on equal distances the
/// earlier object wins.
pub open spec fn nearer_hit(
    best: Option<ObjectIntersectionM>,
    orig: V3,
    dir: V3,
    object: IntersectableObject,
) -> Option<ObjectIntersectionM> {
    match object_hit_m(orig, dir, object) {
        None => best,
        Some(h) => match best {
            None => Some(ObjectIntersectionM { object, intersection: h }),
            Some(b) => if h.distance < b.intersection.distance {
                Some(ObjectIntersectionM { object, intersection: h })
            } else {
                best
            },
        },
    }
}

/// The nearest hit of a ray over a list of objects, ties broken in
/// favor of the earliest object.
pub open spec fn nearest_hit_m(orig: V3, dir: V3, objects: Seq<IntersectableObject>) -> Option<
    ObjectIntersectionM,
>
    decreases objects.len(),
{
    if objects.len() == 0 {
        None
    } else {
        nearer_hit(nearest_hit_m(orig, dir, objects.drop_last()), orig, dir, objects.last())
    }
}

/// Test a ray against a single object.
pub fn intersect_object(starting_position: Vec3, direction: Vec3, object: &IntersectableObject)
    -> (r: Option<ObjectIntersection>)
    requires
        starting_position.wf(),
        direction.wf(),
        object.wf(),
    ensures
        match r {
            Some(oi) => oi.wf() && oi.object == *object && object_hit_m(
                starting_position@,
                direction@,
                *object,
            ) == Some(oi.intersection@),
            None => object_hit_m(starting_position@, direction@, *object) is None,
        },
{
    let position = object.position;
    match object.object_type {
        ObjectType::Sphere { radius } => {
            match intersect_sphere(starting_position, direction, position, radius) {
                Some(intersection) => Some(ObjectIntersection { object: *object, intersection }),
                None => None,
            }
        },
        ObjectType::Plane { normal } => {
            match intersect_plane(starting_position, direction, position, normal) {
                Some(intersection) => Some(ObjectIntersection { object: *object, intersection }),
                None => None,
            }
        },
    }
}

/// Resolve the nearest hit of a ray across the whole scene; an empty
/// scene, or one that the ray misses entirely, yields `None`.
pub fn intersect_objects(
    starting_position: Vec3,
    direction: Vec3,
    objects: &Vec<IntersectableObject>,
) -> (r: Option<ObjectIntersection>)
    requires
        starting_position.wf(),
        direction.wf(),
        objects_wf(objects@),
    ensures
        match r {
            Some(oi) => oi.wf() && nearest_hit_m(starting_position@, direction@, objects@)
                == Some(oi@),
            None => nearest_hit_m(starting_position@, direction@, objects@) is None,
        },
        objects@.len() == 0 ==> r is None,
{
    let mut best: Option<ObjectIntersection> = None;
    let mut i: usize = 0;
    while i < objects.len()
        invariant
            0 <= i <= objects@.len(),
            starting_position.wf(),
            direction.wf(),
            objects_wf(objects@),
            match best {
                Some(b) => b.wf() && nearest_hit_m(
                    starting_position@,
                    direction@,
                    objects@.take(i as int),
                ) == Some(b@),
                None => nearest_hit_m(starting_position@, direction@, objects@.take(i as int))
                    is None,
            },
        decreases objects@.len() - i,
    {
        let object = objects[i];
        let hit = intersect_object(starting_position, direction, &object);
        proof {
            assert(objects@.take(i + 1).drop_last() =~= objects@.take(i as int));
            assert(objects@.take(i + 1).last() == objects@[i as int]);
        }
        match hit {
            Some(oi) => {
                match &best {
                    None => {
                        best = Some(oi);
                    },
                    Some(b) => {
                        if oi.intersection.distance.raw < b.intersection.distance.raw {
                            best = Some(oi);
                        }
                    },
                }
            },
            None => {},
        }
        i += 1;
    }
    proof {
        assert(objects@.take(objects@.len() as int) =~= objects@);
    }
    best
}

/// The nearest hit really is nearest: when the resolution returns a
/// hit, that hit comes from some object of the list and no object is
/// hit at a strictly smaller distance; when it returns nothing, no
/// object is hit at all.
#[verifier::rlimit(50)]
pub proof fn lemma_nearest_hit_minimal(orig: V3, dir: V3, objects: Seq<IntersectableObject>)
    ensures
        nearest_hit_m(orig, dir, objects) is None ==> forall|k: int|
            0 <= k < objects.len() ==> object_hit_m(orig, dir, #[trigger] objects[k]) is None,
        nearest_hit_m(orig, dir, objects) matches Some(best) ==> {
            &&& exists|k: int|
                0 <= k < objects.len() && objects[k] == best.object && object_hit_m(
                    orig,
                    dir,
                    #[trigger] objects[k],
                ) == Some(best.intersection)
            &&& forall|k: int|
                0 <= k < objects.len() ==> match object_hit_m(orig, dir, #[trigger] objects[k]) {
                    Some(h) => best.intersection.distance <= h.distance,
                    None => true,
                }
        },
    decreases objects.len(),
{
    if objects.len() > 0 {
        let prefix = objects.drop_last();
        let last = objects.last();
        lemma_nearest_hit_minimal(orig, dir, prefix);
        let sub = nearest_hit_m(orig, dir, prefix);
        assert(nearest_hit_m(orig, dir, objects) == nearer_hit(sub, orig, dir, last));
        assert forall|k: int| 0 <= k < prefix.len() implies #[trigger] objects[k] == prefix[k] by {}
        assert(objects[objects.len() - 1] == last);
        match nearer_hit(sub, orig, dir, last) {
            None => {
                assert forall|k: int|
                    0 <= k < objects.len() implies object_hit_m(orig, dir, #[trigger] objects[k])
                    is None by {
                    if k < objects.len() - 1 {
                        assert(objects[k] == prefix[k]);
                    } else {
                        assert(objects[k] == last);
                    }
                }
            },
            Some(best) => {
                match sub {
                    None => {
                        assert(object_hit_m(orig, dir, objects[objects.len() - 1]) == Some(
                            best.intersection,
                        ));
                    },
                    Some(sb) => {
                        if best == sb {
                            let k0 = choose|k: int|
                                0 <= k < prefix.len() && prefix[k] == sb.object && object_hit_m(
                                    orig,
                                    dir,
                                    #[trigger] prefix[k],
                                ) == Some(sb.intersection);
                            assert(objects[k0] == prefix[k0]);
                            assert(object_hit_m(orig, dir, objects[k0]) == Some(
                                best.intersection,
                            ));
                        } else {
                            assert(object_hit_m(orig, dir, objects[objects.len() - 1]) == Some(
                                best.intersection,
                            ));
                        }
                    },
                }
                assert forall|k: int| 0 <= k < objects.len() implies match object_hit_m(
                    orig,
                    dir,
                    #[trigger] objects[k],
                ) {
                    Some(h) => best.intersection.distance <= h.distance,
                    None => true,
                } by {
                    if k < objects.len() - 1 {
                        assert(objects[k] == prefix[k]);
                    } else {
                        assert(objects[k] == last);
                    }
                }
            },
        }
    }
}

/// The emissive objects of a scene, in scene order.
pub open spec fn lights_of(objects: Seq<IntersectableObject>) -> Seq<IntersectableObject>
    decreases objects.len(),
{
    if objects.len() == 0 {
        Seq::empty()
    } else {
        lights_of(objects.drop_last()) + if objects.last().material.emissive() {
            seq![objects.last()]
        } else {
            Seq::empty()
        }
    }
}

/// A scene without an emissive object yields no lights.
pub proof fn lemma_no_emissive_no_lights(objects: Seq<IntersectableObject>)
    requires
        no_emissive(objects),
    ensures
        lights_of(objects).len() == 0,
    decreases objects.len(),
{
    if objects.len() > 0 {
        let prefix = objects.drop_last();
        assert forall|k: int| 0 <= k < prefix.len() implies !(#[trigger] prefix[k]).material.emissive() by {
            assert(prefix[k] == objects[k]);
        }
        lemma_no_emissive_no_lights(prefix);
        assert(objects.last() == objects[objects.len() - 1]);
    }
}

/// Collect the emissive objects of a scene; done once per render call
/// and reused for every bounce.
pub fn collect_lights(objects: &Vec<IntersectableObject>) -> (r: Vec<IntersectableObject>)
    requires
        objects_wf(objects@),
    ensures
        r@ == lights_of(objects@),
        objects_wf(r@),
{
    let mut lights: Vec<IntersectableObject> = Vec::new();
    let mut i: usize = 0;
    while i < objects.len()
        invariant
            0 <= i <= objects@.len(),
            objects_wf(objects@),
            lights@ == lights_of(objects@.take(i as int)),
            objects_wf(lights@),
        decreases objects@.len() - i,
    {
        let object = objects[i];
        proof {
            assert(objects@.take(i + 1).drop_last() =~= objects@.take(i as int));
            assert(objects@.take(i + 1).last() == objects@[i as int]);
        }
        if object.material.is_emissive() {
            lights.push(object);
            proof {
                assert(lights@ =~= lights_of(objects@.take(i + 1)));
            }
        } else {
            proof {
                assert(lights@ =~= lights_of(objects@.take(i + 1)));
            }
        }
        i += 1;
    }
    proof {
        assert(objects@.take(objects@.len() as int) =~= objects@);
    }
    lights
}

/// Draw a random point on (or near) an object's surface. For a sphere
/// this is a uniformly drawn direction scaled by the radius around the
/// center. For a plane it is a point of a bounded patch around the
/// plane position, projected onto the plane — a biased, finite
/// approximation of an infinite plane light, not exact importance
/// sampling. The contract states the result for every outcome: it is
/// [`surface_point_m`] of the direction of some in-cube draw.
pub fn get_random_point_on_surface(object: &IntersectableObject) -> (r: Vec3)
    requires
        object.wf(),
    ensures
        r.wf(),
        exists|v: V3| draw_in_cube(v) && r@ == surface_point_m(*object, drawn_direction_m(v)),
{
    let unit = generate_random_vector();
    let ghost v = choose|v: V3| draw_in_cube(v) && unit@ == drawn_direction_m(v);
    let position = object.position;
    let r = match object.object_type {
        ObjectType::Sphere { radius } => {
            position.add(unit.scale(radius))
        },
        ObjectType::Plane { normal } => {
            let patch_point = unit.scale(Fixed::from_int(10));
            position.add(patch_point.sub(normal.scale(normal.dot(patch_point))))
        },
    };
    proof {
        assert(draw_in_cube(v) && r@ == surface_point_m(*object, drawn_direction_m(v)));
    }
    r
}

} // verus!
