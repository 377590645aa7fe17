//! 3-component fixed-point vectors.
//!
//! `Vec3` is the executable type; `V3` is its mathematical model, with
//! each component an unbounded integer standing for a raw fixed-point
//! count. Every vector operation is pinned to a spec function over `V3`,
//! so geometry built from these operations has an exact meaning.

use vstd::prelude::*;
use crate::fixed::{Fixed, fx_add, fx_sub, fx_mul, fx_div, fx_sqrt, MAX_RAW};

verus! {

/// Model of a vector: the three raw fixed-point components as integers.
pub ghost struct V3 {
    pub x: int,
    pub y: int,
    pub z: int,
}

/// The zero vector.
pub open spec fn vm_zero() -> V3 {
    V3 { x: 0, y: 0, z: 0 }
}

/// Component-wise saturating sum.
pub open spec fn vm_add(a: V3, b: V3) -> V3 {
    V3 { x: fx_add(a.x, b.x), y: fx_add(a.y, b.y), z: fx_add(a.z, b.z) }
}

/// Component-wise saturating difference.
pub open spec fn vm_sub(a: V3, b: V3) -> V3 {
    V3 { x: fx_sub(a.x, b.x), y: fx_sub(a.y, b.y), z: fx_sub(a.z, b.z) }
}

/// Component-wise negation.
pub open spec fn vm_neg(a: V3) -> V3 {
    V3 { x: -a.x, y: -a.y, z: -a.z }
}

/// Scaling by a fixed-point factor.
pub open spec fn vm_scale(a: V3, s: int) -> V3 {
    V3 { x: fx_mul(a.x, s), y: fx_mul(a.y, s), z: fx_mul(a.z, s) }
}

/// Component-wise (Hadamard) product, used for color attenuation.
pub open spec fn vm_mul_ew(a: V3, b: V3) -> V3 {
    V3 { x: fx_mul(a.x, b.x), y: fx_mul(a.y, b.y), z: fx_mul(a.z, b.z) }
}

/// Division of every component by one fixed-point scalar.
pub open spec fn vm_div_scalar(a: V3, s: int) -> V3 {
    V3 { x: fx_div(a.x, s), y: fx_div(a.y, s), z: fx_div(a.z, s) }
}

/// Dot product, accumulated left to right.
pub open spec fn vm_dot(a: V3, b: V3) -> int {
    fx_add(fx_add(fx_mul(a.x, b.x), fx_mul(a.y, b.y)), fx_mul(a.z, b.z))
}

/// Cross product.
pub open spec fn vm_cross(a: V3, b: V3) -> V3 {
    V3 {
        x: fx_sub(fx_mul(a.y, b.z), fx_mul(a.z, b.y)),
        y: fx_sub(fx_mul(a.z, b.x), fx_mul(a.x, b.z)),
        z: fx_sub(fx_mul(a.x, b.y), fx_mul(a.y, b.x)),
    }
}

/// Euclidean length: square root of the self dot product.
pub open spec fn vm_len(a: V3) -> int {
    fx_sqrt(vm_dot(a, a))
}

/// Direction of `a`: each component divided by the length (meaningful
/// when the length is not zero).
pub open spec fn vm_norm(a: V3) -> V3 {
    vm_div_scalar(a, vm_len(a))
}

/// The direction of `a`, or the zero vector when `a` has no length:
/// the total form of normalization that the samplers use.
pub open spec fn unit_or_zero(a: V3) -> V3 {
    if vm_len(a) == 0 {
        vm_zero()
    } else {
        vm_norm(a)
    }
}

/// Negating one argument negates the dot product: truncation and
/// saturation are both symmetric around zero.
pub proof fn lemma_vm_dot_neg(a: V3, b: V3)
    ensures
        vm_dot(a, vm_neg(b)) == -vm_dot(a, b),
{
    assert(a.x * (-b.x) == -(a.x * b.x)) by (nonlinear_arith);
    assert(a.y * (-b.y) == -(a.y * b.y)) by (nonlinear_arith);
    assert(a.z * (-b.z) == -(a.z * b.z)) by (nonlinear_arith);
}

/// All components within the fixed-point saturation bound.
pub open spec fn vm_wf(a: V3) -> bool {
    &&& -MAX_RAW <= a.x <= MAX_RAW
    &&& -MAX_RAW <= a.y <= MAX_RAW
    &&& -MAX_RAW <= a.z <= MAX_RAW
}

/// An executable vector of three fixed-point components.
#[derive(Clone, Copy, Debug, PartialEq, Eq, Structural)]
pub struct Vec3 {
    pub x: Fixed,
    pub y: Fixed,
    pub z: Fixed,
}

impl View for Vec3 {
    type V = V3;

    open spec fn view(&self) -> V3 {
        V3 { x: self.x@, y: self.y@, z: self.z@ }
    }
}

impl Vec3 {
    /// All components well formed.
    pub open spec fn wf(self) -> bool {
        self.x.wf() && self.y.wf() && self.z.wf()
    }

    /// Build a vector from three components.
    pub fn new(x: Fixed, y: Fixed, z: Fixed) -> (r: Vec3)
        requires
            x.wf(),
            y.wf(),
            z.wf(),
        ensures
            r.wf(),
            r@ == (V3 { x: x@, y: y@, z: z@ }),
    {
        Vec3 { x, y, z }
    }

    /// The zero vector.
    pub fn zero() -> (r: Vec3)
        ensures
            r.wf(),
            r@ == vm_zero(),
    {
        Vec3 { x: Fixed::zero(), y: Fixed::zero(), z: Fixed::zero() }
    }

    /// Component-wise saturating sum.
    pub fn add(self, other: Vec3) -> (r: Vec3)
        requires
            self.wf(),
            other.wf(),
        ensures
            r.wf(),
            r@ == vm_add(self@, other@),
    {
        Vec3 { x: self.x.add(other.x), y: self.y.add(other.y), z: self.z.add(other.z) }
    }

    /// Component-wise saturating difference.
    pub fn sub(self, other: Vec3) -> (r: Vec3)
        requires
            self.wf(),
            other.wf(),
        ensures
            r.wf(),
            r@ == vm_sub(self@, other@),
    {
        Vec3 { x: self.x.sub(other.x), y: self.y.sub(other.y), z: self.z.sub(other.z) }
    }

    /// Component-wise negation (exact).
    pub fn neg(self) -> (r: Vec3)
        requires
            self.wf(),
        ensures
            r.wf(),
            r@ == vm_neg(self@),
    {
        Vec3 { x: self.x.neg(), y: self.y.neg(), z: self.z.neg() }
    }

    /// Scale by a fixed-point factor.
    pub fn scale(self, s: Fixed) -> (r: Vec3)
        requires
            self.wf(),
            s.wf(),
        ensures
            r.wf(),
            r@ == vm_scale(self@, s@),
    {
        Vec3 { x: self.x.mul(s), y: self.y.mul(s), z: self.z.mul(s) }
    }

    /// Component-wise product (color attenuation).
    pub fn mul_ew(self, other: Vec3) -> (r: Vec3)
        requires
            self.wf(),
            other.wf(),
        ensures
            r.wf(),
            r@ == vm_mul_ew(self@, other@),
    {
        Vec3 { x: self.x.mul(other.x), y: self.y.mul(other.y), z: self.z.mul(other.z) }
    }

    /// Divide every component by one fixed-point scalar.
    pub fn div_scalar(self, s: Fixed) -> (r: Vec3)
        requires
            self.wf(),
            s.wf(),
        ensures
            r.wf(),
            r@ == vm_div_scalar(self@, s@),
    {
        Vec3 { x: self.x.div(s), y: self.y.div(s), z: self.z.div(s) }
    }

    /// Dot product.
    pub fn dot(self, other: Vec3) -> (r: Fixed)
        requires
            self.wf(),
            other.wf(),
        ensures
            r.wf(),
            r@ == vm_dot(self@, other@),
    {
        self.x.mul(other.x).add(self.y.mul(other.y)).add(self.z.mul(other.z))
    }

    /// Cross product.
    pub fn cross(self, other: Vec3) -> (r: Vec3)
        requires
            self.wf(),
            other.wf(),
        ensures
            r.wf(),
            r@ == vm_cross(self@, other@),
    {
        Vec3 {
            x: self.y.mul(other.z).sub(self.z.mul(other.y)),
            y: self.z.mul(other.x).sub(self.x.mul(other.z)),
            z: self.x.mul(other.y).sub(self.y.mul(other.x)),
        }
    }

    /// Euclidean length (never negative).
    pub fn length(self) -> (r: Fixed)
        requires
            self.wf(),
        ensures
            r.wf(),
            r@ == vm_len(self@),
            r@ >= 0,
    {
        self.dot(self).sqrt()
    }

    /// The unit-length direction of this vector, or `None` when the
    /// length rounds to zero (degenerate directions are absorbed by the
    /// callers as "no intersection").
    pub fn normalized(self) -> (r: Option<Vec3>)
        requires
            self.wf(),
        ensures
            r is None <==> vm_len(self@) == 0,
            r matches Some(u) ==> u.wf() && u@ == vm_norm(self@),
    {
        let len = self.length();
        if len.raw == 0 {
            None
        } else {
            Some(self.div_scalar(len))
        }
    }
}

} // verus!
