//! Signed fixed-point scalars.
//!
//! Every geometric and radiometric quantity in this crate is a count of
//! `1/SCALE` units stored in an `i64`. Arithmetic saturates at
//! `±MAX_RAW`, so every operation is total and its result is pinned
//! exactly by a spec function; no operation panics or overflows.

use vstd::prelude::*;

verus! {

/// Number of raw units in one; all quantities are counts of `1/SCALE`.
pub const SCALE: i64 = 65536;

/// Largest raw magnitude a well-formed `Fixed` may hold; arithmetic
/// saturates here instead of overflowing.
pub const MAX_RAW: i64 = 0x4000_0000_0000;

/// Magnitude of an integer.
pub open spec fn mag(x: int) -> int {
    if x < 0 {
        -x
    } else {
        x
    }
}

/// Clamp an unbounded result into the representable raw range.
pub open spec fn sat(x: int) -> int {
    if x > MAX_RAW as int {
        MAX_RAW as int
    } else if x < -(MAX_RAW as int) {
        -(MAX_RAW as int)
    } else {
        x
    }
}

/// Division of `p` by `q`, truncating toward zero (the rounding the
/// executable magnitude-based division performs).
pub open spec fn div_trunc(p: int, q: int) -> int
    recommends
        q != 0,
{
    if (p < 0) != (q < 0) {
        -(mag(p) / mag(q))
    } else {
        mag(p) / mag(q)
    }
}

/// Product of two fixed-point values: wide product scaled back down,
/// truncated toward zero, saturated.
pub open spec fn fx_mul(a: int, b: int) -> int {
    sat(div_trunc(a * b, SCALE as int))
}

/// Quotient of two fixed-point values; division by zero yields zero
/// (degenerate inputs are absorbed, never propagated).
pub open spec fn fx_div(a: int, b: int) -> int {
    if b == 0 {
        0
    } else {
        sat(div_trunc(a * (SCALE as int), b))
    }
}

/// Saturating sum.
pub open spec fn fx_add(a: int, b: int) -> int {
    sat(a + b)
}

/// Saturating difference.
pub open spec fn fx_sub(a: int, b: int) -> int {
    sat(a - b)
}

/// `r` is the integer square root of `n`: the greatest integer whose
/// square does not exceed `n`.
pub open spec fn is_sqrt(n: int, r: int) -> bool {
    0 <= r && r * r <= n && n < (r + 1) * (r + 1)
}

/// The integer square root of `n` (meaningful for `n >= 0`).
pub open spec fn sqrt_floor(n: int) -> int {
    choose|r: int| #[trigger] is_sqrt(n, r)
}

/// Square root of a fixed-point value; non-positive inputs yield zero.
/// The raw result is `floor(sqrt(a * SCALE))`, which is the fixed-point
/// representation of the real square root rounded down.
pub open spec fn fx_sqrt(a: int) -> int {
    if a <= 0 {
        0
    } else {
        sqrt_floor(a * (SCALE as int))
    }
}

/// A signed fixed-point number: `raw` counts of `1/SCALE`.
#[derive(Clone, Copy, Debug, PartialEq, Eq, Structural)]
pub struct Fixed {
    pub raw: i64,
}

impl View for Fixed {
    type V = int;

    open spec fn view(&self) -> int {
        self.raw as int
    }
}

/// The integer square root exists for every `n >= 0`.
pub proof fn lemma_sqrt_exists(n: int)
    requires
        0 <= n,
    ensures
        exists|r: int| #[trigger] is_sqrt(n, r),
    decreases n,
{
    if n == 0 {
        assert(is_sqrt(0, 0));
    } else {
        lemma_sqrt_exists(n - 1);
        let r = choose|r: int| #[trigger] is_sqrt(n - 1, r);
        if (r + 1) * (r + 1) <= n {
            assert(n - 1 < (r + 1) * (r + 1));
            assert(is_sqrt(n, r + 1)) by (nonlinear_arith)
                requires
                    0 <= r,
                    (r + 1) * (r + 1) <= n,
                    n <= (r + 1) * (r + 1),
            ;
        } else {
            assert(is_sqrt(n, r));
        }
    }
}

/// Any two integer square roots of the same `n` agree, so a witness
/// pins down `sqrt_floor`.
pub proof fn lemma_sqrt_unique(n: int, r: int)
    requires
        is_sqrt(n, r),
    ensures
        sqrt_floor(n) == r,
{
    assert(exists|x: int| #[trigger] is_sqrt(n, x));
    let w = choose|x: int| #[trigger] is_sqrt(n, x);
    assert(w == r) by (nonlinear_arith)
        requires
            is_sqrt(n, r),
            is_sqrt(n, w),
    ;
}

/// Multiplying by one (raw `SCALE`) is exact on well-formed values.
pub proof fn lemma_fx_mul_one(a: int)
    requires
        -MAX_RAW <= a <= MAX_RAW,
    ensures
        fx_mul(SCALE as int, a) == a,
        fx_mul(a, SCALE as int) == a,
{
    assert(mag((SCALE as int) * a) == (SCALE as int) * mag(a)) by (nonlinear_arith);
    assert(mag(a * (SCALE as int)) == (SCALE as int) * mag(a)) by (nonlinear_arith);
    assert((SCALE as int) * mag(a) / (SCALE as int) == mag(a)) by (nonlinear_arith)
        requires
            mag(a) >= 0,
    ;
}

/// The product of two whole-unit values is exact: `m` units times `n`
/// units is `m * n` units.
pub proof fn lemma_fx_mul_units(m: int, n: int)
    requires
        0 <= m,
        0 <= n,
        m * n <= 0x4000_0000,
    ensures
        fx_mul(m * (SCALE as int), n * (SCALE as int)) == m * n * (SCALE as int),
{
    let s = SCALE as int;
    assert((m * s) * (n * s) == ((m * n) * s) * s) by (nonlinear_arith);
    assert(0 <= m * n) by (nonlinear_arith)
        requires
            0 <= m,
            0 <= n,
    ;
    assert((((m * n) * s) * s) / s == (m * n) * s) by (nonlinear_arith)
        requires
            s == 65536,
            0 <= m * n,
    ;
}

/// The square root of a whole-unit square is exact: `m * m` units has
/// root `m` units.
pub proof fn lemma_fx_sqrt_units(m: int)
    requires
        0 < m <= 0x8000,
    ensures
        fx_sqrt(m * m * (SCALE as int)) == m * (SCALE as int),
{
    let s = SCALE as int;
    assert(m * m * s > 0) by (nonlinear_arith)
        requires
            m > 0,
            s == 65536,
    ;
    assert((m * s) * (m * s) <= (m * m * s) * s) by (nonlinear_arith);
    assert((m * m * s) * s < (m * s + 1) * (m * s + 1)) by (nonlinear_arith)
        requires
            0 < m,
            s == 65536,
    ;
    assert(0 <= m * s);
    assert(is_sqrt((m * m * s) * s, m * s));
    lemma_sqrt_unique((m * m * s) * s, m * s);
}

/// A weighted pair at full weight: the first summand scaled by one,
/// the second by zero, leaves exactly the first value.
pub proof fn lemma_blend_weight_full(a: int, b: int)
    requires
        -MAX_RAW <= a <= MAX_RAW,
    ensures
        fx_add(fx_mul(a, SCALE as int), fx_mul(b, fx_sub(SCALE as int, SCALE as int))) == a,
{
    lemma_fx_mul_one(a);
    assert(b * 0 == 0) by (nonlinear_arith);
}

/// A weighted pair at zero weight: the first summand scaled by zero,
/// the second by one, leaves exactly the second value.
pub proof fn lemma_blend_weight_zero(a: int, b: int)
    requires
        -MAX_RAW <= b <= MAX_RAW,
    ensures
        fx_add(fx_mul(a, 0), fx_mul(b, fx_sub(SCALE as int, 0))) == b,
{
    lemma_fx_mul_one(b);
    assert(a * 0 == 0) by (nonlinear_arith);
}

/// Zero divided by anything is zero.
pub proof fn lemma_fx_div_zero(b: int)
    ensures
        fx_div(0, b) == 0,
{
    if b != 0 {
        assert(0int / mag(b) == 0) by (nonlinear_arith)
            requires
                mag(b) > 0,
        ;
    }
}

/// A fixed-point square root is never negative.
pub proof fn lemma_fx_sqrt_nonneg(a: int)
    ensures
        fx_sqrt(a) >= 0,
{
    if a > 0 {
        lemma_sqrt_exists(a * (SCALE as int));
        assert(is_sqrt(a * (SCALE as int), sqrt_floor(a * (SCALE as int))));
    }
}

impl Fixed {
    /// A value is well formed when its raw magnitude is within the
    /// saturation bound; every operation preserves this.
    pub open spec fn wf(self) -> bool {
        -MAX_RAW <= self.raw <= MAX_RAW
    }

    /// Build a value from a raw count of `1/SCALE` units.
    pub fn from_raw(raw: i64) -> (r: Fixed)
        requires
            -MAX_RAW <= raw <= MAX_RAW,
        ensures
            r.wf(),
            r@ == raw as int,
    {
        Fixed { raw }
    }

    /// Build the fixed-point representation of a small integer.
    pub fn from_int(n: i64) -> (r: Fixed)
        requires
            -0x4000_0000 <= n <= 0x4000_0000,
        ensures
            r.wf(),
            r@ == n * (SCALE as int),
    {
        Fixed { raw: n * SCALE }
    }

    /// Zero.
    pub fn zero() -> (r: Fixed)
        ensures
            r.wf(),
            r@ == 0,
    {
        Fixed { raw: 0 }
    }

    /// One.
    pub fn one() -> (r: Fixed)
        ensures
            r.wf(),
            r@ == SCALE as int,
    {
        Fixed { raw: SCALE }
    }

    /// Saturating sum.
    pub fn add(self, other: Fixed) -> (r: Fixed)
        requires
            self.wf(),
            other.wf(),
        ensures
            r.wf(),
            r@ == fx_add(self@, other@),
    {
        let s: i64 = self.raw + other.raw;
        let c: i64 = if s > MAX_RAW {
            MAX_RAW
        } else if s < -MAX_RAW {
            -MAX_RAW
        } else {
            s
        };
        Fixed { raw: c }
    }

    /// Saturating difference.
    pub fn sub(self, other: Fixed) -> (r: Fixed)
        requires
            self.wf(),
            other.wf(),
        ensures
            r.wf(),
            r@ == fx_sub(self@, other@),
    {
        let s: i64 = self.raw - other.raw;
        let c: i64 = if s > MAX_RAW {
            MAX_RAW
        } else if s < -MAX_RAW {
            -MAX_RAW
        } else {
            s
        };
        Fixed { raw: c }
    }

    /// Exact negation (well-formed values are symmetric around zero).
    pub fn neg(self) -> (r: Fixed)
        requires
            self.wf(),
        ensures
            r.wf(),
            r@ == -self@,
    {
        Fixed { raw: -self.raw }
    }

    /// Fixed-point product, truncated toward zero and saturated.
    pub fn mul(self, other: Fixed) -> (r: Fixed)
        requires
            self.wf(),
            other.wf(),
        ensures
            r.wf(),
            r@ == fx_mul(self@, other@),
    {
        let neg = (self.raw < 0) != (other.raw < 0);
        let ua: u64 = if self.raw < 0 {
            (-self.raw) as u64
        } else {
            self.raw as u64
        };
        let ub: u64 = if other.raw < 0 {
            (-other.raw) as u64
        } else {
            other.raw as u64
        };
        proof {
            assert(ua as int == mag(self@));
            assert(ub as int == mag(other@));
            assert(mag(self@) * mag(other@) == mag(self@ * other@)) by (nonlinear_arith);
            assert((ua as int) * (ub as int) <= 0x4000_0000_0000 * 0x4000_0000_0000)
                by (nonlinear_arith)
                requires
                    0 <= ua as int <= 0x4000_0000_0000,
                    0 <= ub as int <= 0x4000_0000_0000,
            ;
        }
        let p: u128 = (ua as u128) * (ub as u128);
        let q: u128 = p / (SCALE as u128);
        let qc: i64 = if q > MAX_RAW as u128 {
            MAX_RAW
        } else {
            q as i64
        };
        let r = if neg {
            Fixed { raw: -qc }
        } else {
            Fixed { raw: qc }
        };
        proof {
            let prod = self@ * other@;
            assert(q as int == mag(prod) / (SCALE as int));
            if neg {
                assert(prod <= 0) by (nonlinear_arith)
                    requires
                        (self@ < 0) != (other@ < 0),
                        prod == self@ * other@,
                ;
                assert(div_trunc(prod, SCALE as int) == -(mag(prod) / (SCALE as int)));
            } else {
                assert(prod >= 0) by (nonlinear_arith)
                    requires
                        (self@ < 0) == (other@ < 0),
                        prod == self@ * other@,
                ;
                assert(div_trunc(prod, SCALE as int) == mag(prod) / (SCALE as int));
            }
        }
        r
    }

    /// Fixed-point quotient, truncated toward zero and saturated;
    /// division by zero yields zero.
    pub fn div(self, other: Fixed) -> (r: Fixed)
        requires
            self.wf(),
            other.wf(),
        ensures
            r.wf(),
            r@ == fx_div(self@, other@),
    {
        if other.raw == 0 {
            return Fixed { raw: 0 };
        }
        let neg = (self.raw < 0) != (other.raw < 0);
        let ua: u64 = if self.raw < 0 {
            (-self.raw) as u64
        } else {
            self.raw as u64
        };
        let ub: u64 = if other.raw < 0 {
            (-other.raw) as u64
        } else {
            other.raw as u64
        };
        proof {
            assert(ua as int == mag(self@));
            assert(ub as int == mag(other@));
        }
        let num: u128 = (ua as u128) * (SCALE as u128);
        let q: u128 = num / (ub as u128);
        let qc: i64 = if q > MAX_RAW as u128 {
            MAX_RAW
        } else {
            q as i64
        };
        let r = if neg {
            Fixed { raw: -qc }
        } else {
            Fixed { raw: qc }
        };
        proof {
            let scaled = self@ * (SCALE as int);
            assert(mag(self@) * (SCALE as int) == mag(scaled)) by (nonlinear_arith)
                requires
                    scaled == self@ * (SCALE as int),
            ;
            assert(num as int == mag(scaled));
            assert(q as int == mag(scaled) / mag(other@));
            if neg {
                assert((scaled < 0) != (other@ < 0)) by (nonlinear_arith)
                    requires
                        (self@ < 0) != (other@ < 0),
                        other@ != 0,
                        scaled == self@ * (SCALE as int),
                ;
                assert(div_trunc(scaled, other@) == -(mag(scaled) / mag(other@)));
            } else {
                assert((scaled < 0) == (other@ < 0) || scaled == 0) by (nonlinear_arith)
                    requires
                        (self@ < 0) == (other@ < 0),
                        other@ != 0,
                        scaled == self@ * (SCALE as int),
                ;
                assert(div_trunc(scaled, other@) == mag(scaled) / mag(other@));
            }
        }
        r
    }

    /// Fixed-point square root: non-positive inputs yield zero, else
    /// `floor(sqrt(raw * SCALE))`.
    pub fn sqrt(self) -> (r: Fixed)
        requires
            self.wf(),
        ensures
            r.wf(),
            r@ == fx_sqrt(self@),
            r@ >= 0,
    {
        if self.raw <= 0 {
            return Fixed { raw: 0 };
        }
        let n: u64 = (self.raw as u64) * (SCALE as u64);
        let root: u64 = isqrt(n);
        proof {
            lemma_sqrt_unique(n as int, root as int);
            assert((root as int) * (root as int) <= n as int);
            assert(root as int <= 0x4000_0000_0000) by (nonlinear_arith)
                requires
                    (root as int) * (root as int) <= n as int,
                    n as int <= 0x4000_0000_0000 * 65536,
                    0 <= root as int,
            ;
        }
        Fixed { raw: root as i64 }
    }
}

/// Integer square root by bisection: returns the greatest `r` with
/// `r * r <= n`.
fn isqrt(n: u64) -> (r: u64)
    requires
        n <= 0x4000_0000_0000 * 65536,
    ensures
        is_sqrt(n as int, r as int),
{
    let mut lo: u64 = 0;
    let mut hi: u64 = 0x1_0000_0000;
    proof {
        assert((0x1_0000_0000 as int) * (0x1_0000_0000 as int) > n as int);
    }
    while lo + 1 < hi
        invariant
            lo < hi,
            hi <= 0x1_0000_0000,
            (lo as int) * (lo as int) <= n as int,
            (n as int) < (hi as int) * (hi as int),
        decreases hi - lo,
    {
        let mid: u64 = lo + (hi - lo) / 2;
        proof {
            assert((mid as int) * (mid as int) <= 0xFFFF_FFFF * 0xFFFF_FFFF)
                by (nonlinear_arith)
                requires
                    0 <= mid as int <= 0xFFFF_FFFF,
            ;
        }
        if mid * mid <= n {
            lo = mid;
        } else {
            hi = mid;
        }
    }
    lo
}

} // verus!
