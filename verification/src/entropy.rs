//! Entropy for the stochastic sampler.
//!
//! The only outside call in this crate: one raw draw from the
//! thread-local generator. Nothing is assumed about the value drawn;
//! every caller must hold for every possible outcome.

use vstd::prelude::*;
use crate::fixed::{Fixed, SCALE};

verus! {

/// Relies on rand::random: one value of `T` drawn from the thread-local
/// generator through the standard uniform distribution. Nothing is
/// promised of the result; the draw may differ on every call.
pub assume_specification<T>[ rand::random::<T> ]() -> (r: T)
    where
        rand::distr::StandardUniform: rand::distr::Distribution<T>,
;

/// One fixed-point value drawn from `[-1, 1]` (raw range
/// `[-SCALE, SCALE]`). The bound is all that is known of the result.
pub fn random_signed_unit() -> (r: Fixed)
    ensures
        r.wf(),
        -(SCALE as int) <= r@ <= SCALE as int,
{
    let draw: u64 = rand::random::<u64>();
    let span: u64 = (2 * SCALE + 1) as u64;
    let reduced: u64 = draw % span;
    let centered: i64 = (reduced as i64) - SCALE;
    Fixed { raw: centered }
}

} // verus!
